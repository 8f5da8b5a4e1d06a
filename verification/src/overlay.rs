//! Overlay root filesystems: the order image layers are stacked in, and
//! the strings the overlayfs mount is made with.
use vstd::prelude::*;

use crate::text::{chars_of, decimal, decimal_string, join, owned, push_char, push_str};

verus! {

broadcast use vstd::seq_lib::group_to_multiset_ensures;

/// The prefix of a run's scratch directory under the temporary directory.
pub const OVERLAY_PREFIX: &'static str = "boxed-overlay-";

/// Why the overlay could not be set up.
#[derive(Debug, PartialEq, Eq, Structural)]
pub enum OverlayError {
    /// The image directory has no layer subdirectory.
    NoLayers,
}

/// `a` sorts at or before `b`, comparing character by character and a
/// prefix before anything longer (the order `Ord` gives paths and strings).
pub open spec fn lex_le(a: Seq<char>, b: Seq<char>) -> bool
    decreases a.len(),
{
    if a.len() == 0 {
        true
    } else if b.len() == 0 {
        false
    } else if a[0] != b[0] {
        a[0] < b[0]
    } else {
        lex_le(a.drop_first(), b.drop_first())
    }
}

/// Any two sequences are ordered one way or the other.
pub proof fn lemma_lex_total(a: Seq<char>, b: Seq<char>)
    ensures
        lex_le(a, b) || lex_le(b, a),
    decreases a.len(),
{
    if a.len() > 0 && b.len() > 0 && a[0] == b[0] {
        lemma_lex_total(a.drop_first(), b.drop_first());
    }
}

/// The order is transitive.
pub proof fn lemma_lex_transitive(a: Seq<char>, b: Seq<char>, c: Seq<char>)
    requires
        lex_le(a, b),
        lex_le(b, c),
    ensures
        lex_le(a, c),
    decreases a.len(),
{
    if a.len() > 0 && a[0] == b[0] && b[0] == c[0] {
        lemma_lex_transitive(a.drop_first(), b.drop_first(), c.drop_first());
    }
}

/// Sequences ordered both ways are equal.
pub proof fn lemma_lex_antisymmetric(a: Seq<char>, b: Seq<char>)
    requires
        lex_le(a, b),
        lex_le(b, a),
    ensures
        a == b,
    decreases a.len(),
{
    if a.len() > 0 {
        lemma_lex_antisymmetric(a.drop_first(), b.drop_first());
        assert(a =~= seq![a[0]] + a.drop_first());
        assert(b =~= seq![b[0]] + b.drop_first());
    } else {
        assert(b.len() == 0);
        assert(a =~= b);
    }
}

/// Whether `a` sorts at or before `b`.
pub fn lex_le_exec(a: &str, b: &str) -> (r: bool)
    ensures
        r == lex_le(a@, b@),
{
    let x = chars_of(a);
    let y = chars_of(b);
    let mut i: usize = 0;
    assert(x@.skip(0) =~= x@);
    assert(y@.skip(0) =~= y@);
    while i < x.len() && i < y.len()
        invariant
            i <= x.len(),
            i <= y.len(),
            x@ == a@,
            y@ == b@,
            lex_le(a@, b@) == lex_le(x@.skip(i as int), y@.skip(i as int)),
        decreases x.len() - i,
    {
        assert(x@.skip(i as int)[0] == x@[i as int]);
        assert(y@.skip(i as int)[0] == y@[i as int]);
        if x[i] != y[i] {
            return x[i] < y[i];
        }
        assert(x@.skip(i as int).drop_first() =~= x@.skip(i + 1));
        assert(y@.skip(i as int).drop_first() =~= y@.skip(i + 1));
        i = i + 1;
    }
    assert(x@.skip(i as int).len() == x.len() - i);
    i == x.len()
}

/// The layers are in descending order: each sorts at or after every later one.
pub open spec fn sorted_descending(v: Seq<String>) -> bool {
    forall|i: int, j: int| 0 <= i < j < v.len() ==> lex_le((#[trigger] v[j])@, (#[trigger] v[i])@)
}

/// Orders the layer directories for `lowerdir`, which lists the topmost
/// layer first: names sort ascending from the base layer up, so the
/// result is the same paths in descending order. An image without layers
/// is refused.
pub fn discover_lower_layers(layers: Vec<String>) -> (r: Result<Vec<String>, OverlayError>)
    ensures
        layers@.len() == 0 ==> r == Err::<Vec<String>, OverlayError>(OverlayError::NoLayers),
        layers@.len() > 0 ==> (r matches Ok(sorted) && sorted@.to_multiset() == layers@.to_multiset()
            && sorted_descending(sorted@)),
{
    if layers.len() == 0 {
        return Err(OverlayError::NoLayers);
    }
    let ghost input = layers@;
    let mut sorted: Vec<String> = Vec::new();
    let mut rest = layers;
    // Takes layers from the back of `rest`; `taken` is what has moved over.
    let ghost mut taken: Seq<String> = Seq::empty();
    assert(input =~= rest@ + taken);
    while rest.len() > 0
        invariant
            input == rest@ + taken,
            sorted@.to_multiset() == taken.to_multiset(),
            sorted_descending(sorted@),
        decreases rest.len(),
    {
        let ghost before_rest = rest@;
        let x = rest.pop().unwrap();
        proof {
            assert(before_rest == rest@.push(x));
            assert(input =~= rest@ + taken.insert(0, x));
            assert(taken.insert(0, x).to_multiset() == taken.to_multiset().insert(x));
            taken = taken.insert(0, x);
        }
        // The first place whose layer sorts at or before `x`.
        let mut p: usize = 0;
        while p < sorted.len() && !lex_le_exec(sorted[p].as_str(), x.as_str())
            invariant
                p <= sorted.len(),
                sorted_descending(sorted@),
                forall|k: int| 0 <= k < p ==> !lex_le((#[trigger] sorted@[k])@, x@),
            decreases sorted.len() - p,
        {
            p = p + 1;
        }
        let ghost old_sorted = sorted@;
        proof {
            assert forall|k: int| 0 <= k < p implies lex_le(x@, (#[trigger] old_sorted[k])@) by {
                lemma_lex_total(old_sorted[k]@, x@);
            }
            assert forall|k: int| p <= k < old_sorted.len() implies lex_le((#[trigger] old_sorted[k])@, x@) by {
                if k > p {
                    lemma_lex_transitive(old_sorted[k]@, old_sorted[p as int]@, x@);
                }
            }
        }
        sorted.insert(p, x);
        proof {
            let s = sorted@;
            assert(s == old_sorted.insert(p as int, x));
            assert forall|i: int, j: int| 0 <= i < j < s.len() implies lex_le((#[trigger] s[j])@, (#[trigger] s[i])@) by {
                if j < p {
                } else if j == p {
                    assert(s[i] == old_sorted[i]);
                } else if i < p {
                    assert(s[j] == old_sorted[j - 1]);
                    lemma_lex_transitive(old_sorted[j - 1]@, x@, old_sorted[i]@);
                } else if i == p {
                    assert(s[j] == old_sorted[j - 1]);
                } else {
                    assert(s[j] == old_sorted[j - 1]);
                    assert(s[i] == old_sorted[i - 1]);
                }
            }
        }
    }
    assert(input =~= taken);
    Ok(sorted)
}

/// The layers joined with `:`, as `lowerdir` lists them.
pub open spec fn lowerdir_spec(layers: Seq<String>) -> Seq<char> {
    join(layers.map_values(|l: String| l@), seq![':'])
}

/// The `lowerdir` value: the layer paths joined with `:`.
pub fn lowerdir_string(layers: &[String]) -> (s: String)
    ensures
        s@ == lowerdir_spec(layers@),
{
    let ghost pieces = layers@.map_values(|l: String| l@);
    let mut s = String::new();
    let mut i: usize = 0;
    while i < layers.len()
        invariant
            i <= layers.len(),
            pieces == layers@.map_values(|l: String| l@),
            s@ == join(pieces.take(i as int), seq![':']),
        decreases layers.len() - i,
    {
        let ghost before = s@;
        if i > 0 {
            push_char(&mut s, ':');
        }
        push_str(&mut s, layers[i].as_str());
        proof {
            assert(pieces.take(i + 1).drop_last() =~= pieces.take(i as int));
            if i == 0 {
                assert(s@ =~= pieces[0]);
            } else {
                assert(s@ =~= before + seq![':'] + pieces[i as int]);
            }
        }
        i = i + 1;
    }
    assert(pieces.take(i as int) =~= pieces);
    s
}

/// The data of the overlayfs mount.
pub open spec fn mount_data_spec(lower: Seq<char>, upper: Seq<char>, work: Seq<char>) -> Seq<char> {
    "lowerdir="@ + lower + ",upperdir="@ + upper + ",workdir="@ + work
}

/// `lowerdir=LOWER,upperdir=UPPER,workdir=WORK`.
pub fn mount_data(lower: &str, upper: &str, work: &str) -> (s: String)
    ensures
        s@ == mount_data_spec(lower@, upper@, work@),
{
    let mut s = owned("lowerdir=");
    push_str(&mut s, lower);
    push_str(&mut s, ",upperdir=");
    push_str(&mut s, upper);
    push_str(&mut s, ",workdir=");
    push_str(&mut s, work);
    s
}

/// The name of a run's scratch directory.
pub open spec fn overlay_dir_name_spec(id: u32) -> Seq<char> {
    OVERLAY_PREFIX@ + decimal(id as nat)
}

/// `boxed-overlay-ID`, the scratch directory of run `id`.
pub fn overlay_dir_name(id: u32) -> (s: String)
    ensures
        s@ == overlay_dir_name_spec(id),
{
    let mut s = owned(OVERLAY_PREFIX);
    let n = decimal_string(id as u64);
    push_str(&mut s, n.as_str());
    s
}

/// Runs with different ids get different scratch directories, and the
/// name depends on the id alone, so teardown finds what setup made.
pub proof fn lemma_overlay_dir_unique(a: u32, b: u32)
    requires
        a != b,
    ensures
        overlay_dir_name_spec(a) != overlay_dir_name_spec(b),
{
    let prefix = OVERLAY_PREFIX@;
    if overlay_dir_name_spec(a) == overlay_dir_name_spec(b) {
        assert(overlay_dir_name_spec(a).skip(prefix.len() as int) =~= decimal(a as nat));
        assert(overlay_dir_name_spec(b).skip(prefix.len() as int) =~= decimal(b as nat));
        crate::text::lemma_decimal_injective(a as nat, b as nat);
    }
}

} // verus!
