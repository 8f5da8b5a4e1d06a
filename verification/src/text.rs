//! Character-level helpers shared by the rest of the library: decimal
//! rendering and parsing of unsigned integers, splitting on a separator,
//! and building strings out of character sequences.
use vstd::prelude::*;

verus! {

broadcast use vstd::string::group_string_axioms;

/// `c` is one of the ASCII digits `0` to `9`.
pub open spec fn is_digit(c: char) -> bool {
    '0' <= c && c <= '9'
}

/// The value of an ASCII digit.
pub open spec fn digit_value(c: char) -> nat {
    (c as int - '0' as int) as nat
}

/// The ASCII digit for a value below ten.
pub open spec fn digit_char(d: nat) -> char {
    (d + '0' as int) as char
}

/// The shortest decimal rendering of `n`: no sign, no leading zeros.
pub open spec fn decimal(n: nat) -> Seq<char>
    decreases n,
{
    if n < 10 {
        seq![digit_char(n)]
    } else {
        decimal(n / 10).push(digit_char(n % 10))
    }
}

/// Every character of `s` is a digit.
pub open spec fn all_digits(s: Seq<char>) -> bool {
    forall|i: int| 0 <= i < s.len() ==> is_digit(#[trigger] s[i])
}

/// The number that a run of digits spells, most significant first.
pub open spec fn digits_value(s: Seq<char>) -> nat
    decreases s.len(),
{
    if s.len() == 0 {
        0
    } else {
        digits_value(s.drop_last()) * 10 + digit_value(s.last())
    }
}

/// The digits of an unsigned number, once an optional leading `+` is set aside.
pub open spec fn unsigned_digits(s: Seq<char>) -> Seq<char> {
    if s.len() > 0 && s[0] == '+' {
        s.drop_first()
    } else {
        s
    }
}

/// What reading `s` as a `u64` gives: an optional `+`, then at least one
/// digit and nothing else, with a value that fits in 64 bits.
pub open spec fn parse_u64_spec(s: Seq<char>) -> Option<u64> {
    let d = unsigned_digits(s);
    if d.len() > 0 && all_digits(d) && digits_value(d) <= u64::MAX {
        Some(digits_value(d) as u64)
    } else {
        None
    }
}

/// Where `c` first occurs in `s`, if it does.
pub open spec fn first_index(s: Seq<char>, c: char) -> Option<int>
    decreases s.len(),
{
    if s.len() == 0 {
        None
    } else {
        match first_index(s.drop_last(), c) {
            Some(i) => Some(i),
            None => if s.last() == c {
                Some(s.len() - 1)
            } else {
                None
            },
        }
    }
}

/// `s` cut at the first `c`: the part before it and the part after it.
pub open spec fn split_once(s: Seq<char>, c: char) -> Option<(Seq<char>, Seq<char>)> {
    match first_index(s, c) {
        Some(i) => Some((s.take(i), s.skip(i + 1))),
        None => None,
    }
}

/// `s` cut at every `c`; empty pieces are kept, so there is always one
/// piece more than there are separators.
pub open spec fn split_all(s: Seq<char>, c: char) -> Seq<Seq<char>>
    decreases s.len(),
{
    if s.len() == 0 {
        seq![Seq::<char>::empty()]
    } else {
        let pieces = split_all(s.drop_last(), c);
        if s.last() == c {
            pieces.push(Seq::<char>::empty())
        } else {
            pieces.update(pieces.len() - 1, pieces.last().push(s.last()))
        }
    }
}

/// The pieces put back together with `sep` between each two of them.
pub open spec fn join(pieces: Seq<Seq<char>>, sep: Seq<char>) -> Seq<char>
    decreases pieces.len(),
{
    if pieces.len() == 0 {
        Seq::<char>::empty()
    } else if pieces.len() == 1 {
        pieces[0]
    } else {
        join(pieces.drop_last(), sep) + sep + pieces.last()
    }
}

pub proof fn lemma_first_index(s: Seq<char>, c: char)
    ensures
        match first_index(s, c) {
            Some(i) => 0 <= i < s.len() && s[i] == c && !s.take(i).contains(c),
            None => !s.contains(c),
        },
    decreases s.len(),
{
    if s.len() > 0 {
        lemma_first_index(s.drop_last(), c);
        match first_index(s.drop_last(), c) {
            Some(i) => {
                assert(s.take(i) =~= s.drop_last().take(i));
            },
            None => {
                if s.last() == c {
                    assert(s.take(s.len() - 1) =~= s.drop_last());
                } else {
                    assert forall|j: int| 0 <= j < s.len() implies s[j] != c by {
                        if j < s.len() - 1 {
                            assert(s[j] == s.drop_last()[j]);
                        }
                    }
                }
            },
        }
    }
}

pub proof fn lemma_split_all_nonempty(s: Seq<char>, c: char)
    ensures
        split_all(s, c).len() >= 1,
    decreases s.len(),
{
    if s.len() > 0 {
        lemma_split_all_nonempty(s.drop_last(), c);
    }
}

pub proof fn lemma_digits_prefix(s: Seq<char>, i: int)
    requires
        0 <= i < s.len(),
    ensures
        digits_value(s.take(i + 1)) == digits_value(s.take(i)) * 10 + digit_value(s[i]),
{
    assert(s.take(i + 1).drop_last() =~= s.take(i));
}

/// Among runs of digits, a longer prefix never spells a smaller number.
pub proof fn lemma_digits_monotone(s: Seq<char>, i: int, j: int)
    requires
        all_digits(s),
        0 <= i <= j <= s.len(),
    ensures
        digits_value(s.take(i)) <= digits_value(s.take(j)),
    decreases j - i,
{
    if i < j {
        lemma_digits_monotone(s, i, j - 1);
        lemma_digits_prefix(s, j - 1);
        assert(is_digit(s[j - 1]));
    }
}

/// Appends one character to `s`.
/// `String::push` appends the character to the end of the string; the
/// contract says exactly that of the character sequence.
#[verifier::external_body]
pub fn push_char(s: &mut String, c: char)
    ensures
        final(s)@ == old(s)@.push(c),
{
    s.push(c)
}

/// The characters of `s`, one by one.
pub fn chars_of(s: &str) -> (v: Vec<char>)
    ensures
        v@ == s@,
{
    let n = s.unicode_len();
    let mut v: Vec<char> = Vec::new();
    let mut i: usize = 0;
    while i < n
        invariant
            n == s@.len(),
            i <= n,
            v@ == s@.take(i as int),
        decreases n - i,
    {
        let c = s.get_char(i);
        v.push(c);
        i = i + 1;
        assert(v@ =~= s@.take(i as int));
    }
    assert(s@.take(n as int) =~= s@);
    v
}

/// A string holding the characters of `v[from..to]`.
pub fn string_of(v: &Vec<char>, from: usize, to: usize) -> (s: String)
    requires
        from <= to <= v.len(),
    ensures
        s@ == v@.subrange(from as int, to as int),
{
    let mut s = String::new();
    let mut i: usize = from;
    while i < to
        invariant
            from <= i <= to <= v.len(),
            s@ == v@.subrange(from as int, i as int),
        decreases to - i,
    {
        push_char(&mut s, v[i]);
        i = i + 1;
        assert(s@ =~= v@.subrange(from as int, i as int));
    }
    s
}

/// A copy of `s` as an owned string.
pub fn owned(s: &str) -> (r: String)
    ensures
        r@ == s@,
{
    let v = chars_of(s);
    string_of(&v, 0, v.len())
}

/// The character sequences of a list of strings.
pub open spec fn strings_view(v: Seq<String>) -> Seq<Seq<char>> {
    v.map_values(|s: String| s@)
}

/// A copy of a list of strings.
pub fn copy_strings(v: &[String]) -> (r: Vec<String>)
    ensures
        strings_view(r@) == strings_view(v@),
{
    let mut r: Vec<String> = Vec::new();
    let mut i: usize = 0;
    while i < v.len()
        invariant
            i <= v.len(),
            strings_view(r@) == strings_view(v@.take(i as int)),
        decreases v.len() - i,
    {
        let c = v[i].clone();
        let ghost before = r@;
        r.push(c);
        assert(strings_view(r@) =~= strings_view(before).push(c@));
        assert(strings_view(v@.take(i + 1)) =~= strings_view(v@.take(i as int)).push(c@));
        i = i + 1;
    }
    assert(v@.take(v.len() as int) =~= v@);
    r
}

/// Appends every character of `t` to `s`.
pub fn push_str(s: &mut String, t: &str)
    ensures
        final(s)@ == old(s)@ + t@,
{
    let v = chars_of(t);
    let ghost start = s@;
    let mut i: usize = 0;
    while i < v.len()
        invariant
            i <= v.len(),
            v@ == t@,
            s@ == start + v@.take(i as int),
        decreases v.len() - i,
    {
        push_char(s, v[i]);
        i = i + 1;
        assert(s@ =~= start + v@.take(i as int));
    }
    assert(v@.take(v.len() as int) =~= v@);
}

/// Whether `a` and `b` hold the same characters.
pub fn str_eq(a: &str, b: &str) -> (r: bool)
    ensures
        r == (a@ == b@),
{
    let x = chars_of(a);
    let y = chars_of(b);
    if x.len() != y.len() {
        return false;
    }
    let mut i: usize = 0;
    while i < x.len()
        invariant
            x@ == a@,
            y@ == b@,
            x.len() == y.len(),
            i <= x.len(),
            forall|j: int| 0 <= j < i ==> x@[j] == y@[j],
        decreases x.len() - i,
    {
        if x[i] != y[i] {
            assert(x@[i as int] != y@[i as int]);
            return false;
        }
        i = i + 1;
    }
    assert(x@ =~= y@);
    true
}

fn digit_to_char(d: u64) -> (c: char)
    requires
        d < 10,
    ensures
        c == digit_char(d as nat),
{
    if d == 0 {
        '0'
    } else if d == 1 {
        '1'
    } else if d == 2 {
        '2'
    } else if d == 3 {
        '3'
    } else if d == 4 {
        '4'
    } else if d == 5 {
        '5'
    } else if d == 6 {
        '6'
    } else if d == 7 {
        '7'
    } else if d == 8 {
        '8'
    } else {
        '9'
    }
}

/// The decimal rendering of `n`, as `u64`'s `to_string` writes it.
pub fn decimal_string(n: u64) -> (s: String)
    ensures
        s@ == decimal(n as nat),
{
    let mut s = String::new();
    if n == 0 {
        push_char(&mut s, digit_to_char(0));
        assert(s@ =~= decimal(0));
        return s;
    }
    // Digits come out least significant first; `rev` collects them so.
    let mut rev: Vec<char> = Vec::new();
    let mut cur: u64 = n;
    assert(rev@.reverse() =~= Seq::<char>::empty());
    while cur > 0
        invariant
            n > 0,
            decimal(n as nat) == (if cur == 0 {
                Seq::<char>::empty()
            } else {
                decimal(cur as nat)
            }) + rev@.reverse(),
        decreases cur,
    {
        let d = cur % 10;
        let ghost before = rev@;
        rev.push(digit_to_char(d));
        proof {
            assert(rev@.reverse() =~= seq![digit_char(d as nat)] + before.reverse());
            if cur >= 10 {
                assert(decimal(cur as nat) == decimal((cur / 10) as nat).push(
                    digit_char((cur % 10) as nat),
                ));
            } else {
                assert(decimal(cur as nat) =~= Seq::<char>::empty() + seq![
                    digit_char(d as nat),
                ]);
            }
        }
        cur = cur / 10;
    }
    assert(decimal(n as nat) =~= rev@.reverse());
    let mut i: usize = rev.len();
    while i > 0
        invariant
            i <= rev.len(),
            s@ == rev@.reverse().take((rev.len() - i) as int),
        decreases i,
    {
        i = i - 1;
        push_char(&mut s, rev[i]);
        assert(s@ =~= rev@.reverse().take((rev.len() - i) as int));
    }
    assert(rev@.reverse().take(rev.len() as int) =~= rev@.reverse());
    s
}

/// Reads `s` as a `u64` the way `str::parse::<u64>` does: an optional
/// leading `+`, then one or more ASCII digits, with no overflow.
pub fn parse_u64(s: &str) -> (r: Option<u64>)
    ensures
        r == parse_u64_spec(s@),
{
    let v = chars_of(s);
    let start: usize = if v.len() > 0 && v[0] == '+' {
        1
    } else {
        0
    };
    let ghost d = unsigned_digits(s@);
    assert(d =~= v@.skip(start as int));
    if v.len() == start {
        return None;
    }
    let mut acc: u64 = 0;
    let mut i: usize = start;
    while i < v.len()
        invariant
            start <= i <= v.len(),
            v@ == s@,
            d == unsigned_digits(s@),
            d =~= v@.skip(start as int),
            all_digits(d.take(i - start)),
            acc as nat == digits_value(d.take(i - start)),
        decreases v.len() - i,
    {
        let c = v[i];
        if !('0' <= c && c <= '9') {
            assert(d[i - start] == c);
            return None;
        }
        let dv = (c as u32 - '0' as u32) as u64;
        proof {
            lemma_digits_prefix(d, i - start);
            assert(d.take(i - start + 1).drop_last() =~= d.take(i - start));
        }
        if acc > (u64::MAX - dv) / 10 {
            proof {
                assert(digits_value(d.take(i - start + 1)) > u64::MAX) by (nonlinear_arith)
                    requires
                        acc > (u64::MAX - dv) / 10,
                        digits_value(d.take(i - start + 1)) == acc * 10 + dv,
                ;
                if all_digits(d) {
                    lemma_digits_monotone(d, i - start + 1, d.len() as int);
                    assert(d.take(d.len() as int) =~= d);
                }
            }
            return None;
        }
        acc = acc * 10 + dv;
        i = i + 1;
        assert(all_digits(d.take(i - start)));
    }
    assert(d.take(i - start) =~= d);
    Some(acc)
}

/// Cuts `v` at the first `c`, giving the index of that `c` if there is one.
pub fn find_char(v: &Vec<char>, c: char) -> (r: Option<usize>)
    ensures
        match r {
            Some(i) => first_index(v@, c) == Some(i as int),
            None => first_index(v@, c) is None,
        },
{
    let mut i: usize = 0;
    while i < v.len()
        invariant
            i <= v.len(),
            first_index(v@.take(i as int), c) is None,
        decreases v.len() - i,
    {
        assert(v@.take(i as int + 1).drop_last() =~= v@.take(i as int));
        if v[i] == c {
            proof {
                lemma_first_index_prefix(v@, c, i as int + 1);
            }
            return Some(i);
        }
        i = i + 1;
    }
    assert(v@.take(v.len() as int) =~= v@);
    None
}

/// Cutting `a`, `c`, `b` at the first `c` gives back `a` and `b` when `a`
/// holds no `c`.
pub proof fn lemma_split_once_at(a: Seq<char>, b: Seq<char>, c: char)
    requires
        !a.contains(c),
    ensures
        split_once(a + seq![c] + b, c) == Some((a, b)),
{
    let s = a + seq![c] + b;
    lemma_first_index(s, c);
    assert(s[a.len() as int] == c);
    match first_index(s, c) {
        Some(i) => {
            if i < a.len() {
                assert(a[i] == s[i]);
            } else if i > a.len() {
                assert(s.take(i)[a.len() as int] == c);
            }
            assert(s.take(i) =~= a);
            assert(s.skip(i + 1) =~= b);
        },
        None => {},
    }
}

/// A decimal rendering holds no character but digits.
pub proof fn lemma_decimal_has_no(n: nat, c: char)
    requires
        !is_digit(c),
    ensures
        !decimal(n).contains(c),
{
    lemma_decimal_digits(n);
}

/// Once `c` occurs in a prefix, a longer sequence finds it at the same place.
pub proof fn lemma_first_index_prefix(s: Seq<char>, c: char, k: int)
    requires
        0 <= k <= s.len(),
        first_index(s.take(k), c) is Some,
    ensures
        first_index(s, c) == first_index(s.take(k), c),
    decreases s.len() - k,
{
    if k < s.len() {
        assert(s.take(k + 1).drop_last() =~= s.take(k));
        lemma_first_index_prefix(s, c, k + 1);
    } else {
        assert(s.take(k) =~= s);
    }
}

/// Splits `v` at every `c`, keeping empty pieces.
pub fn split_chars(v: &Vec<char>, c: char) -> (pieces: Vec<String>)
    ensures
        pieces@.map_values(|p: String| p@) == split_all(v@, c),
{
    let mut pieces: Vec<String> = Vec::new();
    let mut cur = String::new();
    let mut i: usize = 0;
    while i < v.len()
        invariant
            i <= v.len(),
            pieces@.map_values(|p: String| p@).push(cur@) == split_all(v@.take(i as int), c),
        decreases v.len() - i,
    {
        let ghost prev = v@.take(i as int);
        assert(v@.take(i as int + 1).drop_last() =~= prev);
        let ch = v[i];
        if ch == c {
            let done = cur;
            pieces.push(done);
            cur = String::new();
            assert(pieces@.map_values(|p: String| p@).push(cur@) =~= split_all(
                v@.take(i as int + 1),
                c,
            ));
        } else {
            push_char(&mut cur, ch);
            proof {
                lemma_split_all_nonempty(prev, c);
                assert(pieces@.map_values(|p: String| p@).push(cur@) =~= split_all(
                    v@.take(i as int + 1),
                    c,
                ));
            }
        }
        i = i + 1;
    }
    assert(v@.take(v.len() as int) =~= v@);
    let ghost before = pieces@.map_values(|p: String| p@);
    pieces.push(cur);
    assert(pieces@.map_values(|p: String| p@) =~= before.push(cur@));
    pieces
}

proof fn lemma_digit_char(d: nat)
    requires
        d < 10,
    ensures
        is_digit(digit_char(d)),
        digit_value(digit_char(d)) == d,
{
}

/// A decimal rendering is a non-empty run of digits spelling the number.
pub proof fn lemma_decimal_digits(n: nat)
    ensures
        decimal(n).len() > 0,
        all_digits(decimal(n)),
        digits_value(decimal(n)) == n,
    decreases n,
{
    if n < 10 {
        lemma_digit_char(n);
        assert(decimal(n).drop_last() =~= Seq::<char>::empty());
        assert(digits_value(Seq::<char>::empty()) == 0);
        assert(decimal(n).last() == digit_char(n));
    } else {
        lemma_decimal_digits(n / 10);
        lemma_digit_char(n % 10);
        let d = decimal(n);
        assert(d.drop_last() =~= decimal(n / 10));
        assert forall|i: int| 0 <= i < d.len() implies is_digit(#[trigger] d[i]) by {
            if i < d.len() - 1 {
                assert(d[i] == decimal(n / 10)[i]);
            }
        }
    }
}

/// Reading back what `decimal_string` writes gives the number again.
pub proof fn lemma_decimal_round_trip(n: u64)
    ensures
        parse_u64_spec(decimal(n as nat)) == Some(n),
{
    lemma_decimal_digits(n as nat);
    let d = decimal(n as nat);
    assert(is_digit(d[0]));
    assert(unsigned_digits(d) == d);
}

/// Different numbers have different decimal renderings.
pub proof fn lemma_decimal_injective(a: nat, b: nat)
    requires
        decimal(a) == decimal(b),
    ensures
        a == b,
{
    lemma_decimal_digits(a);
    lemma_decimal_digits(b);
}

/// Putting the pieces of a split back together with the separator gives
/// the text it was cut from, and no piece holds the separator.
pub proof fn lemma_split_join(s: Seq<char>, c: char)
    ensures
        join(split_all(s, c), seq![c]) == s,
        forall|i: int| 0 <= i < split_all(s, c).len() ==> !(#[trigger] split_all(s, c)[i]).contains(c),
    decreases s.len(),
{
    lemma_split_all_nonempty(s, c);
    if s.len() > 0 {
        let rest = s.drop_last();
        let x = s.last();
        let p = split_all(rest, c);
        lemma_split_join(rest, c);
        lemma_split_all_nonempty(rest, c);
        assert(s =~= rest.push(x));
        if x == c {
            let q = p.push(Seq::<char>::empty());
            assert(q.drop_last() =~= p);
            assert(join(q, seq![c]) =~= rest + seq![c] + Seq::<char>::empty());
            assert forall|i: int| 0 <= i < q.len() implies !(#[trigger] q[i]).contains(c) by {
                if i < p.len() {
                    assert(q[i] == p[i]);
                }
            }
        } else {
            let q = p.update(p.len() - 1, p.last().push(x));
            assert(p.last().push(x).drop_last() =~= p.last());
            lemma_join_last(p, p.last().push(x), seq![c]);
            assert(join(q, seq![c]) =~= join(p, seq![c]).push(x));
            assert forall|i: int| 0 <= i < q.len() implies !(#[trigger] q[i]).contains(c) by {
                if i < p.len() - 1 {
                    assert(q[i] == p[i]);
                } else {
                    let l = p.last();
                    assert(!l.contains(c));
                    if l.push(x).contains(c) {
                        let k = choose|k: int| 0 <= k < l.push(x).len() && l.push(x)[k] == c;
                        if k < l.len() {
                            assert(l[k] == c);
                        }
                    }
                }
            }
        }
    }
}

/// `s` with every `c` replaced by `d`.
pub open spec fn replace_char(s: Seq<char>, c: char, d: char) -> Seq<char> {
    s.map_values(|x: char| if x == c { d } else { x })
}

/// Joining the pieces of a split with another separator replaces each
/// separator by it.
pub proof fn lemma_split_replace(s: Seq<char>, c: char, d: char)
    ensures
        join(split_all(s, c), seq![d]) == replace_char(s, c, d),
    decreases s.len(),
{
    lemma_split_all_nonempty(s, c);
    if s.len() == 0 {
        assert(replace_char(s, c, d) =~= Seq::<char>::empty());
    } else {
        let rest = s.drop_last();
        let x = s.last();
        let p = split_all(rest, c);
        lemma_split_replace(rest, c, d);
        lemma_split_all_nonempty(rest, c);
        assert(replace_char(s, c, d) =~= replace_char(rest, c, d).push(if x == c { d } else { x }));
        if x == c {
            let q = p.push(Seq::<char>::empty());
            assert(q.drop_last() =~= p);
            assert(join(q, seq![d]) =~= join(p, seq![d]) + seq![d] + Seq::<char>::empty());
        } else {
            assert(p.last().push(x).drop_last() =~= p.last());
            lemma_join_last(p, p.last().push(x), seq![d]);
        }
    }
}

/// Replacing the last piece by one with a character more adds that
/// character at the end of the join.
proof fn lemma_join_last(p: Seq<Seq<char>>, last: Seq<char>, sep: Seq<char>)
    requires
        p.len() > 0,
        last.len() == p.last().len() + 1,
        last.drop_last() == p.last(),
    ensures
        join(p.update(p.len() - 1, last), sep) == join(p, sep).push(last.last()),
{
    let q = p.update(p.len() - 1, last);
    assert(q.drop_last() =~= p.drop_last());
    assert(last =~= p.last().push(last.last()));
    if p.len() == 1 {
    } else {
        assert(join(q, sep) =~= join(p.drop_last(), sep) + sep + last);
        assert(join(p, sep) =~= join(p.drop_last(), sep) + sep + p.last());
    }
}

/// Unicode white space, the characters `char::is_whitespace` accepts.
pub open spec fn is_whitespace_char(c: char) -> bool {
    ('\u{9}' <= c && c <= '\u{d}') || c == ' ' || c == '\u{85}' || c == '\u{a0}' || c == '\u{1680}'
        || ('\u{2000}' <= c && c <= '\u{200a}') || c == '\u{2028}' || c == '\u{2029}' || c == '\u{202f}'
        || c == '\u{205f}' || c == '\u{3000}'
}

/// Whether `c` is white space.
pub fn is_whitespace(c: char) -> (r: bool)
    ensures
        r == is_whitespace_char(c),
{
    ('\u{9}' <= c && c <= '\u{d}') || c == ' ' || c == '\u{85}' || c == '\u{a0}' || c == '\u{1680}'
        || ('\u{2000}' <= c && c <= '\u{200a}') || c == '\u{2028}' || c == '\u{2029}' || c == '\u{202f}'
        || c == '\u{205f}' || c == '\u{3000}'
}

/// Reading `s` left to right: the words finished so far, and the word
/// being read (empty between words).
pub open spec fn words_scan(s: Seq<char>) -> (Seq<Seq<char>>, Seq<char>)
    decreases s.len(),
{
    if s.len() == 0 {
        (Seq::<Seq<char>>::empty(), Seq::<char>::empty())
    } else {
        let (done, cur) = words_scan(s.drop_last());
        if is_whitespace_char(s.last()) {
            if cur.len() > 0 {
                (done.push(cur), Seq::<char>::empty())
            } else {
                (done, cur)
            }
        } else {
            (done, cur.push(s.last()))
        }
    }
}

/// The maximal runs of non-white-space characters of `s`, in order.
pub open spec fn words(s: Seq<char>) -> Seq<Seq<char>> {
    let (done, cur) = words_scan(s);
    if cur.len() > 0 {
        done.push(cur)
    } else {
        done
    }
}

/// The words of `s`, as `str::split_whitespace` gives them.
pub fn split_words(s: &str) -> (r: Vec<String>)
    ensures
        r@.map_values(|w: String| w@) == words(s@),
{
    let v = chars_of(s);
    let mut done: Vec<String> = Vec::new();
    let mut cur = String::new();
    let mut i: usize = 0;
    while i < v.len()
        invariant
            i <= v.len(),
            v@ == s@,
            words_scan(v@.take(i as int)) == (done@.map_values(|w: String| w@), cur@),
        decreases v.len() - i,
    {
        assert(v@.take(i + 1).drop_last() =~= v@.take(i as int));
        let c = v[i];
        if is_whitespace(c) {
            if cur.as_str().unicode_len() > 0 {
                let ghost before = done@.map_values(|w: String| w@);
                let ghost word = cur@;
                let w = cur;
                done.push(w);
                cur = String::new();
                assert(done@.map_values(|w: String| w@) =~= before.push(word));
            }
        } else {
            push_char(&mut cur, c);
        }
        i = i + 1;
    }
    assert(v@.take(i as int) =~= v@);
    if cur.as_str().unicode_len() > 0 {
        let ghost before = done@.map_values(|w: String| w@);
        let ghost word = cur@;
        done.push(cur);
        assert(done@.map_values(|w: String| w@) =~= before.push(word));
    }
    done
}

} // verus!
