//! Rootless mode: which user and group the container appears to run as,
//! and the lines that map them onto the invoking host user.
use vstd::prelude::*;

use crate::text::{decimal, decimal_string, push_char, push_str};

verus! {

/// The ID that POSIX reserves as "unchanged/invalid" (`(uid_t)-1`).
pub const ID_SENTINEL: u32 = 0xffff_ffff;

/// Rootless settings: whether a user namespace is used, and the IDs the
/// container sees itself as.
pub struct RootlessConfig {
    pub enabled: bool,
    pub uid: u32,
    pub gid: u32,
}

/// Why rootless settings were refused.
#[derive(Debug, PartialEq, Eq, Structural)]
pub enum RootlessError {
    /// The inside UID is the `(uid_t)-1` sentinel.
    UidSentinel(u32),
    /// The inside GID is the `(gid_t)-1` sentinel.
    GidSentinel(u32),
}

/// An inside ID: root when none is asked for; refused when it is the sentinel.
pub open spec fn id_spec(want: Option<u32>) -> Option<u32> {
    match want {
        None => Some(0),
        Some(w) => if w != ID_SENTINEL {
            Some(w)
        } else {
            None
        },
    }
}

impl RootlessConfig {
    /// The inside UID: 0 when none is asked for, the one asked for
    /// otherwise, refused when it is the sentinel.
    pub fn validate_uid(uid: Option<u32>) -> (r: Result<u32, RootlessError>)
        ensures
            match id_spec(uid) {
                Some(u) => r == Ok::<u32, RootlessError>(u),
                None => r == Err::<u32, RootlessError>(RootlessError::UidSentinel(ID_SENTINEL)),
            },
    {
        match uid {
            None => Ok(0),
            Some(want) => if want != ID_SENTINEL {
                Ok(want)
            } else {
                Err(RootlessError::UidSentinel(want))
            },
        }
    }

    /// The inside GID, by the same rule as the UID.
    pub fn validate_gid(gid: Option<u32>) -> (r: Result<u32, RootlessError>)
        ensures
            match id_spec(gid) {
                Some(g) => r == Ok::<u32, RootlessError>(g),
                None => r == Err::<u32, RootlessError>(RootlessError::GidSentinel(ID_SENTINEL)),
            },
    {
        match gid {
            None => Ok(0),
            Some(want) => if want != ID_SENTINEL {
                Ok(want)
            } else {
                Err(RootlessError::GidSentinel(want))
            },
        }
    }

    /// Rootless settings from the command line; the UID is checked before
    /// the GID.
    pub fn new(enabled: bool, uid: Option<u32>, gid: Option<u32>) -> (r: Result<RootlessConfig, RootlessError>)
        ensures
            match (id_spec(uid), id_spec(gid)) {
                (Some(u), Some(g)) => r matches Ok(c) && c.enabled == enabled && c.uid == u && c.gid == g,
                (None, _) => r == Err::<RootlessConfig, RootlessError>(RootlessError::UidSentinel(ID_SENTINEL)),
                (Some(_), None) => r == Err::<RootlessConfig, RootlessError>(
                    RootlessError::GidSentinel(ID_SENTINEL),
                ),
            },
    {
        let uid = match Self::validate_uid(uid) {
            Ok(u) => u,
            Err(e) => {
                return Err(e);
            },
        };
        let gid = match Self::validate_gid(gid) {
            Ok(g) => g,
            Err(e) => {
                return Err(e);
            },
        };
        Ok(RootlessConfig { enabled, uid, gid })
    }
}

/// A `uid_map`/`gid_map` line mapping one inside ID onto one host ID.
pub open spec fn id_map_spec(inside: u32, host: u32) -> Seq<char> {
    decimal(inside as nat) + seq![' '] + decimal(host as nat) + seq![' ', '1', '\n']
}

/// `INSIDE HOST 1\n`: a range of one ID starting at `inside` inside the
/// namespace and at `host` outside it.
pub fn id_map_line(inside: u32, host: u32) -> (line: String)
    ensures
        line@ == id_map_spec(inside, host),
{
    let mut line = decimal_string(inside as u64);
    push_char(&mut line, ' ');
    let h = decimal_string(host as u64);
    push_str(&mut line, h.as_str());
    push_char(&mut line, ' ');
    push_char(&mut line, '1');
    push_char(&mut line, '\n');
    assert(line@ =~= id_map_spec(inside, host));
    line
}

} // verus!
