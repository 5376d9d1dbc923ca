//! What a store is asked: one admission attempt, for the pair of an identity
//! and a request type, and the keys under which the stores keep the log of a
//! pair.

use crate::window::clamped_window_start;
use vstd::prelude::*;
use vstd::string::{StrSliceExecFns, StringExecFns};

verus! {

/// An identity and a request type.
pub type Pair = (Seq<char>, Seq<char>);

/// One admission attempt.
pub struct Attempt {
    /// The identity and the request type whose window log is asked.
    pub pair: Pair,
    /// The instant of the request, which is the last instant of its window.
    pub now: u64,
    /// The first instant of the window.
    pub start: u64,
    /// The most entries that the window may hold.
    pub capacity: u32,
}

/// The attempt that a request of `identity` for `request_type` comes to at
/// `now`, under a quota of `capacity` admissions per `window_millis`
/// milliseconds.
pub open spec fn attempt_for(
    identity: Seq<char>,
    request_type: Seq<char>,
    capacity: u32,
    window_millis: u64,
    now: u64,
) -> Attempt {
    Attempt {
        pair: (identity, request_type),
        now,
        start: clamped_window_start(now, window_millis),
        capacity,
    }
}

/// The key of the log of `identity` for `request_type` on the remote
/// service: the two names with a colon between them. Two pairs can share
/// such a key, as `a`, `b:c` and `a:b`, `c` do.
pub open spec fn composite_key(identity: Seq<char>, request_type: Seq<char>) -> Seq<char> {
    identity + seq![':'] + request_type
}

/// Builds the key of the log of `identity` for `request_type` on the remote
/// service.
pub fn make_key(identity: &str, request_type: &str) -> (key: String)
    ensures
        key@ == composite_key(identity@, request_type@),
{
    let mut key = String::from_str(identity);
    key.append(":");
    key.append(request_type);
    proof {
        reveal_strlit(":");
        assert(":"@ =~= seq![':']);
    }
    key
}

/// Two request types of one identity never share a key on the remote
/// service.
pub proof fn keys_differ_by_request_type(
    identity: Seq<char>,
    request_type: Seq<char>,
    other_type: Seq<char>,
)
    requires
        request_type != other_type,
    ensures
        composite_key(identity, request_type) != composite_key(identity, other_type),
{
    let prefix = identity + seq![':'];
    let a = composite_key(identity, request_type);
    let b = composite_key(identity, other_type);
    if a == b {
        assert(a.subrange(prefix.len() as int, a.len() as int) =~= request_type);
        assert(b.subrange(prefix.len() as int, b.len() as int) =~= other_type);
    }
}

/// Two identities never share a key on the remote service for one request
/// type.
pub proof fn keys_differ_by_identity(
    identity: Seq<char>,
    other_identity: Seq<char>,
    request_type: Seq<char>,
)
    requires
        identity != other_identity,
    ensures
        composite_key(identity, request_type) != composite_key(other_identity, request_type),
{
    let a = composite_key(identity, request_type);
    let b = composite_key(other_identity, request_type);
    if a == b {
        assert(a.len() == identity.len() + 1 + request_type.len());
        assert(b.len() == other_identity.len() + 1 + request_type.len());
        assert(a.subrange(0, identity.len() as int) =~= identity);
        assert(b.subrange(0, other_identity.len() as int) =~= other_identity);
    }
}

/// As many `+` as `length` says.
pub open spec fn tally(length: nat) -> Seq<char> {
    Seq::new(length, |i: int| '+')
}

/// The key of the log of a pair in the in-process store: a `+` for each
/// character of `identity`, a `-`, then `identity` and `request_type`. The
/// tally says where the identity ends, so both names can be read back from
/// the key.
pub open spec fn pair_key(identity: Seq<char>, request_type: Seq<char>) -> Seq<char> {
    tally(identity.len()) + seq!['-'] + identity + request_type
}

/// Builds the key of the log of a pair in the in-process store.
pub fn make_pair_key(identity: &str, request_type: &str) -> (key: String)
    ensures
        key@ == pair_key(identity@, request_type@),
{
    let length = identity.unicode_len();
    let mut key = String::new();
    let mut written: usize = 0;
    proof {
        reveal_strlit("+");
        reveal_strlit("-");
        assert("+"@ =~= seq!['+']);
        assert("-"@ =~= seq!['-']);
    }
    while written < length
        invariant
            written <= length,
            key@ == tally(written as nat),
            "+"@ == seq!['+'],
        decreases length - written,
    {
        key.append("+");
        assert(tally(written as nat) + seq!['+'] =~= tally((written + 1) as nat));
        written = written + 1;
    }
    key.append("-");
    key.append(identity);
    key.append(request_type);
    key
}

/// Two different pairs never share a key in the in-process store.
pub proof fn pair_keys_differ(pair: Pair, other: Pair)
    requires
        pair != other,
    ensures
        pair_key(pair.0, pair.1) != pair_key(other.0, other.1),
{
    let a = pair_key(pair.0, pair.1);
    let b = pair_key(other.0, other.1);
    let m = pair.0.len() as int;
    let n = other.0.len() as int;
    if a == b {
        // The first `-` stands where the tally ends.
        assert(a[m] == '-' && b[n] == '-');
        if m < n {
            assert(b[m] == '+');
        }
        if n < m {
            assert(a[n] == '+');
        }
        assert(a.subrange(m + 1, 2 * m + 1) =~= pair.0);
        assert(b.subrange(n + 1, 2 * n + 1) =~= other.0);
        assert(a.subrange(2 * m + 1, a.len() as int) =~= pair.1);
        assert(b.subrange(2 * n + 1, b.len() as int) =~= other.1);
    }
}

} // verus!
