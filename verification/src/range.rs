//! Key ranges over byte-string keys: two independently optional endpoints,
//! each with its own inclusive/exclusive flag, an absent endpoint meaning
//! unbounded on that side.

use vstd::prelude::*;
use crate::order::lex_le;
use crate::order::lex_lt;
use crate::order::key_le;
use crate::order::key_lt;
use crate::order::lemma_lex_le_iff;
use crate::order::lemma_lex_lt_irrefl;

verus! {

/// One side of a key range.
pub enum KeyBound {
    Unbounded,
    Included(Vec<u8>),
    Excluded(Vec<u8>),
}

/// A key interval with independently inclusive, exclusive or unbounded ends.
pub struct BoundRange {
    pub start: KeyBound,
    pub end: KeyBound,
}

/// The bound an optional endpoint with an inclusivity flag denotes: absent
/// means unbounded on that side, whatever the flag says.
pub open spec fn spec_bound(endpoint: Option<Vec<u8>>, inclusive: bool) -> KeyBound {
    match endpoint {
        Option::None => KeyBound::Unbounded,
        Option::Some(k) => if inclusive {
            KeyBound::Included(k)
        } else {
            KeyBound::Excluded(k)
        },
    }
}

/// Whether `k` satisfies the lower side of a range.
pub open spec fn above_start(start: KeyBound, k: Seq<u8>) -> bool {
    match start {
        KeyBound::Unbounded => true,
        KeyBound::Included(s) => lex_le(s@, k),
        KeyBound::Excluded(s) => lex_lt(s@, k),
    }
}

/// Whether `k` satisfies the upper side of a range.
pub open spec fn below_end(end: KeyBound, k: Seq<u8>) -> bool {
    match end {
        KeyBound::Unbounded => true,
        KeyBound::Included(e) => lex_le(k, e@),
        KeyBound::Excluded(e) => lex_lt(k, e@),
    }
}

/// Interval membership: both sides hold.
pub open spec fn in_range(r: BoundRange, k: Seq<u8>) -> bool {
    above_start(r.start, k) && below_end(r.end, k)
}

/// Builds the range denoted by two optional endpoints and their flags:
/// a present `start` becomes `Included(start)` when `include_start` and
/// `Excluded(start)` otherwise, and likewise for `end`; an absent endpoint
/// leaves that side unbounded.
pub fn to_bound_range(
    start: Option<Vec<u8>>,
    end: Option<Vec<u8>>,
    include_start: bool,
    include_end: bool,
) -> (r: BoundRange)
    ensures
        r.start == spec_bound(start, include_start),
        r.end == spec_bound(end, include_end),
{
    let start_bound = if let Some(s) = start {
        if include_start {
            KeyBound::Included(s)
        } else {
            KeyBound::Excluded(s)
        }
    } else {
        KeyBound::Unbounded
    };
    let end_bound = if let Some(e) = end {
        if include_end {
            KeyBound::Included(e)
        } else {
            KeyBound::Excluded(e)
        }
    } else {
        KeyBound::Unbounded
    };
    BoundRange { start: start_bound, end: end_bound }
}

/// Decides membership of a key in a range.
pub fn range_contains(r: &BoundRange, key: &Vec<u8>) -> (b: bool)
    ensures
        b == in_range(*r, key@),
{
    let lower_ok = match &r.start {
        KeyBound::Unbounded => true,
        KeyBound::Included(s) => key_le(s, key),
        KeyBound::Excluded(s) => key_lt(s, key),
    };
    if !lower_ok {
        return false;
    }
    match &r.end {
        KeyBound::Unbounded => true,
        KeyBound::Included(e) => key_le(key, e),
        KeyBound::Excluded(e) => key_lt(key, e),
    }
}

/// With both endpoints present, membership in the built range is exactly the
/// interval test, each flag choosing the strict or the non-strict comparison
/// for its own side, independently of the other.
pub proof fn lemma_range_membership(
    start: Vec<u8>,
    end: Vec<u8>,
    include_start: bool,
    include_end: bool,
    k: Seq<u8>,
)
    ensures
        in_range(
            BoundRange {
                start: spec_bound(Some(start), include_start),
                end: spec_bound(Some(end), include_end),
            },
            k,
        ) == ((if include_start {
            lex_le(start@, k)
        } else {
            lex_lt(start@, k)
        }) && (if include_end {
            lex_le(k, end@)
        } else {
            lex_lt(k, end@)
        })),
{
}

/// An endpoint's own value is in the range exactly when its flag says
/// "inclusive": flipping the flag flips that boundary's acceptance and
/// touches nothing else.
pub proof fn lemma_flag_governs_boundary(endpoint: Vec<u8>, inclusive: bool)
    ensures
        above_start(spec_bound(Some(endpoint), inclusive), endpoint@) == inclusive,
        below_end(spec_bound(Some(endpoint), inclusive), endpoint@) == inclusive,
{
    lemma_lex_le_iff(endpoint@, endpoint@);
    lemma_lex_lt_irrefl(endpoint@);
}

/// An absent endpoint yields an unbounded side that accepts every key,
/// regardless of the corresponding inclusivity flag.
pub proof fn lemma_absent_endpoint_unbounded(inclusive: bool, k: Seq<u8>)
    ensures
        spec_bound(None, inclusive) is Unbounded,
        above_start(spec_bound(None, inclusive), k),
        below_end(spec_bound(None, inclusive), k),
{
}

} // verus!
