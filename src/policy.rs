//! What to report when the store gives no answer: every failure and every
//! absent entry reads as zero (rank 0, score 0, an empty list).
use vstd::prelude::*;

verus! {

/// The 1-based rank for a zero-based position reply; 0 when there was no reply,
/// or when the position is the largest `u32` and one more would not fit.
pub open spec fn shown_rank(zero_based: Option<u32>) -> u32 {
    match zero_based {
        Some(z) => if z < u32::MAX {
            (z + 1) as u32
        } else {
            0
        },
        None => 0,
    }
}

pub fn one_based_rank(zero_based: Option<u32>) -> (r: u32)
    ensures
        r == shown_rank(zero_based),
{
    match zero_based {
        Some(z) => z.checked_add(1).unwrap_or(0),
        None => 0,
    }
}

/// The rank reported after a write: only a write that succeeded is followed by
/// a rank, and a failed write reports 0.
pub fn submitted_rank(write_ok: bool, zero_based: Option<u32>) -> (r: u32)
    ensures
        r == (if write_ok {
            shown_rank(zero_based)
        } else {
            0
        }),
{
    if write_ok {
        one_based_rank(zero_based)
    } else {
        0
    }
}

pub fn score_or_zero(score: Option<u32>) -> (r: u32)
    ensures
        r == (match score {
            Some(v) => v,
            None => 0,
        }),
{
    match score {
        Some(v) => v,
        None => 0,
    }
}

pub fn list_or_empty(list: Option<Vec<(String, u32)>>) -> (r: Vec<(String, u32)>)
    ensures
        r@ == (match list {
            Some(v) => v@,
            None => Seq::<(String, u32)>::empty(),
        }),
{
    match list {
        Some(v) => v,
        None => Vec::new(),
    }
}

/// A position of the in-memory store as a reply of the store's width.
pub fn narrow_position(p: Option<usize>) -> (r: Option<u32>)
    ensures
        r == (match p {
            Some(i) => if i <= u32::MAX {
                Some(i as u32)
            } else {
                None::<u32>
            },
            None => None::<u32>,
        }),
{
    match p {
        Some(i) => if i <= u32::MAX as usize {
            Some(i as u32)
        } else {
            None
        },
        None => None,
    }
}

} // verus!
