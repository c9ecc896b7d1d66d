//! Click sequencing for file rows: deciding whether a left press is a
//! single, double or triple click, from the position and time of the
//! previous accepted press.

use vstd::prelude::*;

verus! {

/// Milliseconds within which a repeated press continues a click sequence.
pub const CLICK_INTERVAL_MS: u64 = 300;

/// How far, in pixels along each axis, a repeated press may drift from the
/// previous one and still continue the click sequence.
pub const CLICK_RADIUS: i64 = 6;

#[derive(PartialEq, Eq, Structural, Clone, Copy, Debug)]
pub enum ClickKind {
    Single,
    Double,
    Triple,
}

/// The most recent accepted press on a row: its classification, its position
/// local to the row, and its timestamp.
#[derive(PartialEq, Eq, Structural, Clone, Copy, Debug)]
pub struct ClickRecord {
    pub kind: ClickKind,
    pub x: i64,
    pub y: i64,
    pub time_ms: u64,
}

/// The classification a press gets when it continues the sequence `k`.
pub open spec fn next_kind(k: ClickKind) -> ClickKind {
    match k {
        ClickKind::Single => ClickKind::Double,
        ClickKind::Double => ClickKind::Triple,
        ClickKind::Triple => ClickKind::Double,
    }
}

/// A press continues the previous click sequence when it lands within
/// [`CLICK_RADIUS`] of the previous position on both axes, strictly later,
/// and within the repeat interval.
pub open spec fn consecutive(prev: ClickRecord, x: int, y: int, now_ms: int) -> bool {
    &&& -CLICK_RADIUS <= x - prev.x <= CLICK_RADIUS
    &&& -CLICK_RADIUS <= y - prev.y <= CLICK_RADIUS
    &&& prev.time_ms < now_ms
    &&& now_ms - prev.time_ms <= CLICK_INTERVAL_MS
}

/// How a press at `(x, y)` at time `now_ms` is classified, given the
/// previous accepted press.
pub open spec fn classify_spec(prev: Option<ClickRecord>, x: int, y: int, now_ms: int) -> ClickKind {
    match prev {
        Some(p) => if consecutive(p, x, y, now_ms) {
            next_kind(p.kind)
        } else {
            ClickKind::Single
        },
        None => ClickKind::Single,
    }
}

/// Classifies a press against the previous accepted press.
pub fn classify(prev: Option<ClickRecord>, x: i64, y: i64, now_ms: u64) -> (k: ClickKind)
    ensures
        k == classify_spec(prev, x as int, y as int, now_ms as int),
{
    match prev {
        Some(p) => {
            let dx = (x as i128) - (p.x as i128);
            let dy = (y as i128) - (p.y as i128);
            let near = -(CLICK_RADIUS as i128) <= dx && dx <= CLICK_RADIUS as i128
                && -(CLICK_RADIUS as i128) <= dy && dy <= CLICK_RADIUS as i128;
            if near && p.time_ms < now_ms && now_ms - p.time_ms <= CLICK_INTERVAL_MS {
                match p.kind {
                    ClickKind::Single => ClickKind::Double,
                    ClickKind::Double => ClickKind::Triple,
                    ClickKind::Triple => ClickKind::Double,
                }
            } else {
                ClickKind::Single
            }
        },
        None => ClickKind::Single,
    }
}

} // verus!
