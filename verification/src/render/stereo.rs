//! Frame-index bookkeeping of the two-eye temporal upscaler.
//!
//! Each eye keeps two history textures and writes to
//! `history[frame & 1]` while reading `history[(frame + 1) & 1]`. The
//! right eye runs at the frame index shifted by
//! [`RIGHT_EYE_JITTER_OFFSET`], so that its jitter differs from the left
//! eye's while both land on the same history slot.

use vstd::prelude::*;

verus! {

/// Right eye's frame-index offset into the jitter sequence. Even, so that
/// both eyes write the same history slot each frame.
pub const RIGHT_EYE_JITTER_OFFSET: u64 = 8;

/// The right eye's frame index: `frame_index` shifted by the offset,
/// wrapping around at `u64::MAX`.
pub open spec fn eye_frame(frame_index: u64) -> int {
    (frame_index + RIGHT_EYE_JITTER_OFFSET) % 0x1_0000_0000_0000_0000
}

/// The history slot written on a frame: the parity of its index.
pub open spec fn write_slot(frame_index: int) -> int {
    frame_index % 2
}

/// The history slot read on a frame: the other one.
pub open spec fn read_slot(frame_index: int) -> int {
    (frame_index + 1) % 2
}

/// Number of entries of the sub-pixel jitter sequence; frame indices
/// cycle through it.
pub const JITTER_TABLE_LEN: u64 = 16;

/// The entry of the jitter sequence used on a frame.
pub open spec fn jitter_slot(frame_index: int) -> int {
    frame_index % (JITTER_TABLE_LEN as int)
}

/// The entry of the jitter sequence used on frame `frame_index`.
pub fn jitter_index(frame_index: u64) -> (r: usize)
    ensures
        r == jitter_slot(frame_index as int),
        r < JITTER_TABLE_LEN,
{
    (frame_index % JITTER_TABLE_LEN) as usize
}

/// The frame index the right eye uses for `frame_index` (wrapping).
pub fn right_eye_frame(frame_index: u64) -> (r: u64)
    ensures
        r == eye_frame(frame_index),
{
    frame_index.wrapping_add(RIGHT_EYE_JITTER_OFFSET)
}

/// The history slot written on frame `frame_index`.
pub fn history_write_slot(frame_index: u64) -> (r: usize)
    ensures
        r == write_slot(frame_index as int),
{
    let r = frame_index & 1;
    assert(frame_index & 1 == frame_index % 2) by (bit_vector);
    r as usize
}

/// The history slot read on frame `frame_index`: the one written on the
/// frame before.
pub fn history_read_slot(frame_index: u64) -> (r: usize)
    requires
        frame_index < u64::MAX,
    ensures
        r == read_slot(frame_index as int),
{
    let next = frame_index + 1;
    let r = next & 1;
    assert(next & 1 == next % 2) by (bit_vector);
    r as usize
}

/// Both eyes write the same history slot on every frame, and on every
/// frame the slot read is not the slot written.
pub proof fn law_eyes_share_history_slot(frame_index: u64)
    ensures
        write_slot(eye_frame(frame_index)) == write_slot(frame_index as int),
        read_slot(frame_index as int) != write_slot(frame_index as int),
{
}

/// The two eyes never use the same entry of the jitter sequence on the
/// same frame: the right eye is half the sequence ahead.
pub proof fn law_eyes_jitter_differently(frame_index: u64)
    ensures
        jitter_slot(eye_frame(frame_index)) != jitter_slot(frame_index as int),
        jitter_slot(eye_frame(frame_index)) == (jitter_slot(frame_index as int) + JITTER_TABLE_LEN / 2) % (JITTER_TABLE_LEN as int),
{
}

} // verus!
