use vstd::prelude::*;

verus! {

/// The normalized volume scale in fixed point: a level of `VOLUME_UNIT`
/// stands for full volume (1.0) and a level of 0 for silence (0.0).
pub const VOLUME_UNIT: i64 = 65536;

/// The mixer's own largest volume; its range is `0..=BACKEND_MAX_VOLUME`.
pub const BACKEND_MAX_VOLUME: i32 = 128;

/// A level clamped to the normalized range.
pub open spec fn clamp_level(level: int) -> int {
    if level < 0 {
        0
    } else if level > VOLUME_UNIT {
        VOLUME_UNIT as int
    } else {
        level
    }
}

/// The mixer volume of a level: clamped, then scaled linearly (rounding down).
pub open spec fn volume_spec(level: int) -> int {
    clamp_level(level) * BACKEND_MAX_VOLUME / VOLUME_UNIT as int
}

/// Maps a normalized volume level to the mixer's volume range.
pub fn backend_volume(level: i64) -> (r: i32)
    ensures
        r as int == volume_spec(level as int),
        0 <= r <= BACKEND_MAX_VOLUME,
{
    let clamped: i64 = if level < 0 {
        0
    } else if level > VOLUME_UNIT {
        VOLUME_UNIT
    } else {
        level
    };
    (clamped * (BACKEND_MAX_VOLUME as i64) / VOLUME_UNIT) as i32
}

/// Levels below silence give the volume of silence, levels above full volume
/// give full volume, and half of the normalized range maps to half of the
/// mixer's range.
pub proof fn lemma_volume_clamp(level: int)
    ensures
        level <= 0 ==> volume_spec(level) == volume_spec(0),
        level >= VOLUME_UNIT ==> volume_spec(level) == volume_spec(VOLUME_UNIT as int),
        volume_spec(0) == 0,
        volume_spec(VOLUME_UNIT as int) == BACKEND_MAX_VOLUME as int,
        volume_spec(VOLUME_UNIT / 2) == BACKEND_MAX_VOLUME / 2,
{
}

} // verus!
