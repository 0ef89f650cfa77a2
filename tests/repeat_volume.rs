use px8_sound::repeat::{Repeat, LOOP_FOREVER};
use px8_sound::volume::{backend_volume, BACKEND_MAX_VOLUME, VOLUME_UNIT};

fn level(v: f64) -> i64 {
    (v * VOLUME_UNIT as f64) as i64
}

#[test]
fn repeat_forever_is_minus_one() {
    assert_eq!(Repeat::Forever.to_sdl2_repeats(), -1);
    assert_eq!(LOOP_FOREVER, -1);
}

#[test]
fn repeat_times_is_its_count() {
    assert_eq!(Repeat::Times(0).to_sdl2_repeats(), 0);
    assert_eq!(Repeat::Times(3).to_sdl2_repeats(), 3);
    assert_eq!(Repeat::Times(u16::MAX).to_sdl2_repeats(), 65535);
}

#[test]
fn volume_below_range_is_silence() {
    assert_eq!(backend_volume(level(-1.0)), backend_volume(level(0.0)));
    assert_eq!(backend_volume(level(-5.0)), 0);
    assert_eq!(backend_volume(i64::MIN), 0);
}

#[test]
fn volume_above_range_is_full() {
    assert_eq!(backend_volume(level(2.0)), backend_volume(level(1.0)));
    assert_eq!(backend_volume(level(5.0)), BACKEND_MAX_VOLUME);
    assert_eq!(backend_volume(i64::MAX), 128);
}

#[test]
fn volume_half_is_midpoint() {
    assert_eq!(backend_volume(level(0.5)), 64);
    assert_eq!(backend_volume(level(0.25)), 32);
    assert_eq!(backend_volume(level(1.0 / 128.0)), 1);
    assert_eq!(backend_volume(level(0.999)), 127);
}
