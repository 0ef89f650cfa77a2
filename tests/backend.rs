use std::sync::mpsc;

use px8_sound::backend::{AssetKind, CommandError, MixerCall, SoundInternal};
use px8_sound::protocol::{encode, Command, DecodeError};
use px8_sound::sound::Sound;

fn load(name: &str) -> Vec<u8> {
    encode(&Command::LoadMusic { filename: name.to_string() })
}

fn play(name: &str, loops: i32) -> Vec<u8> {
    encode(&Command::PlayMusic { filename: name.to_string(), loops })
}

#[test]
fn play_unbound_music_is_reported() {
    let mut b = SoundInternal::new();
    let out = b.update(&vec![play("missing.ogg", 0)]);
    assert_eq!(
        out,
        vec![Err(CommandError::AssetNotBound {
            kind: AssetKind::Music,
            filename: "missing.ogg".to_string(),
        })]
    );
}

#[test]
fn play_unbound_sound_is_reported() {
    let mut b = SoundInternal::new();
    let r = b.apply(Command::PlaySound { filename: "missing.ogg".to_string(), loops: 0 });
    assert_eq!(
        r,
        Err(CommandError::AssetNotBound { kind: AssetKind::Sound, filename: "missing.ogg".to_string() })
    );
}

#[test]
fn music_and_sound_caches_are_separate() {
    let mut b = SoundInternal::new();
    assert_eq!(
        b.apply(Command::LoadMusic { filename: "x.ogg".to_string() }),
        Ok(MixerCall::LoadMusic { filename: "x.ogg".to_string(), slot: 0 })
    );
    assert!(matches!(
        b.apply(Command::PlaySound { filename: "x.ogg".to_string(), loops: 0 }),
        Err(CommandError::AssetNotBound { kind: AssetKind::Sound, .. })
    ));
    assert_eq!(
        b.apply(Command::LoadSound { filename: "x.ogg".to_string() }),
        Ok(MixerCall::LoadSound { filename: "x.ogg".to_string(), slot: 0 })
    );
    assert_eq!(
        b.apply(Command::PlaySound { filename: "x.ogg".to_string(), loops: 2 }),
        Ok(MixerCall::PlaySound { slot: 0, loops: 2 })
    );
}

#[test]
fn loading_twice_reuses_the_slot() {
    let mut b = SoundInternal::new();
    let out = b.update(&vec![load("a.ogg"), load("b.ogg"), load("a.ogg"), play("b.ogg", 1), play("a.ogg", 0)]);
    assert_eq!(
        out,
        vec![
            Ok(MixerCall::LoadMusic { filename: "a.ogg".to_string(), slot: 0 }),
            Ok(MixerCall::LoadMusic { filename: "b.ogg".to_string(), slot: 1 }),
            Ok(MixerCall::LoadMusic { filename: "a.ogg".to_string(), slot: 0 }),
            Ok(MixerCall::PlayMusic { slot: 1, loops: 1 }),
            Ok(MixerCall::PlayMusic { slot: 0, loops: 0 }),
        ]
    );
}

#[test]
fn empty_drain_does_nothing() {
    let mut b = SoundInternal::new();
    assert_eq!(b.update(&vec![]), vec![]);
    assert_eq!(b.update(&vec![load("a.ogg")]).len(), 1);
    assert_eq!(b.update(&vec![]), vec![]);
    assert_eq!(b.update(&vec![play("a.ogg", 0)]), vec![Ok(MixerCall::PlayMusic { slot: 0, loops: 0 })]);
}

#[test]
fn malformed_packet_is_isolated() {
    let mut b = SoundInternal::new();
    let out = b.update(&vec![load("a.ogg"), vec![42u8, 1, 2], vec![], play("a.ogg", 5)]);
    assert_eq!(
        out,
        vec![
            Ok(MixerCall::LoadMusic { filename: "a.ogg".to_string(), slot: 0 }),
            Err(CommandError::Malformed(DecodeError::UnknownTag { tag: 42 })),
            Err(CommandError::Malformed(DecodeError::Empty)),
            Ok(MixerCall::PlayMusic { slot: 0, loops: 5 }),
        ]
    );
}

#[test]
fn commands_apply_in_send_order() {
    let mut b = SoundInternal::new();
    let out = b.update(&vec![play("a.ogg", 0), load("a.ogg"), play("a.ogg", 0)]);
    assert!(matches!(out[0], Err(CommandError::AssetNotBound { .. })));
    assert_eq!(out[1], Ok(MixerCall::LoadMusic { filename: "a.ogg".to_string(), slot: 0 }));
    assert_eq!(out[2], Ok(MixerCall::PlayMusic { slot: 0, loops: 0 }));
}

#[test]
fn facade_end_to_end() {
    let (tx, rx) = mpsc::channel();
    let mut s = Sound::new(tx);
    assert_eq!(s.load("a.ogg".to_string()), 0);
    s.play("a.ogg".to_string(), -1);
    s.pause();
    s.resume();
    s.stop();
    let packets: Vec<Vec<u8>> = rx.try_iter().collect();
    assert_eq!(packets.len(), 5);
    let mut b = SoundInternal::new();
    let out = b.update(&packets);
    assert_eq!(
        out,
        vec![
            Ok(MixerCall::LoadMusic { filename: "a.ogg".to_string(), slot: 0 }),
            Ok(MixerCall::PlayMusic { slot: 0, loops: -1 }),
            Ok(MixerCall::PauseMusic),
            Ok(MixerCall::ResumeMusic),
            Ok(MixerCall::HaltMusic),
        ]
    );
}

#[test]
fn facade_sends_encoded_commands() {
    let (tx, rx) = mpsc::channel();
    let mut s = Sound::new(tx);
    assert_eq!(s.load_sound("hit.wav".to_string()), 0);
    assert_eq!(s.play_sound("hit.wav".to_string(), 2), 0);
    s.rewind();
    let packets: Vec<Vec<u8>> = rx.try_iter().collect();
    assert_eq!(
        packets,
        vec![
            encode(&Command::LoadSound { filename: "hit.wav".to_string() }),
            encode(&Command::PlaySound { filename: "hit.wav".to_string(), loops: 2 }),
            vec![5u8],
        ]
    );
}

#[test]
fn set_volume_call() {
    let b = SoundInternal::new();
    assert_eq!(b.set_volume(-65536), MixerCall::SetMusicVolume { volume: 0 });
    assert_eq!(b.set_volume(32768), MixerCall::SetMusicVolume { volume: 64 });
    assert_eq!(b.set_volume(131072), MixerCall::SetMusicVolume { volume: 128 });
}
