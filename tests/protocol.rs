use px8_sound::protocol::{decode, encode, Command, DecodeError};

fn round_trip(c: Command) {
    let bytes = encode(&c);
    assert_eq!(decode(&bytes), Ok(c));
}

#[test]
fn round_trip_every_variant() {
    round_trip(Command::LoadMusic { filename: "a.ogg".to_string() });
    round_trip(Command::PlayMusic { filename: "a.ogg".to_string(), loops: -1 });
    round_trip(Command::PlayMusic { filename: "b.ogg".to_string(), loops: 0 });
    round_trip(Command::PlayMusic { filename: "c.mod".to_string(), loops: i32::MAX });
    round_trip(Command::PlayMusic { filename: "d.mod".to_string(), loops: i32::MIN });
    round_trip(Command::StopMusic);
    round_trip(Command::PauseMusic);
    round_trip(Command::ResumeMusic);
    round_trip(Command::RewindMusic);
    round_trip(Command::LoadSound { filename: "jump.wav".to_string() });
    round_trip(Command::PlaySound { filename: "jump.wav".to_string(), loops: 3 });
}

#[test]
fn round_trip_non_ascii_and_empty_names() {
    round_trip(Command::LoadMusic { filename: "thème-été.ogg".to_string() });
    round_trip(Command::PlaySound { filename: "音.wav".to_string(), loops: 2 });
    round_trip(Command::LoadSound { filename: String::new() });
}

#[test]
fn encode_exact_bytes() {
    assert_eq!(encode(&Command::StopMusic), vec![2u8]);
    assert_eq!(encode(&Command::RewindMusic), vec![5u8]);
    assert_eq!(
        encode(&Command::LoadMusic { filename: "ab".to_string() }),
        vec![0u8, 2, 0, 0, 0, 0, 0, 0, 0, b'a', b'b']
    );
    assert_eq!(
        encode(&Command::PlayMusic { filename: "a".to_string(), loops: -1 }),
        vec![1u8, 1, 0, 0, 0, 0, 0, 0, 0, b'a', 0xff, 0xff, 0xff, 0xff]
    );
    assert_eq!(
        encode(&Command::PlaySound { filename: "a".to_string(), loops: 258 }),
        vec![7u8, 1, 0, 0, 0, 0, 0, 0, 0, b'a', 2, 1, 0, 0]
    );
}

#[test]
fn decode_empty_packet() {
    assert_eq!(decode(&[]), Err(DecodeError::Empty));
}

#[test]
fn decode_unknown_tag() {
    assert_eq!(decode(&[9u8]), Err(DecodeError::UnknownTag { tag: 9 }));
    assert_eq!(decode(&[255u8, 1, 2]), Err(DecodeError::UnknownTag { tag: 255 }));
}

#[test]
fn decode_truncated() {
    assert_eq!(decode(&[0u8, 2, 0, 0]), Err(DecodeError::Truncated));
    assert_eq!(decode(&[0u8, 3, 0, 0, 0, 0, 0, 0, 0, b'a']), Err(DecodeError::Truncated));
    assert_eq!(
        decode(&[1u8, 1, 0, 0, 0, 0, 0, 0, 0, b'a', 0xff, 0xff]),
        Err(DecodeError::Truncated)
    );
    assert_eq!(
        decode(&[0u8, 0xff, 0xff, 0xff, 0xff, 0xff, 0xff, 0xff, 0xff, b'a']),
        Err(DecodeError::Truncated)
    );
}

#[test]
fn decode_invalid_text() {
    assert_eq!(decode(&[6u8, 1, 0, 0, 0, 0, 0, 0, 0, 0xff]), Err(DecodeError::InvalidText));
    assert_eq!(
        decode(&[6u8, 2, 0, 0, 0, 0, 0, 0, 0, 0xc3, 0x28]),
        Err(DecodeError::InvalidText)
    );
}

#[test]
fn decode_trailing_bytes() {
    assert_eq!(decode(&[2u8, 0]), Err(DecodeError::TrailingBytes));
    assert_eq!(
        decode(&[0u8, 1, 0, 0, 0, 0, 0, 0, 0, b'a', b'b']),
        Err(DecodeError::TrailingBytes)
    );
    assert_eq!(
        decode(&[7u8, 1, 0, 0, 0, 0, 0, 0, 0, b'a', 1, 0, 0, 0, 0]),
        Err(DecodeError::TrailingBytes)
    );
}

#[test]
fn decode_hand_written_packet() {
    assert_eq!(
        decode(&[7u8, 1, 0, 0, 0, 0, 0, 0, 0, b'x', 0xfe, 0xff, 0xff, 0xff]),
        Ok(Command::PlaySound { filename: "x".to_string(), loops: -2 })
    );
}
