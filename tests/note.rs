use midi_broker::frame::{note_frame, parse_note_frame};
use midi_broker::note::{map_event_to_note, DecodingFault, Key, Note, RawEvent};

fn event(data1: u8, status: u8, timestamp: u32) -> RawEvent {
    RawEvent { status, data1, data2: 100, timestamp }
}

#[test]
fn from_u8_maps_every_pitch_class() {
    let keys = [
        Key::C, Key::Cs, Key::D, Key::Ds, Key::E, Key::F,
        Key::Fs, Key::G, Key::Gs, Key::A, Key::As, Key::B,
    ];
    for (i, k) in keys.iter().enumerate() {
        assert_eq!(Key::from_u8(i as u8), *k);
        assert_eq!(k.index(), i as u8);
    }
}

#[test]
fn map_covers_the_whole_range() {
    for d in 0u8..=127 {
        let n = map_event_to_note(event(d, 144, 7)).unwrap();
        assert_eq!(n.octave, d / 12);
        assert_eq!(n.key, Key::from_u8(d % 12));
        assert_eq!(n.key.index(), d % 12);
        assert!(n.octave <= 10);
        assert_eq!(n.timestamp, 7);
    }
}

#[test]
fn pressed_only_for_note_on() {
    assert!(map_event_to_note(event(60, 144, 0)).unwrap().pressed);
    assert!(!map_event_to_note(event(60, 128, 0)).unwrap().pressed);
    assert!(!map_event_to_note(event(60, 0, 0)).unwrap().pressed);
    assert!(!map_event_to_note(event(60, 145, 0)).unwrap().pressed);
}

#[test]
fn out_of_range_data_is_a_decoding_fault() {
    assert_eq!(map_event_to_note(event(128, 144, 1)), Err(DecodingFault { data1: 128 }));
    assert_eq!(map_event_to_note(event(255, 128, 1)), Err(DecodingFault { data1: 255 }));
}

#[test]
fn scenario_middle_c_pressed() {
    let n = map_event_to_note(event(60, 144, 1000)).unwrap();
    assert_eq!(n, Note { octave: 5, key: Key::C, pressed: true, timestamp: 1000 });
    let frame = String::from_utf8(note_frame(&n)).unwrap();
    assert_eq!(frame, r#"{"octave":5,"key":"C","pressed":true,"timestamp":1000}"#);
}

#[test]
fn scenario_c_sharp_released() {
    let n = map_event_to_note(event(61, 128, 1001)).unwrap();
    assert_eq!(n, Note { octave: 5, key: Key::Cs, pressed: false, timestamp: 1001 });
    let frame = String::from_utf8(note_frame(&n)).unwrap();
    assert_eq!(frame, r#"{"octave":5,"key":"Cs","pressed":false,"timestamp":1001}"#);
}

#[test]
fn frame_round_trips() {
    let notes = [
        Note { octave: 0, key: Key::C, pressed: false, timestamp: 0 },
        Note { octave: 10, key: Key::G, pressed: true, timestamp: u32::MAX },
        Note { octave: 255, key: Key::As, pressed: true, timestamp: 9 },
        Note { octave: 3, key: Key::B, pressed: false, timestamp: 1_000_000 },
    ];
    for n in notes.iter() {
        assert_eq!(parse_note_frame(&note_frame(n)), Some(*n));
    }
}

#[test]
fn parse_rejects_what_is_no_frame() {
    let bad = [
        r#"{"octave":5,"key":"C","pressed":true,"timestamp":1000} "#,
        r#"{"octave":05,"key":"C","pressed":true,"timestamp":1000}"#,
        r#"{"octave":5,"key":"Es","pressed":true,"timestamp":1000}"#,
        r#"{"octave":5,"key":"C","pressed":yes,"timestamp":1000}"#,
        r#"{"octave":256,"key":"C","pressed":true,"timestamp":1000}"#,
        r#"{"octave":5,"key":"C","pressed":true,"timestamp":4294967296}"#,
        r#"{"octave":5,"key":"C","pressed":true}"#,
        "",
    ];
    for b in bad.iter() {
        assert_eq!(parse_note_frame(&b.as_bytes().to_vec()), None, "{}", b);
    }
}

#[test]
fn frame_is_json_with_the_note_fields() {
    let n = Note { octave: 7, key: Key::Fs, pressed: true, timestamp: 123456 };
    let v: serde_json::Value = serde_json::from_slice(&note_frame(&n)).unwrap();
    let obj = v.as_object().unwrap();
    assert_eq!(obj.len(), 4);
    assert_eq!(obj["octave"].as_u64(), Some(7));
    assert_eq!(obj["key"].as_str(), Some("Fs"));
    assert_eq!(obj["pressed"].as_bool(), Some(true));
    assert_eq!(obj["timestamp"].as_u64(), Some(123456));
}

#[test]
fn key_names_on_the_wire() {
    let names = ["C", "Cs", "D", "Ds", "E", "F", "Fs", "G", "Gs", "A", "As", "B"];
    for (i, name) in names.iter().enumerate() {
        let k = Key::from_u8(i as u8);
        assert_eq!(midi_broker::frame::key_name_bytes(k), name.as_bytes().to_vec());
    }
}
