use vstd::prelude::*;

verus! {

/// The note-on status byte: an event with this status presses a key.
pub const NOTE_ON: u8 = 144;

/// The largest data byte that the device layer produces.
pub const DATA_MAX: u8 = 127;

/// The twelve pitch classes of the chromatic scale, `s` marking a sharp.
#[derive(Clone, Copy, Debug, PartialEq, Eq, Structural)]
pub enum Key {
    C,
    Cs,
    D,
    Ds,
    E,
    F,
    Fs,
    G,
    Gs,
    A,
    As,
    B,
}

/// The pitch class with index `i`, counting semitones up from C.
pub open spec fn key_of(i: nat) -> Key
    recommends
        i < 12,
{
    if i == 0 {
        Key::C
    } else if i == 1 {
        Key::Cs
    } else if i == 2 {
        Key::D
    } else if i == 3 {
        Key::Ds
    } else if i == 4 {
        Key::E
    } else if i == 5 {
        Key::F
    } else if i == 6 {
        Key::Fs
    } else if i == 7 {
        Key::G
    } else if i == 8 {
        Key::Gs
    } else if i == 9 {
        Key::A
    } else if i == 10 {
        Key::As
    } else {
        Key::B
    }
}

/// The number of semitones from C up to `k`.
pub open spec fn index_of(k: Key) -> nat {
    match k {
        Key::C => 0,
        Key::Cs => 1,
        Key::D => 2,
        Key::Ds => 3,
        Key::E => 4,
        Key::F => 5,
        Key::Fs => 6,
        Key::G => 7,
        Key::Gs => 8,
        Key::A => 9,
        Key::As => 10,
        Key::B => 11,
    }
}

impl Key {
    /// The pitch class with semitone index `value`; defined for `0..12` only.
    pub fn from_u8(value: u8) -> (r: Key)
        requires
            value < 12,
        ensures
            r == key_of(value as nat),
            index_of(r) == value,
    {
        match value {
            0 => Key::C,
            1 => Key::Cs,
            2 => Key::D,
            3 => Key::Ds,
            4 => Key::E,
            5 => Key::F,
            6 => Key::Fs,
            7 => Key::G,
            8 => Key::Gs,
            9 => Key::A,
            10 => Key::As,
            _ => Key::B,
        }
    }

    /// The semitone index of this pitch class, the inverse of `from_u8`.
    pub fn index(&self) -> (r: u8)
        ensures
            r == index_of(*self),
            r < 12,
    {
        match self {
            Key::C => 0,
            Key::Cs => 1,
            Key::D => 2,
            Key::Ds => 3,
            Key::E => 4,
            Key::F => 5,
            Key::Fs => 6,
            Key::G => 7,
            Key::Gs => 8,
            Key::A => 9,
            Key::As => 10,
            Key::B => 11,
        }
    }
}

/// Every pitch class has an index below twelve, and `key_of` undoes `index_of`.
pub proof fn lemma_index_of_key(k: Key)
    ensures
        index_of(k) < 12,
        key_of(index_of(k)) == k,
{
}

/// `key_of` is a bijection from `0..12` onto the pitch classes: each index maps
/// back to itself, distinct indices give distinct pitch classes, and every pitch
/// class is reached from its own index.
pub proof fn lemma_key_bijection()
    ensures
        forall|i: nat| i < 12 ==> #[trigger] index_of(key_of(i)) == i,
        forall|i: nat, j: nat| i < 12 && j < 12 && key_of(i) == key_of(j) ==> i == j,
        forall|k: Key| #[trigger] index_of(k) < 12 && key_of(index_of(k)) == k,
{
    assert forall|i: nat| i < 12 implies #[trigger] index_of(key_of(i)) == i by {}
    assert forall|i: nat, j: nat| i < 12 && j < 12 && key_of(i) == key_of(j) implies i == j by {
        assert(index_of(key_of(i)) == i);
        assert(index_of(key_of(j)) == j);
    }
    assert forall|k: Key| #[trigger] index_of(k) < 12 && key_of(index_of(k)) == k by {
        lemma_index_of_key(k);
    }
}

/// One decoded event of an input device: a status byte, two data bytes and the
/// device's own timestamp.
#[derive(Clone, Copy, Debug, PartialEq, Eq, Structural)]
pub struct RawEvent {
    pub status: u8,
    pub data1: u8,
    pub data2: u8,
    pub timestamp: u32,
}

/// A key press or release, as sent to the client.
#[derive(Clone, Copy, Debug, PartialEq, Eq, Structural)]
pub struct Note {
    pub octave: u8,
    pub key: Key,
    pub pressed: bool,
    pub timestamp: u32,
}

/// A raw event whose first data byte lies outside the range the device layer
/// promises; it carries the offending byte.
#[derive(Clone, Copy, Debug, PartialEq, Eq, Structural)]
pub struct DecodingFault {
    pub data1: u8,
}

/// The note that an in-range raw event stands for.
pub open spec fn note_of(e: RawEvent) -> Note {
    Note {
        octave: (e.data1 / 12) as u8,
        key: key_of((e.data1 % 12) as nat),
        pressed: e.status == NOTE_ON,
        timestamp: e.timestamp,
    }
}

/// Whether an event keeps to the device layer's range for `data1`.
pub open spec fn in_range(e: RawEvent) -> bool {
    e.data1 <= DATA_MAX
}

/// Maps a raw event to its note: octave `data1 / 12`, pitch class
/// `data1 % 12`, pressed for the note-on status only, timestamp kept.
pub fn map_event_to_note(event: RawEvent) -> (r: Result<Note, DecodingFault>)
    ensures
        in_range(event) ==> r == Ok::<Note, DecodingFault>(note_of(event)),
        !in_range(event) ==> r == Err::<Note, DecodingFault>(DecodingFault { data1: event.data1 }),
{
    if event.data1 > DATA_MAX {
        return Err(DecodingFault { data1: event.data1 });
    }
    let octave: u8 = event.data1 / 12;
    let key = Key::from_u8(event.data1 % 12);
    let pressed = event.status == NOTE_ON;
    let timestamp = event.timestamp;
    Ok(Note { octave, key, pressed, timestamp })
}

/// Octave, pitch class and timestamp of an event's note follow the event:
/// `data1` is twelve times the octave plus the pitch class index, and the octave
/// is at most ten.
pub proof fn lemma_note_of_data(e: RawEvent)
    requires
        in_range(e),
    ensures
        note_of(e).octave <= 10,
        note_of(e).octave as nat * 12 + index_of(note_of(e).key) == e.data1 as nat,
        note_of(e).timestamp == e.timestamp,
{
    assert(index_of(key_of((e.data1 % 12) as nat)) == (e.data1 % 12) as nat);
}

/// A note is pressed exactly when its event carries the note-on status.
pub proof fn lemma_pressed_iff_note_on(e: RawEvent)
    ensures
        note_of(e).pressed <==> e.status == NOTE_ON,
{
}

} // verus!
