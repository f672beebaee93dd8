use vstd::prelude::*;
use crate::note::{Key, Note, index_of};

verus! {

/// Whether `c` is an ASCII decimal digit.
pub open spec fn is_digit(c: u8) -> bool {
    48 <= c && c <= 57
}

/// The decimal digits of `n`, most significant first, without leading zeros.
pub open spec fn dec(n: nat) -> Seq<u8>
    decreases n,
{
    if n < 10 {
        seq![(48 + n) as u8]
    } else {
        dec(n / 10).push((48 + n % 10) as u8)
    }
}

/// The number that a run of decimal digits spells.
pub open spec fn digits_value(s: Seq<u8>) -> nat
    decreases s.len(),
{
    if s.len() == 0 {
        0
    } else {
        digits_value(s.drop_last()) * 10 + (s.last() - 48) as nat
    }
}

/// The name of a pitch class on the wire: its letter, then `s` for a sharp.
pub open spec fn key_name(k: Key) -> Seq<u8> {
    match k {
        Key::C => seq![67u8],
        Key::Cs => seq![67u8, 115],
        Key::D => seq![68u8],
        Key::Ds => seq![68u8, 115],
        Key::E => seq![69u8],
        Key::F => seq![70u8],
        Key::Fs => seq![70u8, 115],
        Key::G => seq![71u8],
        Key::Gs => seq![71u8, 115],
        Key::A => seq![65u8],
        Key::As => seq![65u8, 115],
        Key::B => seq![66u8],
    }
}

/// `true` or `false` as text.
pub open spec fn bool_text(b: bool) -> Seq<u8> {
    if b {
        seq![116u8, 114, 117, 101]
    } else {
        seq![102u8, 97, 108, 115, 101]
    }
}

/// `{"octave":`
pub open spec fn octave_tag() -> Seq<u8> {
    seq![123u8, 34, 111, 99, 116, 97, 118, 101, 34, 58]
}

/// `,"key":"`
pub open spec fn key_tag() -> Seq<u8> {
    seq![44u8, 34, 107, 101, 121, 34, 58, 34]
}

/// `","pressed":`
pub open spec fn pressed_tag() -> Seq<u8> {
    seq![34u8, 44, 34, 112, 114, 101, 115, 115, 101, 100, 34, 58]
}

/// `,"timestamp":`
pub open spec fn timestamp_tag() -> Seq<u8> {
    seq![44u8, 34, 116, 105, 109, 101, 115, 116, 97, 109, 112, 34, 58]
}

/// `}`
pub open spec fn close_tag() -> Seq<u8> {
    seq![125u8]
}

/// The text frame of a note: a flat JSON object with the fields octave, key,
/// pressed and timestamp, in that order and without spaces.
#[verifier::opaque]
pub open spec fn frame_of(n: Note) -> Seq<u8> {
    octave_tag() + dec(n.octave as nat) + key_tag() + key_name(n.key) + pressed_tag()
        + bool_text(n.pressed) + timestamp_tag() + dec(n.timestamp as nat) + close_tag()
}

/// Appends `lit` to `out`.
fn push_bytes(out: &mut Vec<u8>, lit: &Vec<u8>)
    ensures
        final(out)@ == old(out)@ + lit@,
{
    let mut i: usize = 0;
    while i < lit.len()
        invariant
            i <= lit.len(),
            out@ == old(out)@ + lit@.subrange(0, i as int),
        decreases lit.len() - i,
    {
        out.push(lit[i]);
        i = i + 1;
        assert(lit@.subrange(0, i as int) == lit@.subrange(0, i - 1 as int).push(lit@[i - 1]));
    }
    assert(lit@.subrange(0, i as int) == lit@);
}

/// Appends the decimal digits of `n` to `out`.
fn push_dec(out: &mut Vec<u8>, n: u32)
    ensures
        final(out)@ == old(out)@ + dec(n as nat),
    decreases n,
{
    if n >= 10 {
        push_dec(out, n / 10);
    }
    out.push((48 + n % 10) as u8);
    assert(n < 10 ==> dec(n as nat) == seq![(48 + n) as u8]);
}

fn octave_tag_bytes() -> (r: Vec<u8>)
    ensures
        r@ == octave_tag(),
{
    let r = vec![123u8, 34, 111, 99, 116, 97, 118, 101, 34, 58];
    assert(r@ == octave_tag());
    r
}

fn key_tag_bytes() -> (r: Vec<u8>)
    ensures
        r@ == key_tag(),
{
    let r = vec![44u8, 34, 107, 101, 121, 34, 58, 34];
    assert(r@ == key_tag());
    r
}

fn pressed_tag_bytes() -> (r: Vec<u8>)
    ensures
        r@ == pressed_tag(),
{
    let r = vec![34u8, 44, 34, 112, 114, 101, 115, 115, 101, 100, 34, 58];
    assert(r@ == pressed_tag());
    r
}

fn timestamp_tag_bytes() -> (r: Vec<u8>)
    ensures
        r@ == timestamp_tag(),
{
    let r = vec![44u8, 34, 116, 105, 109, 101, 115, 116, 97, 109, 112, 34, 58];
    assert(r@ == timestamp_tag());
    r
}

fn bool_bytes(b: bool) -> (r: Vec<u8>)
    ensures
        r@ == bool_text(b),
{
    if b {
        let r = vec![116u8, 114, 117, 101];
        assert(r@ == bool_text(b));
        r
    } else {
        let r = vec![102u8, 97, 108, 115, 101];
        assert(r@ == bool_text(b));
        r
    }
}

/// The wire name of a pitch class.
pub fn key_name_bytes(k: Key) -> (r: Vec<u8>)
    ensures
        r@ == key_name(k),
{
    let letter: u8 = match k {
        Key::C | Key::Cs => 67,
        Key::D | Key::Ds => 68,
        Key::E => 69,
        Key::F | Key::Fs => 70,
        Key::G | Key::Gs => 71,
        Key::A | Key::As => 65,
        Key::B => 66,
    };
    let mut r: Vec<u8> = Vec::new();
    r.push(letter);
    match k {
        Key::Cs | Key::Ds | Key::Fs | Key::Gs | Key::As => r.push(115),
        _ => {},
    }
    assert(r@ == key_name(k));
    r
}

/// Serializes a note into its text frame.
pub fn note_frame(n: &Note) -> (r: Vec<u8>)
    ensures
        r@ == frame_of(*n),
{
    let mut out: Vec<u8> = Vec::new();
    push_bytes(&mut out, &octave_tag_bytes());
    push_dec(&mut out, n.octave as u32);
    push_bytes(&mut out, &key_tag_bytes());
    push_bytes(&mut out, &key_name_bytes(n.key));
    push_bytes(&mut out, &pressed_tag_bytes());
    push_bytes(&mut out, &bool_bytes(n.pressed));
    push_bytes(&mut out, &timestamp_tag_bytes());
    push_dec(&mut out, n.timestamp);
    out.push(125);
    reveal(frame_of);
    assert(out@ == frame_of(*n));
    out
}

/// Ten to the power `k`.
pub open spec fn pow10(k: nat) -> nat
    decreases k,
{
    if k == 0 {
        1
    } else {
        10 * pow10((k - 1) as nat)
    }
}

proof fn lemma_pow10_mono(k: nat)
    requires
        k <= 10,
    ensures
        1 <= pow10(k) <= pow10(10),
        pow10(10) == 10_000_000_000,
    decreases 10 - k,
{
    reveal_with_fuel(pow10, 11);
    if k < 10 {
        lemma_pow10_mono(k + 1);
    }
}

/// The decimal form of `n` is a non-empty run of digits that spells `n`, and
/// it is shorter than `k` digits when `n` is below ten to the `k`.
pub proof fn lemma_dec(n: nat, k: nat)
    requires
        1 <= k,
        n < pow10(k),
    ensures
        1 <= dec(n).len() <= k,
        forall|i: int| 0 <= i < dec(n).len() ==> #[trigger] is_digit(dec(n)[i]),
        digits_value(dec(n)) == n,
    decreases n,
{
    if n < 10 {
        assert(digits_value(dec(n).drop_last()) == 0) by {
            assert(dec(n).drop_last() =~= Seq::<u8>::empty());
        }
    } else {
        if k == 1 {
            assert(pow10(1) == 10 * pow10(0));
        }
        let k1 = (k - 1) as nat;
        assert(pow10(k) == 10 * pow10(k1));
        assert(n / 10 < pow10(k1)) by (nonlinear_arith)
            requires
                n < 10 * pow10(k1),
        ;
        lemma_dec(n / 10, k1);
        assert(dec(n) == dec(n / 10).push((48 + n % 10) as u8));
        assert(dec(n).drop_last() =~= dec(n / 10));
    }
}

/// Whether `b` holds `lit` from position `pos` on.
fn expect_bytes(b: &Vec<u8>, pos: usize, lit: &Vec<u8>) -> (r: bool)
    requires
        pos <= b.len(),
    ensures
        r == (pos + lit.len() <= b.len() && b@.subrange(pos as int, pos + lit.len()) == lit@),
{
    if lit.len() > b.len() - pos {
        return false;
    }
    let mut i: usize = 0;
    while i < lit.len()
        invariant
            pos + lit.len() <= b.len(),
            i <= lit.len(),
            forall|j: int| 0 <= j < i ==> b@[pos + j] == lit@[j],
        decreases lit.len() - i,
    {
        if b[pos + i] != lit[i] {
            assert(b@.subrange(pos as int, pos + lit.len())[i as int] != lit@[i as int]);
            return false;
        }
        i = i + 1;
    }
    assert(b@.subrange(pos as int, pos + lit.len()) =~= lit@);
    true
}

/// Reads at most ten decimal digits of `b` from position `start` on: the value
/// they spell and the position after them.
fn scan_digits(b: &Vec<u8>, start: usize) -> (r: (u64, usize))
    requires
        start <= b.len(),
    ensures
        start <= r.1 <= b.len(),
        r.1 - start <= 10,
        forall|i: int| start <= i < r.1 ==> #[trigger] is_digit(b@[i]),
        r.1 - start == 10 || r.1 == b.len() || !is_digit(b@[r.1 as int]),
        r.0 == digits_value(b@.subrange(start as int, r.1 as int)),
{
    let mut v: u64 = 0;
    let mut i: usize = start;
    proof {
        lemma_pow10_mono(0);
        assert(b@.subrange(start as int, start as int) =~= Seq::<u8>::empty());
    }
    while i < b.len() && i - start < 10 && 48 <= b[i] && b[i] <= 57
        invariant
            start <= i <= b.len(),
            i - start <= 10,
            forall|j: int| start <= j < i ==> #[trigger] is_digit(b@[j]),
            v == digits_value(b@.subrange(start as int, i as int)),
            v < pow10((i - start) as nat),
        decreases b.len() - i,
    {
        let d: u8 = b[i] - 48;
        proof {
            let k = (i - start) as nat;
            lemma_pow10_mono(k);
            assert(pow10(k + 1) == 10 * pow10(k));
            assert(v * 10 + d < 10 * pow10(k)) by (nonlinear_arith)
                requires
                    v < pow10(k),
                    d < 10,
            ;
            let s1 = b@.subrange(start as int, i + 1);
            assert(s1.drop_last() =~= b@.subrange(start as int, i as int));
        }
        v = v * 10 + d as u64;
        i = i + 1;
    }
    (v, i)
}

/// Where `b` holds a run of `len` digits from `start` on, at most ten and
/// followed by a non-digit, a scan from `start` ends right after the run.
proof fn lemma_scan_exact(b: Seq<u8>, start: int, end: int, len: int)
    requires
        0 <= start <= end <= b.len(),
        end - start <= 10,
        forall|i: int| start <= i < end ==> #[trigger] is_digit(b[i]),
        end - start == 10 || end == b.len() || !is_digit(b[end]),
        1 <= len <= 10,
        start + len < b.len(),
        forall|i: int| start <= i < start + len ==> #[trigger] is_digit(b[i]),
        !is_digit(b[start + len]),
    ensures
        end == start + len,
{
    if end > start + len {
        assert(is_digit(b[start + len]));
    }
    if end < start + len {
        assert(is_digit(b[end]));
    }
}

/// Reads a pitch class name of `b` at `pos` that a quote closes.
fn scan_key(b: &Vec<u8>, pos: usize) -> (r: Option<(Key, usize)>)
    requires
        pos <= b.len(),
    ensures
        r matches Some(x) ==> x.1 <= b.len(),
        forall|k: Key|
            pos + key_name(k).len() < b.len() && b@.subrange(pos as int, pos + key_name(k).len())
                == #[trigger] key_name(k) && b@[pos + key_name(k).len()] == 34 ==> r == Some(
                (k, (pos + key_name(k).len()) as usize),
            ),
{
    if b.len() < 2 || pos >= b.len() - 1 {
        proof {
            assert forall|k: Key|
                !(pos + key_name(k).len() < b.len()) by {}
        }
        return None;
    }
    let letter = b[pos];
    let sharp = b[pos + 1] == 115;
    let k = match (letter, sharp) {
        (67, false) => Key::C,
        (67, true) => Key::Cs,
        (68, false) => Key::D,
        (68, true) => Key::Ds,
        (69, false) => Key::E,
        (70, false) => Key::F,
        (70, true) => Key::Fs,
        (71, false) => Key::G,
        (71, true) => Key::Gs,
        (65, false) => Key::A,
        (65, true) => Key::As,
        (66, false) => Key::B,
        _ => {
            proof {
                assert forall|k: Key|
                    pos + key_name(k).len() < b.len() && b@.subrange(pos as int, pos + key_name(k).len())
                        == #[trigger] key_name(k) && b@[pos + key_name(k).len()] == 34 implies false by {
                    assert(b@.subrange(pos as int, pos + key_name(k).len())[0] == key_name(k)[0]);
                    if key_name(k).len() == 2 {
                        assert(b@.subrange(pos as int, pos + key_name(k).len())[1] == key_name(k)[1]);
                    }
                }
            }
            return None;
        },
    };
    let end: usize = if sharp { pos + 2 } else { pos + 1 };
    proof {
        assert forall|j: Key|
            pos + key_name(j).len() < b.len() && b@.subrange(pos as int, pos + key_name(j).len())
                == #[trigger] key_name(j) && b@[pos + key_name(j).len()] == 34 implies j == k
                && end == pos + key_name(j).len() by {
            assert(b@.subrange(pos as int, pos + key_name(j).len())[0] == key_name(j)[0]);
            if key_name(j).len() == 2 {
                assert(b@.subrange(pos as int, pos + key_name(j).len())[1] == key_name(j)[1]);
            }
        }
    }
    Some((k, end))
}

/// Reads `true` or `false` of `b` at `pos`.
fn scan_bool(b: &Vec<u8>, pos: usize) -> (r: Option<(bool, usize)>)
    requires
        pos <= b.len(),
    ensures
        r matches Some(y) ==> y.1 <= b.len(),
        forall|x: bool|
            pos + bool_text(x).len() <= b.len() && b@.subrange(pos as int, pos + bool_text(x).len())
                == #[trigger] bool_text(x) ==> r == Some((x, (pos + bool_text(x).len()) as usize)),
{
    let t = bool_bytes(true);
    if expect_bytes(b, pos, &t) {
        proof {
            assert(b@.subrange(pos as int, pos + 4)[0] == b@[pos as int]);
            if pos + 5 <= b.len() && b@.subrange(pos as int, pos + 5) == bool_text(false) {
                assert(b@.subrange(pos as int, pos + 5)[0] == b@[pos as int]);
            }
        }
        return Some((true, pos + 4));
    }
    let f = bool_bytes(false);
    if expect_bytes(b, pos, &f) {
        return Some((false, pos + 5));
    }
    None
}

/// Whether two byte strings are equal.
fn bytes_equal(a: &Vec<u8>, b: &Vec<u8>) -> (r: bool)
    ensures
        r == (a@ == b@),
{
    if a.len() != b.len() {
        return false;
    }
    let r = expect_bytes(b, 0, a);
    proof {
        assert(b@.subrange(0, a.len() as int) =~= b@);
    }
    r
}

/// Where each field of a note's frame stands, and what stands around it.
pub proof fn lemma_frame_parts(m: Note)
    ensures
        ({
            let f = frame_of(m);
            let l1 = dec(m.octave as nat).len() as int;
            let lk = key_name(m.key).len() as int;
            let lb = bool_text(m.pressed).len() as int;
            let l2 = dec(m.timestamp as nat).len() as int;
            let p = 18 + l1 + lk;
            let q = 30 + l1 + lk + lb;
            let t = q + 13;
            &&& 1 <= l1 <= 3
            &&& 1 <= l2 <= 10
            &&& 1 <= lk <= 2
            &&& f.len() == t + l2 + 1
            &&& f.subrange(0, 10) == octave_tag()
            &&& forall|i: int| 10 <= i < 10 + l1 ==> #[trigger] is_digit(f[i])
            &&& digits_value(f.subrange(10, 10 + l1)) == m.octave
            &&& f[10 + l1] == 44
            &&& f.subrange(10 + l1, 18 + l1) == key_tag()
            &&& f.subrange(18 + l1, p) == key_name(m.key)
            &&& f[p] == 34
            &&& f.subrange(p, p + 12) == pressed_tag()
            &&& f.subrange(p + 12, q) == bool_text(m.pressed)
            &&& f.subrange(q, t) == timestamp_tag()
            &&& forall|i: int| t <= i < t + l2 ==> #[trigger] is_digit(f[i])
            &&& digits_value(f.subrange(t, t + l2)) == m.timestamp
            &&& f[t + l2] == 125
        }),
{
    reveal(frame_of);
    let f = frame_of(m);
    let d1 = dec(m.octave as nat);
    let d2 = dec(m.timestamp as nat);
    let l1 = d1.len() as int;
    let lk = key_name(m.key).len() as int;
    let lb = bool_text(m.pressed).len() as int;
    let l2 = d2.len() as int;
    let p = 18 + l1 + lk;
    let q = 30 + l1 + lk + lb;
    let t = q + 13;
    reveal_with_fuel(pow10, 11);
    lemma_dec(m.octave as nat, 3);
    lemma_dec(m.timestamp as nat, 10);
    assert(f.subrange(0, 10) =~= octave_tag());
    assert(f.subrange(10, 10 + l1) =~= d1);
    assert(f.subrange(10 + l1, 18 + l1) =~= key_tag());
    assert(f.subrange(18 + l1, p) =~= key_name(m.key));
    assert(f.subrange(p, p + 12) =~= pressed_tag());
    assert(f.subrange(p + 12, q) =~= bool_text(m.pressed));
    assert(f.subrange(q, t) =~= timestamp_tag());
    assert(f.subrange(t, t + l2) =~= d2);
    assert(f[t + l2] == 125);
    assert(f[10 + l1] == key_tag()[0]);
    assert(f[p] == pressed_tag()[0]);
    assert forall|i: int| 10 <= i < 10 + l1 implies #[trigger] is_digit(f[i]) by {
        assert(f[i] == f.subrange(10, 10 + l1)[i - 10]);
    }
    assert forall|i: int| t <= i < t + l2 implies #[trigger] is_digit(f[i]) by {
        assert(f[i] == f.subrange(t, t + l2)[i - t]);
    }
}

/// Where the octave's digits end in the frame of `m`.
pub open spec fn octave_end(m: Note) -> int {
    10 + dec(m.octave as nat).len() as int
}

/// Where the pitch class name ends in the frame of `m`.
pub open spec fn key_end(m: Note) -> int {
    octave_end(m) + 8 + key_name(m.key).len() as int
}

/// Where `true` or `false` ends in the frame of `m`.
pub open spec fn pressed_end(m: Note) -> int {
    key_end(m) + 12 + bool_text(m.pressed).len() as int
}

/// Reads the opening tag and the octave.
fn read_octave(b: &Vec<u8>) -> (r: Option<(u8, usize)>)
    ensures
        r matches Some(x) ==> x.1 <= b.len(),
        forall|m: Note| #[trigger] frame_of(m) == b@ ==> (r matches Some(x) && x.0 == m.octave && x.1 == octave_end(m)),
{
    if !expect_bytes(b, 0, &octave_tag_bytes()) {
        proof {
            assert forall|m: Note| #[trigger] frame_of(m) == b@ implies !(frame_of(m) == b@) by {
                lemma_frame_parts(m);
            }
        }
        return None;
    }
    let (o, p1) = scan_digits(b, 10);
    if p1 == 10 || o > 255 {
        proof {
            assert forall|m: Note| #[trigger] frame_of(m) == b@ implies !(frame_of(m) == b@) by {
                lemma_frame_parts(m);
                lemma_scan_exact(b@, 10, p1 as int, dec(m.octave as nat).len() as int);
            }
        }
        return None;
    }
    proof {
        assert forall|m: Note| #[trigger] frame_of(m) == b@ implies o == m.octave && p1 == octave_end(m) by {
            lemma_frame_parts(m);
            lemma_scan_exact(b@, 10, p1 as int, dec(m.octave as nat).len() as int);
        }
    }
    Some((o as u8, p1))
}

/// Reads the key tag from `pos` on, then the pitch class name.
fn read_key(b: &Vec<u8>, pos: usize) -> (r: Option<(Key, usize)>)
    requires
        pos <= b.len(),
    ensures
        r matches Some(x) ==> x.1 <= b.len(),
        forall|m: Note| #[trigger] frame_of(m) == b@ && pos == octave_end(m) ==> (r matches Some(x) && x.0 == m.key && x.1 == key_end(m)),
{
    if !expect_bytes(b, pos, &key_tag_bytes()) {
        proof {
            assert forall|m: Note| #[trigger] frame_of(m) == b@ implies !(frame_of(m) == b@ && pos == octave_end(m)) by {
                lemma_frame_parts(m);
            }
        }
        return None;
    }
    let r = scan_key(b, pos + 8);
    proof {
        assert forall|m: Note| #[trigger] frame_of(m) == b@ && pos == octave_end(m) implies (r matches Some(x) && x.0 == m.key && x.1 == key_end(m)) by {
            lemma_frame_parts(m);
        }
    }
    r
}

/// Reads the pressed tag from `pos` on, then `true` or `false`.
fn read_pressed(b: &Vec<u8>, pos: usize) -> (r: Option<(bool, usize)>)
    requires
        pos <= b.len(),
    ensures
        r matches Some(x) ==> x.1 <= b.len(),
        forall|m: Note| #[trigger] frame_of(m) == b@ && pos == key_end(m) ==> (r matches Some(x) && x.0 == m.pressed && x.1 == pressed_end(m)),
{
    if !expect_bytes(b, pos, &pressed_tag_bytes()) {
        proof {
            assert forall|m: Note| #[trigger] frame_of(m) == b@ implies !(frame_of(m) == b@ && pos == key_end(m)) by {
                lemma_frame_parts(m);
            }
        }
        return None;
    }
    let r = scan_bool(b, pos + 12);
    proof {
        assert forall|m: Note| #[trigger] frame_of(m) == b@ && pos == key_end(m) implies (r matches Some(x) && x.0 == m.pressed && x.1 == pressed_end(m)) by {
            lemma_frame_parts(m);
        }
    }
    r
}

/// The timestamp field of a frame: its tag after the pressed flag, then a run
/// of at most ten digits that spells the timestamp, then the closing brace.
proof fn lemma_timestamp_field(m: Note)
    ensures
        ({
            let f = frame_of(m);
            let t = pressed_end(m) + 13;
            let l2 = dec(m.timestamp as nat).len() as int;
            &&& 1 <= l2 <= 10
            &&& t + l2 < f.len()
            &&& f.subrange(pressed_end(m), t) == timestamp_tag()
            &&& forall|i: int| t <= i < t + l2 ==> #[trigger] is_digit(f[i])
            &&& digits_value(f.subrange(t, t + l2)) == m.timestamp
            &&& !is_digit(f[t + l2])
        }),
{
    lemma_frame_parts(m);
}

/// Reads the timestamp tag from `pos` on, then the timestamp.
fn read_timestamp(b: &Vec<u8>, pos: usize) -> (r: Option<u32>)
    requires
        pos <= b.len(),
    ensures
        forall|m: Note| #[trigger] frame_of(m) == b@ && pos == pressed_end(m) ==> r == Some(m.timestamp),
{
    if !expect_bytes(b, pos, &timestamp_tag_bytes()) {
        proof {
            assert forall|m: Note| #[trigger] frame_of(m) == b@ implies !(frame_of(m) == b@ && pos == pressed_end(m)) by {
                lemma_timestamp_field(m);
            }
        }
        return None;
    }
    let p6: usize = pos + 13;
    let (t, p7) = scan_digits(b, p6);
    if p7 == p6 || t > 0xFFFF_FFFF {
        proof {
            assert forall|m: Note| #[trigger] frame_of(m) == b@ implies !(frame_of(m) == b@ && pos == pressed_end(m)) by {
                lemma_timestamp_field(m);
                if pos == pressed_end(m) {
                    lemma_scan_exact(b@, p6 as int, p7 as int, dec(m.timestamp as nat).len() as int);
                }
            }
        }
        return None;
    }
    proof {
        assert forall|m: Note| #[trigger] frame_of(m) == b@ && pos == pressed_end(m) implies t == m.timestamp by {
            lemma_timestamp_field(m);
            lemma_scan_exact(b@, p6 as int, p7 as int, dec(m.timestamp as nat).len() as int);
        }
    }
    Some(t as u32)
}

/// Distinct notes have distinct frames.
pub proof fn lemma_frame_injective(a: Note, b: Note)
    requires
        frame_of(a) == frame_of(b),
    ensures
        a == b,
{
    let f = frame_of(a);
    lemma_frame_parts(a);
    lemma_frame_parts(b);
    let la = dec(a.octave as nat).len() as int;
    let lb = dec(b.octave as nat).len() as int;
    lemma_scan_exact(f, 10, 10 + la, lb);
    let p = 18 + la;
    let ka = key_name(a.key);
    let kb = key_name(b.key);
    assert(f.subrange(p, p + ka.len())[0] == f[p]);
    assert(f.subrange(p, p + kb.len())[0] == f[p]);
    if ka.len() == 2 {
        assert(f.subrange(p, p + 2)[1] == f[p + 1]);
    }
    if kb.len() == 2 {
        assert(f.subrange(p, p + 2)[1] == f[p + 1]);
    }
    assert(a.key == b.key);
    let q = key_end(a) + 12;
    assert(f.subrange(q, q + bool_text(a.pressed).len())[0] == f[q]);
    assert(f.subrange(q, q + bool_text(b.pressed).len())[0] == f[q]);
    assert(a.pressed == b.pressed);
    lemma_timestamp_field(a);
    lemma_timestamp_field(b);
    let t = pressed_end(a) + 13;
    lemma_scan_exact(f, t, t + dec(a.timestamp as nat).len(), dec(b.timestamp as nat).len() as int);
}

/// The note whose frame `b` is, if any.
pub open spec fn note_of_frame(b: Seq<u8>) -> Option<Note> {
    if exists|n: Note| #[trigger] frame_of(n) == b {
        Some(choose|n: Note| #[trigger] frame_of(n) == b)
    } else {
        None
    }
}

/// Parsing a note's frame gives the note back.
pub proof fn lemma_frame_round_trip(n: Note)
    ensures
        note_of_frame(frame_of(n)) == Some(n),
{
    let c = choose|c: Note| #[trigger] frame_of(c) == frame_of(n);
    lemma_frame_injective(c, n);
}

/// Reads a note back from its text frame; `None` where `b` is the frame of no
/// note.
pub fn parse_note_frame(b: &Vec<u8>) -> (r: Option<Note>)
    ensures
        r == note_of_frame(b@),
{
    let (octave, p1) = match read_octave(b) {
        Some(x) => x,
        None => return None,
    };
    let (key, p2) = match read_key(b, p1) {
        Some(x) => x,
        None => return None,
    };
    let (pressed, p3) = match read_pressed(b, p2) {
        Some(x) => x,
        None => return None,
    };
    let timestamp = match read_timestamp(b, p3) {
        Some(x) => x,
        None => return None,
    };
    let n = Note { octave, key, pressed, timestamp };
    if bytes_equal(&note_frame(&n), b) {
        proof {
            lemma_frame_round_trip(n);
        }
        Some(n)
    } else {
        None
    }
}

} // verus!
