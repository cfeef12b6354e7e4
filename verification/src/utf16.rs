//! Text as bytes of UTF-16, little end first, as the registry's own files hold
//! it.
use crate::text;
use vstd::prelude::*;
use vstd::utf8;

verus! {

/// The character with a given number, as `char::from_u32` finds it: every
/// number of a Unicode scalar value has one, and no other number.
pub assume_specification[ char::from_u32 ](i: u32) -> (r: Option<char>)
    ensures
        r == if utf8::is_scalar(i) {
            Some(i as char)
        } else {
            None
        },
;

// ---------------------------------------------------------------------------
// Units

/// The units of one character: one, or a pair of surrogates.
pub open spec fn units_of(c: char) -> Seq<u16> {
    let n = c as int;
    if n < 0x10000 {
        seq![n as u16]
    } else {
        seq![(0xd800 + (n - 0x10000) / 0x400) as u16, (0xdc00 + (n - 0x10000) % 0x400) as u16]
    }
}

/// The units of a text.
pub open spec fn encoded(s: Seq<char>) -> Seq<u16>
    decreases s.len(),
{
    if s.len() == 0 {
        Seq::empty()
    } else {
        encoded(s.drop_last()) + units_of(s.last())
    }
}

/// Whether the unit is the first of a pair.
pub open spec fn is_high(u: u16) -> bool {
    0xd800 <= u < 0xdc00
}

/// Whether the unit is the second of a pair.
pub open spec fn is_low(u: u16) -> bool {
    0xdc00 <= u < 0xe000
}

/// The character of a pair.
pub open spec fn pair_char(high: u16, low: u16) -> char {
    (0x10000 + (high - 0xd800) * 0x400 + (low - 0xdc00)) as char
}

/// The text of the units. A surrogate without its partner becomes the
/// replacement character.
pub open spec fn decoded(u: Seq<u16>) -> Seq<char>
    decreases u.len(),
{
    if u.len() == 0 {
        Seq::empty()
    } else if !is_high(u[0]) && !is_low(u[0]) {
        seq![u[0] as char] + decoded(u.skip(1))
    } else if is_high(u[0]) && u.len() >= 2 && is_low(u[1]) {
        seq![pair_char(u[0], u[1])] + decoded(u.skip(2))
    } else {
        seq!['\u{fffd}'] + decoded(u.skip(1))
    }
}

/// Decoding goes on after one character as from the start.
proof fn lemma_decoded_front(c: char, rest: Seq<u16>)
    ensures
        decoded(units_of(c) + rest) == seq![c] + decoded(rest),
{
    let all = units_of(c) + rest;
    let n = c as int;
    if n < 0x10000 {
        assert(all.skip(1) =~= rest);
        assert(all[0] as char == c);
    } else {
        assert(all.skip(2) =~= rest);
        assert(is_high(all[0]) && is_low(all[1]));
        assert(pair_char(all[0], all[1]) == c);
    }
}

/// Encoding from the front.
proof fn lemma_encoded_front(c: char, s: Seq<char>)
    ensures
        encoded(seq![c] + s) == units_of(c) + encoded(s),
    decreases s.len(),
{
    let all = seq![c] + s;
    if s.len() == 0 {
        assert(all.drop_last() =~= s);
        assert(encoded(s) =~= Seq::empty());
        assert(encoded(all) =~= units_of(c) + encoded(s));
    } else {
        assert(all.drop_last() =~= seq![c] + s.drop_last());
        lemma_encoded_front(c, s.drop_last());
        assert(encoded(all) =~= units_of(c) + encoded(s));
    }
}

/// The units of a text give the text back.
pub proof fn law_units_give_back_the_text(s: Seq<char>)
    ensures
        decoded(encoded(s)) == s,
    decreases s.len(),
{
    if s.len() == 0 {
        assert(decoded(encoded(s)) =~= s);
    } else {
        let c = s[0];
        let rest = s.skip(1);
        assert(seq![c] + rest =~= s);
        lemma_encoded_front(c, rest);
        lemma_decoded_front(c, encoded(rest));
        law_units_give_back_the_text(rest);
    }
}

/// The numbers of characters are bounded.
proof fn lemma_char_range(c: char)
    ensures
        0 <= c as int <= 0x10ffff,
{
}

/// Turns a text into units.
pub fn encode(s: &str) -> (r: Vec<u16>)
    ensures
        r@ == encoded(s@),
{
    let cs = text::chars_of(s);
    let mut r: Vec<u16> = Vec::new();
    assert(s@.take(0) =~= Seq::empty());
    for i in 0..cs.len()
        invariant
            cs@ == s@,
            r@ == encoded(s@.take(i as int)),
    {
        let ghost before = r@;
        let c: char = cs[i];
        proof {
            lemma_char_range(c);
        }
        let n: u32 = c as u32;
        if n < 0x10000 {
            r.push(n as u16);
        } else {
            let m: u32 = n - 0x10000;
            r.push((0xd800 + m / 0x400) as u16);
            r.push((0xdc00 + m % 0x400) as u16);
        }
        proof {
            assert(s@.take(i + 1).drop_last() =~= s@.take(i as int));
            assert(r@ =~= before + units_of(c));
        }
    }
    assert(s@.take(s@.len() as int) =~= s@);
    r
}

/// Turns units into a text.
pub fn decode(u: &Vec<u16>) -> (r: String)
    ensures
        r@ == decoded(u@),
{
    let n = u.len();
    let mut r = String::new();
    let mut i: usize = 0;
    assert(u@.skip(0) =~= u@);
    assert(r@ + decoded(u@) =~= decoded(u@));
    while i < n
        invariant
            n == u@.len(),
            i <= n,
            r@ + decoded(u@.skip(i as int)) == decoded(u@),
        decreases n - i,
    {
        let ghost rest = u@.skip(i as int);
        let ghost before = r@;
        let a: u16 = u[i];
        let mut code: u32 = 0xfffd;
        let mut step: usize = 1;
        if a < 0xd800 || a >= 0xe000 {
            code = a as u32;
        } else if a < 0xdc00 && i + 1 < n && u[i + 1] >= 0xdc00 && u[i + 1] < 0xe000 {
            code = 0x10000 + (a as u32 - 0xd800) * 0x400 + (u[i + 1] as u32 - 0xdc00);
            step = 2;
        }
        assert(rest.skip(step as int) =~= u@.skip(i + step));
        match char::from_u32(code) {
            Some(c) => {
                r.push(c);
                assert(decoded(rest) =~= seq![c] + decoded(rest.skip(step as int)));
                assert(r@ + decoded(rest.skip(step as int)) =~= before + decoded(rest));
            },
            None => {
                assert(false);
            },
        }
        i = i + step;
    }
    assert(u@.skip(n as int) =~= Seq::empty());
    assert(r@ + decoded(u@.skip(n as int)) =~= r@);
    r
}

// ---------------------------------------------------------------------------
// Bytes

/// The bytes of the units.
pub open spec fn bytes_of(u: Seq<u16>) -> Seq<u8> {
    Seq::new(
        2 * u.len(),
        |i: int|
            if i % 2 == 0 {
                (u[i / 2] % 256) as u8
            } else {
                (u[i / 2] / 256) as u8
            },
    )
}

/// The units that bytes hold; a byte left over at the end is dropped.
pub open spec fn units_in(b: Seq<u8>) -> Seq<u16> {
    Seq::new(b.len() / 2, |i: int| (b[2 * i] + 256 * b[2 * i + 1]) as u16)
}

/// The bytes of units give the units back.
proof fn lemma_bytes_give_back_units(u: Seq<u16>)
    ensures
        units_in(bytes_of(u)) == u,
{
    let b = bytes_of(u);
    assert forall|i: int| 0 <= i < u.len() implies units_in(b)[i] == u[i] by {
        assert((2 * i) % 2 == 0 && (2 * i) / 2 == i);
        assert((2 * i + 1) % 2 == 1 && (2 * i + 1) / 2 == i);
        assert(b[2 * i] == u[i] % 256);
        assert(b[2 * i + 1] == u[i] / 256);
    }
    assert(units_in(b) =~= u);
}

/// A text as the bytes of a file: a mark, then its units.
pub open spec fn file_bytes(s: Seq<char>) -> Seq<u8> {
    seq![0xffu8, 0xfeu8] + bytes_of(encoded(s))
}

/// Whether bytes begin with the mark.
pub open spec fn has_mark(b: Seq<u8>) -> bool {
    b.len() >= 2 && b[0] == 0xff && b[1] == 0xfe
}

/// The text of a file that begins with the mark.
pub open spec fn marked_text(b: Seq<u8>) -> Seq<char> {
    decoded(units_in(b.skip(2)))
}

/// Turns a text into the bytes of a file.
pub fn utf16le_with_bom(s: &str) -> (r: Vec<u8>)
    ensures
        r@ == file_bytes(s@),
{
    let units = encode(s);
    let mut r: Vec<u8> = vec![0xffu8, 0xfeu8];
    for i in 0..units.len()
        invariant
            r@ == seq![0xffu8, 0xfeu8] + bytes_of(units@.take(i as int)),
    {
        let ghost before = r@;
        let u: u16 = units[i];
        r.push((u % 256) as u8);
        r.push((u / 256) as u8);
        proof {
            let old_bytes = bytes_of(units@.take(i as int));
            let new_bytes = bytes_of(units@.take(i + 1));
            assert forall|k: int| 0 <= k < 2 * i implies new_bytes[k] == old_bytes[k] by {
                assert(0 <= k / 2 < i);
            }
            assert((2 * i) % 2 == 0 && (2 * i) / 2 == i as int);
            assert((2 * i + 1) % 2 == 1 && (2 * i + 1) / 2 == i as int);
            assert(new_bytes =~= old_bytes + seq![(u % 256) as u8, (u / 256) as u8]);
            assert(r@ =~= seq![0xffu8, 0xfeu8] + new_bytes);
        }
    }
    assert(units@.take(units@.len() as int) =~= units@);
    r
}

/// Reads the units after the mark.
pub fn read_marked(b: &Vec<u8>) -> (r: String)
    requires
        has_mark(b@),
    ensures
        r@ == marked_text(b@),
{
    let len = b.len();
    let n: usize = (len - 2) / 2;
    let ghost all = units_in(b@.skip(2));
    let mut units: Vec<u16> = Vec::new();
    for i in 0..n
        invariant
            len == b@.len(),
            len >= 2,
            n == (len - 2) / 2,
            all == units_in(b@.skip(2)),
            units@ == all.take(i as int),
    {
        let low: u16 = b[2 + 2 * i] as u16;
        let high: u16 = b[3 + 2 * i] as u16;
        units.push(low + 256 * high);
        proof {
            assert(b@.skip(2)[2 * i as int] == b@[2 + 2 * i as int]);
            assert(b@.skip(2)[2 * i as int + 1] == b@[3 + 2 * i as int]);
            assert(units@ =~= all.take(i + 1));
        }
    }
    assert(all.take(n as int) =~= all);
    decode(&units)
}

/// What was written as a file is read back.
pub proof fn law_file_gives_back_the_text(s: Seq<char>)
    ensures
        has_mark(file_bytes(s)),
        marked_text(file_bytes(s)) == s,
{
    assert(file_bytes(s).skip(2) =~= bytes_of(encoded(s)));
    lemma_bytes_give_back_units(encoded(s));
    law_units_give_back_the_text(s);
}

/// A character up to U+FFFF is its own unit. A later one is a pair of units
/// that carry ten bits each of its distance from U+10000, the high bits first.
pub proof fn law_units_carry_the_character(s: Seq<char>, c: char)
    ensures
        c as u32 <= 0xffff ==> encoded(s.push(c)) == encoded(s) + seq![c as u16],
        c as u32 > 0xffff ==> exists|high: u16, low: u16|
            0xd800 <= high <= 0xdbff && 0xdc00 <= low <= 0xdfff && 0x10000 + 0x400 * (high - 0xd800)
                + (low - 0xdc00) == c as u32 && encoded(s.push(c)) == #[trigger] encoded(s).push(
                high,
            ).push(low),
        encoded(Seq::empty()).len() == 0,
{
    lemma_char_range(c);
    assert(s.push(c).drop_last() =~= s);
    if c as u32 > 0xffff {
        let n = c as int - 0x10000;
        let high = (0xd800 + n / 0x400) as u16;
        let low = (0xdc00 + n % 0x400) as u16;
        assert(encoded(s.push(c)) =~= encoded(s).push(high).push(low));
    }
}

/// Half a pair without the other half is shown by the replacement character,
/// and what follows is not touched by it.
pub proof fn law_lone_halves_are_replaced(u: u16, rest: Seq<u16>)
    requires
        0xd800 <= u <= 0xdfff,
        u <= 0xdbff && rest.len() > 0 ==> !(0xdc00 <= rest[0] <= 0xdfff),
    ensures
        decoded(seq![u] + rest) == seq!['\u{fffd}'] + decoded(rest),
{
    assert((seq![u] + rest).skip(1) =~= rest);
}

/// A file begins with the bytes FF and FE, and each unit follows with its low
/// byte first.
pub proof fn law_low_bytes_come_first(s: Seq<char>, i: int)
    ensures
        file_bytes(s).len() == 2 + 2 * encoded(s).len(),
        file_bytes(s)[0] == 0xff && file_bytes(s)[1] == 0xfe,
        0 <= i < encoded(s).len() ==> file_bytes(s)[2 + 2 * i] + 256 * file_bytes(s)[3 + 2 * i]
            == encoded(s)[i],
{
    let u = encoded(s);
    if 0 <= i < u.len() {
        assert((2 * i) % 2 == 0 && (2 * i) / 2 == i);
        assert((2 * i + 1) % 2 == 1 && (2 * i + 1) / 2 == i);
        assert(file_bytes(s)[2 + 2 * i] == bytes_of(u)[2 * i]);
        assert(file_bytes(s)[3 + 2 * i] == bytes_of(u)[2 * i + 1]);
    }
}

} // verus!
