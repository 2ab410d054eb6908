//! Values as they stand in the query of an address: every byte that could
//! be taken for part of the address is written as `%` and two hex digits.

use vstd::prelude::*;
use vstd::utf8::{decode_utf8, encode_utf8, encode_utf8_decode_utf8};

verus! {

/// The bytes that stand for themselves in a query: letters, digits, `-`,
/// `.`, `_` and `~`.
pub open spec fn is_unreserved(b: u8) -> bool {
    ||| 0x41 <= b <= 0x5A
    ||| 0x61 <= b <= 0x7A
    ||| 0x30 <= b <= 0x39
    ||| b == 0x2D
    ||| b == 0x2E
    ||| b == 0x5F
    ||| b == 0x7E
}

/// The digit that stands for `d` in base sixteen, letters in upper case.
pub open spec fn hex_digit(d: u8) -> char {
    if d < 10 {
        ((0x30 + d) as u8) as char
    } else {
        ((0x37 + d) as u8) as char
    }
}

/// One byte as it stands in a query: itself if it is unreserved, else `%`
/// and its two hex digits.
pub open spec fn encoded_byte(b: u8) -> Seq<char> {
    if is_unreserved(b) {
        seq![b as char]
    } else {
        seq!['%', hex_digit(b / 16), hex_digit(b % 16)]
    }
}

/// The bytes as they stand in a query, one behind the other.
pub open spec fn encoded_bytes(bytes: Seq<u8>) -> Seq<char>
    decreases bytes.len(),
{
    if bytes.len() == 0 {
        Seq::empty()
    } else {
        encoded_byte(bytes.first()) + encoded_bytes(bytes.drop_first())
    }
}

/// A text as it stands in a query: its UTF-8 bytes, each unreserved byte as
/// it is and every other byte as `%` and two hex digits.
pub open spec fn encoded_value(text: Seq<char>) -> Seq<char> {
    encoded_bytes(encode_utf8(text))
}

/// The text for one unreserved byte.
fn unreserved_text(b: u8) -> (r: &'static str)
    requires
        is_unreserved(b),
    ensures
        r@ == seq![b as char],
{
    let table = "ABCDEFGHIJKLMNOPQRSTUVWXYZabcdefghijklmnopqrstuvwxyz0123456789-._~";
    proof {
        reveal_strlit("ABCDEFGHIJKLMNOPQRSTUVWXYZabcdefghijklmnopqrstuvwxyz0123456789-._~");
    }
    let at: usize = if b >= 0x41 && b <= 0x5A {
        (b - 0x41) as usize
    } else if b >= 0x61 && b <= 0x7A {
        (b - 0x61) as usize + 26
    } else if b >= 0x30 && b <= 0x39 {
        (b - 0x30) as usize + 52
    } else if b == 0x2D {
        62
    } else if b == 0x2E {
        63
    } else if b == 0x5F {
        64
    } else {
        65
    };
    assert(table@[at as int] == b as char);
    let r = table.substring_ascii(at, at + 1);
    assert(r@ =~= seq![b as char]);
    r
}

/// The text for one hex digit.
fn hex_text(d: u8) -> (r: &'static str)
    requires
        d < 16,
    ensures
        r@ == seq![hex_digit(d)],
{
    let table = "0123456789ABCDEF";
    proof {
        reveal_strlit("0123456789ABCDEF");
    }
    assert(table@[d as int] == hex_digit(d));
    let r = table.substring_ascii(d as usize, d as usize + 1);
    assert(r@ =~= seq![hex_digit(d)]);
    r
}

/// Writes `text` as it stands in a query.
pub fn encode_value(text: &str) -> (r: String)
    ensures
        r@ == encoded_value(text@),
{
    let bytes = text.as_bytes();
    let mut out = String::new();
    let mut i: usize = 0;
    assert(bytes@.skip(0) =~= bytes@);
    assert(out@ + encoded_bytes(bytes@) =~= encoded_bytes(bytes@));
    while i < bytes.len()
        invariant
            i <= bytes.len(),
            bytes@ == encode_utf8(text@),
            out@ + encoded_bytes(bytes@.skip(i as int)) == encoded_bytes(bytes@),
        decreases bytes.len() - i,
    {
        let b = bytes[i];
        let ghost so_far = out@;
        let ghost rest = bytes@.skip(i as int);
        proof {
            assert(rest.first() == b);
            assert(rest.drop_first() =~= bytes@.skip(i + 1));
        }
        if (b >= 0x41 && b <= 0x5A) || (b >= 0x61 && b <= 0x7A) || (b >= 0x30 && b <= 0x39) || b
            == 0x2D || b == 0x2E || b == 0x5F || b == 0x7E {
            out.append(unreserved_text(b));
        } else {
            out.append("%");
            out.append(hex_text(b / 16));
            out.append(hex_text(b % 16));
            proof {
                reveal_strlit("%");
                assert("%"@ =~= seq!['%']);
            }
        }
        assert(out@ =~= so_far + encoded_byte(b));
        assert(out@ + encoded_bytes(bytes@.skip(i + 1)) =~= so_far + (encoded_byte(b)
            + encoded_bytes(bytes@.skip(i + 1))));
        i += 1;
    }
    assert(bytes@.skip(bytes@.len() as int) =~= Seq::<u8>::empty());
    assert(out@ + Seq::<char>::empty() =~= out@);
    out
}

/// A character that an encoded value may hold: an unreserved one or `%`.
pub open spec fn is_value_char(c: char) -> bool {
    c == '%' || ((c as u32) < 128 && is_unreserved(c as u8))
}

/// An encoded byte holds none but value characters.
pub proof fn lemma_encoded_byte_chars(b: u8, k: int)
    requires
        0 <= k < encoded_byte(b).len(),
    ensures
        is_value_char(encoded_byte(b)[k]),
{
    if !is_unreserved(b) {
        let d = if k == 1 {
            b / 16
        } else {
            b % 16
        };
        assert(d < 16);
        assert(is_value_char(hex_digit(d)));
    }
}

/// An encoded value holds none but value characters: no `&`, `=`, `#`, `?`,
/// `/` or space can stand in it.
pub proof fn lemma_encoded_chars(bytes: Seq<u8>, k: int)
    requires
        0 <= k < encoded_bytes(bytes).len(),
    ensures
        is_value_char(encoded_bytes(bytes)[k]),
    decreases bytes.len(),
{
    let head = encoded_byte(bytes.first());
    if k < head.len() {
        lemma_encoded_byte_chars(bytes.first(), k);
    } else {
        lemma_encoded_chars(bytes.drop_first(), k - head.len());
    }
}

/// The value that begins a text: its characters up to the first `&`, or all
/// of them if there is none.
pub open spec fn leading_value(s: Seq<char>) -> Seq<char>
    decreases s.len(),
{
    if s.len() == 0 || s[0] == '&' {
        Seq::empty()
    } else {
        seq![s[0]] + leading_value(s.skip(1))
    }
}

/// A text without `&` that is followed by nothing, or by `&`, is the value
/// that begins the whole.
pub proof fn lemma_leading_value(value: Seq<char>, rest: Seq<char>)
    requires
        forall|k: int| 0 <= k < value.len() ==> value[k] != '&',
        rest.len() == 0 || rest[0] == '&',
    ensures
        leading_value(value + rest) == value,
    decreases value.len(),
{
    let whole = value + rest;
    if value.len() == 0 {
        assert(whole =~= rest);
    } else {
        assert(whole[0] == value[0]);
        assert(whole.skip(1) =~= value.skip(1) + rest);
        assert forall|k: int| 0 <= k < value.skip(1).len() implies value.skip(1)[k] != '&' by {
            assert(value.skip(1)[k] == value[k + 1]);
        }
        lemma_leading_value(value.skip(1), rest);
        assert(seq![value[0]] + value.skip(1) =~= value);
    }
}

/// An encoded text that is followed by nothing, or by `&`, is the value that
/// begins the whole: nothing in the text can end its own value early.
pub proof fn lemma_encoded_value_is_leading(text: Seq<char>, rest: Seq<char>)
    requires
        rest.len() == 0 || rest[0] == '&',
    ensures
        leading_value(encoded_value(text) + rest) == encoded_value(text),
{
    let value = encoded_value(text);
    assert forall|k: int| 0 <= k < value.len() implies value[k] != '&' by {
        lemma_encoded_chars(encode_utf8(text), k);
    }
    lemma_leading_value(value, rest);
}

/// The number that a hex digit stands for; `0` for any other character.
pub open spec fn hex_value(c: char) -> int {
    let v = c as u32;
    if 0x30 <= v <= 0x39 {
        v - 0x30
    } else if 0x41 <= v <= 0x46 {
        v - 0x37
    } else if 0x61 <= v <= 0x66 {
        v - 0x57
    } else {
        0
    }
}

/// The bytes that a value of a query stands for: `%` and two characters give
/// the byte that the two name as hex digits, any other character gives its
/// own byte.
pub open spec fn decoded_bytes(s: Seq<char>) -> Seq<u8>
    decreases s.len(),
{
    if s.len() == 0 {
        Seq::empty()
    } else if s[0] == '%' && s.len() >= 3 {
        seq![(hex_value(s[1]) * 16 + hex_value(s[2])) as u8] + decoded_bytes(s.skip(3))
    } else {
        seq![s[0] as u8] + decoded_bytes(s.skip(1))
    }
}

/// The text that a value of a query stands for.
pub open spec fn decoded_value(s: Seq<char>) -> Seq<char> {
    decode_utf8(decoded_bytes(s))
}

/// Decoding gives back the bytes that were encoded.
pub proof fn lemma_decoded_bytes(bytes: Seq<u8>)
    ensures
        decoded_bytes(encoded_bytes(bytes)) == bytes,
    decreases bytes.len(),
{
    if bytes.len() > 0 {
        let b = bytes.first();
        let tail = encoded_bytes(bytes.drop_first());
        let s = encoded_bytes(bytes);
        lemma_decoded_bytes(bytes.drop_first());
        if is_unreserved(b) {
            assert(s[0] == b as char);
            assert(s.skip(1) =~= tail);
            assert((b as char) as u8 == b);
        } else {
            let hi = b / 16;
            let lo = b % 16;
            assert(s[0] == '%' && s[1] == hex_digit(hi) && s[2] == hex_digit(lo));
            assert(s.skip(3) =~= tail);
            assert(hex_value(hex_digit(hi)) == hi);
            assert(hex_value(hex_digit(lo)) == lo);
            assert(hi * 16 + lo == b);
        }
        assert(seq![b] + bytes.drop_first() =~= bytes);
    }
}

/// A value carries its text: decoding an encoded text gives the text back,
/// whatever characters it holds.
pub proof fn lemma_decoded_value(text: Seq<char>)
    ensures
        decoded_value(encoded_value(text)) == text,
{
    lemma_decoded_bytes(encode_utf8(text));
    encode_utf8_decode_utf8(text);
}

} // verus!
