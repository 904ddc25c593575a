use vstd::prelude::*;
use vstd::utf8::{
    decode_utf8, encode_utf8, encode_utf8_decode_utf8, encode_utf8_valid_utf8, is_ascii_chars,
    is_ascii_chars_encode_utf8, valid_utf8,
};

use crate::error::{ErrorView, SpotifyIdError};
use crate::text::{chars_of, push_char};

verus! {

/// Bytes that the text codec of local items writes as `%XX`: every byte
/// outside ASCII, the control characters, `:`, `+` and `%`. Space is not
/// among them: it is written as `+`.
pub open spec fn pct_should_encode(b: u8) -> bool {
    b >= 128 || b < 32 || b == 127 || b == 58 || b == 43 || b == 37
}

/// The uppercase hex digit of value `d`.
pub open spec fn upper_hex_char(d: int) -> char {
    if d < 10 {
        (d + 48) as char
    } else {
        (d + 55) as char
    }
}

/// How one byte is written: `%` and two uppercase hex digits if it is in
/// the set above, else the byte itself.
pub open spec fn pct_piece(x: u8) -> Seq<char> {
    if pct_should_encode(x) {
        seq!['%', upper_hex_char(x as int / 16), upper_hex_char(x as int % 16)]
    } else {
        seq![x as char]
    }
}

/// Percent-encoding of `b` with the set above, byte by byte.
pub open spec fn pct_encode_bytes(b: Seq<u8>) -> Seq<char>
    decreases b.len(),
{
    if b.len() == 0 {
        Seq::empty()
    } else {
        pct_piece(b[0]) + pct_encode_bytes(b.drop_first())
    }
}

proof fn lemma_pct_encode_push(a: Seq<u8>, x: u8)
    ensures
        pct_encode_bytes(a.push(x)) == pct_encode_bytes(a) + pct_piece(x),
    decreases a.len(),
{
    if a.len() == 0 {
        assert(a.push(x).drop_first() =~= Seq::<u8>::empty());
        assert(a =~= Seq::<u8>::empty());
        assert(pct_encode_bytes(Seq::<u8>::empty()) == Seq::<char>::empty());
        assert(a.push(x)[0] == x);
        assert(pct_encode_bytes(a.push(x)) =~= pct_encode_bytes(a) + pct_piece(x));
    } else {
        assert(a.push(x).drop_first() =~= a.drop_first().push(x));
        lemma_pct_encode_push(a.drop_first(), x);
        assert(a.push(x)[0] == a[0]);
        assert(pct_encode_bytes(a.push(x)) =~= pct_encode_bytes(a) + pct_piece(x));
    }
}

/// The value of a hex digit of either case, or -1 for any other byte.
pub open spec fn any_hex_digit(b: u8) -> int {
    if 48 <= b <= 57 {
        b - 48
    } else if 97 <= b <= 102 {
        b - 87
    } else if 65 <= b <= 70 {
        b - 55
    } else {
        -1
    }
}

/// Percent-decoding: `%` and two hex digits of either case become the byte
/// they spell; every other byte, a `%` without two digits after it too,
/// stands for itself.
pub open spec fn pct_decode_bytes(b: Seq<u8>) -> Seq<u8>
    decreases b.len(),
{
    if b.len() == 0 {
        Seq::empty()
    } else if b[0] == 37 && b.len() >= 3 && any_hex_digit(b[1]) >= 0 && any_hex_digit(b[2]) >= 0 {
        seq![(16 * any_hex_digit(b[1]) + any_hex_digit(b[2])) as u8] + pct_decode_bytes(
            b.subrange(3, b.len() as int),
        )
    } else {
        seq![b[0]] + pct_decode_bytes(b.drop_first())
    }
}

/// `s` with each `+` read as a space.
pub open spec fn plus_to_space(s: Seq<char>) -> Seq<char> {
    Seq::new(s.len(), |i: int| if s[i] == '+' { ' ' } else { s[i] })
}

/// `s` with each space written as `+`.
pub open spec fn space_to_plus(s: Seq<char>) -> Seq<char> {
    Seq::new(s.len(), |i: int| if s[i] == ' ' { '+' } else { s[i] })
}

/// The text that a free-text field of a local item stands for, if it is
/// valid: `+` is a space, then percent escapes are decoded, and the bytes
/// must be UTF-8.
pub open spec fn local_text(field: Seq<char>) -> Option<Seq<char>> {
    let b = pct_decode_bytes(encode_utf8(plus_to_space(field)));
    if valid_utf8(b) {
        Some(decode_utf8(b))
    } else {
        None
    }
}

/// How a free-text field of a local item is written in a URI.
pub open spec fn local_field(s: Seq<char>) -> Seq<char> {
    space_to_plus(pct_encode_bytes(encode_utf8(s)))
}

/// Relies on `percent_encoding::percent_encode_byte`: `%` and the two
/// uppercase hex digits of the byte.
#[verifier::external_body]
fn pct_escape(b: u8) -> (r: &'static str)
    ensures
        r@ == seq!['%', upper_hex_char(b as int / 16), upper_hex_char(b as int % 16)],
{
    percent_encoding::percent_encode_byte(b)
}

/// Percent-encodes the UTF-8 bytes of `s` with the set of `pct_should_encode`.
fn pct_encode(s: &str) -> (r: String)
    ensures
        r@ == pct_encode_bytes(encode_utf8(s@)),
{
    let bytes = s.as_bytes();
    let mut r = String::new();
    let mut i: usize = 0;
    while i < bytes.len()
        invariant
            bytes@ == encode_utf8(s@),
            i <= bytes@.len(),
            r@ == pct_encode_bytes(bytes@.subrange(0, i as int)),
        decreases bytes@.len() - i,
    {
        let b = bytes[i];
        let ghost pre = bytes@.subrange(0, i as int);
        let ghost next = bytes@.subrange(0, i + 1);
        assert(next =~= pre.push(b));
        proof {
            lemma_pct_encode_push(pre, b);
        }
        if b >= 128 || b < 32 || b == 127 || b == 58 || b == 43 || b == 37 {
            r.append(pct_escape(b));
        } else {
            push_char(&mut r, b as char);
            assert(r@ =~= pct_encode_bytes(pre) + seq![b as char]);
        }
        i = i + 1;
    }
    assert(bytes@.subrange(0, bytes@.len() as int) =~= bytes@);
    r
}

/// Relies on `percent_encoding::percent_decode` and its `decode_utf8`: the
/// decoded bytes, read as UTF-8. The error is handed on as its message.
#[verifier::external_body]
fn pct_decode(s: &str) -> (r: Result<String, String>)
    ensures
        r is Ok <==> valid_utf8(pct_decode_bytes(encode_utf8(s@))),
        r matches Ok(t) ==> t@ == decode_utf8(pct_decode_bytes(encode_utf8(s@))),
{
    match percent_encoding::percent_decode(s.as_bytes()).decode_utf8() {
        Ok(t) => Ok(t.into_owned()),
        Err(e) => Err(e.to_string()),
    }
}

/// Decodes a free-text field of a local item; a field that does not decode
/// to UTF-8 is a format error about `src`.
pub fn url_decode(src: &str, field: &str) -> (r: Result<String, SpotifyIdError>)
    ensures
        r is Ok <==> local_text(field@) is Some,
        r matches Ok(t) ==> local_text(field@) == Some(t@),
        r matches Err(e) ==> e@ == ErrorView::Format(src@),
{
    let cs = chars_of(field);
    let mut spaced = String::new();
    let mut i: usize = 0;
    while i < cs.len()
        invariant
            cs@ == field@,
            i <= cs@.len(),
            spaced@ == plus_to_space(cs@).subrange(0, i as int),
        decreases cs@.len() - i,
    {
        let c = if cs[i] == '+' {
            ' '
        } else {
            cs[i]
        };
        push_char(&mut spaced, c);
        assert(spaced@ =~= plus_to_space(cs@).subrange(0, i + 1));
        i = i + 1;
    }
    assert(plus_to_space(cs@).subrange(0, cs@.len() as int) =~= plus_to_space(cs@));
    match pct_decode(spaced.as_str()) {
        Ok(t) => Ok(t),
        Err(why) => Err(SpotifyIdError::invalid_format_because(why.as_str(), src)),
    }
}

/// Writes a free-text field of a local item: percent-encoding, then each
/// space as `+`.
pub fn url_encode(s: &str) -> (r: String)
    ensures
        r@ == local_field(s@),
{
    let enc = pct_encode(s);
    let cs = chars_of(enc.as_str());
    let mut r = String::new();
    let mut i: usize = 0;
    while i < cs.len()
        invariant
            cs@ == enc@,
            i <= cs@.len(),
            r@ == space_to_plus(cs@).subrange(0, i as int),
        decreases cs@.len() - i,
    {
        let c = if cs[i] == ' ' {
            '+'
        } else {
            cs[i]
        };
        push_char(&mut r, c);
        assert(r@ =~= space_to_plus(cs@).subrange(0, i + 1));
        i = i + 1;
    }
    assert(space_to_plus(cs@).subrange(0, cs@.len() as int) =~= space_to_plus(cs@));
    r
}

/// The bytes of ASCII characters.
spec fn ascii_bytes(e: Seq<char>) -> Seq<u8> {
    Seq::new(e.len(), |i: int| e[i] as u8)
}

/// Each piece is ASCII, holds no `+` and no colon, and its bytes decode back
/// to the byte it stands for, whatever follows.
proof fn lemma_pct_piece(x: u8, rest: Seq<u8>)
    ensures
        is_ascii_chars(pct_piece(x)),
        forall|i: int| 0 <= i < pct_piece(x).len() ==> #[trigger] pct_piece(x)[i] != '+'
            && pct_piece(x)[i] != ':',
        pct_decode_bytes(ascii_bytes(pct_piece(x)) + rest) == seq![x] + pct_decode_bytes(rest),
{
    let p = pct_piece(x);
    let b = ascii_bytes(p) + rest;
    if pct_should_encode(x) {
        let hi = x as int / 16;
        let lo = x as int % 16;
        assert(any_hex_digit(upper_hex_char(hi) as u8) == hi);
        assert(any_hex_digit(upper_hex_char(lo) as u8) == lo);
        assert(b[0] == 37);
        assert(b.subrange(3, b.len() as int) =~= rest);
        assert((16 * hi + lo) as u8 == x);
    } else {
        assert(b[0] == x);
        assert(b.drop_first() =~= rest);
    }
}

/// Percent-encoded bytes are ASCII, hold no `+` and no colon, and decode
/// back to the bytes.
proof fn lemma_pct_round_trip(b: Seq<u8>)
    ensures
        is_ascii_chars(pct_encode_bytes(b)),
        forall|i: int| 0 <= i < pct_encode_bytes(b).len() ==> #[trigger] pct_encode_bytes(b)[i]
            != '+' && pct_encode_bytes(b)[i] != ':',
        pct_decode_bytes(ascii_bytes(pct_encode_bytes(b))) == b,
    decreases b.len(),
{
    if b.len() == 0 {
        assert(ascii_bytes(pct_encode_bytes(b)) =~= Seq::<u8>::empty());
        assert(b =~= Seq::<u8>::empty());
    } else {
        let t = b.drop_first();
        lemma_pct_round_trip(t);
        let p = pct_piece(b[0]);
        let e = pct_encode_bytes(t);
        lemma_pct_piece(b[0], ascii_bytes(e));
        assert(pct_encode_bytes(b) == p + e);
        assert(ascii_bytes(p + e) =~= ascii_bytes(p) + ascii_bytes(e));
        assert(is_ascii_chars(p + e)) by {
            assert forall|i: int| 0 <= i < (p + e).len() implies '\0' <= #[trigger] (p + e)[i]
                <= '\u{7f}' by {
                if i < p.len() {
                    assert((p + e)[i] == p[i]);
                } else {
                    assert((p + e)[i] == e[i - p.len()]);
                }
            }
        }
        assert forall|i: int| 0 <= i < (p + e).len() implies #[trigger] (p + e)[i] != '+' && (p
            + e)[i] != ':' by {
            if i < p.len() {
                assert((p + e)[i] == p[i]);
            } else {
                assert((p + e)[i] == e[i - p.len()]);
            }
        }
        assert(seq![b[0]] + t =~= b);
    }
}

/// Writing a text as a field of a local item and reading the field back
/// gives the text; the field holds no colon.
pub proof fn lemma_local_field_round_trip(s: Seq<char>)
    ensures
        local_text(local_field(s)) == Some(s),
        forall|i: int| 0 <= i < local_field(s).len() ==> #[trigger] local_field(s)[i] != ':',
{
    let b = encode_utf8(s);
    let e = pct_encode_bytes(b);
    lemma_pct_round_trip(b);
    let f = local_field(s);
    assert(plus_to_space(f) =~= e);
    is_ascii_chars_encode_utf8(e);
    assert(encode_utf8(e) =~= ascii_bytes(e));
    encode_utf8_valid_utf8(s);
    encode_utf8_decode_utf8(s);
}

} // verus!
