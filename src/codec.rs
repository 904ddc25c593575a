use vstd::prelude::*;

verus! {

/// The value of a base-62 digit in the alternative alphabet
/// (`0-9`, then `a-z`, then `A-Z`), or -1 for any other character.
pub open spec fn b62_digit(c: char) -> int {
    let u = c as int;
    if 48 <= u <= 57 {
        u - 48
    } else if 97 <= u <= 122 {
        u - 87
    } else if 65 <= u <= 90 {
        u - 29
    } else {
        -1
    }
}

/// Every character of `s` is a base-62 digit.
pub open spec fn is_b62_text(s: Seq<char>) -> bool {
    forall|i: int| 0 <= i < s.len() ==> b62_digit(#[trigger] s[i]) >= 0
}

/// The number that the digits of `s` spell, most significant first.
pub open spec fn b62_value(s: Seq<char>) -> int
    decreases s.len(),
{
    if s.len() == 0 {
        0
    } else {
        b62_value(s.drop_last()) * 62 + b62_digit(s.last())
    }
}

/// `s` is the shortest base-62 spelling of `v`: no leading zero but for zero itself.
pub open spec fn is_b62_minimal(s: Seq<char>, v: int) -> bool {
    &&& s.len() >= 1
    &&& is_b62_text(s)
    &&& b62_value(s) == v
    &&& (s.len() > 1 ==> s[0] != '0')
}

pub open spec fn pow62(n: nat) -> int
    decreases n,
{
    if n == 0 {
        1
    } else {
        62 * pow62((n - 1) as nat)
    }
}

/// The value of a lowercase hex digit, or -1 for any other character.
pub open spec fn hex_digit(c: char) -> int {
    let u = c as int;
    if 48 <= u <= 57 {
        u - 48
    } else if 97 <= u <= 102 {
        u - 87
    } else {
        -1
    }
}

/// Every character of `s` is a lowercase hex digit.
pub open spec fn is_hex_text(s: Seq<char>) -> bool {
    forall|i: int| 0 <= i < s.len() ==> hex_digit(#[trigger] s[i]) >= 0
}

/// The bytes that the digit pairs of `s` spell, high nibble first.
pub open spec fn hex_bytes(s: Seq<char>) -> Seq<u8> {
    Seq::new(s.len() / 2, |i: int| (16 * hex_digit(s[2 * i]) + hex_digit(s[2 * i + 1])) as u8)
}

/// The base-62 digit of value `d`, in the alternative alphabet.
pub open spec fn b62_char(d: int) -> char {
    if d < 10 {
        (d + 48) as char
    } else if d < 36 {
        (d + 87) as char
    } else {
        (d + 29) as char
    }
}

/// The `n` lowest base-62 digits of `v`, most significant first.
pub open spec fn b62_text(v: int, n: nat) -> Seq<char>
    decreases n,
{
    if n == 0 {
        Seq::empty()
    } else {
        b62_text(v / 62, (n - 1) as nat).push(b62_char(v % 62))
    }
}

/// The lowercase hex digit of value `d`.
pub open spec fn hex_char(d: int) -> char {
    if d < 10 {
        (d + 48) as char
    } else {
        (d + 87) as char
    }
}

/// The lowercase hex spelling of `b`, two digits per byte, high nibble first.
pub open spec fn hex_text(b: Seq<u8>) -> Seq<char>
    decreases b.len(),
{
    if b.len() == 0 {
        Seq::empty()
    } else {
        hex_text(b.drop_last()) + seq![hex_char(b.last() as int / 16), hex_char(b.last() as int % 16)]
    }
}

/// The `n` lowest bytes of `v`, most significant first.
pub open spec fn be_bytes(v: int, n: nat) -> Seq<u8>
    decreases n,
{
    if n == 0 {
        Seq::empty()
    } else {
        be_bytes(v / 256, (n - 1) as nat).push((v % 256) as u8)
    }
}

/// The big-endian number that the bytes of `b` spell.
pub open spec fn be_value(b: Seq<u8>) -> int
    decreases b.len(),
{
    if b.len() == 0 {
        0
    } else {
        be_value(b.drop_last()) * 256 + b.last()
    }
}

/// Relies on `base62::encode_alternative`: the shortest spelling of `v` in
/// the alternative alphabet.
#[verifier::external_body]
pub(crate) fn b62_encode(v: u128) -> (r: String)
    ensures
        is_b62_minimal(r@, v as int),
{
    base62::encode_alternative(v)
}

/// Relies on `base62::decode_alternative`: it fails on empty input, on a byte
/// outside the alternative alphabet and on a value above `u128::MAX`, and
/// otherwise returns the value. The error is handed on as its message.
#[verifier::external_body]
pub(crate) fn b62_decode(s: &str) -> (r: Result<u128, String>)
    ensures
        r is Ok <==> (s@.len() > 0 && is_b62_text(s@) && b62_value(s@) <= u128::MAX),
        r matches Ok(v) ==> v as int == b62_value(s@),
{
    base62::decode_alternative(s).map_err(|e| e.to_string())
}

/// Relies on `data_encoding::HEXLOWER.encode`: two lowercase digits per byte.
#[verifier::external_body]
pub(crate) fn hex_encode(b: &[u8]) -> (r: String)
    ensures
        r@ == hex_text(b@),
{
    data_encoding::HEXLOWER.encode(b)
}

/// Relies on `data_encoding::HEXLOWER.decode`: it accepts exactly the inputs
/// of even length made of lowercase hex digits. The error is handed on as its
/// message.
#[verifier::external_body]
pub(crate) fn hex_decode(s: &str) -> (r: Result<Vec<u8>, String>)
    ensures
        r is Ok <==> (s@.len() % 2 == 0 && is_hex_text(s@)),
        r matches Ok(b) ==> b@ == hex_bytes(s@),
{
    data_encoding::HEXLOWER.decode(s.as_bytes()).map_err(|e| e.to_string())
}

pub proof fn lemma_b62_nonneg(s: Seq<char>)
    requires
        is_b62_text(s),
    ensures
        b62_value(s) >= 0,
    decreases s.len(),
{
    if s.len() > 0 {
        lemma_b62_nonneg(s.drop_last());
        assert(b62_digit(s[s.len() - 1]) >= 0);
    }
}

pub proof fn lemma_pow62_pos(n: nat)
    ensures
        pow62(n) >= 1,
    decreases n,
{
    if n > 0 {
        lemma_pow62_pos((n - 1) as nat);
    }
}

/// Digits `a` followed by digits `b` spell `a`'s value shifted by `b`'s length, plus `b`'s.
pub proof fn lemma_b62_concat(a: Seq<char>, b: Seq<char>)
    ensures
        b62_value(a + b) == b62_value(a) * pow62(b.len()) + b62_value(b),
    decreases b.len(),
{
    if b.len() == 0 {
        assert(a + b =~= a);
    } else {
        let b1 = b.drop_last();
        assert((a + b).drop_last() =~= a + b1);
        assert((a + b).last() == b.last());
        lemma_b62_concat(a, b1);
        let va = b62_value(a);
        let p = pow62(b1.len());
        assert(pow62(b.len()) == 62 * p);
        assert((va * p + b62_value(b1)) * 62 + b62_digit(b.last()) == va * (62 * p) + (
        b62_value(b1) * 62 + b62_digit(b.last()))) by (nonlinear_arith);
    }
}

/// A spelling whose first digit is not zero is at least the base to its length less one.
proof fn lemma_b62_lower_bound(s: Seq<char>)
    requires
        s.len() >= 1,
        is_b62_text(s),
        b62_digit(s[0]) >= 1,
    ensures
        b62_value(s) >= pow62((s.len() - 1) as nat),
    decreases s.len(),
{
    if s.len() == 1 {
        assert(s.drop_last() =~= Seq::<char>::empty());
        assert(b62_value(s.drop_last()) == 0);
        assert(b62_value(s) == b62_digit(s[0]));
        assert(pow62(0) == 1);
    } else {
        let s1 = s.drop_last();
        assert(s1[0] == s[0]);
        assert(is_b62_text(s1)) by {
            assert forall|i: int| 0 <= i < s1.len() implies b62_digit(#[trigger] s1[i]) >= 0 by {
                assert(s1[i] == s[i]);
            }
        }
        lemma_b62_lower_bound(s1);
        assert(b62_digit(s[s.len() - 1]) >= 0);
        let p = pow62((s1.len() - 1) as nat);
        assert(pow62((s.len() - 1) as nat) == 62 * p);
        let v1 = b62_value(s1);
        let d = b62_digit(s.last());
        assert(v1 >= p && d >= 0 ==> v1 * 62 + d >= 62 * p) by (nonlinear_arith);
    }
}

/// The shortest spelling of a 128-bit value has at most 22 digits.
pub proof fn lemma_b62_minimal_len(s: Seq<char>, v: int)
    requires
        is_b62_minimal(s, v),
        0 <= v <= u128::MAX,
    ensures
        s.len() <= 22,
{
    if s.len() > 22 {
        assert(b62_digit(s[0]) >= 0);
        assert(b62_digit(s[0]) != 0);
        lemma_b62_lower_bound(s);
        lemma_pow62_22();
        lemma_pow62_mono(22, (s.len() - 1) as nat);
    }
}

proof fn lemma_pow62_mono(a: nat, b: nat)
    requires
        a <= b,
    ensures
        pow62(a) <= pow62(b),
    decreases b,
{
    if a < b {
        lemma_pow62_mono(a, (b - 1) as nat);
        lemma_pow62_pos((b - 1) as nat);
    }
}

/// Zeros spell zero.
pub proof fn lemma_b62_zeros(n: nat)
    ensures
        b62_value(Seq::new(n, |i: int| '0')) == 0,
        is_b62_text(Seq::new(n, |i: int| '0')),
    decreases n,
{
    if n > 0 {
        let z = Seq::new(n, |i: int| '0');
        assert(z.drop_last() =~= Seq::new((n - 1) as nat, |i: int| '0'));
        lemma_b62_zeros((n - 1) as nat);
    }
}

} // verus!

verus! {

pub open spec fn pow256(n: nat) -> int
    decreases n,
{
    if n == 0 {
        1
    } else {
        256 * pow256((n - 1) as nat)
    }
}

/// Bytes `a` followed by bytes `b` spell `a`'s value shifted by `b`'s length, plus `b`'s.
pub proof fn lemma_be_concat(a: Seq<u8>, b: Seq<u8>)
    ensures
        be_value(a + b) == be_value(a) * pow256(b.len()) + be_value(b),
    decreases b.len(),
{
    if b.len() == 0 {
        assert(a + b =~= a);
        assert(be_value(b) == 0);
        assert(pow256(0) == 1);
    } else {
        let b1 = b.drop_last();
        assert((a + b).drop_last() =~= a + b1);
        assert((a + b).last() == b.last());
        lemma_be_concat(a, b1);
        let va = be_value(a);
        let p = pow256(b1.len());
        assert(pow256(b.len()) == 256 * p);
        assert((va * p + be_value(b1)) * 256 + b.last() == va * (256 * p) + (be_value(b1) * 256
            + b.last())) by (nonlinear_arith);
    }
}

/// `n` bytes spell a number below 256 to the `n`.
pub proof fn lemma_be_bound(b: Seq<u8>)
    ensures
        0 <= be_value(b) < pow256(b.len()),
    decreases b.len(),
{
    if b.len() > 0 {
        let b1 = b.drop_last();
        lemma_be_bound(b1);
        let v1 = be_value(b1);
        let p = pow256(b1.len());
        let x = b.last() as int;
        assert(0 <= x < 256);
        assert(0 <= v1 < p && 0 <= x < 256 ==> 0 <= v1 * 256 + x < 256 * p) by (nonlinear_arith);
    }
}

pub proof fn lemma_pow256_16()
    ensures
        pow256(16) == u128::MAX + 1,
{
    reveal_with_fuel(pow256, 17);
}

} // verus!

verus! {

pub proof fn lemma_pow256_pos(n: nat)
    ensures
        pow256(n) >= 1,
    decreases n,
{
    if n > 0 {
        lemma_pow256_pos((n - 1) as nat);
    }
}

pub proof fn lemma_pow256_mono(a: nat, b: nat)
    requires
        a <= b,
    ensures
        pow256(a) <= pow256(b),
    decreases b,
{
    if a < b {
        lemma_pow256_mono(a, (b - 1) as nat);
        lemma_pow256_pos((b - 1) as nat);
    }
}

} // verus!

verus! {

/// `n` digits of a value below 62 to the `n` spell it back.
pub proof fn lemma_b62_text_value(v: int, n: nat)
    requires
        0 <= v < pow62(n),
    ensures
        b62_text(v, n).len() == n,
        is_b62_text(b62_text(v, n)),
        b62_value(b62_text(v, n)) == v,
    decreases n,
{
    let t = b62_text(v, n);
    if n == 0 {
        assert(b62_value(t) == 0);
    } else {
        let p = pow62((n - 1) as nat);
        assert(v / 62 < p) by (nonlinear_arith)
            requires
                0 <= v < 62 * p,
        ;
        lemma_b62_text_value(v / 62, (n - 1) as nat);
        let t1 = b62_text(v / 62, (n - 1) as nat);
        assert(t.drop_last() =~= t1);
        assert(t.last() == b62_char(v % 62));
        assert(b62_digit(b62_char(v % 62)) == v % 62);
        assert forall|i: int| 0 <= i < t.len() implies b62_digit(#[trigger] t[i]) >= 0 by {
            if i < t1.len() {
                assert(t[i] == t1[i]);
            }
        }
    }
}

/// A text of `n` base-62 digits is the `n`-digit spelling of its value.
pub proof fn lemma_b62_text_unique(s: Seq<char>)
    requires
        is_b62_text(s),
    ensures
        s == b62_text(b62_value(s), s.len()),
    decreases s.len(),
{
    if s.len() > 0 {
        let s1 = s.drop_last();
        assert(is_b62_text(s1)) by {
            assert forall|i: int| 0 <= i < s1.len() implies b62_digit(#[trigger] s1[i]) >= 0 by {
                assert(s1[i] == s[i]);
            }
        }
        lemma_b62_text_unique(s1);
        lemma_b62_nonneg(s1);
        let c = s.last();
        assert(b62_digit(c) >= 0);
        let v1 = b62_value(s1);
        let d = b62_digit(c);
        assert((v1 * 62 + d) / 62 == v1 && (v1 * 62 + d) % 62 == d) by (nonlinear_arith)
            requires
                0 <= d < 62,
                v1 >= 0,
        ;
        assert(b62_char(d) == c);
        assert(s =~= s1.push(c));
    }
}

/// The hex spelling of bytes has two digits per byte and reads back to them.
pub proof fn lemma_hex_text(b: Seq<u8>)
    ensures
        hex_text(b).len() == 2 * b.len(),
        is_hex_text(hex_text(b)),
        hex_bytes(hex_text(b)) == b,
    decreases b.len(),
{
    if b.len() > 0 {
        let b1 = b.drop_last();
        lemma_hex_text(b1);
        let t1 = hex_text(b1);
        let x = b.last() as int;
        let t = hex_text(b);
        assert(t == t1 + seq![hex_char(x / 16), hex_char(x % 16)]);
        assert(hex_digit(hex_char(x / 16)) == x / 16);
        assert(hex_digit(hex_char(x % 16)) == x % 16);
        assert forall|i: int| 0 <= i < t.len() implies hex_digit(#[trigger] t[i]) >= 0 by {
            if i < t1.len() {
                assert(t[i] == t1[i]);
            }
        }
        assert forall|i: int| 0 <= i < b.len() implies #[trigger] hex_bytes(t)[i] == b[i] by {
            if i < b1.len() {
                assert(t[2 * i] == t1[2 * i]);
                assert(t[2 * i + 1] == t1[2 * i + 1]);
                assert(hex_bytes(t1)[i] == b1[i]);
            }
        }
        assert(hex_bytes(t) =~= b);
    }
}

/// `n` bytes are the `n`-byte spelling of their value.
pub proof fn lemma_be_bytes_unique(s: Seq<u8>)
    ensures
        s == be_bytes(be_value(s), s.len()),
    decreases s.len(),
{
    if s.len() > 0 {
        let s1 = s.drop_last();
        lemma_be_bytes_unique(s1);
        lemma_be_bound(s1);
        let v1 = be_value(s1);
        let d = s.last() as int;
        assert((v1 * 256 + d) / 256 == v1 && (v1 * 256 + d) % 256 == d) by (nonlinear_arith)
            requires
                0 <= d < 256,
                v1 >= 0,
        ;
        assert(s =~= s1.push(s.last()));
    }
}

} // verus!

verus! {

pub proof fn lemma_pow62_22()
    ensures
        pow62(22) > u128::MAX,
{
    reveal_with_fuel(pow62, 23);
    assert(pow62(21) == 43674252383913877424036476406214950912);
}

pub proof fn lemma_be_bytes_len(v: int, n: nat)
    ensures
        be_bytes(v, n).len() == n,
    decreases n,
{
    if n > 0 {
        lemma_be_bytes_len(v / 256, (n - 1) as nat);
    }
}

/// `n` bytes of a value below 256 to the `n` spell it back.
pub proof fn lemma_be_bytes_value(v: int, n: nat)
    requires
        0 <= v < pow256(n),
    ensures
        be_value(be_bytes(v, n)) == v,
    decreases n,
{
    if n > 0 {
        let p = pow256((n - 1) as nat);
        assert(v / 256 < p) by (nonlinear_arith)
            requires
                0 <= v < 256 * p,
        ;
        lemma_be_bytes_value(v / 256, (n - 1) as nat);
        let t = be_bytes(v, n);
        assert(t.drop_last() =~= be_bytes(v / 256, (n - 1) as nat));
    }
}

} // verus!
