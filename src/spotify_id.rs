use vstd::prelude::*;

use crate::codec::{
    b62_decode, b62_digit, b62_text, be_bytes, hex_text, lemma_b62_text_unique,
    lemma_b62_text_value, lemma_be_bytes_unique, lemma_hex_text, lemma_pow62_22, b62_encode, b62_value, be_value, hex_bytes, hex_decode, hex_encode,
    is_b62_text, is_hex_text, lemma_b62_concat, lemma_b62_minimal_len, lemma_b62_zeros,
    lemma_be_bound, lemma_be_bytes_len, lemma_be_bytes_value, lemma_be_concat, lemma_pow256_16, lemma_pow256_mono, lemma_pow256_pos, pow256,
};
use crate::error::{ErrorView, SpotifyIdError};
use crate::text::push_char;

verus! {

/// A 128-bit identifier of a catalog item. The same value can stand for an
/// album, a track or any other kind of item: the kind is not part of it.
#[derive(Debug, Clone, Copy, PartialEq, Eq, Hash)]
pub struct SpotifyId(pub u128);

/// What reading a 22-character base-62 id gives.
pub open spec fn id_from_b62(s: Seq<char>) -> Result<u128, ErrorView> {
    if s.len() != 22 {
        Err(ErrorView::IdSize(22, s))
    } else if is_b62_text(s) && b62_value(s) <= u128::MAX {
        Ok(b62_value(s) as u128)
    } else {
        Err(ErrorView::Format(s))
    }
}

/// What reading a 32-character lowercase hex id gives.
pub open spec fn id_from_hex(s: Seq<char>) -> Result<u128, ErrorView> {
    if s.len() != 32 {
        Err(ErrorView::IdSize(32, s))
    } else if is_hex_text(s) {
        Ok(be_value(hex_bytes(s)) as u128)
    } else {
        Err(ErrorView::Format(s))
    }
}

/// What reading 16 big-endian bytes gives.
pub open spec fn id_from_bytes(b: Seq<u8>) -> Result<u128, ErrorView> {
    if b.len() == 16 {
        Ok(be_value(b) as u128)
    } else {
        Err(ErrorView::IdBytes(b))
    }
}

/// The 32-digit lowercase hex text of an id.
pub open spec fn base16_text(v: u128) -> Seq<char> {
    hex_text(be_bytes(v as int, 16))
}

/// The 22-digit base-62 text of an id, in the alternative alphabet.
pub open spec fn base62_text(v: u128) -> Seq<char> {
    b62_text(v as int, 22)
}

/// The outcome of reading an id, as a plain value.
pub open spec fn id_outcome(r: Result<SpotifyId, SpotifyIdError>) -> Result<u128, ErrorView> {
    match r {
        Ok(id) => Ok(id.0),
        Err(e) => Err(e@),
    }
}

impl SpotifyId {
    /// Reads a 32-character lowercase hex id.
    pub fn from_base16(src: &str) -> (r: Result<Self, SpotifyIdError>)
        ensures
            id_outcome(r) == id_from_hex(src@),
    {
        if src.unicode_len() != 32 {
            return Err(SpotifyIdError::invalid_id_size(32, src));
        }
        match hex_decode(src) {
            Ok(bytes) => {
                match Self::from_buf(bytes.as_slice()) {
                    Ok(id) => Ok(id),
                    Err(_) => Err(SpotifyIdError::invalid_id_size(32, src)),
                }
            },
            Err(why) => Err(SpotifyIdError::invalid_format_because(why.as_str(), src)),
        }
    }

    /// Reads a 22-character base-62 id in the alternative alphabet.
    pub fn from_base62(src: &str) -> (r: Result<Self, SpotifyIdError>)
        ensures
            id_outcome(r) == id_from_b62(src@),
    {
        if src.unicode_len() != 22 {
            return Err(SpotifyIdError::invalid_id_size(22, src));
        }
        match b62_decode(src) {
            Ok(v) => Ok(SpotifyId(v)),
            Err(why) => Err(SpotifyIdError::invalid_format_because(why.as_str(), src)),
        }
    }

    /// Reads 16 bytes in big-endian order.
    pub fn from_buf(src: &[u8]) -> (r: Result<Self, SpotifyIdError>)
        ensures
            id_outcome(r) == id_from_bytes(src@),
    {
        if src.len() != 16 {
            return Err(SpotifyIdError::invalid_id_bytes(src));
        }
        let mut v: u128 = 0;
        let mut i: usize = 0;
        while i < 16
            invariant
                src@.len() == 16,
                i <= 16,
                v as int == be_value(src@.subrange(0, i as int)),
            decreases 16 - i,
        {
            let ghost pre = src@.subrange(0, i as int);
            let ghost next = src@.subrange(0, i + 1);
            proof {
                assert(next.drop_last() =~= pre);
                lemma_be_bound(next);
                lemma_pow256_mono((i + 1) as nat, 16);
                lemma_pow256_16();
            }
            v = v * 256 + src[i] as u128;
            i = i + 1;
        }
        assert(src@.subrange(0, 16) =~= src@);
        proof {
            lemma_be_bound(src@);
            lemma_pow256_16();
        }
        Ok(SpotifyId(v))
    }

    /// The 16 bytes of the id, in big-endian order.
    pub fn into_buf(&self) -> (r: [u8; 16])
        ensures
            r@ == be_bytes(self.0 as int, 16),
    {
        let mut w: Vec<u8> = Vec::new();
        let mut v: u128 = self.0;
        let mut k: usize = 0;
        while k < 16
            invariant
                k <= 16,
                w@.len() == k,
                self.0 as int == v as int * pow256(k as nat) + be_value(w@),
                v as int * pow256(k as nat) <= u128::MAX,
            decreases 16 - k,
        {
            let b = (v % 256) as u8;
            let ghost old_w = w@;
            w.insert(0, b);
            proof {
                assert(w@ =~= seq![b] + old_w);
                lemma_be_concat(seq![b], old_w);
                assert(seq![b].drop_last() =~= Seq::<u8>::empty());
                assert(be_value(Seq::<u8>::empty()) == 0);
                assert(seq![b].last() == b);
                assert(be_value(seq![b]) == b as int);
                let p = pow256(k as nat);
                let q = v as int / 256;
                assert(v as int == q * 256 + b as int);
                assert((q * 256 + b) * p == q * (256 * p) + b * p) by (nonlinear_arith);
                assert(q >= 0 && p >= 0 ==> q * (256 * p) <= (q * 256 + b) * p) by (nonlinear_arith)
                    requires b >= 0;
                lemma_pow256_pos(k as nat);
            }
            v = v / 256;
            k = k + 1;
        }
        proof {
            lemma_be_bound(w@);
            lemma_pow256_16();
            assert(v as int * pow256(16) <= u128::MAX);
            assert(v == 0) by (nonlinear_arith)
                requires v as int * pow256(16) <= u128::MAX, pow256(16) == u128::MAX + 1, v >= 0;
        }
        let r = [w[0], w[1], w[2], w[3], w[4], w[5], w[6], w[7], w[8], w[9], w[10], w[11], w[12],
            w[13], w[14], w[15]];
        assert(r@ =~= w@);
        proof {
            lemma_be_bytes_unique(r@);
        }
        r
    }

    /// The id as 32 lowercase hex digits.
    pub fn into_base16(&self) -> (r: String)
        ensures
            r@ == base16_text(self.0),
    {
        let buf = self.into_buf();
        hex_encode(&buf)
    }

    /// The text of the id: its base-62 form.
    pub fn to_string(&self) -> (r: String)
        ensures
            r@ == base62_text(self.0),
    {
        self.into_base62()
    }

    /// The id as 22 base-62 digits in the alternative alphabet, with leading zeros.
    pub fn into_base62(&self) -> (r: String)
        ensures
            r@ == base62_text(self.0),
    {
        let digits = b62_encode(self.0);
        proof {
            lemma_b62_minimal_len(digits@, self.0 as int);
        }
        let n = digits.unicode_len();
        let mut r = String::new();
        let mut k: usize = n;
        while k < 22
            invariant
                n <= k <= 22,
                r@ == Seq::new((k - n) as nat, |i: int| '0'),
            decreases 22 - k,
        {
            push_char(&mut r, '0');
            assert(r@ =~= Seq::new((k + 1 - n) as nat, |i: int| '0'));
            k = k + 1;
        }
        let ghost zeros = r@;
        r.append(digits.as_str());
        proof {
            lemma_b62_zeros((22 - n) as nat);
            lemma_b62_concat(zeros, digits@);
            assert forall|i: int| 0 <= i < r@.len() implies b62_digit(#[trigger] r@[i]) >= 0 by {
                if i >= zeros.len() {
                    assert(r@[i] == digits@[i - zeros.len()]);
                } else {
                    assert(r@[i] == zeros[i]);
                }
            }
            lemma_b62_text_unique(r@);
        }
        r
    }
}

/// Every id's base-62 text has 22 characters and reads back to the id.
pub proof fn lemma_base62_round_trip(v: u128)
    ensures
        base62_text(v).len() == 22,
        id_from_b62(base62_text(v)) == Ok::<u128, ErrorView>(v),
{
    lemma_pow62_22();
    lemma_b62_text_value(v as int, 22);
}

/// Every id's hex text has 32 characters and reads back to the id.
pub proof fn lemma_base16_round_trip(v: u128)
    ensures
        base16_text(v).len() == 32,
        id_from_hex(base16_text(v)) == Ok::<u128, ErrorView>(v),
{
    let b = be_bytes(v as int, 16);
    lemma_be_bytes_len(v as int, 16);
    lemma_hex_text(b);
    lemma_pow256_16();
    lemma_be_bytes_value(v as int, 16);
}

} // verus!
