use vstd::prelude::*;

use crate::text::push_char;

verus! {

/// The value of a decimal digit, or -1 for any other character.
pub open spec fn dec_digit(c: char) -> int {
    if 48 <= c as int <= 57 {
        c as int - 48
    } else {
        -1
    }
}

pub open spec fn is_dec_text(s: Seq<char>) -> bool {
    forall|i: int| 0 <= i < s.len() ==> dec_digit(#[trigger] s[i]) >= 0
}

/// The number that the decimal digits of `s` spell, most significant first.
pub open spec fn dec_value(s: Seq<char>) -> int
    decreases s.len(),
{
    if s.len() == 0 {
        0
    } else {
        dec_value(s.drop_last()) * 10 + dec_digit(s.last())
    }
}

/// Reading an unsigned number no larger than `max`: an optional `+`, then at
/// least one decimal digit; nothing else is accepted.
pub open spec fn parse_dec(s: Seq<char>, max: int) -> Option<int> {
    let d = if s.len() > 0 && s[0] == '+' {
        s.drop_first()
    } else {
        s
    };
    if d.len() > 0 && is_dec_text(d) && dec_value(d) <= max {
        Some(dec_value(d))
    } else {
        None
    }
}

/// The shortest decimal spelling of `n`.
pub open spec fn dec_text(n: nat) -> Seq<char>
    decreases n,
{
    if n < 10 {
        seq![(n + 48) as char]
    } else {
        dec_text(n / 10).push(((n % 10) + 48) as char)
    }
}

proof fn lemma_dec_prefix_grows(d: Seq<char>, i: int)
    requires
        is_dec_text(d),
        0 <= i <= d.len(),
    ensures
        0 <= dec_value(d.subrange(0, i)) <= dec_value(d),
    decreases d.len() - i,
{
    if i < d.len() {
        lemma_dec_prefix_grows(d, i + 1);
        let a = d.subrange(0, i + 1);
        assert(a.drop_last() =~= d.subrange(0, i));
        assert(dec_digit(d[i]) >= 0);
        assert(a.last() == d[i]);
    } else {
        assert(d.subrange(0, i) =~= d);
        lemma_dec_nonneg(d);
    }
}

proof fn lemma_dec_nonneg(d: Seq<char>)
    requires
        is_dec_text(d),
    ensures
        dec_value(d) >= 0,
    decreases d.len(),
{
    if d.len() > 0 {
        let d1 = d.drop_last();
        assert(is_dec_text(d1)) by {
            assert forall|i: int| 0 <= i < d1.len() implies dec_digit(#[trigger] d1[i]) >= 0 by {
                assert(d1[i] == d[i]);
            }
        }
        lemma_dec_nonneg(d1);
        assert(dec_digit(d[d.len() - 1]) >= 0);
    }
}

/// Reads an unsigned decimal number no larger than `max`; the error is the
/// reason, as std words it.
pub fn parse_decimal(s: &Vec<char>, max: u64) -> (r: Result<u64, &'static str>)
    ensures
        r is Ok <==> parse_dec(s@, max as int) is Some,
        r matches Ok(v) ==> parse_dec(s@, max as int) == Some(v as int),
{
    let n = s.len();
    if n == 0 {
        return Err("cannot parse integer from empty string");
    }
    let start: usize = if s[0] == '+' {
        1
    } else {
        0
    };
    let ghost d = if s@[0] == '+' {
        s@.drop_first()
    } else {
        s@
    };
    assert(d =~= s@.subrange(start as int, n as int));
    if start == n {
        return Err("invalid digit found in string");
    }
    let mut acc: u64 = 0;
    let mut i: usize = start;
    while i < n
        invariant
            n == s@.len(),
            start <= i <= n,
            d =~= s@.subrange(start as int, n as int),
            n > 0,
            d == (if s@[0] == '+' {
                s@.drop_first()
            } else {
                s@
            }),
            forall|j: int| start <= j < i ==> dec_digit(#[trigger] s@[j]) >= 0,
            acc as int == dec_value(d.subrange(0, i - start)),
            acc <= max,
        decreases n - i,
    {
        let c = s[i];
        if !('0' <= c && c <= '9') {
            assert(d[i - start] == c);
            assert(dec_digit(c) < 0);
            assert(!is_dec_text(d));
            assert(parse_dec(s@, max as int) is None);
            return Err("invalid digit found in string");
        }
        let v = (c as u32 - 48) as u64;
        let ghost pre = d.subrange(0, i - start);
        let ghost next = d.subrange(0, i + 1 - start);
        assert(next.drop_last() =~= pre);
        assert(next.last() == c);
        assert(dec_digit(c) == v as int);
        assert(dec_value(next) == acc * 10 + v);
        if v > max || acc > (max - v) / 10 {
            proof {
                assert(acc * 10 + v > max) by (nonlinear_arith)
                    requires
                        v > max || acc > (max - v) / 10,
                        acc >= 0,
                ;
                assert(dec_value(next) > max);
                if is_dec_text(d) {
                    lemma_dec_prefix_grows(d, i + 1 - start);
                }
                assert(parse_dec(s@, max as int) is None);
            }
            return Err("number too large to fit in target type");
        }
        acc = acc * 10 + v;
        i = i + 1;
    }
    assert(d.subrange(0, n - start) =~= d);
    assert(is_dec_text(d)) by {
        assert forall|j: int| 0 <= j < d.len() implies dec_digit(#[trigger] d[j]) >= 0 by {
            assert(d[j] == s@[j + start]);
        }
    }
    Ok(acc)
}

/// Appends the shortest decimal spelling of `n`.
pub fn push_decimal(s: &mut String, n: u64)
    ensures
        final(s)@ == old(s)@ + dec_text(n as nat),
    decreases n,
{
    if n >= 10 {
        push_decimal(s, n / 10);
    }
    let c = ((n % 10) as u8 + 48) as char;
    push_char(s, c);
    proof {
        if n >= 10 {
            assert(dec_text(n as nat) == dec_text((n / 10) as nat).push(c));
        } else {
            assert(dec_text(n as nat) == seq![c]);
        }
    }
    assert(final(s)@ =~= old(s)@ + dec_text(n as nat));
}

/// The decimal spelling of a number reads back to it.
pub proof fn lemma_dec_round_trip(n: nat, max: int)
    requires
        n <= max,
    ensures
        parse_dec(dec_text(n), max) == Some(n as int),
        forall|i: int| 0 <= i < dec_text(n).len() ==> #[trigger] dec_text(n)[i] != ':',
{
    lemma_dec_text(n);
    let t = dec_text(n);
    assert(t[0] != '+');
}

proof fn lemma_dec_text(n: nat)
    ensures
        dec_text(n).len() > 0,
        is_dec_text(dec_text(n)),
        dec_value(dec_text(n)) == n,
        forall|i: int| 0 <= i < dec_text(n).len() ==> dec_digit(#[trigger] dec_text(n)[i]) >= 0,
    decreases n,
{
    let t = dec_text(n);
    if n < 10 {
        assert(t.drop_last() =~= Seq::<char>::empty());
        assert(dec_value(t.drop_last()) == 0);
    } else {
        lemma_dec_text(n / 10);
        let t1 = dec_text(n / 10);
        assert(t.drop_last() =~= t1);
        assert forall|i: int| 0 <= i < t.len() implies dec_digit(#[trigger] t[i]) >= 0 by {
            if i < t1.len() {
                assert(t[i] == t1[i]);
            }
        }
    }
}

} // verus!
