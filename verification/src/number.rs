use vstd::prelude::*;

verus! {

/// ASCII decimal digit.
pub open spec fn is_digit(b: u8) -> bool {
    48 <= b <= 57
}

/// Every byte of `s` is a decimal digit.
pub open spec fn all_digits(s: Seq<u8>) -> bool {
    forall|i: int| 0 <= i < s.len() ==> is_digit(#[trigger] s[i])
}

/// Numeric value of a digit string, most significant digit first.
pub open spec fn dec_value(s: Seq<u8>) -> nat
    decreases s.len(),
{
    if s.len() == 0 {
        0
    } else {
        dec_value(s.drop_last()) * 10 + (s.last() - 48) as nat
    }
}

/// A token parses as a `u32` exactly when it is a nonempty digit string
/// whose value fits.
pub open spec fn id_parseable(t: Seq<u8>) -> bool {
    t.len() > 0 && all_digits(t) && dec_value(t) <= u32::MAX
}

/// A digit string is worth at least as much as any of its prefixes.
pub proof fn lemma_dec_value_prefix_le(s: Seq<u8>, i: int)
    requires
        0 <= i <= s.len(),
    ensures
        dec_value(s.take(i)) <= dec_value(s),
    decreases s.len() - i,
{
    if i < s.len() {
        assert(s.take(i + 1).drop_last() =~= s.take(i));
        assert(dec_value(s.take(i)) <= dec_value(s.take(i + 1)));
        lemma_dec_value_prefix_le(s, i + 1);
    } else {
        assert(s.take(i) =~= s);
    }
}

/// Parses a token as a non-negative decimal integer. Returns the value
/// exactly when the token is a nonempty digit string whose value fits in a
/// `u32`; anything else is rejected.
pub fn parse_u32(t: &Vec<u8>) -> (r: Option<u32>)
    ensures
        r is Some <==> id_parseable(t@),
        r matches Some(v) ==> v == dec_value(t@),
{
    if t.len() == 0 {
        return None;
    }
    let mut acc: u64 = 0;
    let mut i: usize = 0;
    while i < t.len()
        invariant
            i <= t@.len(),
            acc <= u32::MAX,
            acc == dec_value(t@.take(i as int)),
            forall|j: int| 0 <= j < i ==> is_digit(#[trigger] t@[j]),
        decreases t@.len() - i,
    {
        let b = t[i];
        if b < 48 || b > 57 {
            return None;
        }
        acc = acc * 10 + ((b - 48) as u64);
        proof {
            assert(t@.take(i as int + 1).drop_last() =~= t@.take(i as int));
        }
        i = i + 1;
        if acc > u32::MAX as u64 {
            proof {
                lemma_dec_value_prefix_le(t@, i as int);
            }
            return None;
        }
    }
    proof {
        assert(t@.take(t@.len() as int) =~= t@);
    }
    Some(acc as u32)
}

/// Decimal rendering of `n`, most significant digit first, no leading zeros
/// except for `n == 0` itself.
pub open spec fn dec_digits(n: nat) -> Seq<u8>
    decreases n,
{
    if n < 10 {
        seq![(48 + n) as u8]
    } else {
        dec_digits(n / 10).push((48 + n % 10) as u8)
    }
}

/// Renders `x` in decimal.
pub fn u32_to_dec(x: u32) -> (out: Vec<u8>)
    ensures
        out@ == dec_digits(x as nat),
    decreases x,
{
    if x < 10 {
        let mut out: Vec<u8> = Vec::new();
        out.push(48 + (x as u8));
        proof {
            assert(out@ =~= dec_digits(x as nat));
        }
        out
    } else {
        let mut out = u32_to_dec(x / 10);
        out.push(48 + ((x % 10) as u8));
        proof {
            assert(out@ =~= dec_digits(x as nat));
        }
        out
    }
}

} // verus!
