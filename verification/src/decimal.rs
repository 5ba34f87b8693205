use vstd::prelude::*;

verus! {

/// The ASCII decimal digits of `n`, most significant first, without leading zeros
/// (zero itself is the single digit `0`).
pub open spec fn decimal_digits(n: nat) -> Seq<u8>
    decreases n,
{
    if n < 10 {
        seq![(48 + n) as u8]
    } else {
        decimal_digits(n / 10).push((48 + n % 10) as u8)
    }
}

/// Appends the decimal digits of `n` to `out`.
pub fn push_decimal(out: &mut Vec<u8>, n: usize)
    ensures
        final(out)@ == old(out)@ + decimal_digits(n as nat),
    decreases n,
{
    if n >= 10 {
        push_decimal(out, n / 10);
    }
    out.push(48u8 + (n % 10) as u8);
}

/// The number that a string of ASCII decimal digits denotes.
pub open spec fn decimal_value(digits: Seq<u8>) -> nat
    decreases digits.len(),
{
    if digits.len() == 0 {
        0
    } else {
        decimal_value(digits.drop_last()) * 10 + (digits.last() - 48) as nat
    }
}

/// The digits of `n` are ASCII decimal digits, there is at least one, there is
/// no leading zero unless `n` is zero, and read back they denote `n`.
pub proof fn lemma_decimal_digits_denote(n: nat)
    ensures
        decimal_digits(n).len() > 0,
        forall|i: int|
            0 <= i < decimal_digits(n).len() ==> 48 <= #[trigger] decimal_digits(n)[i] <= 57,
        n > 0 ==> decimal_digits(n)[0] != 48,
        decimal_value(decimal_digits(n)) == n,
    decreases n,
{
    if n >= 10 {
        lemma_decimal_digits_denote(n / 10);
        let d = decimal_digits(n / 10);
        let ds = decimal_digits(n);
        assert(ds == d.push((48 + n % 10) as u8));
        assert(ds.drop_last() == d);
        assert forall|i: int| 0 <= i < ds.len() implies 48 <= #[trigger] ds[i] <= 57 by {
            if i < d.len() {
                assert(ds[i] == d[i]);
            }
        }
        assert(ds[0] == d[0]);
        vstd::arithmetic::div_mod::lemma_fundamental_div_mod(n as int, 10);
        assert(ds.last() == 48 + n % 10);
        assert(decimal_value(ds) == decimal_value(d) * 10 + n % 10);
        assert((n / 10) * 10 + n % 10 == n);
    } else {
        let ds = decimal_digits(n);
        assert(ds.drop_last().len() == 0);
        assert(decimal_value(ds.drop_last()) == 0);
        assert(ds.last() == 48 + n);
    }
}

} // verus!
