use vstd::prelude::*;

verus! {

/// The ASCII code of the decimal digit `d`.
pub open spec fn digit_byte(d: nat) -> u8 {
    (48 + d) as u8
}

pub open spec fn is_digit(b: u8) -> bool {
    48 <= b <= 57
}

/// The decimal digits of `m`, most significant first, with no leading zero.
pub open spec fn digits(m: nat) -> Seq<u8>
    decreases m,
{
    if m < 10 {
        seq![digit_byte(m)]
    } else {
        digits(m / 10) + seq![digit_byte(m % 10)]
    }
}

/// The decimal text of a signed integer: a `-` before the digits of a negative value.
pub open spec fn decimal(n: int) -> Seq<u8> {
    if n < 0 {
        seq![45u8] + digits((-n) as nat)
    } else {
        digits(n as nat)
    }
}

/// The value of a run of decimal digits.
pub open spec fn digits_value(s: Seq<u8>) -> int
    decreases s.len(),
{
    if s.len() == 0 {
        0
    } else {
        digits_value(s.drop_last()) * 10 + (s.last() - 48)
    }
}

/// Reads decimal text with an optional leading `-` as a signed integer.
pub open spec fn parse_decimal(s: Seq<u8>) -> int {
    if s.len() > 0 && s[0] == 45u8 {
        -digits_value(s.drop_first())
    } else {
        digits_value(s)
    }
}

proof fn lemma_digits(m: nat)
    ensures
        digits_value(digits(m)) == m,
        digits(m).len() >= 1,
        forall|i: int| 0 <= i < digits(m).len() ==> is_digit(#[trigger] digits(m)[i]),
    decreases m,
{
    let s = digits(m);
    if m >= 10 {
        lemma_digits(m / 10);
        assert(s.drop_last() =~= digits(m / 10));
        assert(m % 10 < 10);
        assert(s.last() == 48 + m % 10);
        assert(m == (m / 10) * 10 + m % 10);
    } else {
        assert(s.drop_last() =~= Seq::<u8>::empty());
        assert(digits_value(Seq::<u8>::empty()) == 0);
        assert(s.last() == 48 + m);
    }
}

/// Reading back the decimal text of `n` as a signed integer gives `n`.
pub proof fn lemma_decimal_round_trip(n: int)
    ensures
        parse_decimal(decimal(n)) == n,
        forall|i: int| 0 <= i < decimal(n).len() ==> (is_digit(#[trigger] decimal(n)[i]) || (i
            == 0 && n < 0)),
{
    if n < 0 {
        let d = digits((-n) as nat);
        lemma_digits((-n) as nat);
        assert((seq![45u8] + d).drop_first() =~= d);
    } else {
        lemma_digits(n as nat);
        assert(is_digit(decimal(n)[0]));
    }
}

/// Appends the decimal digits of `m` to `out`.
fn push_digits(m: usize, out: &mut Vec<u8>)
    ensures
        final(out)@ == old(out)@ + digits(m as nat),
    decreases m,
{
    if m >= 10 {
        push_digits(m / 10, out);
    }
    let d: u8 = (m % 10) as u8;
    out.push(48u8 + d);
    assert(final(out)@ =~= old(out)@ + digits(m as nat));
}

/// The decimal text of `n`, as std's integer formatting writes it: no leading
/// zero, and a `-` before a negative value.
pub fn decimal_bytes(n: isize) -> (r: Vec<u8>)
    ensures
        r@ == decimal(n as int),
{
    let mut out: Vec<u8> = Vec::new();
    if n < 0 {
        out.push(45u8);
        let m: usize = ((-(n + 1)) as usize) + 1;
        push_digits(m, &mut out);
        assert(out@ =~= decimal(n as int));
    } else {
        push_digits(n as usize, &mut out);
        assert(out@ =~= decimal(n as int));
    }
    out
}

} // verus!
