//! Decimal text of unsigned integers.
use vstd::prelude::*;

verus! {

/// The character of decimal digit `d`.
pub open spec fn digit_char(d: nat) -> char {
    (48 + d) as char
}

/// The decimal digits of `n`, most significant first, without leading zeros.
pub open spec fn decimal(n: nat) -> Seq<char>
    decreases n,
{
    if n < 10 {
        seq![digit_char(n)]
    } else {
        decimal(n / 10).push(digit_char(n % 10))
    }
}

/// The one-character string of decimal digit `d`.
fn digit_str(d: u64) -> (s: &'static str)
    requires
        d < 10,
    ensures
        s@ == seq![digit_char(d as nat)],
{
    proof {
        reveal_strlit("0");
        reveal_strlit("1");
        reveal_strlit("2");
        reveal_strlit("3");
        reveal_strlit("4");
        reveal_strlit("5");
        reveal_strlit("6");
        reveal_strlit("7");
        reveal_strlit("8");
        reveal_strlit("9");
    }
    match d {
        0 => "0",
        1 => "1",
        2 => "2",
        3 => "3",
        4 => "4",
        5 => "5",
        6 => "6",
        7 => "7",
        8 => "8",
        _ => "9",
    }
}

/// Appends the decimal text of `n` to `out`.
pub fn push_decimal(out: &mut String, n: u64)
    ensures
        final(out)@ == old(out)@ + decimal(n as nat),
        digits_value(final(out)@.skip(old(out)@.len() as int)) == n,
    decreases n,
{
    if n >= 10 {
        push_decimal(out, n / 10);
    }
    out.append(digit_str(n % 10));
    proof {
        if n >= 10 {
            assert(decimal(n as nat) == decimal((n / 10) as nat).push(digit_char((n % 10) as nat)));
        }
        lemma_decimal_reads_back(n as nat);
        assert(out@.skip(old(out)@.len() as int) =~= decimal(n as nat));
    }
}


/// The decimal text of `n`, with a leading minus sign when it is negative.
pub open spec fn signed_decimal(n: int) -> Seq<char> {
    if n < 0 {
        seq!['-'] + decimal((-n) as nat)
    } else {
        decimal(n as nat)
    }
}

/// Appends the decimal text of `n`, signed, to `out`.
pub fn push_signed_decimal(out: &mut String, n: i32)
    ensures
        final(out)@ == old(out)@ + signed_decimal(n as int),
{
    if n < 0 {
        proof {
            reveal_strlit("-");
        }
        out.append("-");
        let magnitude: u64 = (-(n as i64)) as u64;
        push_decimal(out, magnitude);
        assert(final(out)@ =~= old(out)@ + signed_decimal(n as int));
    } else {
        push_decimal(out, n as u64);
    }
}

/// The number that a string of decimal digits reads as, most significant
/// digit first.
pub open spec fn digits_value(text: Seq<char>) -> int
    decreases text.len(),
{
    if text.len() == 0 {
        0
    } else {
        digits_value(text.drop_last()) * 10 + (text.last() as int - 48)
    }
}

/// The decimal text of `n` reads back as `n`: it is a non-empty string of
/// the digits `0` to `9`, it starts with `0` only when it is `0` itself, and
/// its digits are worth `n`.
pub proof fn lemma_decimal_reads_back(n: nat)
    ensures
        decimal(n).len() >= 1,
        forall|i: int| 0 <= i < decimal(n).len() ==> '0' <= #[trigger] decimal(n)[i] <= '9',
        decimal(n)[0] == '0' ==> n == 0,
        digits_value(decimal(n)) == n,
    decreases n,
{
    if n < 10 {
        assert(seq![digit_char(n)].drop_last() =~= Seq::<char>::empty());
        assert(digit_char(n) as int == 48 + n);
        assert(digits_value(seq![digit_char(n)]) == digits_value(Seq::<char>::empty()) * 10 + (
        digit_char(n) as int - 48));
    } else {
        lemma_decimal_reads_back(n / 10);
        let head = decimal(n / 10);
        let d = digit_char(n % 10);
        assert(d as int == 48 + n % 10);
        assert(head.push(d).drop_last() =~= head);
        assert(forall|i: int| 0 <= i < head.len() ==> head.push(d)[i] == head[i]);
        assert(head.push(d)[head.len() as int] == d);
        assert(decimal(n) == head.push(d));
        assert(digits_value(head.push(d)) == digits_value(head) * 10 + (d as int - 48));
        assert((n / 10) * 10 + n % 10 == n);
    }
}

/// Larger numbers never have shorter decimal texts: the text of `n` has one
/// digit more than the text of `n / 10`.
pub proof fn lemma_decimal_length(n: nat)
    ensures
        n < 10 ==> decimal(n).len() == 1,
        n >= 10 ==> decimal(n).len() == decimal(n / 10).len() + 1,
{
}

} // verus!
