use vstd::prelude::*;

verus! {

/// The character of a decimal digit.
pub open spec fn digit_char(d: nat) -> char
    recommends
        d < 10,
{
    ((48 + d) as u8) as char
}

/// The decimal digits of a natural number, without leading zeros.
pub open spec fn nat_digits(n: nat) -> Seq<char>
    decreases n,
{
    if n < 10 {
        seq![digit_char(n)]
    } else {
        nat_digits(n / 10).push(digit_char(n % 10))
    }
}

/// `s` preceded by as many zeros as it takes to reach `width` characters.
pub open spec fn zero_padded(s: Seq<char>, width: nat) -> Seq<char> {
    if s.len() < width {
        Seq::new((width - s.len()) as nat, |i: int| '0') + s
    } else {
        s
    }
}

/// The decimal text of an integer, with a leading minus sign when negative.
pub open spec fn int_text(i: int) -> Seq<char> {
    if i < 0 {
        seq!['-'] + nat_digits((-i) as nat)
    } else {
        nat_digits(i as nat)
    }
}

/// Ten to the power `k`.
pub open spec fn pow10(k: nat) -> nat
    decreases k,
{
    if k == 0 {
        1
    } else {
        10 * pow10((k - 1) as nat)
    }
}

/// A number below `10^k` has at most `k` digits.
proof fn lemma_digits_len(n: nat, k: nat)
    requires
        k >= 1,
        n < pow10(k),
    ensures
        1 <= nat_digits(n).len() <= k,
    decreases n,
{
    if n >= 10 {
        if k == 1 {
            reveal_with_fuel(pow10, 2);
        } else {
            let p = pow10((k - 1) as nat);
            assert(n / 10 < p) by (nonlinear_arith)
                requires
                    n < 10 * p,
            ;
            lemma_digits_len(n / 10, (k - 1) as nat);
        }
    }
}

/// Relies on String::push: the character is appended.
#[verifier::external_body]
pub(crate) fn push_char(s: &mut String, c: char)
    ensures
        final(s)@ == old(s)@.push(c),
{
    s.push(c)
}

/// Appends the decimal digits of `n`.
pub(crate) fn push_digits(s: &mut String, n: u32)
    ensures
        final(s)@ == old(s)@ + nat_digits(n as nat),
    decreases n,
{
    let ghost start = s@;
    if n >= 10 {
        push_digits(s, n / 10);
    }
    let d: u8 = (n % 10) as u8;
    push_char(s, (48u8 + d) as char);
    assert(s@ =~= start + nat_digits(n as nat));
}

/// Number of decimal digits of `n`.
pub(crate) fn digit_count(n: u32) -> (r: usize)
    ensures
        r == nat_digits(n as nat).len(),
        1 <= r <= 10,
    decreases n,
{
    proof {
        reveal_with_fuel(pow10, 11);
        assert(pow10(10) == 10000000000nat);
        lemma_digits_len(n as nat, 10);
    }
    if n >= 10 {
        1 + digit_count(n / 10)
    } else {
        1
    }
}

/// Appends `n` in decimal, left padded with zeros to `width` characters.
pub(crate) fn push_padded(s: &mut String, n: u32, width: usize)
    ensures
        final(s)@ == old(s)@ + zero_padded(nat_digits(n as nat), width as nat),
{
    let ghost start = s@;
    let count = digit_count(n);
    if count < width {
        let zeros = width - count;
        let mut i: usize = 0;
        while i < zeros
            invariant
                i <= zeros,
                s@ =~= start + Seq::new(i as nat, |j: int| '0'),
            decreases zeros - i,
        {
            push_char(s, '0');
            i = i + 1;
        }
    }
    push_digits(s, n);
    assert(s@ =~= start + zero_padded(nat_digits(n as nat), width as nat));
}

/// Appends the decimal text of `i`.
pub(crate) fn push_int(s: &mut String, i: i32)
    ensures
        final(s)@ == old(s)@ + int_text(i as int),
{
    let ghost start = s@;
    if i < 0 {
        push_char(s, '-');
        let m: u32 = if i == i32::MIN { 2147483648u32 } else { (-i) as u32 };
        push_digits(s, m);
    } else {
        push_digits(s, i as u32);
    }
    assert(s@ =~= start + int_text(i as int));
}

} // verus!
