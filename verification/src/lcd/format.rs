use vstd::prelude::*;

verus! {

/// The ASCII decimal digits of `n`, most significant first, without
/// leading zeros ("0" for zero).
pub open spec fn decimal_digits(n: nat) -> Seq<u8>
    decreases n,
{
    if n < 10 {
        seq![(48 + n) as u8]
    } else {
        decimal_digits(n / 10).push((48 + n % 10) as u8)
    }
}

/// The number of decimal digits of `n`.
pub open spec fn digit_count(n: nat) -> nat
    decreases n,
{
    if n < 10 {
        1
    } else {
        1 + digit_count(n / 10)
    }
}

/// The digits of `n` number `digit_count(n)`, at most ten below 10^10.
pub proof fn lemma_digit_count(n: nat)
    ensures
        decimal_digits(n).len() == digit_count(n),
        1 <= digit_count(n),
        n < 10 ==> digit_count(n) <= 1,
        n < 100 ==> digit_count(n) <= 2,
        n < 1000 ==> digit_count(n) <= 3,
        n < 10000 ==> digit_count(n) <= 4,
        n < 100000 ==> digit_count(n) <= 5,
        n < 1000000 ==> digit_count(n) <= 6,
        n < 10000000 ==> digit_count(n) <= 7,
        n < 100000000 ==> digit_count(n) <= 8,
        n < 1000000000 ==> digit_count(n) <= 9,
        n < 10000000000 ==> digit_count(n) <= 10,
    decreases n,
{
    if n >= 10 {
        lemma_digit_count(n / 10);
    }
}

/// `ufmt`'s `uDisplay` for `u32`, written into a `String`: the decimal
/// digits of `value`. The contract claims that the bytes are exactly those
/// digits, as the `uxx!` loop of ufmt 0.2.0 writes them.
#[verifier::external_body]
pub(crate) fn decimal_bytes(value: u32) -> (bytes: Vec<u8>)
    ensures
        bytes@ == decimal_digits(value as nat),
{
    let mut text = String::new();
    let _ = <u32 as ufmt::uDisplay>::fmt(&value, &mut ufmt::Formatter::new(&mut text));
    text.into_bytes()
}

/// The number of decimal digits of `value`.
pub fn num_digits(value: u32) -> (count: u8)
    ensures
        count as nat == digit_count(value as nat),
        1 <= count <= 10,
{
    let mut rest = value;
    let mut count: u8 = 1;
    proof {
        lemma_digit_count(value as nat);
    }
    while rest >= 10
        invariant
            1 <= count <= 10,
            count + digit_count(rest as nat) == digit_count(value as nat) + 1,
            digit_count(value as nat) <= 10,
        decreases rest,
    {
        proof {
            lemma_digit_count((rest / 10) as nat);
        }
        rest = rest / 10;
        count = count + 1;
    }
    count
}

/// A writer that hands every byte of the text it is given to `function`.
pub struct FnWriter<F: FnMut(u8)> {
    pub function: F,
}

impl<F: FnMut(u8)> FnWriter<F> {
    pub fn new(function: F) -> (writer: Self)
        ensures
            writer.function == function,
    {
        FnWriter { function }
    }
}

} // verus!
