use vstd::prelude::*;

verus! {

/// The owner's share of a deposit of `amount` under a fee of `fee_percent` percent.
pub open spec fn fee_share(amount: int, fee_percent: int) -> int {
    amount * fee_percent / 100
}

/// The first recipient's share: half of what is left after the fee, rounded down.
pub open spec fn first_share(amount: int, fee_percent: int) -> int {
    (amount - fee_share(amount, fee_percent)) / 2
}

/// The second recipient's share: the rest, which absorbs an odd unit.
pub open spec fn second_share(amount: int, fee_percent: int) -> int {
    amount - fee_share(amount, fee_percent) - first_share(amount, fee_percent)
}

/// How one deposit of one denomination is divided.
#[derive(Clone, Copy, Debug, PartialEq, Eq, Structural)]
pub struct Shares {
    pub owner: u128,
    pub first: u128,
    pub second: u128,
}

/// Relies on cosmwasm_std::Uint128::multiply_ratio: `amount * numerator / denominator`
/// rounded down, with a 256-bit product; it panics on a zero denominator and on a
/// quotient that does not fit in 128 bits.
#[verifier::external_body]
fn multiply_ratio(amount: u128, numerator: u128, denominator: u128) -> (r: u128)
    requires
        denominator > 0,
        amount as int * numerator as int / denominator as int <= u128::MAX,
    ensures
        r == amount as int * numerator as int / denominator as int,
{
    cosmwasm_std::Uint128::new(amount).multiply_ratio(numerator, denominator).u128()
}

proof fn lemma_fee_at_most_amount(amount: int, fee_percent: int)
    requires
        0 <= amount,
        0 <= fee_percent <= 100,
    ensures
        0 <= fee_share(amount, fee_percent) <= amount,
{
    assert(0 <= amount * fee_percent <= amount * 100) by (nonlinear_arith)
        requires
            0 <= amount,
            0 <= fee_percent <= 100,
    ;
}

/// Divides a deposit of `amount` between the owner and the two recipients.
pub fn split_amount(amount: u128, fee_percent: u8) -> (s: Shares)
    requires
        fee_percent <= 100,
    ensures
        s.owner == fee_share(amount as int, fee_percent as int),
        s.first == first_share(amount as int, fee_percent as int),
        s.second == second_share(amount as int, fee_percent as int),
        s.owner + s.first + s.second == amount,
        s.first <= s.second <= s.first + 1,
{
    proof {
        lemma_fee_at_most_amount(amount as int, fee_percent as int);
    }
    let owner = multiply_ratio(amount, fee_percent as u128, 100);
    let left_over = amount - owner;
    let first = left_over >> 1;
    assert(first == left_over / 2) by (bit_vector)
        requires
            first == left_over >> 1,
    ;
    let second = left_over - first;
    Shares { owner, first, second }
}

/// For every amount and every fee percentage up to one hundred, the three
/// shares add up to the amount: nothing is created and nothing is lost.
pub proof fn lemma_split_conserves(amount: u128, fee_percent: u8)
    requires
        fee_percent <= 100,
    ensures
        0 <= fee_share(amount as int, fee_percent as int),
        0 <= first_share(amount as int, fee_percent as int),
        fee_share(amount as int, fee_percent as int) + first_share(amount as int, fee_percent as int)
            + second_share(amount as int, fee_percent as int) == amount,
{
    lemma_fee_at_most_amount(amount as int, fee_percent as int);
}

/// The second recipient gets as much as the first, or one unit more.
pub proof fn lemma_split_fair(amount: u128, fee_percent: u8)
    requires
        fee_percent <= 100,
    ensures
        0 <= second_share(amount as int, fee_percent as int) - first_share(
            amount as int,
            fee_percent as int,
        ) <= 1,
{
    lemma_fee_at_most_amount(amount as int, fee_percent as int);
}

/// The owner's share never exceeds the exact fee, and it never decreases when
/// the fee percentage grows while the amount stays the same.
pub proof fn lemma_fee_bounded_and_monotone(amount: u128, low: u8, high: u8)
    requires
        low <= high <= 100,
    ensures
        fee_share(amount as int, low as int) * 100 <= amount as int * low as int,
        fee_share(amount as int, low as int) <= amount as int * low as int / 100,
        fee_share(amount as int, low as int) <= fee_share(amount as int, high as int),
{
    let a = amount as int;
    assert(a * low <= a * high) by (nonlinear_arith)
        requires
            0 <= a,
            low <= high,
    ;
    assert((a * low / 100) * 100 <= a * low) by (nonlinear_arith)
        requires
            0 <= a * low,
    ;
    lemma_div_monotone(a * low, a * high);
}

proof fn lemma_div_monotone(x: int, y: int)
    requires
        0 <= x <= y,
    ensures
        x / 100 <= y / 100,
{
    vstd::arithmetic::div_mod::lemma_div_is_ordered(x, y, 100);
}

} // verus!
