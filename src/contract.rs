use vstd::prelude::*;

use crate::error::ContractError;
use crate::msg::{
    BankSend, Coin, ExecuteMsg, GetBalanceResponse, GetFeesResponse, GetOwnerResponse,
    InstantiateMsg, MessageInfo, QueryMsg, QueryResponse, Response,
};
use crate::split::{fee_share, first_share, lemma_split_conserves, second_share, split_amount};
use crate::state::{credited, lemma_credited_push, Credit, Ledger, State};

verus! {

/// What one coin of a deposit adds to the balance of `account` in `denom`, when
/// the fee goes to `owner` and the rest to `account1` and `account2`.
pub open spec fn coin_share(
    coin: Coin,
    owner: Seq<char>,
    account1: Seq<char>,
    account2: Seq<char>,
    fees: u8,
    account: Seq<char>,
    denom: Seq<char>,
) -> int {
    let amount = coin.amount as int;
    if coin.denom@ == denom {
        (if owner == account {
            fee_share(amount, fees as int)
        } else {
            0
        }) + (if account1 == account {
            first_share(amount, fees as int)
        } else {
            0
        }) + (if account2 == account {
            second_share(amount, fees as int)
        } else {
            0
        })
    } else {
        0
    }
}

/// Where the owner and the two recipients are three different accounts, what
/// one coin adds to their balances in its denomination sums to the coin's
/// amount.
pub proof fn lemma_coin_conserved(
    coin: Coin,
    owner: Seq<char>,
    account1: Seq<char>,
    account2: Seq<char>,
    fees: u8,
)
    requires
        fees <= 100,
        owner != account1,
        owner != account2,
        account1 != account2,
    ensures
        coin_share(coin, owner, account1, account2, fees, owner, coin.denom@) + coin_share(
            coin,
            owner,
            account1,
            account2,
            fees,
            account1,
            coin.denom@,
        ) + coin_share(coin, owner, account1, account2, fees, account2, coin.denom@)
            == coin.amount,
{
    lemma_split_conserves(coin.amount, fees);
}

/// What a whole deposit adds to the balance of `account` in `denom`.
pub open spec fn deposited(
    funds: Seq<Coin>,
    owner: Seq<char>,
    account1: Seq<char>,
    account2: Seq<char>,
    fees: u8,
    account: Seq<char>,
    denom: Seq<char>,
) -> int
    decreases funds.len(),
{
    if funds.len() == 0 {
        0
    } else {
        deposited(funds.drop_last(), owner, account1, account2, fees, account, denom) + coin_share(
            funds.last(),
            owner,
            account1,
            account2,
            fees,
            account,
            denom,
        )
    }
}

/// The outcome of a deposit of `funds` split to `account1` and `account2`: it
/// needs a configuration, and it is applied whole where every resulting
/// balance fits, and not at all otherwise.
pub open spec fn send_outcome(
    before: Ledger,
    after: Ledger,
    r: Result<Response, ContractError>,
    funds: Seq<Coin>,
    account1: Seq<char>,
    account2: Seq<char>,
) -> bool {
    match before.config_of() {
        None => r == Err::<Response, ContractError>(ContractError::NotInitialized) && after
            == before,
        Some((owner, fees)) => if forall|a: Seq<char>, d: Seq<char>|
            before.balance_of(a, d) + #[trigger] deposited(
                funds,
                owner,
                account1,
                account2,
                fees,
                a,
                d,
            ) <= u128::MAX {
            &&& r is Ok
            &&& r->Ok_0.messages@.len() == 0
            &&& after.config_of() == before.config_of()
            &&& forall|a: Seq<char>, d: Seq<char>|
                #[trigger] after.balance_of(a, d) == before.balance_of(a, d) + deposited(
                    funds,
                    owner,
                    account1,
                    account2,
                    fees,
                    a,
                    d,
                )
        } else {
            r == Err::<Response, ContractError>(ContractError::ArithmeticOverflow) && after
                == before
        },
    }
}

/// The outcome of `sender` withdrawing `amount` of `denom`: allowed up to the
/// balance, which it lowers by exactly `amount`, with one transfer of that
/// amount to `sender`; refused above it, with nothing changed.
pub open spec fn withdraw_outcome(
    before: Ledger,
    after: Ledger,
    r: Result<Response, ContractError>,
    sender: Seq<char>,
    amount: u128,
    denom: Seq<char>,
) -> bool {
    let balance = before.balance_of(sender, denom);
    if amount <= balance {
        &&& r is Ok
        &&& r->Ok_0.messages@.len() == 1
        &&& r->Ok_0.messages@[0].to_address@ == sender
        &&& r->Ok_0.messages@[0].denom@ == denom
        &&& r->Ok_0.messages@[0].amount == amount
        &&& after.config_of() == before.config_of()
        &&& after.balance_of(sender, denom) == balance - amount
        &&& after.same_balances_except(&before, sender, denom)
    } else {
        &&& r == Err::<Response, ContractError>(
            ContractError::InsufficientBalanceError { balance, requested: amount },
        )
        &&& after == before
    }
}

/// Sets the ledger up with the caller as owner. A fee above one hundred
/// percent is refused, and so is a second setup; neither writes anything.
pub fn instantiate(ledger: &mut Ledger, info: MessageInfo, msg: InstantiateMsg) -> (r: Result<
    Response,
    ContractError,
>)
    requires
        old(ledger).wf(),
    ensures
        final(ledger).wf(),
        msg.fees > 100 ==> r == Err::<Response, ContractError>(
            ContractError::InvalidFeePercentageError { fees: msg.fees },
        ) && *final(ledger) == *old(ledger),
        msg.fees <= 100 && old(ledger).config_of() is Some ==> r == Err::<Response, ContractError>(
            ContractError::AlreadyInitialized,
        ) && *final(ledger) == *old(ledger),
        msg.fees <= 100 && old(ledger).config_of() is None ==> {
            &&& r is Ok
            &&& r->Ok_0.messages@.len() == 0
            &&& final(ledger).config_of() == Some((info.sender@, msg.fees))
            &&& final(ledger).same_balances(old(ledger))
        },
{
    if msg.fees > 100 {
        return Err(ContractError::InvalidFeePercentageError { fees: msg.fees });
    }
    if ledger.load_config().is_ok() {
        return Err(ContractError::AlreadyInitialized);
    }
    ledger.save_config(State { owner: info.sender, fees: msg.fees });
    Ok(Response { messages: Vec::new() })
}

/// Performs one of the operations that change the ledger.
pub fn execute(ledger: &mut Ledger, info: MessageInfo, msg: ExecuteMsg) -> (r: Result<
    Response,
    ContractError,
>)
    requires
        old(ledger).wf(),
    ensures
        final(ledger).wf(),
        match msg {
            ExecuteMsg::Send { account1, account2 } => send_outcome(
                *old(ledger),
                *final(ledger),
                r,
                info.funds@,
                account1@,
                account2@,
            ),
            ExecuteMsg::Withdraw { amount, denom } => withdraw_outcome(
                *old(ledger),
                *final(ledger),
                r,
                info.sender@,
                amount,
                denom@,
            ),
            ExecuteMsg::WithdrawAll { denom } => withdraw_outcome(
                *old(ledger),
                *final(ledger),
                r,
                info.sender@,
                old(ledger).balance_of(info.sender@, denom@),
                denom@,
            ),
        },
{
    match msg {
        ExecuteMsg::Send { account1, account2 } => send(ledger, info, account1, account2),
        ExecuteMsg::Withdraw { amount, denom } => withdraw(ledger, info, amount, denom),
        ExecuteMsg::WithdrawAll { denom } => withdraw_all(ledger, info, denom),
    }
}

/// Splits each coin of the attached funds: the fee to the owner, half of the
/// rest, rounded down, to `account1`, and what remains to `account2`.
pub fn send(ledger: &mut Ledger, info: MessageInfo, account1: String, account2: String) -> (r:
    Result<Response, ContractError>)
    requires
        old(ledger).wf(),
    ensures
        final(ledger).wf(),
        send_outcome(*old(ledger), *final(ledger), r, info.funds@, account1@, account2@),
{
    let state = match ledger.load_config() {
        Ok(s) => s,
        Err(e) => return Err(e),
    };
    let funds = &info.funds;
    let mut credits: Vec<Credit> = Vec::new();
    let mut i: usize = 0;
    while i < funds.len()
        invariant
            i <= funds@.len(),
            state.valid(),
            forall|a: Seq<char>, d: Seq<char>|
                #[trigger] credited(credits@, a, d) == deposited(
                    funds@.take(i as int),
                    state.owner@,
                    account1@,
                    account2@,
                    state.fees,
                    a,
                    d,
                ),
        decreases funds@.len() - i,
    {
        let coin = &funds[i];
        let shares = split_amount(coin.amount, state.fees);
        let ghost c0 = credits@;
        credits.push(
            Credit { account: state.owner.clone(), denom: coin.denom.clone(), amount: shares.owner },
        );
        let ghost c1 = credits@;
        credits.push(
            Credit { account: account1.clone(), denom: coin.denom.clone(), amount: shares.first },
        );
        let ghost c2 = credits@;
        credits.push(
            Credit { account: account2.clone(), denom: coin.denom.clone(), amount: shares.second },
        );
        proof {
            assert(funds@.take(i + 1).drop_last() =~= funds@.take(i as int));
            assert forall|a: Seq<char>, d: Seq<char>|
                #[trigger] credited(credits@, a, d) == deposited(
                    funds@.take(i + 1),
                    state.owner@,
                    account1@,
                    account2@,
                    state.fees,
                    a,
                    d,
                ) by {
                lemma_credited_push(c0, c1.last(), a, d);
                lemma_credited_push(c1, c2.last(), a, d);
                lemma_credited_push(c2, credits@.last(), a, d);
                assert(c1 == c0.push(c1.last()));
                assert(c2 == c1.push(c2.last()));
                assert(credits@ == c2.push(credits@.last()));
            }
        }
        i = i + 1;
    }
    let ghost before = *ledger;
    proof {
        assert(funds@.take(i as int) =~= funds@);
    }
    let applied = ledger.apply_credits(&credits);
    proof {
        let fits = forall|a: Seq<char>, d: Seq<char>|
            before.balance_of(a, d) + #[trigger] credited(credits@, a, d) <= u128::MAX;
        let owed = forall|a: Seq<char>, d: Seq<char>|
            before.balance_of(a, d) + #[trigger] deposited(
                funds@,
                state.owner@,
                account1@,
                account2@,
                state.fees,
                a,
                d,
            ) <= u128::MAX;
        if fits {
            assert forall|a: Seq<char>, d: Seq<char>|
                before.balance_of(a, d) + #[trigger] deposited(
                    funds@,
                    state.owner@,
                    account1@,
                    account2@,
                    state.fees,
                    a,
                    d,
                ) <= u128::MAX by {
                assert(credited(credits@, a, d) == deposited(
                    funds@,
                    state.owner@,
                    account1@,
                    account2@,
                    state.fees,
                    a,
                    d,
                ));
            }
        }
        if owed {
            assert forall|a: Seq<char>, d: Seq<char>|
                before.balance_of(a, d) + #[trigger] credited(credits@, a, d) <= u128::MAX by {
                assert(before.balance_of(a, d) + deposited(
                    funds@,
                    state.owner@,
                    account1@,
                    account2@,
                    state.fees,
                    a,
                    d,
                ) <= u128::MAX);
            }
        }
    }
    match applied {
        Ok(()) => Ok(Response { messages: Vec::new() }),
        Err(e) => Err(e),
    }
}

/// Withdraws `amount` of `denom` from the caller's own balance, and asks for
/// that amount to be transferred to the caller.
pub fn withdraw(ledger: &mut Ledger, info: MessageInfo, amount: u128, denom: String) -> (r:
    Result<Response, ContractError>)
    requires
        old(ledger).wf(),
    ensures
        final(ledger).wf(),
        withdraw_outcome(*old(ledger), *final(ledger), r, info.sender@, amount, denom@),
{
    let balance = ledger.get_balance(&info.sender, &denom);
    if amount > balance {
        return Err(ContractError::InsufficientBalanceError { balance, requested: amount });
    }
    match ledger.debit(&info.sender, &denom, amount) {
        Ok(()) => {},
        Err(e) => return Err(e),
    }
    let mut messages: Vec<BankSend> = Vec::new();
    messages.push(BankSend { to_address: info.sender, denom, amount });
    Ok(Response { messages })
}

/// Withdraws the caller's whole balance of `denom`. A zero balance gives a
/// transfer of zero and leaves the ledger as it was.
pub fn withdraw_all(ledger: &mut Ledger, info: MessageInfo, denom: String) -> (r: Result<
    Response,
    ContractError,
>)
    requires
        old(ledger).wf(),
    ensures
        final(ledger).wf(),
        withdraw_outcome(
            *old(ledger),
            *final(ledger),
            r,
            info.sender@,
            old(ledger).balance_of(info.sender@, denom@),
            denom@,
        ),
        r is Ok,
        final(ledger).balance_of(info.sender@, denom@) == 0,
        old(ledger).balance_of(info.sender@, denom@) == 0 ==> final(ledger).same_balances(
            old(ledger),
        ),
{
    let balance = ledger.get_balance(&info.sender, &denom);
    withdraw(ledger, info, balance, denom)
}

/// Answers one of the read-only queries.
pub fn query(ledger: &Ledger, msg: QueryMsg) -> (r: Result<QueryResponse, ContractError>)
    requires
        ledger.wf(),
    ensures
        match msg {
            QueryMsg::GetOwner {  } => match ledger.config_of() {
                Some((owner, _)) => r matches Ok(QueryResponse::Owner(o)) && o.owner@ == owner,
                None => r == Err::<QueryResponse, ContractError>(ContractError::NotInitialized),
            },
            QueryMsg::GetFees {  } => match ledger.config_of() {
                Some((_, fees)) => r == Ok::<QueryResponse, ContractError>(
                    QueryResponse::Fees(GetFeesResponse { fees }),
                ),
                None => r == Err::<QueryResponse, ContractError>(ContractError::NotInitialized),
            },
            QueryMsg::GetBalance { account, denom } => r == Ok::<QueryResponse, ContractError>(
                QueryResponse::Balance(
                    GetBalanceResponse { balance: ledger.balance_of(account@, denom@) },
                ),
            ),
        },
{
    match msg {
        QueryMsg::GetOwner {  } => match owner(ledger) {
            Ok(o) => Ok(QueryResponse::Owner(o)),
            Err(e) => Err(e),
        },
        QueryMsg::GetFees {  } => match fees(ledger) {
            Ok(f) => Ok(QueryResponse::Fees(f)),
            Err(e) => Err(e),
        },
        QueryMsg::GetBalance { account, denom } => Ok(
            QueryResponse::Balance(balance(ledger, account, denom)),
        ),
    }
}

/// The account that collects the fees.
pub fn owner(ledger: &Ledger) -> (r: Result<GetOwnerResponse, ContractError>)
    requires
        ledger.wf(),
    ensures
        match ledger.config_of() {
            Some((owner, _)) => r matches Ok(o) && o.owner@ == owner,
            None => r == Err::<GetOwnerResponse, ContractError>(ContractError::NotInitialized),
        },
{
    match ledger.load_config() {
        Ok(state) => Ok(GetOwnerResponse { owner: state.owner }),
        Err(e) => Err(e),
    }
}

/// The fee percentage.
pub fn fees(ledger: &Ledger) -> (r: Result<GetFeesResponse, ContractError>)
    requires
        ledger.wf(),
    ensures
        match ledger.config_of() {
            Some((_, fees)) => r == Ok::<GetFeesResponse, ContractError>(GetFeesResponse { fees }),
            None => r == Err::<GetFeesResponse, ContractError>(ContractError::NotInitialized),
        },
{
    match ledger.load_config() {
        Ok(state) => Ok(GetFeesResponse { fees: state.fees }),
        Err(e) => Err(e),
    }
}

/// What `account` holds in `denom`, zero where nothing was ever credited.
pub fn balance(ledger: &Ledger, account: String, denom: String) -> (r: GetBalanceResponse)
    requires
        ledger.wf(),
    ensures
        r.balance == ledger.balance_of(account@, denom@),
{
    GetBalanceResponse { balance: ledger.get_balance(&account, &denom) }
}

} // verus!
