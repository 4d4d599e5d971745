use transfer_contract::contract::{execute, instantiate, query};
use transfer_contract::error::ContractError;
use transfer_contract::msg::{
    Coin, ExecuteMsg, GetBalanceResponse, GetFeesResponse, GetOwnerResponse, InstantiateMsg,
    MessageInfo, QueryMsg, QueryResponse,
};
use transfer_contract::state::Ledger;

fn coins(amount: u128, denom: &str) -> Vec<Coin> {
    vec![Coin { denom: denom.to_owned(), amount }]
}

fn mock_info(sender: &str, funds: &[Coin]) -> MessageInfo {
    MessageInfo {
        sender: sender.to_owned(),
        funds: funds
            .iter()
            .map(|c| Coin { denom: c.denom.clone(), amount: c.amount })
            .collect(),
    }
}

fn query_owner(deps: &Ledger) -> GetOwnerResponse {
    match query(deps, QueryMsg::GetOwner {}).unwrap() {
        QueryResponse::Owner(o) => o,
        other => panic!("unexpected response: {:?}", other),
    }
}

fn query_fees(deps: &Ledger) -> GetFeesResponse {
    match query(deps, QueryMsg::GetFees {}).unwrap() {
        QueryResponse::Fees(f) => f,
        other => panic!("unexpected response: {:?}", other),
    }
}

fn query_balance(deps: &Ledger, account: &str, denom: &str) -> GetBalanceResponse {
    let msg = QueryMsg::GetBalance { account: account.to_owned(), denom: denom.to_owned() };
    match query(deps, msg).unwrap() {
        QueryResponse::Balance(b) => b,
        other => panic!("unexpected response: {:?}", other),
    }
}

fn setup(fees: u8) -> Ledger {
    let mut deps = Ledger::new();
    let info = mock_info("creator", &coins(0, "usei"));
    instantiate(&mut deps, info, InstantiateMsg { fees }).unwrap();
    deps
}

fn send(deps: &mut Ledger, amount: u128, denom: &str, account1: &str, account2: &str) {
    let info = mock_info("sender", &coins(amount, denom));
    let msg = ExecuteMsg::Send { account1: account1.to_owned(), account2: account2.to_owned() };
    execute(deps, info, msg).unwrap();
}

#[test]
fn initialization_basic() {
    let mut deps = Ledger::new();

    let msg = InstantiateMsg { fees: 10 };
    let info = mock_info("creator", &coins(0, "usei"));

    let res = instantiate(&mut deps, info, msg).unwrap();
    assert_eq!(0, res.messages.len());

    let value = query_owner(&deps);
    assert_eq!("creator", value.owner);

    let value = query_fees(&deps);
    assert_eq!(10, value.fees);
}

#[test]
fn initialization_fail() {
    let mut deps = Ledger::new();

    let msg = InstantiateMsg { fees: 101 };
    let info = mock_info("creator", &coins(0, "usei"));

    let res = instantiate(&mut deps, info, msg).unwrap_err();
    match res {
        ContractError::InvalidFeePercentageError { fees: _ } => (),
        e => panic!("unexpected error: {:?}", e),
    }
}

#[test]
fn send_basic() {
    let mut deps = setup(10);

    assert_eq!(0, query_balance(&deps, "account1", "usei").balance);

    send(&mut deps, 10, "usei", "account1", "account2");

    assert_eq!(4, query_balance(&deps, "account1", "usei").balance);
    assert_eq!(5, query_balance(&deps, "account2", "usei").balance);

    let owner = query_owner(&deps).owner;
    assert_eq!(1, query_balance(&deps, &owner, "usei").balance);
}

#[test]
fn send_multiple() {
    let mut deps = setup(10);

    send(&mut deps, 51, "usei", "account1", "account2");
    assert_eq!(23, query_balance(&deps, "account1", "usei").balance);
    assert_eq!(23, query_balance(&deps, "account2", "usei").balance);

    send(&mut deps, 65, "usei", "account1", "account3");
    assert_eq!(52, query_balance(&deps, "account1", "usei").balance);
    assert_eq!(30, query_balance(&deps, "account3", "usei").balance);
}

#[test]
fn send_multiple_currencies() {
    let mut deps = setup(10);

    send(&mut deps, 100, "usei", "account1", "account2");
    assert_eq!(45, query_balance(&deps, "account1", "usei").balance);
    assert_eq!(45, query_balance(&deps, "account2", "usei").balance);

    send(&mut deps, 50, "wei", "account1", "account2");
    assert_eq!(22, query_balance(&deps, "account1", "wei").balance);
    assert_eq!(23, query_balance(&deps, "account2", "wei").balance);
}

#[test]
fn withdraw_basic() {
    let mut deps = setup(10);

    send(&mut deps, 100, "usei", "account1", "account2");
    assert_eq!(45, query_balance(&deps, "account1", "usei").balance);

    let msg = ExecuteMsg::Withdraw { amount: 25, denom: "usei".to_owned() };
    let info = mock_info("account1", &coins(0, "usei"));
    let res = execute(&mut deps, info, msg).unwrap();
    assert_eq!(1, res.messages.len());
    let msg = res.messages.get(0).expect("no message");
    assert_eq!(msg.to_address, "account1");
    assert_eq!(msg.denom, "usei");
    assert_eq!(msg.amount, 25);

    assert_eq!(20, query_balance(&deps, "account1", "usei").balance);
    assert_eq!(45, query_balance(&deps, "account2", "usei").balance);
}

#[test]
fn withdraw_all() {
    let mut deps = setup(10);

    send(&mut deps, 100, "usei", "account1", "account2");
    assert_eq!(45, query_balance(&deps, "account1", "usei").balance);

    let msg = ExecuteMsg::WithdrawAll { denom: "usei".to_owned() };
    let info = mock_info("account1", &coins(0, "usei"));
    let res = execute(&mut deps, info, msg).unwrap();
    assert_eq!(1, res.messages.len());
    let msg = res.messages.get(0).expect("no message");
    assert_eq!(msg.to_address, "account1");
    assert_eq!(msg.denom, "usei");
    assert_eq!(msg.amount, 45);

    assert_eq!(0, query_balance(&deps, "account1", "usei").balance);
    assert_eq!(45, query_balance(&deps, "account2", "usei").balance);
}

#[test]
fn withdraw_fail() {
    let mut deps = setup(10);

    send(&mut deps, 100, "usei", "account1", "account2");
    assert_eq!(45, query_balance(&deps, "account1", "usei").balance);

    let msg = ExecuteMsg::Withdraw { amount: 46, denom: "usei".to_owned() };
    let info = mock_info("account1", &coins(0, "usei"));
    let res = execute(&mut deps, info, msg).unwrap_err();
    match res {
        ContractError::InsufficientBalanceError { balance: _, requested: _ } => (),
        e => panic!("unexpected error: {:?}", e),
    }

    assert_eq!(45, query_balance(&deps, "account1", "usei").balance);
    assert_eq!(45, query_balance(&deps, "account2", "usei").balance);
}

#[test]
fn withdraw_multiple() {
    let mut deps = setup(10);

    send(&mut deps, 100, "usei", "account1", "account2");

    let msg = ExecuteMsg::Withdraw { amount: 25, denom: "usei".to_owned() };
    let info = mock_info("account1", &coins(0, "usei"));
    let res = execute(&mut deps, info, msg).unwrap();
    assert_eq!(1, res.messages.len());
    let msg = res.messages.get(0).expect("no message");
    assert_eq!((msg.to_address.as_str(), msg.denom.as_str(), msg.amount), ("account1", "usei", 25));

    assert_eq!(20, query_balance(&deps, "account1", "usei").balance);

    let msg = ExecuteMsg::Withdraw { amount: 19, denom: "usei".to_owned() };
    let info = mock_info("account1", &coins(0, "usei"));
    let res = execute(&mut deps, info, msg).unwrap();
    assert_eq!(1, res.messages.len());
    let msg = res.messages.get(0).expect("no message");
    assert_eq!((msg.to_address.as_str(), msg.denom.as_str(), msg.amount), ("account1", "usei", 19));

    assert_eq!(1, query_balance(&deps, "account1", "usei").balance);
}
