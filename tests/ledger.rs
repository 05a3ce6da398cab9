use cw20_escrow::balance::{Balance, Coin, Cw20CoinVerified, GenericBalance};
use cw20_escrow::contract::{send_tokens, SubMsg};

fn coin(amount: u128, denom: &str) -> Coin {
    Coin { denom: denom.to_string(), amount }
}

fn native(coins: &[(u128, &str)]) -> Balance {
    Balance::Native(coins.iter().map(|(a, d)| coin(*a, d)).collect())
}

fn pairs(v: &[Coin]) -> Vec<(String, u128)> {
    v.iter().map(|c| (c.denom.clone(), c.amount)).collect()
}

fn transfer_bytes(recipient: &str, amount: u128) -> Vec<u8> {
    cosmwasm_std::to_json_binary(&cw20::Cw20ExecuteMsg::Transfer {
        recipient: recipient.to_string(),
        amount: cosmwasm_std::Uint128::new(amount),
    })
    .unwrap()
    .0
}

#[test]
fn add_tokens_proper() {
    let mut tokens = GenericBalance::new();
    tokens.add_tokens(native(&[(123, "atom"), (789, "eth")]));
    tokens.add_tokens(native(&[(456, "atom"), (12, "btc")]));
    assert_eq!(
        pairs(&tokens.native),
        vec![("atom".to_string(), 579), ("eth".to_string(), 789), ("btc".to_string(), 12)]
    );
}

#[test]
fn add_cw_tokens_proper() {
    let mut tokens = GenericBalance::new();
    let cw = |a: &str, n: u128| Balance::Cw20(Cw20CoinVerified { address: a.to_string(), amount: n });
    tokens.add_tokens(cw("foo_token", 12345));
    tokens.add_tokens(cw("bar_token", 777));
    tokens.add_tokens(cw("foo_token", 23400));
    let got: Vec<(String, u128)> = tokens.cw20.iter().map(|c| (c.address.clone(), c.amount)).collect();
    assert_eq!(got, vec![("foo_token".to_string(), 35745), ("bar_token".to_string(), 777)]);
}

#[test]
fn deposits_of_one_denom_combine() {
    let mut twice = GenericBalance::new();
    twice.add_tokens(native(&[(100, "x")]));
    twice.add_tokens(native(&[(50, "x")]));
    let mut once = GenericBalance::new();
    once.add_tokens(native(&[(150, "x")]));
    assert_eq!(pairs(&twice.native), pairs(&once.native));
    assert_eq!(pairs(&twice.native), vec![("x".to_string(), 150)]);
}

#[test]
fn deposit_order_is_first_seen_order() {
    let mut a = GenericBalance::new();
    a.add_tokens(native(&[(1, "b"), (2, "a")]));
    a.add_tokens(native(&[(3, "c"), (4, "b")]));
    assert_eq!(
        pairs(&a.native),
        vec![("b".to_string(), 5), ("a".to_string(), 2), ("c".to_string(), 3)]
    );
}

#[test]
fn empty_deposits() {
    assert!(native(&[]).is_empty());
    assert!(!native(&[(1, "a")]).is_empty());
    assert!(native(&[(0, "a"), (0, "b")]).is_empty());
    assert!(!native(&[(0, "a"), (3, "b")]).is_empty());
    assert!(Balance::Cw20(Cw20CoinVerified { address: "t".to_string(), amount: 0 }).is_empty());
}

#[test]
fn top_up_mixed_tokens() {
    let mut ledger = GenericBalance::new();
    ledger.add_tokens(native(&[(100, "fee"), (200, "stake")]));
    ledger.add_tokens(native(&[(250, "random"), (300, "stake")]));
    ledger.add_tokens(Balance::Cw20(Cw20CoinVerified { address: "bar_token".to_string(), amount: 7890 }));
    ledger.add_tokens(Balance::Cw20(Cw20CoinVerified { address: "foo_token".to_string(), amount: 888 }));
    let msgs = send_tokens(&"recd".to_string(), &ledger).unwrap();
    assert_eq!(3, msgs.len());
    match &msgs[0] {
        SubMsg::BankSend { to_address, amount } => {
            assert_eq!(to_address, "recd");
            assert_eq!(
                pairs(amount),
                vec![("fee".to_string(), 100), ("stake".to_string(), 500), ("random".to_string(), 250)]
            );
        }
        other => panic!("unexpected {:?}", other),
    }
    let expect = [("bar_token", 7890u128), ("foo_token", 888u128)];
    for (m, (token, amount)) in msgs[1..].iter().zip(expect.iter()) {
        match m {
            SubMsg::Cw20Transfer { contract_addr, recipient, amount: a, msg } => {
                assert_eq!(contract_addr, token);
                assert_eq!(recipient, "recd");
                assert_eq!(a, amount);
                assert_eq!(msg, &transfer_bytes("recd", *amount));
            }
            other => panic!("unexpected {:?}", other),
        }
    }
}

#[test]
fn payout_of_an_empty_ledger_is_empty() {
    let msgs = send_tokens(&"recd".to_string(), &GenericBalance::new()).unwrap();
    assert!(msgs.is_empty());
}

#[test]
fn cw20_transfer_message_is_serialized_json() {
    let mut ledger = GenericBalance::new();
    ledger.add_tokens(Balance::Cw20(Cw20CoinVerified { address: "tok".to_string(), amount: 42 }));
    let msgs = send_tokens(&"bob".to_string(), &ledger).unwrap();
    match &msgs[0] {
        SubMsg::Cw20Transfer { msg, .. } => {
            assert_eq!(
                String::from_utf8(msg.clone()).unwrap(),
                "{\"transfer\":{\"recipient\":\"bob\",\"amount\":\"42\"}}"
            );
        }
        other => panic!("unexpected {:?}", other),
    }
}

#[test]
fn zero_native_entries_are_not_sent() {
    let mut ledger = GenericBalance::new();
    ledger.add_tokens(native(&[(0, "a"), (5, "b")]));
    let msgs = send_tokens(&"r".to_string(), &ledger).unwrap();
    assert_eq!(1, msgs.len());
    match &msgs[0] {
        SubMsg::BankSend { amount, .. } => assert_eq!(pairs(amount), vec![("b".to_string(), 5)]),
        other => panic!("unexpected {:?}", other),
    }
    let mut zero = GenericBalance::new();
    zero.add_tokens(native(&[(0, "a")]));
    assert!(send_tokens(&"r".to_string(), &zero).unwrap().is_empty());
}
