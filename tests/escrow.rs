use cw20_escrow::balance::{Balance, Coin, Cw20CoinVerified, GenericBalance};
use cw20_escrow::contract::{
    c_cancel, c_change, c_complete, c_create, c_feedback, c_request_arbitration, el_arbitrate,
    f_accept, f_complete, f_feedback, f_unaccept, query_details, query_list, Response, SubMsg,
};
use cw20_escrow::error::ContractError;
use cw20_escrow::msg::{is_valid_name, ArbitrateMsg, CreateMsg, FeedbackMsg};
use cw20_escrow::state::{all_escrow_ids, BlockInfo, Escrow, EscrowStore};
use cw20_escrow::trust::{get_trust_metrics, TrustMetrics};

fn s(x: &str) -> String {
    x.to_string()
}

fn coins(amount: u128, denom: &str) -> Balance {
    Balance::Native(vec![Coin { denom: s(denom), amount }])
}

fn no_requirements() -> TrustMetrics {
    TrustMetrics {
        percent_completed: 0,
        percent_satisfied: 0,
        avg_volume: 0,
        avg_completion_speed: u32::MAX,
        total_volume: 0,
        total_completed: 0,
    }
}

fn create_msg(id: &str, arbiter: &str, end_height: Option<u64>, whitelist: Option<Vec<String>>) -> CreateMsg {
    CreateMsg {
        id: s(id),
        arbiter: s(arbiter),
        end_height,
        end_time: None,
        exchange_rate: 1,
        cw20_whitelist: whitelist,
        required_trust_metrics: no_requirements(),
    }
}


fn open_escrow(store: &mut EscrowStore, msg: CreateMsg, b: Balance, sender: &String) -> Result<Response, ContractError> {
    c_create(store, msg, b, sender, &block())
}

fn accept(store: &mut EscrowStore, sender: &String, t: TrustMetrics, id: &String) -> Result<Response, ContractError> {
    f_accept(store, sender, t, &block(), id)
}

fn fulfil(store: &mut EscrowStore, sender: &String, id: &String) -> Result<Response, ContractError> {
    f_complete(store, sender, &block(), id)
}

fn request_arbitration(store: &mut EscrowStore, sender: &String, id: &String) -> Result<Response, ContractError> {
    c_request_arbitration(store, sender, &block(), id)
}

fn attr(res: &Response, i: usize) -> (String, String) {
    (res.attributes[i].key.clone(), res.attributes[i].value.clone())
}

fn block() -> BlockInfo {
    BlockInfo { height: 12_345, time: 1_571_797_419_879_305_533 }
}

fn feedback() -> FeedbackMsg {
    FeedbackMsg { comment: s("fine"), satisfied: true }
}

/// Creates "foobar" by `creator` with 100 native tokens, then has `fulfiller`
/// accept and fulfil it.
fn fulfilled_store(creator: &str, fulfiller: &str) -> EscrowStore {
    let mut store = EscrowStore::new();
    open_escrow(&mut store, create_msg("foobar", "arbitrate", Some(123456), None), coins(100, "tokens"), &s(creator))
        .unwrap();
    let trust = get_trust_metrics(&s(fulfiller));
    accept(&mut store, &s(fulfiller), trust, &s("foobar")).unwrap();
    fulfil(&mut store, &s(fulfiller), &s("foobar")).unwrap();
    store
}

fn assert_bank_send(m: &SubMsg, to: &str, amount: u128, denom: &str) {
    match m {
        SubMsg::BankSend { to_address, amount: coins } => {
            assert_eq!(to_address, to);
            assert_eq!(coins.len(), 1);
            assert_eq!(coins[0].denom, denom);
            assert_eq!(coins[0].amount, amount);
        }
        other => panic!("unexpected {:?}", other),
    }
}

#[test]
fn happy_path_native() {
    let mut store = EscrowStore::new();
    let create = create_msg("foobar", "arbitrate", Some(123456), None);
    let res = open_escrow(&mut store, create, coins(100, "tokens"), &s("source")).unwrap();
    assert_eq!(0, res.messages.len());
    assert_eq!((s("action"), s("create")), attr(&res, 0));

    let details = query_details(&store, s("foobar")).unwrap();
    assert_eq!(details.id, "foobar");
    assert_eq!(details.arbiter, "arbitrate");
    assert_eq!(details.creator, "source");
    assert_eq!(details.end_height, Some(123456));
    assert_eq!(details.end_time, None);
    assert_eq!(details.native_balance.len(), 1);
    assert_eq!(details.native_balance[0].denom, "tokens");
    assert_eq!(details.native_balance[0].amount, 100);
    assert!(details.cw20_balance.is_empty());
    assert!(details.cw20_whitelist.is_empty());

    let trust = get_trust_metrics(&s("recd"));
    accept(&mut store, &s("recd"), trust, &s("foobar")).unwrap();
    fulfil(&mut store, &s("recd"), &s("foobar")).unwrap();
    let res = c_complete(&mut store, &s("source"), &s("foobar")).unwrap();
    assert_eq!(1, res.messages.len());
    assert_eq!((s("action"), s("creator_complete")), attr(&res, 0));
    assert_bank_send(&res.messages[0], "recd", 100, "tokens");

    // second attempt fails (not found)
    let err = c_complete(&mut store, &s("source"), &s("foobar")).unwrap_err();
    assert_eq!(err, ContractError::NotFound {});
}

#[test]
fn happy_path_cw20() {
    let mut store = EscrowStore::new();
    let create = create_msg("foobar", "arbitrate", None, Some(vec![s("other-token")]));
    let token = Balance::Cw20(Cw20CoinVerified { address: s("my-cw20-token"), amount: 100 });
    let res = open_escrow(&mut store, create, token, &s("source")).unwrap();
    assert_eq!(0, res.messages.len());
    assert_eq!((s("action"), s("create")), attr(&res, 0));

    let details = query_details(&store, s("foobar")).unwrap();
    assert!(details.native_balance.is_empty());
    assert_eq!(details.cw20_balance.len(), 1);
    assert_eq!(details.cw20_balance[0].address, "my-cw20-token");
    assert_eq!(details.cw20_balance[0].amount, 100);
    assert_eq!(details.cw20_whitelist, vec![s("other-token"), s("my-cw20-token")]);

    let trust = get_trust_metrics(&s("recd"));
    accept(&mut store, &s("recd"), trust, &s("foobar")).unwrap();
    fulfil(&mut store, &s("recd"), &s("foobar")).unwrap();
    let res = c_complete(&mut store, &s("source"), &s("foobar")).unwrap();
    assert_eq!(1, res.messages.len());
    assert_eq!((s("action"), s("creator_complete")), attr(&res, 0));
    let expected = cosmwasm_std::to_json_binary(&cw20::Cw20ExecuteMsg::Transfer {
        recipient: s("recd"),
        amount: cosmwasm_std::Uint128::new(100),
    })
    .unwrap();
    match &res.messages[0] {
        SubMsg::Cw20Transfer { contract_addr, recipient, amount, msg } => {
            assert_eq!(contract_addr, "my-cw20-token");
            assert_eq!(recipient, "recd");
            assert_eq!(*amount, 100);
            assert_eq!(msg, &expected.0);
        }
        other => panic!("unexpected {:?}", other),
    }

    let err = c_complete(&mut store, &s("source"), &s("foobar")).unwrap_err();
    assert_eq!(err, ContractError::NotFound {});
}

#[test]
fn cw20_deposit_already_whitelisted_is_not_repeated() {
    let mut store = EscrowStore::new();
    let create = create_msg("foobar", "arb", None, Some(vec![s("tok")]));
    let token = Balance::Cw20(Cw20CoinVerified { address: s("tok"), amount: 5 });
    open_escrow(&mut store, create, token, &s("source")).unwrap();
    let details = query_details(&store, s("foobar")).unwrap();
    assert_eq!(details.cw20_whitelist, vec![s("tok")]);
}

#[test]
fn creator_calls_the_creator_complete_function() {
    let mut store = fulfilled_store("creator", "fulfiller");
    let details = query_details(&store, s("foobar")).unwrap();
    assert_eq!(details.creator, "creator");
    assert_eq!(details.fulfiller, "fulfiller");
    assert_eq!(details.end_height, Some(123456));

    // the fulfiller may not complete for the creator
    let err = c_complete(&mut store, &s("fulfiller"), &s("foobar")).unwrap_err();
    assert_eq!(err, ContractError::Unauthorized {});

    let res = c_complete(&mut store, &s("creator"), &s("foobar")).unwrap();
    assert_eq!(1, res.messages.len());
    assert_eq!((s("action"), s("creator_complete")), attr(&res, 0));
    assert_eq!((s("to"), s("fulfiller")), attr(&res, 2));
    assert_bank_send(&res.messages[0], "fulfiller", 100, "tokens");

    let err = c_complete(&mut store, &s("creator"), &s("foobar")).unwrap_err();
    assert_eq!(err, ContractError::NotFound {});
}

#[test]
fn end_to_end_foobar() {
    let mut store = EscrowStore::new();
    let create = create_msg("foobar", "arb", None, None);
    open_escrow(&mut store, create, coins(100, "tokens"), &s("creator")).unwrap();
    let trust = get_trust_metrics(&s("worker"));
    accept(&mut store, &s("worker"), trust, &s("foobar")).unwrap();
    assert_eq!(query_details(&store, s("foobar")).unwrap().fulfiller, "worker");
    // completion by the creator waits for the fulfiller to fulfil
    let err = c_complete(&mut store, &s("creator"), &s("foobar")).unwrap_err();
    assert_eq!(err, ContractError::Expired {});
    fulfil(&mut store, &s("worker"), &s("foobar")).unwrap();
    let res = c_complete(&mut store, &s("creator"), &s("foobar")).unwrap();
    assert_eq!(1, res.messages.len());
    assert_bank_send(&res.messages[0], "worker", 100, "tokens");
    assert!(query_list(&store).escrows.is_empty());
    assert_eq!(query_details(&store, s("foobar")).unwrap_err(), ContractError::NotFound {});
}

#[test]
fn create_with_id_in_use_fails() {
    let mut store = EscrowStore::new();
    open_escrow(&mut store, create_msg("foobar", "arb", None, None), coins(100, "tokens"), &s("a")).unwrap();
    let err = open_escrow(&mut store, create_msg("foobar", "other", Some(1), None), coins(7, "x"), &s("b"))
        .unwrap_err();
    assert_eq!(err, ContractError::AlreadyInUse {});
    assert_eq!(query_details(&store, s("foobar")).unwrap().creator, "a");
}

#[test]
fn create_with_empty_deposit_fails() {
    let mut store = EscrowStore::new();
    let err = open_escrow(&mut store, create_msg("foobar", "arb", None, None), Balance::Native(vec![]), &s("a"))
        .unwrap_err();
    assert_eq!(err, ContractError::EmptyBalance {});
    let zero = Balance::Native(vec![Coin { denom: s("tokens"), amount: 0 }]);
    let err = open_escrow(&mut store, create_msg("foobar", "arb", None, None), zero, &s("a")).unwrap_err();
    assert_eq!(err, ContractError::EmptyBalance {});
    let token = Balance::Cw20(Cw20CoinVerified { address: s("tok"), amount: 0 });
    let err = open_escrow(&mut store, create_msg("foobar", "arb", None, None), token, &s("a")).unwrap_err();
    assert_eq!(err, ContractError::EmptyBalance {});
    assert!(query_list(&store).escrows.is_empty());
}

#[test]
fn created_ledger_holds_the_deposit() {
    let mut store = EscrowStore::new();
    let deposit = Balance::Native(vec![
        Coin { denom: s("a"), amount: 3 },
        Coin { denom: s("b"), amount: 4 },
        Coin { denom: s("a"), amount: 5 },
    ]);
    open_escrow(&mut store, create_msg("foobar", "arb", None, None), deposit, &s("c")).unwrap();
    let d = query_details(&store, s("foobar")).unwrap();
    let got: Vec<(String, u128)> = d.native_balance.iter().map(|c| (c.denom.clone(), c.amount)).collect();
    assert_eq!(got, vec![(s("a"), 8), (s("b"), 4)]);
}

#[test]
fn creator_cannot_accept() {
    let mut store = EscrowStore::new();
    open_escrow(&mut store, create_msg("foobar", "arb", None, None), coins(1, "t"), &s("c")).unwrap();
    let err = accept(&mut store, &s("c"), get_trust_metrics(&s("c")), &s("foobar")).unwrap_err();
    assert_eq!(err, ContractError::Unauthorized {});
}

#[test]
fn accept_needs_trust_and_a_listing() {
    let mut store = EscrowStore::new();
    let mut create = create_msg("foobar", "arb", None, None);
    create.required_trust_metrics.total_completed = 50;
    open_escrow(&mut store, create, coins(1, "t"), &s("c")).unwrap();
    let err = accept(&mut store, &s("f"), get_trust_metrics(&s("f")), &s("foobar")).unwrap_err();
    assert_eq!(err, ContractError::TrustMetricsInsufficient {});
    let mut trusted = get_trust_metrics(&s("f"));
    trusted.total_completed = 50;
    accept(&mut store, &s("f"), trusted, &s("foobar")).unwrap();
    let err = accept(&mut store, &s("g"), trusted, &s("foobar")).unwrap_err();
    assert_eq!(err, ContractError::NotListed {});
    let err = accept(&mut store, &s("g"), trusted, &s("missing")).unwrap_err();
    assert_eq!(err, ContractError::NotFound {});
}

#[test]
fn unaccept_lists_again() {
    let mut store = EscrowStore::new();
    open_escrow(&mut store, create_msg("foobar", "arb", None, None), coins(1, "t"), &s("c")).unwrap();
    let err = f_unaccept(&mut store, &s("c"), &s("foobar")).unwrap_err();
    assert_eq!(err, ContractError::CantUnaccept {});
    accept(&mut store, &s("f"), get_trust_metrics(&s("f")), &s("foobar")).unwrap();
    let err = f_unaccept(&mut store, &s("x"), &s("foobar")).unwrap_err();
    assert_eq!(err, ContractError::Unauthorized {});
    let res = f_unaccept(&mut store, &s("f"), &s("foobar")).unwrap();
    assert_eq!((s("action"), s("unaccept")), attr(&res, 0));
    assert_eq!(query_details(&store, s("foobar")).unwrap().fulfiller, "c");
    accept(&mut store, &s("g"), get_trust_metrics(&s("g")), &s("foobar")).unwrap();
}

#[test]
fn fulfil_needs_acceptance() {
    let mut store = EscrowStore::new();
    open_escrow(&mut store, create_msg("foobar", "arb", None, None), coins(1, "t"), &s("c")).unwrap();
    // until acceptance the creator stands as fulfiller
    let err = fulfil(&mut store, &s("c"), &s("foobar")).unwrap_err();
    assert_eq!(err, ContractError::CantFulfill {});
    let err = fulfil(&mut store, &s("f"), &s("foobar")).unwrap_err();
    assert_eq!(err, ContractError::Unauthorized {});
}

#[test]
fn arbitration_request_needs_fulfillment() {
    let mut store = EscrowStore::new();
    open_escrow(&mut store, create_msg("foobar", "arb", None, None), coins(1, "t"), &s("c")).unwrap();
    let err = request_arbitration(&mut store, &s("c"), &s("foobar")).unwrap_err();
    assert_eq!(err, ContractError::NotFulfilled {});
    let mut store = fulfilled_store("c", "f");
    let err = request_arbitration(&mut store, &s("f"), &s("foobar")).unwrap_err();
    assert_eq!(err, ContractError::Unauthorized {});
    let res = request_arbitration(&mut store, &s("c"), &s("foobar")).unwrap();
    assert_eq!((s("action"), s("request_arbitration")), attr(&res, 0));
}

#[test]
fn cancel_removes_an_accepted_escrow() {
    let mut store = EscrowStore::new();
    open_escrow(&mut store, create_msg("foobar", "arb", None, None), coins(1, "t"), &s("c")).unwrap();
    let err = c_cancel(&mut store, &s("c"), &block(), &s("foobar")).unwrap_err();
    assert_eq!(err, ContractError::CantUnaccept {});
    accept(&mut store, &s("f"), get_trust_metrics(&s("f")), &s("foobar")).unwrap();
    let res = c_cancel(&mut store, &s("c"), &block(), &s("foobar")).unwrap();
    assert!(res.messages.is_empty());
    assert_eq!(query_details(&store, s("foobar")).unwrap_err(), ContractError::NotFound {});
}

#[test]
fn feedback_needs_completion() {
    let store = fulfilled_store("c", "f");
    let err = c_feedback(&store, &s("c"), feedback(), &s("foobar")).unwrap_err();
    assert_eq!(err, ContractError::NotComplete {});
    let err = c_feedback(&store, &s("f"), feedback(), &s("foobar")).unwrap_err();
    assert_eq!(err, ContractError::Unauthorized {});
    let err = f_feedback(&store, &s("f"), feedback(), &s("foobar")).unwrap_err();
    assert_eq!(err, ContractError::NotComplete {});
    let err = f_feedback(&store, &s("c"), feedback(), &s("foobar")).unwrap_err();
    assert_eq!(err, ContractError::Unauthorized {});
    let err = f_feedback(&store, &s("c"), feedback(), &s("nope")).unwrap_err();
    assert_eq!(err, ContractError::NotFound {});
}

#[test]
fn arbitrate_and_change_are_refused() {
    let err = el_arbitrate(ArbitrateMsg { reciever: s("x") }, s("foobar")).unwrap_err();
    assert_eq!(err, ContractError::Unauthorized {});
    let err = c_change(create_msg("foobar", "arb", None, None)).unwrap_err();
    assert_eq!(err, ContractError::Unauthorized {});
    assert_eq!(err.message(), "Unauthorized");
}

#[test]
fn names_of_three_to_twenty_bytes_are_valid() {
    assert!(!is_valid_name("ab"));
    assert!(is_valid_name("abc"));
    assert!(is_valid_name("abcdefghijklmnopqrst"));
    assert!(!is_valid_name("abcdefghijklmnopqrstu"));
    assert!(is_valid_name("\u{e9}a"));
}

fn dummy_escrow() -> Escrow {
    Escrow {
        arbiter: s("arb"),
        fulfiller: s("recip"),
        creator: s("source"),
        end_height: None,
        end_time: None,
        balance: GenericBalance::new(),
        exchange_rate: 0,
        cw20_whitelist: vec![],
        required_trust_metrics: no_requirements(),
        is_listed: true,
        is_canceled: false,
        is_accepted: false,
        is_fulfilled: false,
        is_in_arbitration: false,
        is_completed: false,
        time_created: None,
        time_accepted: None,
        time_fulfilled: None,
        time_arbitration_started: None,
    }
}

#[test]
fn no_escrow_ids() {
    let store = EscrowStore::new();
    let ids = all_escrow_ids(&store);
    assert_eq!(0, ids.len());
}

#[test]
fn all_escrow_ids_in_order() {
    let mut store = EscrowStore::new();
    store.save(s("lazy"), dummy_escrow());
    store.save(s("assign"), dummy_escrow());
    store.save(s("zen"), dummy_escrow());
    let ids = all_escrow_ids(&store);
    assert_eq!(3, ids.len());
    assert_eq!(vec![s("assign"), s("lazy"), s("zen")], ids);
}

#[test]
fn save_replaces_and_remove_deletes() {
    let mut store = EscrowStore::new();
    store.save(s("b"), dummy_escrow());
    store.save(s("a"), dummy_escrow());
    let mut e = dummy_escrow();
    e.creator = s("other");
    store.save(s("b"), e);
    assert_eq!(all_escrow_ids(&store), vec![s("a"), s("b")]);
    assert_eq!(store.load(&s("b")).unwrap().creator, "other");
    assert!(store.remove(&s("a")).is_some());
    assert!(store.remove(&s("a")).is_none());
    assert!(!store.contains(&s("a")));
    assert_eq!(all_escrow_ids(&store), vec![s("b")]);
}

#[test]
fn expiry_by_height_and_time() {
    let mut e = dummy_escrow();
    assert!(!e.is_expired(&block()));
    e.end_height = Some(12_344);
    assert!(e.is_expired(&block()));
    e.end_height = Some(12_345);
    assert!(!e.is_expired(&block()));
    e.end_time = Some(1_571_797_419);
    assert!(e.is_expired(&block()));
    e.end_time = Some(1_571_797_420);
    assert!(!e.is_expired(&block()));
    e.end_time = Some(u64::MAX);
    assert!(!e.is_expired(&block()));
    assert!(!e.is_accept_expired(&block()));
}

#[test]
fn well_formed_records() {
    assert!(dummy_escrow().is_well_formed());
    let mut e = dummy_escrow();
    e.is_fulfilled = true;
    assert!(!e.is_well_formed());
    e.is_accepted = true;
    assert!(e.is_well_formed());
    e.is_completed = true;
    e.is_canceled = true;
    assert!(!e.is_well_formed());
    let mut e = dummy_escrow();
    e.balance.native = vec![Coin { denom: s("a"), amount: 1 }, Coin { denom: s("a"), amount: 2 }];
    assert!(!e.is_well_formed());
    let mut e = dummy_escrow();
    e.balance.cw20 = vec![
        Cw20CoinVerified { address: s("t"), amount: 1 },
        Cw20CoinVerified { address: s("u"), amount: 1 },
    ];
    assert!(e.is_well_formed());
}

#[test]
fn unaccept_after_fulfilment_clears_it() {
    let mut store = fulfilled_store("c", "f");
    request_arbitration(&mut store, &s("c"), &s("foobar")).unwrap();
    f_unaccept(&mut store, &s("f"), &s("foobar")).unwrap();
    let e = store.load(&s("foobar")).unwrap();
    assert_eq!(e.fulfiller, "c");
    assert!(e.is_listed && !e.is_accepted && !e.is_fulfilled && !e.is_in_arbitration);
    assert_eq!(e.time_accepted, None);
    assert_eq!(e.time_fulfilled, None);
    assert_eq!(e.time_arbitration_started, None);
    let err = c_complete(&mut store, &s("c"), &s("foobar")).unwrap_err();
    assert_eq!(err, ContractError::Expired {});
}

#[test]
fn others_cancel_only_after_the_accept_window() {
    let mut store = EscrowStore::new();
    open_escrow(&mut store, create_msg("foobar", "arb", None, None), coins(1, "t"), &s("c")).unwrap();
    accept(&mut store, &s("f"), get_trust_metrics(&s("f")), &s("foobar")).unwrap();
    let accepted_at = block().time / 1_000_000_000;
    assert_eq!(store.load(&s("foobar")).unwrap().time_accepted, Some(accepted_at));
    let in_window = BlockInfo { height: 1, time: (accepted_at + 3600) * 1_000_000_000 };
    let err = c_cancel(&mut store, &s("x"), &in_window, &s("foobar")).unwrap_err();
    assert_eq!(err, ContractError::Unauthorized {});
    let later = BlockInfo { height: 1, time: (accepted_at + 3601) * 1_000_000_000 };
    c_cancel(&mut store, &s("x"), &later, &s("foobar")).unwrap();
    assert!(!store.contains(&s("foobar")));
}

#[test]
fn transitions_record_their_time() {
    let mut store = fulfilled_store("c", "f");
    let now = Some(block().time / 1_000_000_000);
    let e = store.load(&s("foobar")).unwrap();
    assert_eq!(e.time_created, now);
    assert_eq!(e.time_accepted, now);
    assert_eq!(e.time_fulfilled, now);
    assert_eq!(e.time_arbitration_started, None);
    assert!(e.is_fulfill_expired(&BlockInfo { height: 0, time: block().time + 3601 * 1_000_000_000 }));
    assert!(!e.is_fulfill_expired(&block()));
    request_arbitration(&mut store, &s("c"), &s("foobar")).unwrap();
    let e = store.load(&s("foobar")).unwrap();
    assert_eq!(e.time_arbitration_started, now);
    assert!(!e.is_arbitration_expired(&block()));
}

#[test]
fn create_refuses_sums_beyond_u128() {
    let mut store = EscrowStore::new();
    let deposit = Balance::Native(vec![
        Coin { denom: s("a"), amount: u128::MAX },
        Coin { denom: s("a"), amount: 1 },
    ]);
    let err = open_escrow(&mut store, create_msg("foobar", "arb", None, None), deposit, &s("c")).unwrap_err();
    assert_eq!(err, ContractError::Overflow {});
    let fits = Balance::Native(vec![
        Coin { denom: s("a"), amount: u128::MAX },
        Coin { denom: s("b"), amount: u128::MAX },
    ]);
    open_escrow(&mut store, create_msg("foobar", "arb", None, None), fits, &s("c")).unwrap();
}

#[test]
fn can_add_tokens_checks_each_denom() {
    let mut ledger = GenericBalance::new();
    ledger.add_tokens(Balance::Native(vec![Coin { denom: s("a"), amount: u128::MAX - 5 }]));
    assert!(ledger.can_add_tokens(&coins(5, "a")));
    assert!(!ledger.can_add_tokens(&coins(6, "a")));
    assert!(ledger.can_add_tokens(&coins(u128::MAX, "b")));
    let t = |n: u128| Balance::Cw20(Cw20CoinVerified { address: s("t"), amount: n });
    ledger.add_tokens(t(10));
    assert!(ledger.can_add_tokens(&t(u128::MAX - 10)));
    assert!(!ledger.can_add_tokens(&t(u128::MAX - 9)));
}
