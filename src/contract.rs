//! The escrow lifecycle: each operation checks the caller's role and the
//! record's state, then changes the store and proposes fund transfers.

use vstd::prelude::*;

use crate::balance::{
    amount_of, coins_view, copy_coins, lemma_amount_push, lemma_merge, lemma_merge_all, Balance, Coin, Entry, GenericBalance,
    LedgerView,
};
use crate::error::ContractError;
use crate::msg::{ArbitrateMsg, CreateMsg, Cw20Coin, DetailsResponse, FeedbackMsg, ListResponse};
use crate::state::{
    all_escrow_ids, block_seconds, bytes_lt, key_bytes, seconds_of, BlockInfo, Escrow, EscrowStore,
};
use crate::trust::TrustMetrics;

verus! {

/// A fund transfer for the host to execute.
#[derive(Debug)]
pub enum SubMsg {
    /// Send native coins.
    BankSend { to_address: String, amount: Vec<Coin> },
    /// Execute `msg`, a cw20 transfer of `amount` to `recipient`, on the token
    /// contract `contract_addr`.
    Cw20Transfer { contract_addr: String, recipient: String, amount: u128, msg: Vec<u8> },
}

#[derive(Debug)]
pub struct Attribute {
    pub key: String,
    pub value: String,
}

/// The result of a successful operation.
#[derive(Debug)]
pub struct Response {
    pub messages: Vec<SubMsg>,
    pub attributes: Vec<Attribute>,
}

/// The serialized cw20 transfer message for a recipient and an amount, or
/// none where serialization fails.
pub uninterp spec fn cw20_transfer_json(recipient: Seq<char>, amount: nat) -> Option<Seq<u8>>;

/// Relies on cosmwasm_std::to_json_binary (what to_binary forwards to) on
/// cw20::Cw20ExecuteMsg::Transfer: its bytes, or its failure, depend on the
/// recipient and the amount alone.
#[verifier::external_body]
fn encode_transfer(recipient: &String, amount: u128) -> (r: Option<Vec<u8>>)
    ensures
        match r {
            Some(b) => cw20_transfer_json(recipient@, amount as nat) == Some(b@),
            None => cw20_transfer_json(recipient@, amount as nat) is None,
        },
{
    let msg = cw20::Cw20ExecuteMsg::Transfer {
        recipient: recipient.clone(),
        amount: cosmwasm_std::Uint128::new(amount),
    };
    cosmwasm_std::to_json_binary(&msg).ok().map(|b| b.0)
}

pub open spec fn strings_view(v: Seq<String>) -> Seq<Seq<char>> {
    v.map_values(|s: String| s@)
}

pub open spec fn is_bank_send(m: SubMsg, to: Seq<char>, coins: Seq<Entry>) -> bool {
    match m {
        SubMsg::BankSend { to_address, amount } => to_address@ == to && coins_view(amount@)
            == coins,
        _ => false,
    }
}

pub open spec fn is_cw20_transfer(m: SubMsg, to: Seq<char>, e: Entry) -> bool {
    match m {
        SubMsg::Cw20Transfer { contract_addr, recipient, amount, msg } => {
            &&& contract_addr@ == e.0
            &&& recipient@ == to
            &&& amount == e.1
            &&& cw20_transfer_json(to, e.1) == Some(msg@)
        },
        _ => false,
    }
}

/// Every cw20 transfer of a payout of `b` to `to` can be serialized.
pub open spec fn encodable(to: Seq<char>, b: LedgerView) -> bool {
    forall|j: int| 0 <= j < b.cw20.len() ==> (cw20_transfer_json(to, (#[trigger] b.cw20[j]).1) is Some)
}

/// The native entries that carry an amount.
pub open spec fn nonzero(s: Seq<Entry>) -> Seq<Entry> {
    s.filter(|e: Entry| e.1 > 0)
}

/// `ms` pays the whole ledger `b` out to `to`: one bank send with every native
/// entry that carries an amount (none when there is none), then one cw20
/// transfer per token, in ledger order.
pub open spec fn pays_out(ms: Seq<SubMsg>, to: Seq<char>, b: LedgerView) -> bool {
    let paid = nonzero(b.native);
    let off = if paid.len() == 0 {
        0int
    } else {
        1int
    };
    &&& ms.len() == off + b.cw20.len()
    &&& paid.len() > 0 ==> is_bank_send(ms[0], to, paid)
    &&& forall|j: int| 0 <= j < b.cw20.len() ==> is_cw20_transfer(ms[off + j], to, #[trigger] b.cw20[j])
}

/// The response carries the action and the id as its first two attributes.
pub open spec fn tagged(r: Response, action: Seq<char>, id: Seq<char>) -> bool {
    &&& r.attributes@.len() >= 2
    &&& r.attributes@[0].key@ == "action"@
    &&& r.attributes@[0].value@ == action
    &&& r.attributes@[1].key@ == "id"@
    &&& r.attributes@[1].value@ == id
}

/// The request was refused with `err` and nothing stored changed.
pub open spec fn refused(
    r: Result<Response, ContractError>,
    err: ContractError,
    before: Map<Seq<char>, Escrow>,
    after: Map<Seq<char>, Escrow>,
) -> bool {
    r == Err::<Response, ContractError>(err) && after == before
}

/// The request succeeded with a response tagged `action`, proposing no transfer.
pub open spec fn done(r: Result<Response, ContractError>, action: Seq<char>, id: Seq<char>) -> bool {
    r matches Ok(resp) && tagged(resp, action, id) && resp.messages@.len() == 0
}

fn attribute(key: &str, value: &str) -> (r: Attribute)
    ensures
        r.key@ == key@,
        r.value@ == value@,
{
    Attribute { key: key.to_string(), value: value.to_string() }
}

fn respond(action: &str, id: &String) -> (r: Response)
    ensures
        tagged(r, action@, id@),
        r.attributes@.len() == 2,
        r.messages@.len() == 0,
{
    let mut attributes: Vec<Attribute> = Vec::new();
    attributes.push(attribute("action", action));
    attributes.push(attribute("id", id.as_str()));
    Response { messages: Vec::new(), attributes }
}

/// The coins of `v` that carry an amount, in order.
fn nonzero_coins(v: &Vec<Coin>) -> (r: Vec<Coin>)
    ensures
        coins_view(r@) == nonzero(coins_view(v@)),
{
    let ghost all = coins_view(v@);
    let mut r: Vec<Coin> = Vec::new();
    let mut i: usize = 0;
    assert(all.take(0) =~= Seq::<Entry>::empty());
    proof {
        reveal(Seq::filter);
    }
    assert(coins_view(r@) =~= nonzero(all.take(0)));
    while i < v.len()
        invariant
            all == coins_view(v@),
            0 <= i <= v@.len(),
            coins_view(r@) == nonzero(all.take(i as int)),
        decreases v@.len() - i,
    {
        proof {
            assert(all.take(i as int + 1) =~= all.take(i as int).push(all[i as int]));
            all.take(i as int).lemma_filter_push(all[i as int], |e: Entry| e.1 > 0);
        }
        if v[i].amount > 0 {
            let ghost before = r@;
            r.push(Coin { denom: v[i].denom.clone(), amount: v[i].amount });
            assert(coins_view(r@) =~= coins_view(before).push(all[i as int]));
        }
        i = i + 1;
    }
    assert(all.take(i as int) =~= all);
    r
}

/// The transfers that pay the whole ledger out to `to`.
pub fn send_tokens(to: &String, balance: &GenericBalance) -> (r: Result<Vec<SubMsg>, ContractError>)
    ensures
        encodable(to@, balance@) ==> (r matches Ok(ms) && pays_out(ms@, to@, balance@)),
        !encodable(to@, balance@) ==> r == Err::<Vec<SubMsg>, ContractError>(
            ContractError::SerializeErr {},
        ),
{
    let ghost b = balance@;
    let mut msgs: Vec<SubMsg> = Vec::new();
    let native = nonzero_coins(&balance.native);
    if native.len() > 0 {
        msgs.push(SubMsg::BankSend { to_address: to.clone(), amount: native });
    }
    let ghost off: int = msgs@.len() as int;
    let mut i: usize = 0;
    while i < balance.cw20.len()
        invariant
            b == balance@,
            off == if nonzero(b.native).len() == 0 { 0int } else { 1int },
            0 <= i <= b.cw20.len(),
            msgs@.len() == off + i,
            nonzero(b.native).len() > 0 ==> is_bank_send(msgs@[0], to@, nonzero(b.native)),
            forall|j: int| 0 <= j < i ==> is_cw20_transfer(msgs@[off + j], to@, #[trigger] b.cw20[j]),
            forall|j: int| 0 <= j < i ==> (cw20_transfer_json(to@, (#[trigger] b.cw20[j]).1) is Some),
        decreases b.cw20.len() - i,
    {
        let token = &balance.cw20[i];
        assert(token@ == b.cw20[i as int]);
        match encode_transfer(to, token.amount) {
            Some(bytes) => {
                msgs.push(
                    SubMsg::Cw20Transfer {
                        contract_addr: token.address.clone(),
                        recipient: to.clone(),
                        amount: token.amount,
                        msg: bytes,
                    },
                );
            },
            None => {
                return Err(ContractError::SerializeErr {});
            },
        }
        i = i + 1;
    }
    Ok(msgs)
}

pub open spec fn empty_ledger() -> LedgerView {
    LedgerView { native: Seq::empty(), cw20: Seq::empty() }
}

/// The whitelist of a new escrow: the requested one, with the token of a cw20
/// deposit appended when it is not on it.
pub open spec fn initial_whitelist(msg: CreateMsg, balance: Balance) -> Seq<Seq<char>> {
    let requested = match msg.cw20_whitelist {
        Some(v) => strings_view(v@),
        None => Seq::empty(),
    };
    match balance {
        Balance::Cw20(t) => if requested.contains(t.address@) {
            requested
        } else {
            requested.push(t.address@)
        },
        Balance::Native(_) => requested,
    }
}

/// `e` is the record a create request builds: listed, funded with the deposit,
/// with the caller as creator and, until acceptance, as fulfiller, and created
/// at the block's time.
pub open spec fn created(
    e: Escrow,
    msg: CreateMsg,
    balance: Balance,
    sender: Seq<char>,
    block: BlockInfo,
) -> bool {
    &&& e.arbiter@ == msg.arbiter@
    &&& e.fulfiller@ == sender
    &&& e.creator@ == sender
    &&& e.end_height == msg.end_height
    &&& e.end_time == msg.end_time
    &&& e.balance@ == empty_ledger().deposit(balance)
    &&& e.exchange_rate == msg.exchange_rate
    &&& strings_view(e.cw20_whitelist@) == initial_whitelist(msg, balance)
    &&& e.required_trust_metrics == msg.required_trust_metrics
    &&& e.is_listed
    &&& !e.is_canceled
    &&& !e.is_accepted
    &&& !e.is_fulfilled
    &&& !e.is_in_arbitration
    &&& !e.is_completed
    &&& e.time_created == Some(seconds_of(block))
    &&& e.time_accepted is None
    &&& e.time_fulfilled is None
    &&& e.time_arbitration_started is None
}

fn contains_string(v: &Vec<String>, s: &String) -> (r: bool)
    ensures
        r == strings_view(v@).contains(s@),
{
    let mut i: usize = 0;
    while i < v.len()
        invariant
            0 <= i <= v@.len(),
            forall|j: int| 0 <= j < i ==> v@[j]@ != s@,
        decreases v@.len() - i,
    {
        if v[i] == *s {
            assert(strings_view(v@)[i as int] == s@);
            return true;
        }
        i = i + 1;
    }
    assert(!strings_view(v@).contains(s@)) by {
        if strings_view(v@).contains(s@) {
            let j = choose|j: int| 0 <= j < strings_view(v@).len() && strings_view(v@)[j] == s@;
            assert(v@[j]@ == s@);
        }
    }
    false
}

/// Opens an escrow under `msg.id`, funded with `balance`, created by `sender`.
/// The arbiter and the whitelist are addresses the host has validated.
pub fn c_create(
    store: &mut EscrowStore,
    msg: CreateMsg,
    balance: Balance,
    sender: &String,
    block: &BlockInfo,
) -> (r: Result<Response, ContractError>)
    requires
        old(store).wf(),
    ensures
        final(store).wf(),
        balance.spec_is_empty() ==> refused(
            r,
            ContractError::EmptyBalance {},
            old(store)@,
            final(store)@,
        ),
        !balance.spec_is_empty() && old(store)@.contains_key(msg.id@) ==> refused(
            r,
            ContractError::AlreadyInUse {},
            old(store)@,
            final(store)@,
        ),
        !balance.spec_is_empty() && !old(store)@.contains_key(msg.id@)
            && !empty_ledger().can_deposit(balance) ==> refused(
            r,
            ContractError::Overflow {},
            old(store)@,
            final(store)@,
        ),
        !balance.spec_is_empty() && !old(store)@.contains_key(msg.id@) && empty_ledger().can_deposit(
            balance,
        ) ==> {
            &&& done(r, "create"@, msg.id@)
            &&& final(store)@ == old(store)@.insert(msg.id@, final(store)@[msg.id@])
            &&& created(final(store)@[msg.id@], msg, balance, sender@, *block)
        },
{
    if balance.is_empty() {
        return Err(ContractError::EmptyBalance {});
    }
    let ghost m = msg;
    let ghost b = balance;
    let CreateMsg {
        id,
        arbiter,
        end_height,
        end_time,
        exchange_rate,
        cw20_whitelist,
        required_trust_metrics,
    } = msg;
    let mut whitelist: Vec<String> = match cw20_whitelist {
        Some(v) => v,
        None => Vec::new(),
    };
    if let Balance::Cw20(token) = &balance {
        if !contains_string(&whitelist, &token.address) {
            whitelist.push(token.address.clone());
            assert(strings_view(whitelist@) =~= initial_whitelist(m, b));
        }
    }
    assert(strings_view(whitelist@) =~= initial_whitelist(m, b));
    if store.contains(&id) {
        return Err(ContractError::AlreadyInUse {});
    }
    let mut ledger = GenericBalance::new();
    assert(ledger@.native =~= empty_ledger().native);
    assert(ledger@.cw20 =~= empty_ledger().cw20);
    if !ledger.can_add_tokens(&balance) {
        return Err(ContractError::Overflow {});
    }
    ledger.add_tokens(balance);
    let escrow = Escrow {
        arbiter,
        fulfiller: sender.clone(),
        creator: sender.clone(),
        end_height,
        end_time,
        balance: ledger,
        exchange_rate,
        cw20_whitelist: whitelist,
        required_trust_metrics,
        is_listed: true,
        is_canceled: false,
        is_accepted: false,
        is_fulfilled: false,
        is_in_arbitration: false,
        is_completed: false,
        time_created: Some(block_seconds(block)),
        time_accepted: None,
        time_fulfilled: None,
        time_arbitration_started: None,
    };
    let res = respond("create", &id);
    let ghost e = escrow;
    store.save(id, escrow);
    assert(final(store)@[m.id@] == e);
    Ok(res)
}

/// A new escrow's ledger holds, under every denomination and every token,
/// exactly the amount attached to the create request.
pub proof fn lemma_created_ledger_is_deposit(balance: Balance, k: Seq<char>)
    ensures
        amount_of(empty_ledger().deposit(balance).native, k) == match balance {
            Balance::Native(v) => amount_of(coins_view(v@), k),
            Balance::Cw20(_) => 0,
        },
        amount_of(empty_ledger().deposit(balance).cw20, k) == match balance {
            Balance::Native(_) => 0,
            Balance::Cw20(t) => if t.address@ == k {
                t.amount as nat
            } else {
                0
            },
        },
{
    let e: Seq<Entry> = Seq::empty();
    assert(amount_of(e, k) == 0);
    match balance {
        Balance::Native(v) => {
            lemma_merge_all(e, coins_view(v@));
        },
        Balance::Cw20(t) => {
            lemma_merge(e, t@.0, t@.1);
        },
    }
}

pub open spec fn accept_error(e: Escrow, sender: Seq<char>, trust: TrustMetrics) -> Option<
    ContractError,
> {
    if sender == e.creator@ {
        Some(ContractError::Unauthorized {})
    } else if !e.is_listed {
        Some(ContractError::NotListed {})
    } else if e.required_trust_metrics.spec_is_higher(trust) {
        Some(ContractError::TrustMetricsInsufficient {})
    } else {
        None
    }
}

/// `new` is `old` accepted by `sender` in `block`: the fulfiller is set, the
/// escrow leaves the listing and the time of acceptance is recorded.
pub open spec fn accepted(old: Escrow, new: Escrow, sender: Seq<char>, block: BlockInfo) -> bool {
    &&& new.fulfiller@ == sender
    &&& new == (Escrow {
        fulfiller: new.fulfiller,
        is_accepted: true,
        is_listed: false,
        time_accepted: Some(seconds_of(block)),
        ..old
    })
}

/// Accepts the escrow `id` for `sender`, whose trust metrics are `trust`.
pub fn f_accept(
    store: &mut EscrowStore,
    sender: &String,
    trust: TrustMetrics,
    block: &BlockInfo,
    id: &String,
) -> (r: Result<Response, ContractError>)
    requires
        old(store).wf(),
    ensures
        final(store).wf(),
        !old(store)@.contains_key(id@) ==> refused(
            r,
            ContractError::NotFound {},
            old(store)@,
            final(store)@,
        ),
        old(store)@.contains_key(id@) ==> match accept_error(old(store)@[id@], sender@, trust) {
            Some(err) => refused(r, err, old(store)@, final(store)@),
            None => {
                &&& done(r, "accept"@, id@)
                &&& final(store)@ == old(store)@.insert(id@, final(store)@[id@])
                &&& accepted(old(store)@[id@], final(store)@[id@], sender@, *block)
            },
        },
{
    let e = match store.load(id) {
        Ok(e) => e,
        Err(err) => return Err(err),
    };
    if *sender == e.creator {
        // the creator cannot accept their own escrow
        return Err(ContractError::Unauthorized {});
    } else if !e.is_listed {
        return Err(ContractError::NotListed {});
    } else if e.required_trust_metrics.is_higher(trust) {
        return Err(ContractError::TrustMetricsInsufficient {});
    }
    let mut escrow = match store.remove(id) {
        Some(x) => x,
        None => return Err(ContractError::NotFound {}),
    };
    escrow.fulfiller = sender.clone();
    escrow.is_accepted = true;
    escrow.is_listed = false;
    escrow.time_accepted = Some(block_seconds(block));
    store.save(id.clone(), escrow);
    assert(store@ =~= old(store)@.insert(id@, store@[id@]));
    Ok(respond("accept", id))
}

pub open spec fn cancel_error(e: Escrow, sender: Seq<char>, block: BlockInfo) -> Option<
    ContractError,
> {
    if !e.spec_is_accept_expired(block) && sender != e.creator@ {
        Some(ContractError::Unauthorized {})
    } else if !e.is_accepted {
        Some(ContractError::CantUnaccept {})
    } else {
        None
    }
}

/// Cancels the escrow `id`: it is removed from the store. Its funds are not
/// paid out.
pub fn c_cancel(store: &mut EscrowStore, sender: &String, block: &BlockInfo, id: &String) -> (r:
    Result<Response, ContractError>)
    requires
        old(store).wf(),
    ensures
        final(store).wf(),
        !old(store)@.contains_key(id@) ==> refused(
            r,
            ContractError::NotFound {},
            old(store)@,
            final(store)@,
        ),
        old(store)@.contains_key(id@) ==> match cancel_error(old(store)@[id@], sender@, *block) {
            Some(err) => refused(r, err, old(store)@, final(store)@),
            None => done(r, "cancel"@, id@) && final(store)@ == old(store)@.remove(id@),
        },
{
    let e = match store.load(id) {
        Ok(e) => e,
        Err(err) => return Err(err),
    };
    if !e.is_accept_expired(block) && *sender != e.creator {
        return Err(ContractError::Unauthorized {});
    } else if !e.is_accepted {
        return Err(ContractError::CantUnaccept {});
    }
    store.remove(id);
    Ok(respond("cancel", id))
}

pub open spec fn unaccept_error(e: Escrow, sender: Seq<char>) -> Option<ContractError> {
    if sender != e.fulfiller@ {
        Some(ContractError::Unauthorized {})
    } else if !e.is_accepted {
        Some(ContractError::CantUnaccept {})
    } else {
        None
    }
}

/// `new` is `old` given up by its fulfiller: listed again, with the creator
/// standing as fulfiller as at creation, and any fulfillment or arbitration
/// cleared with the acceptance.
pub open spec fn unaccepted(old: Escrow, new: Escrow) -> bool {
    &&& new.fulfiller@ == old.creator@
    &&& new == (Escrow {
        fulfiller: new.fulfiller,
        is_accepted: false,
        is_listed: true,
        is_fulfilled: false,
        is_in_arbitration: false,
        time_accepted: None,
        time_fulfilled: None,
        time_arbitration_started: None,
        ..old
    })
}

/// The fulfiller gives the accepted escrow `id` up.
pub fn f_unaccept(store: &mut EscrowStore, sender: &String, id: &String) -> (r: Result<
    Response,
    ContractError,
>)
    requires
        old(store).wf(),
    ensures
        final(store).wf(),
        !old(store)@.contains_key(id@) ==> refused(
            r,
            ContractError::NotFound {},
            old(store)@,
            final(store)@,
        ),
        old(store)@.contains_key(id@) ==> match unaccept_error(old(store)@[id@], sender@) {
            Some(err) => refused(r, err, old(store)@, final(store)@),
            None => {
                &&& done(r, "unaccept"@, id@)
                &&& final(store)@ == old(store)@.insert(id@, final(store)@[id@])
                &&& unaccepted(old(store)@[id@], final(store)@[id@])
            },
        },
{
    let e = match store.load(id) {
        Ok(e) => e,
        Err(err) => return Err(err),
    };
    if *sender != e.fulfiller {
        return Err(ContractError::Unauthorized {});
    } else if !e.is_accepted {
        return Err(ContractError::CantUnaccept {});
    }
    let mut escrow = match store.remove(id) {
        Some(x) => x,
        None => return Err(ContractError::NotFound {}),
    };
    escrow.fulfiller = escrow.creator.clone();
    escrow.is_accepted = false;
    escrow.is_listed = true;
    escrow.is_fulfilled = false;
    escrow.is_in_arbitration = false;
    escrow.time_accepted = None;
    escrow.time_fulfilled = None;
    escrow.time_arbitration_started = None;
    store.save(id.clone(), escrow);
    assert(store@ =~= old(store)@.insert(id@, store@[id@]));
    Ok(respond("unaccept", id))
}

pub open spec fn fulfill_error(e: Escrow, sender: Seq<char>) -> Option<ContractError> {
    if sender != e.fulfiller@ {
        Some(ContractError::Unauthorized {})
    } else if !e.is_accepted {
        Some(ContractError::CantFulfill {})
    } else {
        None
    }
}

/// The fulfiller marks the escrow `id` fulfilled, at the block's time.
pub fn f_complete(store: &mut EscrowStore, sender: &String, block: &BlockInfo, id: &String) -> (r:
    Result<Response, ContractError>)
    requires
        old(store).wf(),
    ensures
        final(store).wf(),
        !old(store)@.contains_key(id@) ==> refused(
            r,
            ContractError::NotFound {},
            old(store)@,
            final(store)@,
        ),
        old(store)@.contains_key(id@) ==> match fulfill_error(old(store)@[id@], sender@) {
            Some(err) => refused(r, err, old(store)@, final(store)@),
            None => {
                &&& done(r, "fulfill"@, id@)
                &&& final(store)@ == old(store)@.insert(
                    id@,
                    (Escrow { is_fulfilled: true, time_fulfilled: Some(seconds_of(*block)), ..old(store)@[id@] }),
                )
            },
        },
{
    let e = match store.load(id) {
        Ok(e) => e,
        Err(err) => return Err(err),
    };
    if *sender != e.fulfiller {
        return Err(ContractError::Unauthorized {});
    } else if !e.is_accepted {
        return Err(ContractError::CantFulfill {});
    }
    let mut escrow = match store.remove(id) {
        Some(x) => x,
        None => return Err(ContractError::NotFound {}),
    };
    escrow.is_fulfilled = true;
    escrow.time_fulfilled = Some(block_seconds(block));
    store.save(id.clone(), escrow);
    assert(store@ =~= old(store)@.insert(id@, (Escrow { is_fulfilled: true, time_fulfilled: Some(seconds_of(*block)), ..old(store)@[id@] })));
    Ok(respond("fulfill", id))
}

pub open spec fn arbitration_error(e: Escrow, sender: Seq<char>) -> Option<ContractError> {
    if sender != e.creator@ {
        Some(ContractError::Unauthorized {})
    } else if !e.is_fulfilled {
        Some(ContractError::NotFulfilled {})
    } else {
        None
    }
}

/// The creator disputes the fulfillment of the escrow `id`, at the block's time.
pub fn c_request_arbitration(
    store: &mut EscrowStore,
    sender: &String,
    block: &BlockInfo,
    id: &String,
) -> (r: Result<Response, ContractError>)
    requires
        old(store).wf(),
    ensures
        final(store).wf(),
        !old(store)@.contains_key(id@) ==> refused(
            r,
            ContractError::NotFound {},
            old(store)@,
            final(store)@,
        ),
        old(store)@.contains_key(id@) ==> match arbitration_error(old(store)@[id@], sender@) {
            Some(err) => refused(r, err, old(store)@, final(store)@),
            None => {
                &&& done(r, "request_arbitration"@, id@)
                &&& final(store)@ == old(store)@.insert(
                    id@,
                    (Escrow {
                        is_in_arbitration: true,
                        time_arbitration_started: Some(seconds_of(*block)),
                        ..old(store)@[id@]
                    }),
                )
            },
        },
{
    let e = match store.load(id) {
        Ok(e) => e,
        Err(err) => return Err(err),
    };
    if *sender != e.creator {
        return Err(ContractError::Unauthorized {});
    } else if !e.is_fulfilled {
        return Err(ContractError::NotFulfilled {});
    }
    let mut escrow = match store.remove(id) {
        Some(x) => x,
        None => return Err(ContractError::NotFound {}),
    };
    escrow.is_in_arbitration = true;
    escrow.time_arbitration_started = Some(block_seconds(block));
    store.save(id.clone(), escrow);
    assert(store@ =~= old(store)@.insert(
        id@,
        (Escrow {
                        is_in_arbitration: true,
                        time_arbitration_started: Some(seconds_of(*block)),
                        ..old(store)@[id@]
                    }),
    ));
    Ok(respond("request_arbitration", id))
}

pub open spec fn complete_error(e: Escrow, sender: Seq<char>) -> Option<ContractError> {
    if sender != e.creator@ {
        Some(ContractError::Unauthorized {})
    } else if !e.is_fulfilled || e.is_completed {
        Some(ContractError::Expired {})
    } else {
        None
    }
}

/// The creator accepts the fulfillment of the escrow `id`: the record is
/// removed and its whole balance is paid out to the fulfiller.
pub fn c_complete(store: &mut EscrowStore, sender: &String, id: &String) -> (r: Result<
    Response,
    ContractError,
>)
    requires
        old(store).wf(),
    ensures
        final(store).wf(),
        !old(store)@.contains_key(id@) ==> refused(
            r,
            ContractError::NotFound {},
            old(store)@,
            final(store)@,
        ),
        old(store)@.contains_key(id@) ==> match complete_error(old(store)@[id@], sender@) {
            Some(err) => refused(r, err, old(store)@, final(store)@),
            None => {
                let e = old(store)@[id@];
                if encodable(e.fulfiller@, e.balance@) {
                    &&& r matches Ok(resp)
                    &&& tagged(resp, "creator_complete"@, id@)
                    &&& resp.attributes@.len() == 3
                    &&& resp.attributes@[2].key@ == "to"@
                    &&& resp.attributes@[2].value@ == e.fulfiller@
                    &&& pays_out(resp.messages@, e.fulfiller@, e.balance@)
                    &&& final(store)@ == old(store)@.remove(id@)
                } else {
                    refused(r, ContractError::SerializeErr {}, old(store)@, final(store)@)
                }
            },
        },
{
    let e = match store.load(id) {
        Ok(e) => e,
        Err(err) => return Err(err),
    };
    if *sender != e.creator {
        return Err(ContractError::Unauthorized {});
    } else if !e.is_fulfilled || e.is_completed {
        return Err(ContractError::Expired {});
    }
    let messages = match send_tokens(&e.fulfiller, &e.balance) {
        Ok(m) => m,
        Err(err) => return Err(err),
    };
    let to = e.fulfiller.clone();
    store.remove(id);
    let mut res = respond("creator_complete", id);
    res.attributes.push(attribute("to", to.as_str()));
    res.messages = messages;
    Ok(res)
}

pub open spec fn feedback_error(e: Escrow, sender: Seq<char>, author: Seq<char>) -> Option<
    ContractError,
> {
    if sender != author {
        Some(ContractError::Unauthorized {})
    } else if !e.is_completed {
        Some(ContractError::NotComplete {})
    } else {
        None
    }
}

/// The creator leaves feedback on the completed escrow `id`; nothing is stored.
pub fn c_feedback(store: &EscrowStore, sender: &String, msg: FeedbackMsg, id: &String) -> (r:
    Result<Response, ContractError>)
    requires
        store.wf(),
    ensures
        !store@.contains_key(id@) ==> r == Err::<Response, ContractError>(
            ContractError::NotFound {},
        ),
        store@.contains_key(id@) ==> match feedback_error(
            store@[id@],
            sender@,
            store@[id@].creator@,
        ) {
            Some(err) => r == Err::<Response, ContractError>(err),
            None => done(r, "creator_feedback"@, id@),
        },
{
    let e = match store.load(id) {
        Ok(e) => e,
        Err(err) => return Err(err),
    };
    if *sender != e.creator {
        return Err(ContractError::Unauthorized {});
    } else if !e.is_completed {
        return Err(ContractError::NotComplete {});
    }
    Ok(respond("creator_feedback", id))
}

/// The fulfiller leaves feedback on the completed escrow `id`; nothing is
/// stored.
pub fn f_feedback(store: &EscrowStore, sender: &String, msg: FeedbackMsg, id: &String) -> (r:
    Result<Response, ContractError>)
    requires
        store.wf(),
    ensures
        !store@.contains_key(id@) ==> r == Err::<Response, ContractError>(
            ContractError::NotFound {},
        ),
        store@.contains_key(id@) ==> match feedback_error(
            store@[id@],
            sender@,
            store@[id@].fulfiller@,
        ) {
            Some(err) => r == Err::<Response, ContractError>(err),
            None => done(r, "fulfiller_feedback"@, id@),
        },
{
    let e = match store.load(id) {
        Ok(e) => e,
        Err(err) => return Err(err),
    };
    if *sender != e.fulfiller {
        return Err(ContractError::Unauthorized {});
    } else if !e.is_completed {
        return Err(ContractError::NotComplete {});
    }
    Ok(respond("fulfiller_feedback", id))
}

/// Arbitration by the arbiter is not available: always refused.
pub fn el_arbitrate(msg: ArbitrateMsg, id: String) -> (r: Result<Response, ContractError>)
    ensures
        r == Err::<Response, ContractError>(ContractError::Unauthorized {}),
{
    Err(ContractError::Unauthorized {})
}

/// Changing the terms of an escrow is not available: always refused.
pub fn c_change(msg: CreateMsg) -> (r: Result<Response, ContractError>)
    ensures
        r == Err::<Response, ContractError>(ContractError::Unauthorized {}),
{
    Err(ContractError::Unauthorized {})
}

/// The details of the escrow `id`.
pub fn query_details(store: &EscrowStore, id: String) -> (r: Result<DetailsResponse, ContractError>)
    requires
        store.wf(),
    ensures
        !store@.contains_key(id@) ==> r == Err::<DetailsResponse, ContractError>(
            ContractError::NotFound {},
        ),
        store@.contains_key(id@) ==> (r matches Ok(d) && {
            let e = store@[id@];
            &&& d.id@ == id@
            &&& d.arbiter@ == e.arbiter@
            &&& d.fulfiller@ == e.fulfiller@
            &&& d.creator@ == e.creator@
            &&& d.end_height == e.end_height
            &&& d.end_time == e.end_time
            &&& coins_view(d.native_balance@) == e.balance@.native
            &&& d.cw20_balance@.len() == e.balance@.cw20.len()
            &&& forall|j: int|
                0 <= j < d.cw20_balance@.len() ==> ((#[trigger] d.cw20_balance@[j]).address@,
                d.cw20_balance@[j].amount as nat) == e.balance@.cw20[j]
            &&& strings_view(d.cw20_whitelist@) == strings_view(e.cw20_whitelist@)
        }),
{
    let e = match store.load(&id) {
        Ok(e) => e,
        Err(err) => return Err(err),
    };
    let cw20_whitelist = e.human_whitelist();
    assert(strings_view(cw20_whitelist@) =~= strings_view(e.cw20_whitelist@));
    let mut cw20_balance: Vec<Cw20Coin> = Vec::new();
    let mut i: usize = 0;
    while i < e.balance.cw20.len()
        invariant
            0 <= i <= e.balance.cw20@.len(),
            cw20_balance@.len() == i,
            forall|j: int|
                0 <= j < i ==> ((#[trigger] cw20_balance@[j]).address@, cw20_balance@[j].amount as nat)
                    == e.balance@.cw20[j],
        decreases e.balance.cw20@.len() - i,
    {
        let token = &e.balance.cw20[i];
        cw20_balance.push(Cw20Coin { address: token.address.clone(), amount: token.amount });
        i = i + 1;
    }
    Ok(
        DetailsResponse {
            id,
            arbiter: e.arbiter.clone(),
            fulfiller: e.fulfiller.clone(),
            creator: e.creator.clone(),
            end_height: e.end_height,
            end_time: e.end_time,
            native_balance: copy_coins(&e.balance.native),
            cw20_balance,
            cw20_whitelist,
        },
    )
}

/// Every id stored, in ascending byte order.
pub fn query_list(store: &EscrowStore) -> (r: ListResponse)
    requires
        store.wf(),
    ensures
        forall|i: int, j: int|
            0 <= i < j < r.escrows@.len() ==> bytes_lt(
                key_bytes((#[trigger] r.escrows@[i])@),
                key_bytes((#[trigger] r.escrows@[j])@),
            ),
        forall|k: Seq<char>|
            store@.contains_key(k) <==> exists|i: int|
                0 <= i < r.escrows@.len() && (#[trigger] r.escrows@[i])@ == k,
{
    let escrows = all_escrow_ids(store);
    let r = ListResponse { escrows };
    assert forall|k: Seq<char>| store@.contains_key(k) implies exists|i: int|
        0 <= i < r.escrows@.len() && (#[trigger] r.escrows@[i])@ == k by {
        let i = choose|i: int| 0 <= i < escrows@.len() && (#[trigger] escrows@[i])@ == k;
        assert(r.escrows@[i]@ == k);
    }
    r
}

/// Leaving out the entries without an amount changes no denomination's total.
pub proof fn lemma_nonzero_keeps_amounts(s: Seq<Entry>, k: Seq<char>)
    ensures
        amount_of(nonzero(s), k) == amount_of(s, k),
    decreases s.len(),
{
    if s.len() == 0 {
        reveal(Seq::filter);
    } else {
        let init = s.drop_last();
        assert(s =~= init.push(s.last()));
        init.lemma_filter_push(s.last(), |e: Entry| e.1 > 0);
        lemma_nonzero_keeps_amounts(init, k);
        lemma_amount_push(init, s.last(), k);
        if s.last().1 > 0 {
            lemma_amount_push(nonzero(init), s.last(), k);
        }
    }
}

/// A payout of a ledger hands the recipient, under every denomination, the
/// ledger's whole amount, and every cw20 holding in full.
pub proof fn lemma_payout_is_whole_ledger(ms: Seq<SubMsg>, to: Seq<char>, b: LedgerView, k: Seq<char>)
    requires
        pays_out(ms, to, b),
    ensures
        nonzero(b.native).len() > 0 ==> (ms[0] matches SubMsg::BankSend { to_address, amount } && to_address@
            == to && amount_of(coins_view(amount@), k) == amount_of(b.native, k)),
        nonzero(b.native).len() == 0 ==> amount_of(b.native, k) == 0,
        forall|j: int|
            0 <= j < b.cw20.len() ==> is_cw20_transfer(
                ms[if nonzero(b.native).len() == 0 {
                    0int
                } else {
                    1int
                } + j],
                to,
                #[trigger] b.cw20[j],
            ),
{
    lemma_nonzero_keeps_amounts(b.native, k);
    if nonzero(b.native).len() == 0 {
        assert(nonzero(b.native) =~= Seq::<Entry>::empty());
    }
}

} // verus!
