//! Escrow records and the store that keeps them under their ids, in
//! ascending byte order of the id.

use vstd::prelude::*;
use vstd::utf8::*;

use crate::balance::GenericBalance;
use crate::error::ContractError;
use crate::trust::TrustMetrics;

verus! {

/// Height and time of the block a request runs in.
#[derive(Debug, Clone, Copy, PartialEq, Eq, Structural)]
pub struct BlockInfo {
    pub height: u64,
    /// nanoseconds since 00:00:00 UTC on 1 January 1970
    pub time: u64,
}

#[derive(Debug)]
pub struct Escrow {
    /// arbiter can decide to approve or refund the escrow
    pub arbiter: String,
    /// if completed, funds go to the fulfiller
    pub fulfiller: String,
    /// if canceled or arbitrated in favor of them, funds go to the creator
    pub creator: String,
    /// when set and the block height exceeds it, the escrow is expired
    pub end_height: Option<u64>,
    /// when set (in seconds since the epoch) and the block time exceeds it,
    /// the escrow is expired
    pub end_time: Option<u64>,
    /// funds held, native and cw20
    pub balance: GenericBalance,
    /// exchange rate desired, in Bolivares per UST
    pub exchange_rate: u128,
    /// cw20 token contracts accepted for a top-up
    pub cw20_whitelist: Vec<String>,
    /// the least trust metrics a fulfiller must have to accept
    pub required_trust_metrics: TrustMetrics,
    pub is_listed: bool,
    pub is_canceled: bool,
    pub is_accepted: bool,
    pub is_fulfilled: bool,
    pub is_in_arbitration: bool,
    pub is_completed: bool,
    pub time_created: Option<u64>,
    pub time_accepted: Option<u64>,
    pub time_fulfilled: Option<u64>,
    pub time_arbitration_started: Option<u64>,
}

pub const NANOS_PER_SECOND: u64 = 1_000_000_000;

/// How long, in seconds, an accepted escrow waits for its fulfiller.
pub const ACCEPT_WINDOW: u64 = 3600;

/// How long, in seconds, a fulfilled escrow waits for its creator.
pub const FULFILL_WINDOW: u64 = 3600;

/// How long, in seconds, an arbitration may take.
pub const ARBITRATION_WINDOW: u64 = 172800;

/// The block time in whole seconds since the epoch.
pub open spec fn seconds_of(block: BlockInfo) -> u64 {
    (block.time / NANOS_PER_SECOND) as u64
}

/// The block time in whole seconds since the epoch.
pub fn block_seconds(block: &BlockInfo) -> (r: u64)
    ensures
        r == seconds_of(*block),
{
    block.time / NANOS_PER_SECOND
}

/// More than `window` seconds have passed since `start`; never when no
/// start was recorded.
pub open spec fn window_passed(start: Option<u64>, window: u64, block: BlockInfo) -> bool {
    match start {
        Some(t) => seconds_of(block) as int > t as int + window as int,
        None => false,
    }
}

fn has_window_passed(start: Option<u64>, window: u64, block: &BlockInfo) -> (r: bool)
    ensures
        r == window_passed(start, window, *block),
{
    match start {
        Some(t) => {
            if t > u64::MAX - window {
                false
            } else {
                block_seconds(block) > t + window
            }
        },
        None => false,
    }
}

impl Escrow {
    /// The balance ledger is well formed and the lifecycle flags are in an
    /// order the state machine can reach; a canceled or completed escrow is
    /// no longer stored, so a stored one is neither.
    pub open spec fn wf(&self) -> bool {
        &&& self.balance@.wf()
        &&& self.is_fulfilled ==> self.is_accepted
        &&& self.is_in_arbitration ==> self.is_fulfilled
        &&& self.is_completed ==> self.is_fulfilled
        &&& !self.is_canceled && !self.is_completed
        &&& self.is_accepted ==> self.fulfiller@ != self.creator@
    }

    /// Whether the record may be stored: see `wf`.
    pub fn is_well_formed(&self) -> (r: bool)
        ensures
            r == self.wf(),
    {
        self.balance.is_well_formed() && (!self.is_fulfilled || self.is_accepted) && (
        !self.is_in_arbitration || self.is_fulfilled) && (!self.is_completed || self.is_fulfilled)
            && !self.is_canceled && !self.is_completed
            && (!self.is_accepted || self.fulfiller
            != self.creator)
    }

    pub open spec fn spec_is_expired(&self, block: BlockInfo) -> bool {
        ||| (self.end_height matches Some(h) && block.height > h)
        ||| (self.end_time matches Some(t) && block.time as int > t as int
            * NANOS_PER_SECOND as int)
    }

    /// True when the block is past the end height or the end time.
    pub fn is_expired(&self, block: &BlockInfo) -> (r: bool)
        ensures
            r == self.spec_is_expired(*block),
    {
        if let Some(end_height) = self.end_height {
            if block.height > end_height {
                return true;
            }
        }
        if let Some(end_time) = self.end_time {
            if end_time <= u64::MAX / NANOS_PER_SECOND {
                assert(end_time * NANOS_PER_SECOND <= u64::MAX) by (nonlinear_arith)
                    requires
                        end_time <= u64::MAX / NANOS_PER_SECOND,
                        NANOS_PER_SECOND == 1_000_000_000,
                ;
                if block.time > end_time * NANOS_PER_SECOND {
                    return true;
                }
            } else {
                assert(end_time as int * NANOS_PER_SECOND as int > u64::MAX) by (nonlinear_arith)
                    requires
                        end_time > u64::MAX / NANOS_PER_SECOND,
                        NANOS_PER_SECOND == 1_000_000_000,
                ;
            }
        }
        false
    }

    /// Whether more than one hour has passed since acceptance.
    pub open spec fn spec_is_accept_expired(&self, block: BlockInfo) -> bool {
        window_passed(self.time_accepted, ACCEPT_WINDOW, block)
    }

    /// Whether more than one hour has passed since fulfillment.
    pub open spec fn spec_is_fulfill_expired(&self, block: BlockInfo) -> bool {
        window_passed(self.time_fulfilled, FULFILL_WINDOW, block)
    }

    /// Whether more than two days have passed since arbitration started.
    pub open spec fn spec_is_arbitration_expired(&self, block: BlockInfo) -> bool {
        window_passed(self.time_arbitration_started, ARBITRATION_WINDOW, block)
    }

    /// Whether the fulfiller's hour after acceptance has passed.
    pub fn is_accept_expired(&self, block: &BlockInfo) -> (r: bool)
        ensures
            r == self.spec_is_accept_expired(*block),
    {
        has_window_passed(self.time_accepted, ACCEPT_WINDOW, block)
    }

    /// Whether the creator's hour after fulfillment has passed.
    pub fn is_fulfill_expired(&self, block: &BlockInfo) -> (r: bool)
        ensures
            r == self.spec_is_fulfill_expired(*block),
    {
        has_window_passed(self.time_fulfilled, FULFILL_WINDOW, block)
    }

    /// Whether the arbiter's two days after arbitration started have passed.
    pub fn is_arbitration_expired(&self, block: &BlockInfo) -> (r: bool)
        ensures
            r == self.spec_is_arbitration_expired(*block),
    {
        has_window_passed(self.time_arbitration_started, ARBITRATION_WINDOW, block)
    }

    /// The whitelisted token addresses, as strings.
    pub fn human_whitelist(&self) -> (r: Vec<String>)
        ensures
            r@.len() == self.cw20_whitelist@.len(),
            forall|i: int| 0 <= i < r@.len() ==> (#[trigger] r@[i])@ == self.cw20_whitelist@[i]@,
    {
        copy_strings(&self.cw20_whitelist)
    }
}

/// A copy of a list of strings.
pub fn copy_strings(v: &Vec<String>) -> (r: Vec<String>)
    ensures
        r@.len() == v@.len(),
        forall|i: int| 0 <= i < r@.len() ==> (#[trigger] r@[i])@ == v@[i]@,
{
    let mut r: Vec<String> = Vec::new();
    let mut i: usize = 0;
    while i < v.len()
        invariant
            0 <= i <= v@.len(),
            r@.len() == i,
            forall|j: int| 0 <= j < i ==> (#[trigger] r@[j])@ == v@[j]@,
        decreases v@.len() - i,
    {
        r.push(v[i].clone());
        i = i + 1;
    }
    r
}

/// Byte-wise lexicographic order, the order of the store's keys.
pub open spec fn bytes_lt(a: Seq<u8>, b: Seq<u8>) -> bool
    decreases a.len(),
{
    if a.len() == 0 {
        b.len() > 0
    } else if b.len() == 0 {
        false
    } else if a[0] < b[0] {
        true
    } else if a[0] > b[0] {
        false
    } else {
        bytes_lt(a.drop_first(), b.drop_first())
    }
}

/// The bytes an id is stored under.
pub open spec fn key_bytes(k: Seq<char>) -> Seq<u8> {
    encode_utf8(k)
}

pub proof fn lemma_bytes_lt_irreflexive(a: Seq<u8>)
    ensures
        !bytes_lt(a, a),
    decreases a.len(),
{
    if a.len() > 0 {
        lemma_bytes_lt_irreflexive(a.drop_first());
    }
}

pub proof fn lemma_bytes_lt_transitive(a: Seq<u8>, b: Seq<u8>, c: Seq<u8>)
    requires
        bytes_lt(a, b),
        bytes_lt(b, c),
    ensures
        bytes_lt(a, c),
    decreases a.len(),
{
    if a.len() > 0 && b.len() > 0 && c.len() > 0 && a[0] == b[0] && b[0] == c[0] {
        lemma_bytes_lt_transitive(a.drop_first(), b.drop_first(), c.drop_first());
    }
}

pub proof fn lemma_bytes_lt_total(a: Seq<u8>, b: Seq<u8>)
    requires
        a != b,
    ensures
        bytes_lt(a, b) || bytes_lt(b, a),
    decreases a.len(),
{
    if a.len() > 0 && b.len() > 0 && a[0] == b[0] {
        if a.drop_first() == b.drop_first() {
            assert(a =~= seq![a[0]] + a.drop_first());
            assert(b =~= seq![b[0]] + b.drop_first());
        }
        lemma_bytes_lt_total(a.drop_first(), b.drop_first());
    } else if a.len() == 0 && b.len() == 0 {
        assert(a =~= b);
    }
}

/// Distinct ids are stored under distinct bytes.
pub proof fn lemma_key_bytes_injective(a: Seq<char>, b: Seq<char>)
    requires
        key_bytes(a) == key_bytes(b),
    ensures
        a == b,
{
    encode_utf8_decode_utf8(a);
    encode_utf8_decode_utf8(b);
}

/// Whether `a` comes before `b` in byte order.
pub fn key_lt(a: &str, b: &str) -> (r: bool)
    ensures
        r == bytes_lt(key_bytes(a@), key_bytes(b@)),
{
    let x = a.as_bytes();
    let y = b.as_bytes();
    let ghost xs = x@;
    let ghost ys = y@;
    let mut i: usize = 0;
    assert(xs.skip(0) =~= xs);
    assert(ys.skip(0) =~= ys);
    while i < x.len() && i < y.len()
        invariant
            x@ == xs,
            y@ == ys,
            xs == key_bytes(a@),
            ys == key_bytes(b@),
            0 <= i <= xs.len(),
            i <= ys.len(),
            bytes_lt(xs.skip(i as int), ys.skip(i as int)) == bytes_lt(xs, ys),
        decreases xs.len() - i,
    {
        if x[i] < y[i] {
            return true;
        }
        if x[i] > y[i] {
            return false;
        }
        assert(xs.skip(i as int).drop_first() =~= xs.skip(i as int + 1));
        assert(ys.skip(i as int).drop_first() =~= ys.skip(i as int + 1));
        i = i + 1;
    }
    i < y.len()
}

/// The escrows, each under its id. Ids are unique and kept in ascending byte
/// order, so the listing comes in that order.
pub struct EscrowStore {
    entries: Vec<(String, Escrow)>,
}

impl EscrowStore {
    spec fn key(&self, i: int) -> Seq<char> {
        self.entries@[i].0@
    }

    /// Whether an escrow is stored under `k`.
    pub closed spec fn has(&self, k: Seq<char>) -> bool {
        exists|i: int| 0 <= i < self.entries@.len() && self.key(i) == k
    }

    spec fn index_of(&self, k: Seq<char>) -> int {
        choose|i: int| 0 <= i < self.entries@.len() && self.key(i) == k
    }

    /// Ids in ascending byte order, and every record well formed.
    pub closed spec fn wf(&self) -> bool {
        &&& forall|i: int, j: int|
            0 <= i < j < self.entries@.len() ==> bytes_lt(
                key_bytes(#[trigger] self.key(i)),
                key_bytes(#[trigger] self.key(j)),
            )
        &&& forall|i: int| 0 <= i < self.entries@.len() ==> (#[trigger] self.entries@[i]).1.wf()
    }

    proof fn lemma_entry(&self, i: int)
        requires
            self.wf(),
            0 <= i < self.entries@.len(),
        ensures
            self@.contains_key(self.key(i)),
            self@[self.key(i)] == self.entries@[i].1,
            self.index_of(self.key(i)) == i,
    {
        let k = self.key(i);
        assert(self.has(k));
        let j = self.index_of(k);
        if j != i {
            if j < i {
                assert(bytes_lt(key_bytes(self.key(j)), key_bytes(self.key(i))));
            } else {
                assert(bytes_lt(key_bytes(self.key(i)), key_bytes(self.key(j))));
            }
            lemma_bytes_lt_irreflexive(key_bytes(k));
        }
    }
}

impl View for EscrowStore {
    type V = Map<Seq<char>, Escrow>;

    closed spec fn view(&self) -> Map<Seq<char>, Escrow> {
        Map::new(|k: Seq<char>| self.has(k), |k: Seq<char>| self.entries@[self.index_of(k)].1)
    }
}

impl EscrowStore {
    /// An empty store.
    pub fn new() -> (r: EscrowStore)
        ensures
            r.wf(),
            r@ == Map::<Seq<char>, Escrow>::empty(),
    {
        let r = EscrowStore { entries: Vec::new() };
        assert(r@ =~= Map::<Seq<char>, Escrow>::empty());
        r
    }

    fn find(&self, id: &String) -> (r: Option<usize>)
        requires
            self.wf(),
        ensures
            r matches Some(i) ==> i < self.entries@.len() && self.key(i as int) == id@,
            r is None ==> !self.has(id@),
            r is None <==> !self@.contains_key(id@),
    {
        let mut i: usize = 0;
        while i < self.entries.len()
            invariant
                0 <= i <= self.entries@.len(),
                forall|j: int| 0 <= j < i ==> self.key(j) != id@,
            decreases self.entries@.len() - i,
        {
            if self.entries[i].0 == *id {
                assert(self.key(i as int) == id@);
                assert(self.has(id@));
                return Some(i);
            }
            i = i + 1;
        }
        None
    }

    /// Whether an escrow is stored under `id`.
    pub fn contains(&self, id: &String) -> (r: bool)
        requires
            self.wf(),
        ensures
            r == self@.contains_key(id@),
    {
        self.find(id).is_some()
    }

    /// The escrow stored under `id`, or `NotFound`.
    pub fn load(&self, id: &String) -> (r: Result<&Escrow, ContractError>)
        requires
            self.wf(),
        ensures
            self@.contains_key(id@) ==> (r matches Ok(e) && *e == self@[id@] && e.wf()),
            !self@.contains_key(id@) ==> r == Err::<&Escrow, ContractError>(
                ContractError::NotFound {},
            ),
    {
        match self.find(id) {
            Some(i) => {
                proof {
                    self.lemma_entry(i as int);
                }
                Ok(&self.entries[i].1)
            },
            None => Err(ContractError::NotFound {}),
        }
    }

    /// Stores `escrow` under `id`, replacing what was there.
    pub fn save(&mut self, id: String, escrow: Escrow)
        requires
            old(self).wf(),
            escrow.wf(),
        ensures
            final(self).wf(),
            final(self)@ == old(self)@.insert(id@, escrow),
    {
        let ghost k = id@;
        let ghost e = escrow;
        match self.find(&id) {
            Some(i) => {
                let ghost before = *self;
                self.entries[i] = (id, escrow);
                proof {
                    assert(forall|j: int|
                        0 <= j < self.entries@.len() ==> #[trigger] self.key(j) == before.key(j));
                    assert(forall|j: int|
                        0 <= j < self.entries@.len() && j != i ==> #[trigger] self.entries@[j]
                            == before.entries@[j]);
                    assert(self.wf());
                    assert forall|q: Seq<char>| #[trigger] self.has(q) == before.has(q) by {
                        if before.has(q) {
                            let j = before.index_of(q);
                            assert(self.key(j) == q);
                        }
                        if self.has(q) {
                            let j = self.index_of(q);
                            assert(before.key(j) == q);
                        }
                    }
                    assert forall|q: Seq<char>| #[trigger] self@.contains_key(q) implies self@[q]
                        == before@.insert(k, e)[q] by {
                        assert(self.has(q));
                        let j = self.index_of(q);
                        self.lemma_entry(j);
                        self.lemma_entry(i as int);
                        before.lemma_entry(j);
                        assert(self.key(i as int) == k);
                        if q == k {
                            assert(j == i);
                        } else {
                            assert(self.entries@[j] == before.entries@[j]);
                        }
                    }
                    assert(self@ =~= before@.insert(k, e));
                }
            },
            None => {
                let ghost before = *self;
                let mut p: usize = 0;
                while p < self.entries.len() && key_lt(self.entries[p].0.as_str(), id.as_str())
                    invariant
                        *self == before,
                        0 <= p <= self.entries@.len(),
                        forall|j: int|
                            0 <= j < p ==> bytes_lt(
                                key_bytes(#[trigger] self.key(j)),
                                key_bytes(id@),
                            ),
                    decreases self.entries@.len() - p,
                {
                    p = p + 1;
                }
                proof {
                    if p < self.entries@.len() {
                        if key_bytes(self.key(p as int)) == key_bytes(k) {
                            lemma_key_bytes_injective(self.key(p as int), k);
                            assert(self.has(k));
                        }
                        lemma_bytes_lt_total(key_bytes(self.key(p as int)), key_bytes(k));
                    }
                }
                self.entries.insert(p, (id, escrow));
                proof {
                    let n = before.entries@.len();
                    assert(forall|j: int| 0 <= j < p ==> #[trigger] self.key(j) == before.key(j));
                    assert(forall|j: int|
                        p <= j < n ==> #[trigger] self.key(j + 1) == before.key(j));
                    assert(self.key(p as int) == k);
                    assert forall|i: int, j: int| 0 <= i < j < self.entries@.len() implies bytes_lt(
                        key_bytes(#[trigger] self.key(i)),
                        key_bytes(#[trigger] self.key(j)),
                    ) by {
                        if j == p {
                        } else if i == p {
                            assert(self.key(j) == before.key(j - 1));
                            if j - 1 > p {
                                assert(bytes_lt(
                                    key_bytes(before.key(p as int)),
                                    key_bytes(before.key(j - 1)),
                                ));
                                lemma_bytes_lt_transitive(
                                    key_bytes(k),
                                    key_bytes(before.key(p as int)),
                                    key_bytes(before.key(j - 1)),
                                );
                            }
                        } else {
                            let bi = if i < p { i } else { i - 1 };
                            let bj = if j < p { j } else { j - 1 };
                            assert(self.key(i) == before.key(bi));
                            assert(self.key(j) == before.key(bj));
                            if i < p && j > p {
                                assert(bytes_lt(key_bytes(before.key(bi)), key_bytes(k)));
                                if bj > p {
                                    assert(bytes_lt(
                                        key_bytes(before.key(p as int)),
                                        key_bytes(before.key(bj)),
                                    ));
                                    lemma_bytes_lt_transitive(
                                        key_bytes(k),
                                        key_bytes(before.key(p as int)),
                                        key_bytes(before.key(bj)),
                                    );
                                }
                                lemma_bytes_lt_transitive(
                                    key_bytes(before.key(bi)),
                                    key_bytes(k),
                                    key_bytes(before.key(bj)),
                                );
                            } else {
                                assert(bi < bj);
                            }
                        }
                    }
                    assert forall|i: int| 0 <= i < self.entries@.len() implies (
                    #[trigger] self.entries@[i]).1.wf() by {
                        if i < p {
                            assert(self.entries@[i] == before.entries@[i]);
                        } else if i > p {
                            assert(self.entries@[i] == before.entries@[i - 1]);
                        }
                    }
                    assert(self.wf());
                    assert forall|q: Seq<char>| #[trigger] self@.contains_key(q) == before@.insert(
                        k,
                        e,
                    ).contains_key(q) by {
                        if before.has(q) {
                            let j = before.index_of(q);
                            if j < p {
                                assert(self.key(j) == q);
                            } else {
                                assert(self.key(j + 1) == q);
                            }
                        }
                        if self.has(q) && q != k {
                            let j = self.index_of(q);
                            if j < p {
                                assert(before.key(j) == q);
                            } else {
                                assert(j != p);
                                assert(before.key(j - 1) == q);
                            }
                        }
                    }
                    assert forall|q: Seq<char>| #[trigger] self@.contains_key(q) implies self@[q]
                        == before@.insert(k, e)[q] by {
                        let j = self.index_of(q);
                        self.lemma_entry(j);
                        if j < p {
                            before.lemma_entry(j);
                        } else if j > p {
                            assert(self.entries@[j] == before.entries@[j - 1]);
                            before.lemma_entry(j - 1);
                        }
                    }
                    assert(self@ =~= before@.insert(k, e));
                }
            },
        }
    }

    /// Removes the escrow stored under `id`, if any, and hands it back.
    pub fn remove(&mut self, id: &String) -> (r: Option<Escrow>)
        requires
            old(self).wf(),
        ensures
            final(self).wf(),
            final(self)@ == old(self)@.remove(id@),
            old(self)@.contains_key(id@) ==> r == Some(old(self)@[id@]),
            !old(self)@.contains_key(id@) ==> r is None,
    {
        match self.find(id) {
            Some(i) => {
                let ghost before = *self;
                let ghost k = id@;
                let (_, removed) = self.entries.remove(i);
                proof {
                    assert(forall|j: int| 0 <= j < i ==> #[trigger] self.entries@[j] == before.entries@[j]);
                    assert(forall|j: int|
                        i <= j < self.entries@.len() ==> #[trigger] self.entries@[j]
                            == before.entries@[j + 1]);
                    assert forall|a: int, b: int| 0 <= a < b < self.entries@.len() implies bytes_lt(
                        key_bytes(#[trigger] self.key(a)),
                        key_bytes(#[trigger] self.key(b)),
                    ) by {
                        let ba = if a < i { a } else { a + 1 };
                        let bb = if b < i { b } else { b + 1 };
                        assert(self.key(a) == before.key(ba));
                        assert(self.key(b) == before.key(bb));
                    }
                    assert forall|a: int| 0 <= a < self.entries@.len() implies (
                    #[trigger] self.entries@[a]).1.wf() by {
                        if a >= i {
                            assert(self.entries@[a] == before.entries@[a + 1]);
                        }
                    }
                    assert(self.wf());
                    before.lemma_entry(i as int);
                    assert forall|q: Seq<char>| #[trigger] self@.contains_key(q) == before@.remove(
                        k,
                    ).contains_key(q) by {
                        if before.has(q) && q != k {
                            let j = before.index_of(q);
                            before.lemma_entry(j);
                            if j < i {
                                assert(self.key(j) == q);
                            } else {
                                assert(j != i);
                                assert(self.key(j - 1) == q);
                            }
                        }
                        if self.has(q) {
                            let j = self.index_of(q);
                            let bj = if j < i { j } else { j + 1 };
                            assert(before.key(bj) == q);
                            before.lemma_entry(bj);
                        }
                    }
                    assert forall|q: Seq<char>| #[trigger] self@.contains_key(q) implies self@[q]
                        == before@.remove(k)[q] by {
                        assert(self.has(q));
                        let j = self.index_of(q);
                        self.lemma_entry(j);
                        let bj = if j < i { j } else { j + 1 };
                        assert(self.entries@[j] == before.entries@[bj]);
                        before.lemma_entry(bj);
                    }
                    assert(self@ =~= before@.remove(k));
                }
                Some(removed)
            },
            None => {
                assert(self@ =~= self@.remove(id@));
                None
            },
        }
    }

    /// Every id stored, in ascending byte order.
    fn keys(&self) -> (r: Vec<String>)
        requires
            self.wf(),
        ensures
            forall|i: int, j: int|
                0 <= i < j < r@.len() ==> bytes_lt(
                    key_bytes((#[trigger] r@[i])@),
                    key_bytes((#[trigger] r@[j])@),
                ),
            forall|k: Seq<char>|
                self@.contains_key(k) <==> exists|i: int| 0 <= i < r@.len() && (#[trigger] r@[i])@ == k,
    {
        let mut r: Vec<String> = Vec::new();
        let mut i: usize = 0;
        while i < self.entries.len()
            invariant
                0 <= i <= self.entries@.len(),
                r@.len() == i,
                forall|j: int| 0 <= j < i ==> (#[trigger] r@[j])@ == self.key(j),
            decreases self.entries@.len() - i,
        {
            r.push(self.entries[i].0.clone());
            i = i + 1;
        }
        proof {
            assert forall|k: Seq<char>|
                self@.contains_key(k) <==> exists|i: int| 0 <= i < r@.len() && (#[trigger] r@[i])@ == k by {
                if self@.contains_key(k) {
                    let j = self.index_of(k);
                    assert(r@[j]@ == k);
                }
                if exists|i: int| 0 <= i < r@.len() && (#[trigger] r@[i])@ == k {
                    let j = choose|i: int| 0 <= i < r@.len() && (#[trigger] r@[i])@ == k;
                    self.lemma_entry(j);
                }
            }
        }
        r
    }
}


/// Every id stored, in ascending byte order.
pub fn all_escrow_ids(store: &EscrowStore) -> (r: Vec<String>)
    requires
        store.wf(),
    ensures
        forall|i: int, j: int|
            0 <= i < j < r@.len() ==> bytes_lt(
                key_bytes((#[trigger] r@[i])@),
                key_bytes((#[trigger] r@[j])@),
            ),
        forall|k: Seq<char>|
            store@.contains_key(k) <==> exists|i: int| 0 <= i < r@.len() && (#[trigger] r@[i])@ == k,
{
    store.keys()
}

} // verus!
