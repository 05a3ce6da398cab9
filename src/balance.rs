//! The balance ledger: native coins and cw20 holdings, one entry per
//! denomination (or token contract), in order of first deposit.

use vstd::prelude::*;

verus! {

/// A ledger entry in the model: a key (denomination or token address) and an amount.
pub type Entry = (Seq<char>, nat);

/// A native coin.
#[derive(Debug)]
pub struct Coin {
    pub denom: String,
    pub amount: u128,
}

/// A cw20 token holding whose contract address has been validated.
#[derive(Debug)]
pub struct Cw20CoinVerified {
    pub address: String,
    pub amount: u128,
}

/// Funds attached to a request: a list of native coins, or one cw20 holding.
#[derive(Debug)]
pub enum Balance {
    Native(Vec<Coin>),
    Cw20(Cw20CoinVerified),
}

/// The running balance of one escrow.
#[derive(Debug)]
pub struct GenericBalance {
    pub native: Vec<Coin>,
    pub cw20: Vec<Cw20CoinVerified>,
}

impl View for Coin {
    type V = Entry;

    open spec fn view(&self) -> Entry {
        (self.denom@, self.amount as nat)
    }
}

impl View for Cw20CoinVerified {
    type V = Entry;

    open spec fn view(&self) -> Entry {
        (self.address@, self.amount as nat)
    }
}

pub open spec fn coins_view(v: Seq<Coin>) -> Seq<Entry> {
    v.map_values(|c: Coin| c@)
}

pub open spec fn cw20_view(v: Seq<Cw20CoinVerified>) -> Seq<Entry> {
    v.map_values(|c: Cw20CoinVerified| c@)
}

/// The two accumulators of a ledger, as sequences of entries.
pub struct LedgerView {
    pub native: Seq<Entry>,
    pub cw20: Seq<Entry>,
}

impl View for GenericBalance {
    type V = LedgerView;

    open spec fn view(&self) -> LedgerView {
        LedgerView { native: coins_view(self.native@), cw20: cw20_view(self.cw20@) }
    }
}

pub open spec fn has_key(s: Seq<Entry>, k: Seq<char>) -> bool {
    exists|i: int| 0 <= i < s.len() && (#[trigger] s[i]).0 == k
}

/// At most one entry per key.
pub open spec fn keys_unique(s: Seq<Entry>) -> bool {
    forall|i: int, j: int| 0 <= i < j < s.len() ==> (#[trigger] s[i]).0 != (#[trigger] s[j]).0
}

/// Sum of the amounts held under key `k`.
pub open spec fn amount_of(s: Seq<Entry>, k: Seq<char>) -> nat
    decreases s.len(),
{
    if s.len() == 0 {
        0
    } else {
        amount_of(s.drop_last(), k) + if s.last().0 == k {
            s.last().1
        } else {
            0
        }
    }
}

/// Deposit of `a` under key `k`: added to the entry of that key, or appended
/// as a new last entry when there is none.
pub open spec fn merge(s: Seq<Entry>, k: Seq<char>, a: nat) -> Seq<Entry> {
    if has_key(s, k) {
        let i = choose|i: int| 0 <= i < s.len() && (#[trigger] s[i]).0 == k;
        s.update(i, (k, s[i].1 + a))
    } else {
        s.push((k, a))
    }
}

/// Deposit of every entry of `d`, first to last.
pub open spec fn merge_all(s: Seq<Entry>, d: Seq<Entry>) -> Seq<Entry>
    decreases d.len(),
{
    if d.len() == 0 {
        s
    } else {
        let e = d.last();
        merge(merge_all(s, d.drop_last()), e.0, e.1)
    }
}

impl LedgerView {
    pub open spec fn wf(self) -> bool {
        keys_unique(self.native) && keys_unique(self.cw20)
    }

    pub open spec fn is_empty(self) -> bool {
        self.native.len() == 0 && self.cw20.len() == 0
    }

    /// The ledger after a deposit.
    pub open spec fn deposit(self, add: Balance) -> LedgerView {
        match add {
            Balance::Native(v) => LedgerView {
                native: merge_all(self.native, coins_view(v@)),
                cw20: self.cw20,
            },
            Balance::Cw20(t) => LedgerView { native: self.native, cw20: merge(self.cw20, t@.0, t@.1) },
        }
    }

    /// No per-key sum of the deposit overflows `u128`.
    pub open spec fn can_deposit(self, add: Balance) -> bool {
        match add {
            Balance::Native(v) => forall|k: Seq<char>|
                #![trigger amount_of(coins_view(v@), k)]
                amount_of(self.native, k) + amount_of(coins_view(v@), k) <= u128::MAX,
            Balance::Cw20(t) => amount_of(self.cw20, t@.0) + t@.1 <= u128::MAX,
        }
    }
}

/// Whether every coin of `v` has amount zero.
fn all_zero(v: &Vec<Coin>) -> (r: bool)
    ensures
        r == forall|i: int| 0 <= i < v@.len() ==> (#[trigger] v@[i]).amount == 0,
{
    let mut i: usize = 0;
    while i < v.len()
        invariant
            0 <= i <= v@.len(),
            forall|j: int| 0 <= j < i ==> (#[trigger] v@[j]).amount == 0,
        decreases v@.len() - i,
    {
        if v[i].amount != 0 {
            assert(v@[i as int].amount != 0);
            return false;
        }
        i = i + 1;
    }
    true
}

impl Balance {
    /// Whether the deposit holds no funds: every native coin, or the cw20
    /// holding, has amount zero.
    pub open spec fn spec_is_empty(&self) -> bool {
        match self {
            Balance::Native(v) => forall|i: int| 0 <= i < v@.len() ==> (#[trigger] v@[i]).amount == 0,
            Balance::Cw20(t) => t.amount == 0,
        }
    }

    /// True when no funds are attached.
    #[verifier::when_used_as_spec(spec_is_empty)]
    pub fn is_empty(&self) -> (r: bool)
        ensures
            r == self.spec_is_empty(),
    {
        match self {
            Balance::Native(v) => all_zero(v),
            Balance::Cw20(t) => t.amount == 0,
        }
    }
}

pub proof fn lemma_amount_push(s: Seq<Entry>, e: Entry, k: Seq<char>)
    ensures
        amount_of(s.push(e), k) == amount_of(s, k) + if e.0 == k {
            e.1
        } else {
            0
        },
{
    assert(s.push(e).drop_last() =~= s);
}

/// Under unique keys, the amount of a key is that of its entry.
pub proof fn lemma_amount_entry(s: Seq<Entry>, i: int)
    requires
        keys_unique(s),
        0 <= i < s.len(),
    ensures
        amount_of(s, s[i].0) == s[i].1,
    decreases s.len(),
{
    let k = s[i].0;
    if i == s.len() - 1 {
        lemma_amount_absent(s.drop_last(), k);
    } else {
        lemma_amount_entry(s.drop_last(), i);
    }
}

pub proof fn lemma_amount_absent(s: Seq<Entry>, k: Seq<char>)
    requires
        !has_key(s, k),
    ensures
        amount_of(s, k) == 0,
    decreases s.len(),
{
    if s.len() > 0 {
        assert(s.last() == s[s.len() - 1]);
        assert(!has_key(s.drop_last(), k)) by {
            if has_key(s.drop_last(), k) {
                let j = choose|j: int| 0 <= j < s.drop_last().len() && (#[trigger] s.drop_last()[j]).0 == k;
                assert(s[j].0 == k);
            }
        }
        lemma_amount_absent(s.drop_last(), k);
    }
}

pub proof fn lemma_amount_update(s: Seq<Entry>, i: int, a: nat, k: Seq<char>)
    requires
        0 <= i < s.len(),
    ensures
        amount_of(s.update(i, (s[i].0, a)), k) + (if s[i].0 == k {
            s[i].1
        } else {
            0
        }) == amount_of(s, k) + if s[i].0 == k {
            a
        } else {
            0
        },
    decreases s.len(),
{
    let t = s.update(i, (s[i].0, a));
    if i == s.len() - 1 {
        assert(t.drop_last() =~= s.drop_last());
    } else {
        assert(t.drop_last() =~= s.drop_last().update(i, (s[i].0, a)));
        lemma_amount_update(s.drop_last(), i, a, k);
    }
}

/// A deposit of one entry adds its amount under its key and keeps keys unique.
pub proof fn lemma_merge(s: Seq<Entry>, k: Seq<char>, a: nat)
    requires
        keys_unique(s),
    ensures
        keys_unique(merge(s, k, a)),
        forall|k2: Seq<char>|
            #![trigger amount_of(merge(s, k, a), k2)]
            amount_of(merge(s, k, a), k2) == amount_of(s, k2) + if k == k2 {
                a
            } else {
                0
            },
{
    if has_key(s, k) {
        let i = choose|i: int| 0 <= i < s.len() && (#[trigger] s[i]).0 == k;
        lemma_amount_entry(s, i);
        assert forall|k2: Seq<char>|
            #![trigger amount_of(merge(s, k, a), k2)]
            amount_of(merge(s, k, a), k2) == amount_of(s, k2) + if k == k2 {
                a
            } else {
                0
            } by {
            lemma_amount_update(s, i, s[i].1 + a, k2);
        }
    } else {
        assert forall|k2: Seq<char>|
            #![trigger amount_of(merge(s, k, a), k2)]
            amount_of(merge(s, k, a), k2) == amount_of(s, k2) + if k == k2 {
                a
            } else {
                0
            } by {
            lemma_amount_push(s, (k, a), k2);
        }
        assert forall|i: int, j: int| 0 <= i < j < merge(s, k, a).len() implies
            (#[trigger] merge(s, k, a)[i]).0 != (#[trigger] merge(s, k, a)[j]).0 by {
            if j == s.len() {
                assert(merge(s, k, a)[i] == s[i]);
            }
        }
    }
}

/// Depositing a list adds, under each key, the sum of the list's amounts for it.
pub proof fn lemma_merge_all(s: Seq<Entry>, d: Seq<Entry>)
    requires
        keys_unique(s),
    ensures
        keys_unique(merge_all(s, d)),
        forall|k: Seq<char>|
            #![trigger amount_of(merge_all(s, d), k)]
            amount_of(merge_all(s, d), k) == amount_of(s, k) + amount_of(d, k),
    decreases d.len(),
{
    if d.len() > 0 {
        lemma_merge_all(s, d.drop_last());
        let m = merge_all(s, d.drop_last());
        lemma_merge(m, d.last().0, d.last().1);
        assert forall|k: Seq<char>|
            #![trigger amount_of(merge_all(s, d), k)]
            amount_of(merge_all(s, d), k) == amount_of(s, k) + amount_of(d, k) by {
            assert(amount_of(m, k) == amount_of(s, k) + amount_of(d.drop_last(), k));
        }
    }
}

/// The sum over a prefix is at most the sum over the whole.
pub proof fn lemma_amount_prefix(d: Seq<Entry>, n: int, k: Seq<char>)
    requires
        0 <= n <= d.len(),
    ensures
        amount_of(d.take(n), k) <= amount_of(d, k),
    decreases d.len(),
{
    if n == d.len() {
        assert(d.take(n) =~= d);
    } else {
        assert(d.drop_last().take(n) =~= d.take(n));
        lemma_amount_prefix(d.drop_last(), n, k);
    }
}

/// Adds one native coin to a list of coins with unique denominations.
fn merge_coin(v: &mut Vec<Coin>, c: Coin)
    requires
        keys_unique(coins_view(old(v)@)),
        amount_of(coins_view(old(v)@), c@.0) + c@.1 <= u128::MAX,
    ensures
        coins_view(final(v)@) == merge(coins_view(old(v)@), c@.0, c@.1),
{
    let ghost s = coins_view(v@);
    let mut i: usize = 0;
    while i < v.len()
        invariant
            0 <= i <= v@.len(),
            s == coins_view(v@),
            s == coins_view(old(v)@),
            keys_unique(s),
            amount_of(s, c@.0) + c@.1 <= u128::MAX,
            forall|j: int| 0 <= j < i ==> (#[trigger] s[j]).0 != c@.0,
        decreases v@.len() - i,
    {
        if v[i].denom == c.denom {
            proof {
                assert(s[i as int].0 == c@.0);
                lemma_amount_entry(s, i as int);
                assert(has_key(s, c@.0));
                let k = choose|k: int| 0 <= k < s.len() && (#[trigger] s[k]).0 == c@.0;
                assert(k == i);
            }
            let amount = v[i].amount + c.amount;
            v[i].amount = amount;
            assert(coins_view(v@) =~= merge(s, c@.0, c@.1));
            return;
        }
        i = i + 1;
    }
    v.push(c);
    assert(coins_view(v@) =~= merge(s, c@.0, c@.1));
}

/// Adds one cw20 holding to a list of holdings with unique token addresses.
fn merge_cw20(v: &mut Vec<Cw20CoinVerified>, c: Cw20CoinVerified)
    requires
        keys_unique(cw20_view(old(v)@)),
        amount_of(cw20_view(old(v)@), c@.0) + c@.1 <= u128::MAX,
    ensures
        cw20_view(final(v)@) == merge(cw20_view(old(v)@), c@.0, c@.1),
{
    let ghost s = cw20_view(v@);
    let mut i: usize = 0;
    while i < v.len()
        invariant
            0 <= i <= v@.len(),
            s == cw20_view(v@),
            s == cw20_view(old(v)@),
            keys_unique(s),
            amount_of(s, c@.0) + c@.1 <= u128::MAX,
            forall|j: int| 0 <= j < i ==> (#[trigger] s[j]).0 != c@.0,
        decreases v@.len() - i,
    {
        if v[i].address == c.address {
            proof {
                assert(s[i as int].0 == c@.0);
                lemma_amount_entry(s, i as int);
                assert(has_key(s, c@.0));
                let k = choose|k: int| 0 <= k < s.len() && (#[trigger] s[k]).0 == c@.0;
                assert(k == i);
            }
            let amount = v[i].amount + c.amount;
            v[i].amount = amount;
            assert(cw20_view(v@) =~= merge(s, c@.0, c@.1));
            return;
        }
        i = i + 1;
    }
    v.push(c);
    assert(cw20_view(v@) =~= merge(s, c@.0, c@.1));
}

impl GenericBalance {
    /// An empty ledger.
    pub fn new() -> (r: GenericBalance)
        ensures
            r@.wf(),
            r@.is_empty(),
    {
        GenericBalance { native: Vec::new(), cw20: Vec::new() }
    }

    /// Merges a deposit into the ledger: amounts of a key already held are
    /// summed, a new key is appended after the others.
    pub fn add_tokens(&mut self, add: Balance)
        requires
            old(self)@.wf(),
            old(self)@.can_deposit(add),
        ensures
            final(self)@.wf(),
            final(self)@ == old(self)@.deposit(add),
    {
        match add {
            Balance::Native(coins) => {
                let ghost s0 = coins_view(self.native@);
                let ghost d = coins_view(coins@);
                let mut i: usize = 0;
                let mut rest = coins;
                let n = rest.len();
                // consume the deposit front to back
                while rest.len() > 0
                    invariant
                        i + rest@.len() == n,
                        n == d.len(),
                        coins_view(rest@) == d.skip(i as int),
                        coins_view(self.native@) == merge_all(s0, d.take(i as int)),
                        keys_unique(s0),
                        self.cw20@ == old(self).cw20@,
                        forall|k: Seq<char>|
                            #![trigger amount_of(d, k)]
                            amount_of(s0, k) + amount_of(d, k) <= u128::MAX,
                    decreases rest@.len(),
                {
                    let ghost before = rest@;
                    let c = rest.remove(0);
                    proof {
                        assert(coins_view(before)[0] == d.skip(i as int)[0]);
                        assert(c@ == d[i as int]);
                        lemma_merge_all(s0, d.take(i as int));
                        lemma_amount_prefix(d, i as int + 1, c@.0);
                        let t = d.take(i as int + 1);
                        assert(t.drop_last() =~= d.take(i as int));
                        assert(t.last() == c@);
                        lemma_merge_all(s0, t.drop_last());
                        assert(amount_of(t, c@.0) == amount_of(d.take(i as int), c@.0) + c@.1);
                    }
                    merge_coin(&mut self.native, c);
                    proof {
                        let t = d.take(i as int + 1);
                        assert(t.drop_last() =~= d.take(i as int));
                        assert(rest@ =~= before.subrange(1, before.len() as int));
                        assert forall|j: int| 0 <= j < rest@.len() implies coins_view(rest@)[j]
                            == d.skip(i as int + 1)[j] by {
                            assert(coins_view(before)[j + 1] == before[j + 1]@);
                            assert(d.skip(i as int)[j + 1] == d.skip(i as int + 1)[j]);
                        }
                        assert(coins_view(rest@) =~= d.skip(i as int + 1));
                    }
                    i = i + 1;
                }
                proof {
                    assert(d.take(i as int) =~= d);
                    lemma_merge_all(s0, d);
                }
            },
            Balance::Cw20(token) => {
                proof {
                    lemma_merge(cw20_view(self.cw20@), token@.0, token@.1);
                }
                merge_cw20(&mut self.cw20, token);
            },
        }
    }
}

/// Two deposits under one key leave the same ledger, entry for entry, as a
/// single deposit of their sum.
pub proof fn lemma_deposits_combine(s: Seq<Entry>, k: Seq<char>, a: nat, b: nat)
    requires
        keys_unique(s),
    ensures
        merge(merge(s, k, a), k, b) == merge(s, k, a + b),
{
    let m = merge(s, k, a);
    lemma_merge(s, k, a);
    if has_key(s, k) {
        let i = choose|i: int| 0 <= i < s.len() && (#[trigger] s[i]).0 == k;
        assert(m[i].0 == k);
        let j = choose|j: int| 0 <= j < m.len() && (#[trigger] m[j]).0 == k;
        assert(j == i);
        assert(merge(m, k, b) =~= merge(s, k, a + b));
    } else {
        let n = s.len() as int;
        assert(m[n].0 == k);
        let j = choose|j: int| 0 <= j < m.len() && (#[trigger] m[j]).0 == k;
        assert(j == n);
        assert(merge(m, k, b) =~= merge(s, k, a + b));
    }
}

/// Deposits under different keys may come in either order: every key ends
/// with the same amount.
pub proof fn lemma_deposits_commute(s: Seq<Entry>, k1: Seq<char>, a: nat, k2: Seq<char>, b: nat)
    requires
        keys_unique(s),
    ensures
        forall|k: Seq<char>|
            amount_of(merge(merge(s, k1, a), k2, b), k) == amount_of(
                merge(merge(s, k2, b), k1, a),
                k,
            ),
{
    lemma_merge(s, k1, a);
    lemma_merge(s, k2, b);
    lemma_merge(merge(s, k1, a), k2, b);
    lemma_merge(merge(s, k2, b), k1, a);
}

/// A deposit keeps every entry's key in its place; a key not held before is
/// appended last.
pub proof fn lemma_deposit_keeps_order(s: Seq<Entry>, k: Seq<char>, a: nat)
    ensures
        merge(s, k, a).len() == s.len() + if has_key(s, k) {
            0int
        } else {
            1int
        },
        forall|i: int| 0 <= i < s.len() ==> (#[trigger] merge(s, k, a)[i]).0 == s[i].0,
        !has_key(s, k) ==> merge(s, k, a).last() == (k, a),
{
}

/// Whether the entries of `s` have distinct keys.
fn distinct_keys(s: &Vec<String>) -> (r: bool)
    ensures
        r == (forall|i: int, j: int| 0 <= i < j < s@.len() ==> (#[trigger] s@[i])@ != (#[trigger] s@[j])@),
{
    let mut j: usize = 0;
    while j < s.len()
        invariant
            0 <= j <= s@.len(),
            forall|a: int, b: int| 0 <= a < b < j ==> (#[trigger] s@[a])@ != (#[trigger] s@[b])@,
        decreases s@.len() - j,
    {
        let mut i: usize = 0;
        while i < j
            invariant
                0 <= i <= j < s@.len(),
                forall|a: int| 0 <= a < i ==> (#[trigger] s@[a])@ != s@[j as int]@,
            decreases j - i,
        {
            if s[i] == s[j] {
                return false;
            }
            i = i + 1;
        }
        j = j + 1;
    }
    true
}

impl GenericBalance {
    /// Whether the ledger holds at most one entry per denomination and per
    /// token.
    pub fn is_well_formed(&self) -> (r: bool)
        ensures
            r == self@.wf(),
    {
        let mut denoms: Vec<String> = Vec::new();
        let mut i: usize = 0;
        while i < self.native.len()
            invariant
                0 <= i <= self.native@.len(),
                denoms@.len() == i,
                forall|a: int| 0 <= a < i ==> (#[trigger] denoms@[a])@ == self.native@[a].denom@,
            decreases self.native@.len() - i,
        {
            denoms.push(self.native[i].denom.clone());
            i = i + 1;
        }
        let mut tokens: Vec<String> = Vec::new();
        let mut i: usize = 0;
        while i < self.cw20.len()
            invariant
                0 <= i <= self.cw20@.len(),
                tokens@.len() == i,
                forall|a: int| 0 <= a < i ==> (#[trigger] tokens@[a])@ == self.cw20@[a].address@,
            decreases self.cw20@.len() - i,
        {
            tokens.push(self.cw20[i].address.clone());
            i = i + 1;
        }
        let a = distinct_keys(&denoms);
        let b = distinct_keys(&tokens);
        proof {
            let n = self@.native;
            let c = self@.cw20;
            assert(a == keys_unique(n)) by {
                assert(forall|x: int| 0 <= x < n.len() ==> (#[trigger] n[x]).0 == denoms@[x]@);
                if a {
                    assert forall|x: int, y: int| 0 <= x < y < n.len() implies (#[trigger] n[x]).0
                        != (#[trigger] n[y]).0 by {
                        assert(denoms@[x]@ != denoms@[y]@);
                    }
                }
                if keys_unique(n) {
                    assert forall|x: int, y: int| 0 <= x < y < denoms@.len() implies (
                    #[trigger] denoms@[x])@ != (#[trigger] denoms@[y])@ by {
                        assert(n[x].0 != n[y].0);
                    }
                }
            }
            assert(b == keys_unique(c)) by {
                assert(forall|x: int| 0 <= x < c.len() ==> (#[trigger] c[x]).0 == tokens@[x]@);
                if b {
                    assert forall|x: int, y: int| 0 <= x < y < c.len() implies (#[trigger] c[x]).0
                        != (#[trigger] c[y]).0 by {
                        assert(tokens@[x]@ != tokens@[y]@);
                    }
                }
                if keys_unique(c) {
                    assert forall|x: int, y: int| 0 <= x < y < tokens@.len() implies (
                    #[trigger] tokens@[x])@ != (#[trigger] tokens@[y])@ by {
                        assert(c[x].0 != c[y].0);
                    }
                }
            }
        }
        a && b
    }
}

/// A copy of a list of coins.
pub(crate) fn copy_coins(v: &Vec<Coin>) -> (r: Vec<Coin>)
    ensures
        coins_view(r@) == coins_view(v@),
{
    let mut r: Vec<Coin> = Vec::new();
    let mut i: usize = 0;
    while i < v.len()
        invariant
            0 <= i <= v@.len(),
            r@.len() == i,
            forall|j: int| 0 <= j < i ==> (#[trigger] r@[j])@ == v@[j]@,
        decreases v@.len() - i,
    {
        r.push(Coin { denom: v[i].denom.clone(), amount: v[i].amount });
        i = i + 1;
    }
    assert(coins_view(r@) =~= coins_view(v@));
    r
}

/// Under unique keys no key holds more than a `u128`.
proof fn lemma_coins_amount_bounded(v: Seq<Coin>, k: Seq<char>)
    requires
        keys_unique(coins_view(v)),
    ensures
        amount_of(coins_view(v), k) <= u128::MAX,
{
    let s = coins_view(v);
    if has_key(s, k) {
        let i = choose|i: int| 0 <= i < s.len() && (#[trigger] s[i]).0 == k;
        lemma_amount_entry(s, i);
        assert(s[i] == v[i]@);
    } else {
        lemma_amount_absent(s, k);
    }
}

/// The amount held under `k` in coins with unique denominations.
fn amount_in_coins(v: &Vec<Coin>, k: &String) -> (r: u128)
    requires
        keys_unique(coins_view(v@)),
    ensures
        r == amount_of(coins_view(v@), k@),
{
    let ghost s = coins_view(v@);
    let mut i: usize = 0;
    while i < v.len()
        invariant
            0 <= i <= v@.len(),
            s == coins_view(v@),
            keys_unique(s),
            forall|j: int| 0 <= j < i ==> (#[trigger] s[j]).0 != k@,
        decreases v@.len() - i,
    {
        if v[i].denom == *k {
            proof {
                assert(s[i as int].0 == k@);
                lemma_amount_entry(s, i as int);
            }
            return v[i].amount;
        }
        i = i + 1;
    }
    proof {
        assert(!has_key(s, k@));
        lemma_amount_absent(s, k@);
    }
    0
}

/// The amount held under `k` in holdings with unique token addresses.
fn amount_in_cw20(v: &Vec<Cw20CoinVerified>, k: &String) -> (r: u128)
    requires
        keys_unique(cw20_view(v@)),
    ensures
        r == amount_of(cw20_view(v@), k@),
{
    let ghost s = cw20_view(v@);
    let mut i: usize = 0;
    while i < v.len()
        invariant
            0 <= i <= v@.len(),
            s == cw20_view(v@),
            keys_unique(s),
            forall|j: int| 0 <= j < i ==> (#[trigger] s[j]).0 != k@,
        decreases v@.len() - i,
    {
        if v[i].address == *k {
            proof {
                assert(s[i as int].0 == k@);
                lemma_amount_entry(s, i as int);
            }
            return v[i].amount;
        }
        i = i + 1;
    }
    proof {
        assert(!has_key(s, k@));
        lemma_amount_absent(s, k@);
    }
    0
}

/// Whether depositing `d` into `base` keeps every denomination's sum within
/// a `u128`.
fn native_fits(base: &Vec<Coin>, d: &Vec<Coin>) -> (r: bool)
    requires
        keys_unique(coins_view(base@)),
    ensures
        r == forall|k: Seq<char>|
            #![trigger amount_of(coins_view(d@), k)]
            amount_of(coins_view(base@), k) + amount_of(coins_view(d@), k) <= u128::MAX,
{
    let ghost s0 = coins_view(base@);
    let ghost dv = coins_view(d@);
    let mut scratch = copy_coins(base);
    let mut i: usize = 0;
    assert(dv.take(0) =~= Seq::<Entry>::empty());
    while i < d.len()
        invariant
            0 <= i <= d@.len(),
            dv == coins_view(d@),
            s0 == coins_view(base@),
            keys_unique(s0),
            coins_view(scratch@) == merge_all(s0, dv.take(i as int)),
        decreases d@.len() - i,
    {
        let c = &d[i];
        proof {
            lemma_merge_all(s0, dv.take(i as int));
            assert(c@ == dv[i as int]);
            let t = dv.take(i as int + 1);
            assert(t =~= dv.take(i as int).push(dv[i as int]));
            lemma_amount_push(dv.take(i as int), dv[i as int], c@.0);
            lemma_amount_prefix(dv, i as int + 1, c@.0);
        }
        let cur = amount_in_coins(&scratch, &c.denom);
        if cur > u128::MAX - c.amount {
            proof {
                let k = c@.0;
                let m = merge_all(s0, dv.take(i as int));
                assert(amount_of(m, k) == amount_of(s0, k) + amount_of(dv.take(i as int), k));
                assert(amount_of(coins_view(d@), k) >= amount_of(dv.take(i as int), k) + c@.1);
                assert(!(amount_of(coins_view(base@), k) + amount_of(coins_view(d@), k) <= u128::MAX));
            }
            return false;
        }
        merge_coin(&mut scratch, Coin { denom: c.denom.clone(), amount: c.amount });
        proof {
            let t = dv.take(i as int + 1);
            assert(t.drop_last() =~= dv.take(i as int));
        }
        i = i + 1;
    }
    proof {
        assert(dv.take(i as int) =~= dv);
        lemma_merge_all(s0, dv);
        assert forall|k: Seq<char>|
            #![trigger amount_of(coins_view(d@), k)]
            amount_of(s0, k) + amount_of(dv, k) <= u128::MAX by {
            lemma_coins_amount_bounded(scratch@, k);
        }
    }
    true
}

impl GenericBalance {
    /// Whether `add` can be deposited without a sum leaving `u128`.
    pub fn can_add_tokens(&self, add: &Balance) -> (r: bool)
        requires
            self@.wf(),
        ensures
            r == self@.can_deposit(*add),
    {
        match add {
            Balance::Native(v) => native_fits(&self.native, v),
            Balance::Cw20(t) => amount_in_cw20(&self.cw20, &t.address) <= u128::MAX - t.amount,
        }
    }
}

/// The keys of a ledger, in entry order.
pub open spec fn keys_of(s: Seq<Entry>) -> Seq<Seq<char>> {
    s.map_values(|e: Entry| e.0)
}

/// The keys of `d` that `s` does not hold, each once, in order of first
/// appearance in `d`.
pub open spec fn new_keys(s: Seq<Entry>, d: Seq<Entry>) -> Seq<Seq<char>>
    decreases d.len(),
{
    if d.len() == 0 {
        Seq::empty()
    } else {
        let prev = new_keys(s, d.drop_last());
        let k = d.last().0;
        if has_key(s, k) || prev.contains(k) {
            prev
        } else {
            prev.push(k)
        }
    }
}

proof fn lemma_merge_keys(m: Seq<Entry>, k: Seq<char>, a: nat)
    ensures
        keys_of(merge(m, k, a)) == if keys_of(m).contains(k) {
            keys_of(m)
        } else {
            keys_of(m).push(k)
        },
        has_key(m, k) == keys_of(m).contains(k),
{
    lemma_deposit_keeps_order(m, k, a);
    if has_key(m, k) {
        let i = choose|i: int| 0 <= i < m.len() && (#[trigger] m[i]).0 == k;
        assert(keys_of(m)[i] == k);
    }
    if keys_of(m).contains(k) {
        let i = choose|i: int| 0 <= i < keys_of(m).len() && keys_of(m)[i] == k;
        assert(m[i].0 == k);
    }
    if has_key(m, k) {
        assert(keys_of(merge(m, k, a)) =~= keys_of(m));
    } else {
        assert(keys_of(merge(m, k, a)) =~= keys_of(m).push(k));
    }
}

/// A deposit of a list of coins leaves every held key in its place and
/// appends the keys it brings, each once, in order of first appearance.
pub proof fn lemma_deposit_list_keeps_order(s: Seq<Entry>, d: Seq<Entry>)
    ensures
        keys_of(merge_all(s, d)) == keys_of(s) + new_keys(s, d),
    decreases d.len(),
{
    if d.len() == 0 {
        assert(keys_of(s) + Seq::<Seq<char>>::empty() =~= keys_of(s));
    } else {
        let m = merge_all(s, d.drop_last());
        let prev = new_keys(s, d.drop_last());
        let k = d.last().0;
        lemma_deposit_list_keeps_order(s, d.drop_last());
        lemma_merge_keys(m, k, d.last().1);
        lemma_merge_keys(s, k, 0);
        assert((keys_of(s) + prev).contains(k) == (keys_of(s).contains(k) || prev.contains(k))) by {
            if (keys_of(s) + prev).contains(k) {
                let i = choose|i: int| 0 <= i < (keys_of(s) + prev).len() && (keys_of(s) + prev)[i] == k;
                if i < keys_of(s).len() {
                    assert(keys_of(s)[i] == k);
                } else {
                    assert(prev[i - keys_of(s).len()] == k);
                }
            }
            if keys_of(s).contains(k) {
                let i = choose|i: int| 0 <= i < keys_of(s).len() && keys_of(s)[i] == k;
                assert((keys_of(s) + prev)[i] == k);
            }
            if prev.contains(k) {
                let i = choose|i: int| 0 <= i < prev.len() && prev[i] == k;
                assert((keys_of(s) + prev)[keys_of(s).len() + i] == k);
            }
        }
        if !(has_key(s, k) || prev.contains(k)) {
            assert(keys_of(s) + prev.push(k) =~= (keys_of(s) + prev).push(k));
        }
    }
}

} // verus!
