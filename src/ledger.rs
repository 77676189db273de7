use vstd::prelude::*;
use crate::chain::BlockchainError;
use crate::types::{Address, Coin, Transaction, TxModel, txs_model};
use crate::BLOCK_SUBSIDY;

verus! {

/// Abstract balances: an absent address holds zero.
pub type Balances = Map<Seq<char>, nat>;

pub open spec fn balance_of(m: Balances, a: Seq<char>) -> nat {
    if m.contains_key(a) {
        m[a]
    } else {
        0
    }
}

/// Balances after crediting `amount` to `a`; the entry is created if absent.
pub open spec fn credit(m: Balances, a: Seq<char>, amount: nat) -> Balances {
    m.insert(a, balance_of(m, a) + amount)
}

/// Balances after debiting `amount` from `a`, which holds at least that much.
pub open spec fn debit(m: Balances, a: Seq<char>, amount: nat) -> Balances {
    if m.contains_key(a) {
        m.insert(a, (m[a] - amount) as nat)
    } else {
        m
    }
}

/// Balances after a transfer, or `None` when the sender cannot pay.
pub open spec fn transfer_result(m: Balances, s: Seq<char>, r: Seq<char>, amount: nat) -> Option<
    Balances,
> {
    if balance_of(m, s) < amount {
        None
    } else {
        Some(credit(debit(m, s, amount), r, amount))
    }
}

/// Balances after the transfers of `ts`, applied in order, each against the
/// balances left by the ones before it.
pub open spec fn apply_transfers(m: Balances, ts: Seq<TxModel>) -> Result<Balances, BlockchainError>
    decreases ts.len(),
{
    if ts.len() == 0 {
        Ok(m)
    } else {
        match apply_transfers(m, ts.drop_last()) {
            Ok(m2) => match transfer_result(
                m2,
                ts.last().sender,
                ts.last().recipient,
                ts.last().amount as nat,
            ) {
                Some(m3) => Ok(m3),
                None => Err(BlockchainError::InsufficientFunds),
            },
            Err(e) => Err(e),
        }
    }
}

/// Balances after a block's transactions: a coinbase of exactly the subsidy
/// from the null address first, then transfers in order. The amount is checked
/// before the sender.
pub open spec fn apply_block(m: Balances, ts: Seq<TxModel>) -> Result<Balances, BlockchainError> {
    if ts.len() == 0 {
        Err(BlockchainError::CoinbaseMissing)
    } else if ts[0].amount != BLOCK_SUBSIDY {
        Err(BlockchainError::InvalidCoinbaseAmount)
    } else if ts[0].sender != Seq::<char>::empty() {
        Err(BlockchainError::CoinbaseMissing)
    } else {
        apply_transfers(credit(m, ts[0].recipient, BLOCK_SUBSIDY as nat), ts.skip(1))
    }
}

pub open spec fn sum_entries(e: Seq<(Address, Coin)>) -> nat
    decreases e.len(),
{
    if e.len() == 0 {
        0
    } else {
        sum_entries(e.drop_last()) + e.last().1 as nat
    }
}

proof fn lemma_sum_update(e: Seq<(Address, Coin)>, i: int, x: (Address, Coin))
    requires
        0 <= i < e.len(),
    ensures
        sum_entries(e.update(i, x)) == sum_entries(e) - e[i].1 + x.1,
    decreases e.len(),
{
    if i == e.len() - 1 {
        assert(e.update(i, x).drop_last() =~= e.drop_last());
    } else {
        lemma_sum_update(e.drop_last(), i, x);
        assert(e.update(i, x).drop_last() =~= e.drop_last().update(i, x));
    }
}

proof fn lemma_entry_le_sum(e: Seq<(Address, Coin)>, i: int)
    requires
        0 <= i < e.len(),
    ensures
        e[i].1 <= sum_entries(e),
    decreases e.len(),
{
    if i < e.len() - 1 {
        lemma_entry_le_sum(e.drop_last(), i);
    }
}

/// Account balances, one entry per address.
pub struct AccountBalanceMap {
    entries: Vec<(Address, Coin)>,
    balances: Ghost<Balances>,
}

impl View for AccountBalanceMap {
    type V = Balances;

    closed spec fn view(&self) -> Balances {
        self.balances@
    }
}

impl AccountBalanceMap {
    pub closed spec fn wf(&self) -> bool {
        let e = self.entries@;
        &&& forall|i: int, j: int| 0 <= i < j < e.len() ==> e[i].0@ != e[j].0@
        &&& forall|i: int|
            0 <= i < e.len() ==> self@.contains_key(#[trigger] e[i].0@) && self@[e[i].0@]
                == e[i].1
        &&& forall|k: Seq<char>|
            #[trigger] self@.contains_key(k) ==> exists|i: int| 0 <= i < e.len() && e[i].0@ == k
        &&& sum_entries(e) <= u64::MAX
    }

    /// Sum of all balances.
    pub closed spec fn total(&self) -> nat {
        sum_entries(self.entries@)
    }

    /// The sum of all balances fits in a coin amount.
    pub proof fn lemma_total_bound(&self)
        requires
            self.wf(),
        ensures
            self.total() <= u64::MAX,
    {
    }

    /// The map with no balances.
    pub fn new() -> (r: AccountBalanceMap)
        ensures
            r.wf(),
            r@ == Map::<Seq<char>, nat>::empty(),
            r.total() == 0,
    {
        AccountBalanceMap { entries: Vec::new(), balances: Ghost(Map::empty()) }
    }

    /// A copy with the same balances.
    pub fn duplicate(&self) -> (r: AccountBalanceMap)
        requires
            self.wf(),
        ensures
            r.wf(),
            r@ == self@,
            r.total() == self.total(),
    {
        let mut entries: Vec<(Address, Coin)> = Vec::new();
        let mut i: usize = 0;
        while i < self.entries.len()
            invariant
                i <= self.entries@.len(),
                entries@.len() == i,
                forall|j: int|
                    0 <= j < i ==> entries@[j].0@ == self.entries@[j].0@ && entries@[j].1
                        == self.entries@[j].1,
                sum_entries(entries@) == sum_entries(self.entries@.take(i as int)),
            decreases self.entries@.len() - i,
        {
            let k = self.entries[i].0.clone();
            let v = self.entries[i].1;
            entries.push((k, v));
            assert(entries@.drop_last() =~= entries@.take(i as int));
            assert(self.entries@.take(i as int + 1).drop_last() =~= self.entries@.take(i as int));
            proof {
                lemma_sum_prefix_eq(entries@.take(i as int), self.entries@.take(i as int));
            }
            i = i + 1;
        }
        assert(self.entries@.take(i as int) =~= self.entries@);
        let r = AccountBalanceMap { entries, balances: Ghost(self.balances@) };
        assert forall|k: Seq<char>| #[trigger] r@.contains_key(k) implies exists|i: int|
            0 <= i < r.entries@.len() && r.entries@[i].0@ == k by {
            let i = choose|i: int| 0 <= i < self.entries@.len() && self.entries@[i].0@ == k;
            assert(r.entries@[i].0@ == k);
        }
        r
    }

    /// Index of the entry of `a`, if any.
    fn find(&self, a: &Address) -> (r: Option<usize>)
        requires
            self.wf(),
        ensures
            match r {
                Some(i) => i < self.entries@.len() && self.entries@[i as int].0@ == a@,
                None => !self@.contains_key(a@),
            },
    {
        let mut i: usize = 0;
        while i < self.entries.len()
            invariant
                i <= self.entries@.len(),
                forall|j: int| 0 <= j < i ==> self.entries@[j].0@ != a@,
            decreases self.entries@.len() - i,
        {
            if self.entries[i].0 == *a {
                return Some(i);
            }
            i = i + 1;
        }
        proof {
            if self@.contains_key(a@) {
                let j = choose|j: int| 0 <= j < self.entries@.len() && self.entries@[j].0@ == a@;
                assert(self.entries@[j].0@ != a@);
            }
        }
        None
    }

    /// Balance of an address; zero when it has none.
    pub fn get_balance(&self, a: &Address) -> (r: Coin)
        requires
            self.wf(),
        ensures
            r == balance_of(self@, a@),
    {
        match self.find(a) {
            Some(i) => self.entries[i].1,
            None => 0,
        }
    }

    /// Sum of all balances.
    pub fn total_supply(&self) -> (r: u64)
        requires
            self.wf(),
        ensures
            r == self.total(),
    {
        let mut s: u64 = 0;
        let mut i: usize = 0;
        while i < self.entries.len()
            invariant
                i <= self.entries@.len(),
                s == sum_entries(self.entries@.take(i as int)),
                sum_entries(self.entries@) <= u64::MAX,
            decreases self.entries@.len() - i,
        {
            assert(self.entries@.take(i as int + 1).drop_last() =~= self.entries@.take(i as int));
            proof {
                lemma_prefix_sum_le(self.entries@, i as int + 1);
            }
            s = s + self.entries[i].1;
            i = i + 1;
        }
        assert(self.entries@.take(i as int) =~= self.entries@);
        s
    }

    fn set_at(&mut self, i: usize, v: Coin)
        requires
            old(self).wf(),
            i < old(self).entries@.len(),
            old(self).total() - old(self).entries@[i as int].1 + v <= u64::MAX,
        ensures
            final(self).wf(),
            final(self)@ == old(self)@.insert(old(self).entries@[i as int].0@, v as nat),
            final(self).total() == old(self).total() - old(self).entries@[i as int].1 + v,
    {
        let k = self.entries[i].0.clone();
        let ghost prev = self.entries@;
        proof {
            lemma_sum_update(prev, i as int, (k, v));
        }
        self.entries.set(i, (k, v));
        self.balances = Ghost(self.balances@.insert(k@, v as nat));
        assert forall|kk: Seq<char>| #[trigger] self@.contains_key(kk) implies exists|j: int|
            0 <= j < self.entries@.len() && self.entries@[j].0@ == kk by {
            if kk == k@ {
                assert(self.entries@[i as int].0@ == kk);
            } else {
                let j = choose|j: int| 0 <= j < prev.len() && prev[j].0@ == kk;
                assert(self.entries@[j].0@ == kk);
            }
        }
    }

    fn push_entry(&mut self, a: &Address, v: Coin)
        requires
            old(self).wf(),
            !old(self)@.contains_key(a@),
            old(self).total() + v <= u64::MAX,
        ensures
            final(self).wf(),
            final(self)@ == old(self)@.insert(a@, v as nat),
            final(self).total() == old(self).total() + v,
    {
        let ghost prev = self.entries@;
        self.entries.push((a.clone(), v));
        assert(self.entries@.drop_last() =~= prev);
        self.balances = Ghost(self.balances@.insert(a@, v as nat));
        assert forall|kk: Seq<char>| #[trigger] self@.contains_key(kk) implies exists|j: int|
            0 <= j < self.entries@.len() && self.entries@[j].0@ == kk by {
            if kk == a@ {
                assert(self.entries@[prev.len() as int].0@ == kk);
            } else {
                let j = choose|j: int| 0 <= j < prev.len() && prev[j].0@ == kk;
                assert(self.entries@[j].0@ == kk);
            }
        }
    }

    /// Credits `amount` to `a`, creating its entry if absent.
    pub fn add_amount(&mut self, a: &Address, amount: Coin)
        requires
            old(self).wf(),
            old(self).total() + amount <= u64::MAX,
        ensures
            final(self).wf(),
            final(self)@ == credit(old(self)@, a@, amount as nat),
            final(self).total() == old(self).total() + amount,
    {
        match self.find(a) {
            Some(i) => {
                proof {
                    lemma_entry_le_sum(self.entries@, i as int);
                }
                let b = self.entries[i].1;
                self.set_at(i, b + amount);
            },
            None => {
                self.push_entry(a, amount);
            },
        }
    }

    /// Moves `amount` from `sender` to `recipient`; fails, changing nothing,
    /// when the sender holds less.
    pub fn transfer(&mut self, sender: &Address, recipient: &Address, amount: Coin) -> (r: Result<
        (),
        BlockchainError,
    >)
        requires
            old(self).wf(),
        ensures
            final(self).wf(),
            final(self).total() == old(self).total(),
            match transfer_result(old(self)@, sender@, recipient@, amount as nat) {
                Some(m) => r is Ok && final(self)@ == m,
                None => r == Err::<(), BlockchainError>(BlockchainError::InsufficientFunds)
                    && final(self)@ == old(self)@,
            },
    {
        let found = self.find(sender);
        let balance: Coin = match found {
            Some(i) => self.entries[i].1,
            None => 0,
        };
        if balance < amount {
            return Err(BlockchainError::InsufficientFunds);
        }
        match found {
            Some(i) => {
                self.set_at(i, balance - amount);
            },
            None => {},
        }
        self.add_amount(recipient, amount);
        Ok(())
    }

    /// Balances after a block's transactions, computed on a copy; `self` is
    /// never changed.
    pub fn apply_block_transactions(&self, transactions: &Vec<Transaction>) -> (r: Result<
        AccountBalanceMap,
        BlockchainError,
    >)
        requires
            self.wf(),
            self.total() + BLOCK_SUBSIDY <= u64::MAX,
        ensures
            match r {
                Ok(m) => apply_block(self@, txs_model(transactions@)) == Ok::<
                    Balances,
                    BlockchainError,
                >(m@) && m.wf() && m.total() == self.total() + BLOCK_SUBSIDY,
                Err(e) => apply_block(self@, txs_model(transactions@)) == Err::<
                    Balances,
                    BlockchainError,
                >(e),
            },
    {
        let ghost ts = txs_model(transactions@);
        if transactions.len() == 0 {
            return Err(BlockchainError::CoinbaseMissing);
        }
        let coinbase = &transactions[0];
        assert(ts[0] == transactions@[0]@);
        if coinbase.amount != BLOCK_SUBSIDY {
            return Err(BlockchainError::InvalidCoinbaseAmount);
        }
        if coinbase.sender != String::new() {
            return Err(BlockchainError::CoinbaseMissing);
        }
        let mut scratch = self.duplicate();
        scratch.add_amount(&coinbase.recipient, coinbase.amount);
        let ghost start = scratch@;
        assert(ts[0] == transactions@[0]@);
        let mut i: usize = 1;
        while i < transactions.len()
            invariant
                1 <= i <= transactions@.len(),
                ts == txs_model(transactions@),
                ts.len() == transactions@.len(),
                ts[0].amount == BLOCK_SUBSIDY,
                ts[0].sender == Seq::<char>::empty(),
                start == credit(self@, ts[0].recipient, BLOCK_SUBSIDY as nat),
                scratch.wf(),
                scratch.total() == self.total() + BLOCK_SUBSIDY,
                apply_transfers(start, ts.skip(1).take(i - 1)) == Ok::<Balances, BlockchainError>(
                    scratch@,
                ),
            decreases transactions@.len() - i,
        {
            let t = &transactions[i];
            assert(ts.skip(1).take(i as int).drop_last() =~= ts.skip(1).take(i - 1));
            assert(ts.skip(1).take(i as int).last() == t@);
            match scratch.transfer(&t.sender, &t.recipient, t.amount) {
                Ok(()) => {},
                Err(e) => {
                    proof {
                        assert(apply_transfers(start, ts.skip(1).take(i as int)) == Err::<
                            Balances,
                            BlockchainError,
                        >(e));
                        lemma_transfers_stop(start, ts.skip(1), i as int);
                    }
                    return Err(e);
                },
            }
            i = i + 1;
        }
        assert(ts.skip(1).take(i - 1) =~= ts.skip(1));
        Ok(scratch)
    }
}

proof fn lemma_sum_prefix_eq(a: Seq<(Address, Coin)>, b: Seq<(Address, Coin)>)
    requires
        a.len() == b.len(),
        forall|j: int| 0 <= j < a.len() ==> a[j].1 == b[j].1,
    ensures
        sum_entries(a) == sum_entries(b),
    decreases a.len(),
{
    if a.len() > 0 {
        lemma_sum_prefix_eq(a.drop_last(), b.drop_last());
    }
}

proof fn lemma_prefix_sum_le(e: Seq<(Address, Coin)>, n: int)
    requires
        0 <= n <= e.len(),
    ensures
        sum_entries(e.take(n)) <= sum_entries(e),
    decreases e.len() - n,
{
    if n < e.len() {
        lemma_prefix_sum_le(e, n + 1);
        assert(e.take(n + 1).drop_last() =~= e.take(n));
    } else {
        assert(e.take(n) =~= e);
    }
}

/// Once a transfer fails, every longer prefix fails with the same error.
pub proof fn lemma_transfers_stop(m: Balances, ts: Seq<TxModel>, n: int)
    requires
        1 <= n <= ts.len(),
        apply_transfers(m, ts.take(n)) is Err,
    ensures
        apply_transfers(m, ts) == apply_transfers(m, ts.take(n)),
    decreases ts.len() - n,
{
    if n < ts.len() {
        assert(ts.take(n + 1).drop_last() =~= ts.take(n));
        lemma_transfers_stop(m, ts, n + 1);
    } else {
        assert(ts.take(n) =~= ts);
    }
}

} // verus!
