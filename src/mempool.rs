use vstd::prelude::*;
use crate::types::{Transaction, TxModel, txs_model};

verus! {

/// Pending transactions left after removing every one equal to a confirmed one.
pub open spec fn without_confirmed(pending: Seq<TxModel>, confirmed: Seq<TxModel>) -> Seq<TxModel> {
    pending.filter(|t: TxModel| !confirmed.contains(t))
}

/// Transactions waiting to be included in a block, in insertion order.
#[derive(Debug, Clone)]
pub struct Mempool {
    transactions: Vec<Transaction>,
}

impl View for Mempool {
    type V = Seq<TxModel>;

    closed spec fn view(&self) -> Seq<TxModel> {
        txs_model(self.transactions@)
    }
}

fn contains_transaction(v: &Vec<Transaction>, t: &Transaction) -> (r: bool)
    ensures
        r == txs_model(v@).contains(t@),
{
    let mut i: usize = 0;
    while i < v.len()
        invariant
            i <= v@.len(),
            forall|j: int| 0 <= j < i ==> v@[j]@ != t@,
        decreases v@.len() - i,
    {
        if v[i] == *t {
            assert(txs_model(v@)[i as int] == t@);
            return true;
        }
        i = i + 1;
    }
    proof {
        if txs_model(v@).contains(t@) {
            let j = choose|j: int| 0 <= j < txs_model(v@).len() && txs_model(v@)[j] == t@;
            assert(v@[j]@ == t@);
        }
    }
    false
}

impl Mempool {
    /// An empty pool.
    pub fn new() -> (r: Mempool)
        ensures
            r@ == Seq::<TxModel>::empty(),
    {
        let r = Mempool { transactions: Vec::new() };
        assert(r@ =~= Seq::<TxModel>::empty());
        r
    }

    /// A copy of the pending transactions, in insertion order.
    pub fn get_transactions(&self) -> (r: Vec<Transaction>)
        ensures
            txs_model(r@) == self@,
    {
        crate::types::duplicate_transactions(&self.transactions)
    }

    /// Appends a transaction; no solvency check is made here.
    pub fn add_transaction(&mut self, transaction: Transaction)
        ensures
            final(self)@ == old(self)@.push(transaction@),
    {
        self.transactions.push(transaction);
        assert(self@ =~= old(self)@.push(transaction@));
    }

    /// Removes every pending transaction equal to one in `confirmed`.
    pub fn remove_transactions(&mut self, confirmed: &Vec<Transaction>)
        ensures
            final(self)@ == without_confirmed(old(self)@, txs_model(confirmed@)),
    {
        let ghost c = txs_model(confirmed@);
        let ghost p = self@;
        let ghost pred = |t: TxModel| !c.contains(t);
        let mut kept: Vec<Transaction> = Vec::new();
        let mut i: usize = 0;
        while i < self.transactions.len()
            invariant
                i <= self.transactions@.len(),
                p == txs_model(self.transactions@),
                c == txs_model(confirmed@),
                pred == (|t: TxModel| !c.contains(t)),
                txs_model(kept@) == p.take(i as int).filter(pred),
            decreases self.transactions@.len() - i,
        {
            let ghost prev = kept@;
            assert(p.take(i as int + 1).drop_last() =~= p.take(i as int));
            assert(p.take(i as int + 1).last() == self.transactions@[i as int]@);
            proof {
                reveal(Seq::filter);
            }
            if !contains_transaction(confirmed, &self.transactions[i]) {
                let t = self.transactions[i].duplicate();
                kept.push(t);
                assert(txs_model(kept@) =~= txs_model(prev).push(t@));
            }
            i = i + 1;
        }
        assert(p.take(i as int) =~= p);
        self.transactions = kept;
    }
}

} // verus!
