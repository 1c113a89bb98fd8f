//! The append-only record of stock movements.

use vstd::prelude::*;

verus! {

/// What caused a stock movement.
#[derive(Clone, Copy, Debug, PartialEq, Eq, Structural)]
pub enum StockReason {
    Opening,
    Purchase,
    Sale,
    Reversal,
    Adjustment,
}

/// One stock movement of one product.
#[derive(Clone, Copy, Debug, PartialEq, Eq, Structural)]
pub struct StockEntry {
    pub id: u64,
    pub timestamp: u64,
    pub product_id: u64,
    pub change_amount: i64,
    pub reason: StockReason,
    /// The invoice that caused the movement, if any.
    pub reference_id: Option<u64>,
}

/// The sum of the changes recorded for `product_id`.
pub open spec fn stock_of(s: Seq<StockEntry>, product_id: u64) -> int
    decreases s.len(),
{
    if s.len() == 0 {
        0
    } else {
        stock_of(s.drop_last(), product_id) + (if s.last().product_id == product_id {
            s.last().change_amount as int
        } else {
            0
        })
    }
}

/// Appending an entry changes the stock of its product alone, by its amount.
pub proof fn lemma_stock_of_push(s: Seq<StockEntry>, e: StockEntry, product_id: u64)
    ensures
        stock_of(s.push(e), product_id) == stock_of(s, product_id) + (if e.product_id == product_id {
            e.change_amount as int
        } else {
            0
        }),
{
    assert(s.push(e).drop_last() =~= s);
}

pub struct Ledger {
    pub entries: Vec<StockEntry>,
}

impl Ledger {
    /// Entries are numbered from one in the order they were appended.
    pub open spec fn wf(&self) -> bool {
        forall|i: int| 0 <= i < self.entries@.len() ==> (#[trigger] self.entries@[i]).id == i + 1
    }

    pub fn new() -> (r: Ledger)
        ensures
            r.wf(),
            r.entries@.len() == 0,
    {
        Ledger { entries: Vec::new() }
    }

    pub fn len(&self) -> (r: usize)
        ensures
            r == self.entries@.len(),
    {
        self.entries.len()
    }

    /// Records one movement and returns the new entry's id.
    pub fn append(
        &mut self,
        product_id: u64,
        change_amount: i64,
        reason: StockReason,
        reference_id: Option<u64>,
        timestamp: u64,
    ) -> (id: u64)
        requires
            old(self).wf(),
            old(self).entries@.len() < u64::MAX,
        ensures
            final(self).wf(),
            id == old(self).entries@.len() + 1,
            final(self).entries@ == old(self).entries@.push(
                StockEntry { id, timestamp, product_id, change_amount, reason, reference_id },
            ),
    {
        let id = self.entries.len() as u64 + 1;
        self.entries.push(StockEntry { id, timestamp, product_id, change_amount, reason, reference_id });
        id
    }

    /// The stock of `product_id` recomputed from every entry.
    pub fn recompute(&self, product_id: u64) -> (r: i128)
        ensures
            r == stock_of(self.entries@, product_id),
    {
        let mut acc: i128 = 0;
        let mut i: usize = 0;
        while i < self.entries.len()
            invariant
                i <= self.entries@.len(),
                acc == stock_of(self.entries@.take(i as int), product_id),
                -(i as int) * 0x8000_0000_0000_0000 <= acc <= (i as int) * 0x8000_0000_0000_0000,
            decreases self.entries@.len() - i,
        {
            proof {
                assert(self.entries@.take(i + 1).drop_last() =~= self.entries@.take(i as int));
                assert((i as int) * 0x8000_0000_0000_0000 + 0x8000_0000_0000_0000 < 0x7fff_ffff_ffff_ffff_ffff_ffff_ffff_ffff)
                    by (nonlinear_arith)
                    requires
                        i + 1 < 0x1_0000_0000_0000_0000,
                ;
            }
            let e = self.entries[i];
            if e.product_id == product_id {
                acc = acc + e.change_amount as i128;
            }
            i = i + 1;
        }
        proof {
            assert(self.entries@.take(i as int) =~= self.entries@);
        }
        acc
    }
}

} // verus!
