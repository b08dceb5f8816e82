//! The deposit escrow: the refundable security deposits that a group holds,
//! one entry for each member who has paid one.

use vstd::prelude::*;
use crate::address::Address;
use crate::table::{distinct_keys, lemma_mapping_dom, lemma_mapping_row, mapping_of, Row, Table};
use crate::types::Transfer;

verus! {

/// The deposit that one member has in escrow.
#[derive(Clone, Copy, Debug, PartialEq, Eq)]
pub struct Deposit {
    pub member: Address,
    pub amount: i128,
}

/// The deposits that one group holds in escrow: at most one amount for a
/// member, and every amount positive.
#[derive(Debug)]
pub struct DepositLedger {
    held: Table<Address, i128>,
}

/// The entries as rows of a table from members to amounts.
pub open spec fn rows_of(entries: Seq<Deposit>) -> Seq<Row<Address, i128>> {
    Seq::new(entries.len(), |i: int| Row { key: entries[i].member, value: entries[i].amount })
}

/// The mapping from member to amount that a list of entries stands for.
pub open spec fn ledger_of(entries: Seq<Deposit>) -> Map<Address, i128> {
    mapping_of(rows_of(entries))
}

/// No member has two entries, and every entry holds a positive amount.
pub open spec fn entries_wf(entries: Seq<Deposit>) -> bool {
    &&& distinct_keys(rows_of(entries))
    &&& forall|i: int| 0 <= i < entries.len() ==> (#[trigger] entries[i]).amount > 0
}

/// What `ledger` holds for `who`, nothing counting as zero.
pub open spec fn held_amount(ledger: Map<Address, i128>, who: Address) -> int {
    if ledger.contains_key(who) {
        ledger[who] as int
    } else {
        0
    }
}

/// What `ledger` holds for all of `members` together.
pub open spec fn held_total(members: Seq<Address>, ledger: Map<Address, i128>) -> int
    decreases members.len(),
{
    if members.len() == 0 {
        0
    } else {
        held_total(members.drop_last(), ledger) + held_amount(ledger, members.last())
    }
}

/// The payments that hand each of `members` back what `ledger` holds for
/// them, in the order of `members`.
pub open spec fn refunds(members: Seq<Address>, ledger: Map<Address, i128>) -> Seq<Transfer>
    decreases members.len(),
{
    if members.len() == 0 {
        Seq::empty()
    } else {
        let front = refunds(members.drop_last(), ledger);
        let last = members.last();
        if ledger.contains_key(last) {
            front.push(Transfer::Pay { member: last, amount: ledger[last] })
        } else {
            front
        }
    }
}

/// One more member never makes the total smaller.
pub proof fn lemma_held_total_grows(members: Seq<Address>, ledger: Map<Address, i128>, n: int)
    requires
        0 <= n <= members.len(),
        forall|a: Address| ledger.contains_key(a) ==> #[trigger] ledger[a] >= 0,
    ensures
        0 <= held_total(members.take(n), ledger) <= held_total(members, ledger),
    decreases members.len() - n,
{
    if n == members.len() {
        assert(members.take(n) =~= members);
        lemma_held_total_nonnegative(members, ledger);
    } else {
        lemma_held_total_grows(members, ledger, n + 1);
        assert(members.take(n + 1).drop_last() =~= members.take(n));
        lemma_held_total_nonnegative(members.take(n), ledger);
    }
}

pub proof fn lemma_held_total_nonnegative(members: Seq<Address>, ledger: Map<Address, i128>)
    requires
        forall|a: Address| ledger.contains_key(a) ==> #[trigger] ledger[a] >= 0,
    ensures
        0 <= held_total(members, ledger),
    decreases members.len(),
{
    if members.len() > 0 {
        lemma_held_total_nonnegative(members.drop_last(), ledger);
    }
}

impl View for DepositLedger {
    type V = Map<Address, i128>;

    closed spec fn view(&self) -> Map<Address, i128> {
        self.held@
    }
}

impl Clone for DepositLedger {
    fn clone(&self) -> (copy: DepositLedger)
        ensures
            copy@ == self@,
    {
        proof {
            use_type_invariant(self);
        }
        let rows = self.held.rows();
        let mut held: Table<Address, i128> = Table::new();
        let mut i: usize = 0;
        proof {
            assert(rows@.take(0) =~= Seq::<Row<Address, i128>>::empty());
        }
        while i < rows.len()
            invariant
                i <= rows.len(),
                held@ == mapping_of(rows@.take(i as int)),
            decreases rows.len() - i,
        {
            proof {
                assert(rows@.take(i + 1).drop_last() =~= rows@.take(i as int));
            }
            held.set(rows[i].key, rows[i].value);
            i += 1;
        }
        proof {
            assert(rows@.take(rows.len() as int) =~= rows@);
        }
        DepositLedger { held }
    }
}

impl DepositLedger {
    #[verifier::type_invariant]
    spec fn positive(&self) -> bool {
        forall|a: Address| self.held@.contains_key(a) ==> #[trigger] self.held@[a] > 0
    }

    /// A ledger that holds nothing.
    pub fn new() -> (ledger: DepositLedger)
        ensures
            ledger@ == Map::<Address, i128>::empty(),
    {
        DepositLedger { held: Table::new() }
    }

    /// The ledger that holds `entries`; none where a member has two entries
    /// or an entry holds no positive amount.
    pub fn from_entries(entries: Vec<Deposit>) -> (made: Option<DepositLedger>)
        ensures
            match made {
                Some(ledger) => entries_wf(entries@) && ledger@ == ledger_of(entries@),
                None => !entries_wf(entries@),
            },
    {
        let mut rows: Vec<Row<Address, i128>> = Vec::new();
        let mut i: usize = 0;
        while i < entries.len()
            invariant
                i <= entries.len(),
                rows@ == rows_of(entries@.take(i as int)),
                forall|k: int| 0 <= k < i ==> (#[trigger] entries@[k]).amount > 0,
            decreases entries.len() - i,
        {
            if entries[i].amount <= 0 {
                return None;
            }
            rows.push(Row { key: entries[i].member, value: entries[i].amount });
            proof {
                assert(rows@ =~= rows_of(entries@.take(i + 1)));
            }
            i += 1;
        }
        proof {
            assert(entries@.take(entries.len() as int) =~= entries@);
        }
        match Table::from_rows(rows) {
            Some(held) => {
                proof {
                    assert forall|a: Address| held@.contains_key(a) implies #[trigger] held@[a]
                        > 0 by {
                        lemma_mapping_dom(rows@, a);
                        let k = choose|k: int|
                            0 <= k < rows@.len() && (#[trigger] rows@[k]).key == a;
                        lemma_mapping_row(rows@, k);
                        assert(entries@[k].amount > 0);
                    }
                }
                Some(DepositLedger { held })
            },
            None => None,
        }
    }

    /// The entries of the ledger, one for each member it holds a deposit for.
    pub fn entries(&self) -> (entries: Vec<Deposit>)
        ensures
            entries_wf(entries@),
            ledger_of(entries@) == self@,
    {
        proof {
            use_type_invariant(self);
        }
        let rows = self.held.rows();
        let mut entries: Vec<Deposit> = Vec::new();
        let mut i: usize = 0;
        while i < rows.len()
            invariant
                i <= rows.len(),
                entries@.len() == i,
                forall|k: int|
                    0 <= k < i ==> #[trigger] entries@[k] == (Deposit {
                        member: rows@[k].key,
                        amount: rows@[k].value,
                    }),
            decreases rows.len() - i,
        {
            entries.push(Deposit { member: rows[i].key, amount: rows[i].value });
            i += 1;
        }
        proof {
            assert(rows_of(entries@) =~= rows@);
            assert forall|k: int| 0 <= k < entries@.len() implies (#[trigger] entries@[k]).amount
                > 0 by {
                lemma_mapping_row(rows@, k);
            }
        }
        entries
    }

    /// What the ledger holds for `who`.
    pub fn held(&self, who: &Address) -> (amount: Option<i128>)
        ensures
            amount == if self@.contains_key(*who) {
                Some(self@[*who])
            } else {
                None
            },
            amount matches Some(held) ==> held > 0,
    {
        proof {
            use_type_invariant(self);
        }
        match self.held.get(who) {
            Some(amount) => Some(*amount),
            None => None,
        }
    }

    /// Puts `amount` in escrow for `who`, in place of what was held before.
    pub fn deposit(&mut self, who: Address, amount: i128)
        requires
            amount > 0,
        ensures
            final(self)@ == old(self)@.insert(who, amount),
    {
        proof {
            use_type_invariant(&*self);
        }
        let mut held: Table<Address, i128> = Table::new();
        core::mem::swap(&mut held, &mut self.held);
        held.set(who, amount);
        self.held = held;
    }

    /// Takes what is held for `who` out of escrow.
    pub fn release(&mut self, who: &Address) -> (amount: Option<i128>)
        ensures
            final(self)@ == old(self)@.remove(*who),
            amount == if old(self)@.contains_key(*who) {
                Some(old(self)@[*who])
            } else {
                None
            },
    {
        proof {
            use_type_invariant(&*self);
        }
        let amount = self.held(who);
        let mut held: Table<Address, i128> = Table::new();
        core::mem::swap(&mut held, &mut self.held);
        held.remove(who);
        self.held = held;
        amount
    }

    /// The sum of what the ledger holds for `members`.
    pub fn total_held(&self, members: &Vec<Address>) -> (total: i128)
        requires
            held_total(members@, self@) <= i128::MAX,
        ensures
            total == held_total(members@, self@),
            total >= 0,
    {
        self.checked_total_held(members).unwrap()
    }

    /// The sum of what the ledger holds for `members`, where it is within
    /// the machine's numbers.
    pub fn checked_total_held(&self, members: &Vec<Address>) -> (total: Option<i128>)
        ensures
            match total {
                Some(sum) => sum == held_total(members@, self@) && sum >= 0,
                None => held_total(members@, self@) > i128::MAX,
            },
    {
        let mut total: i128 = 0;
        let mut i: usize = 0;
        proof {
            use_type_invariant(self);
            assert(members@.take(0) =~= Seq::<Address>::empty());
        }
        while i < members.len()
            invariant
                i <= members.len(),
                total == held_total(members@.take(i as int), self@),
                forall|a: Address| self@.contains_key(a) ==> #[trigger] self@[a] > 0,
                total >= 0,
            decreases members.len() - i,
        {
            proof {
                assert(members@.take(i + 1).drop_last() =~= members@.take(i as int));
                lemma_held_total_grows(members@, self@, i + 1);
            }
            match self.held(&members[i]) {
                Some(amount) => {
                    if amount > i128::MAX - total {
                        return None;
                    }
                    total = total + amount;
                },
                None => {},
            }
            i += 1;
        }
        proof {
            assert(members@.take(members.len() as int) =~= members@);
        }
        Some(total)
    }

    /// Hands each of `members` back what the ledger holds for them.
    pub fn refund_all(&mut self, members: &Vec<Address>) -> (paid: Vec<Transfer>)
        requires
            members@.no_duplicates(),
        ensures
            paid@ == refunds(members@, old(self)@),
            final(self)@ == old(self)@.remove_keys(members@.to_set()),
    {
        let mut paid: Vec<Transfer> = Vec::new();
        let mut i: usize = 0;
        proof {
            assert(members@.take(0) =~= Seq::<Address>::empty());
            assert(old(self)@.remove_keys(members@.take(0).to_set()) =~= old(self)@);
        }
        while i < members.len()
            invariant
                i <= members.len(),
                members@.no_duplicates(),
                paid@ == refunds(members@.take(i as int), old(self)@),
                self@ == old(self)@.remove_keys(members@.take(i as int).to_set()),
            decreases members.len() - i,
        {
            let who = members[i];
            proof {
                crate::roster::lemma_take_step(members@, i as int);
                assert(old(self)@.remove_keys(members@.take(i as int).to_set()).remove(who)
                    =~= old(self)@.remove_keys(members@.take(i + 1).to_set()));
            }
            match self.release(&who) {
                Some(amount) => {
                    paid.push(Transfer::Pay { member: who, amount });
                },
                None => {},
            }
            i += 1;
        }
        proof {
            assert(members@.take(members.len() as int) =~= members@);
        }
        paid
    }
}

} // verus!
