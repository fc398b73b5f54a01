use vstd::prelude::*;

verus! {

/// One user's cumulative allocated volume.
pub struct LedgerEntry {
    pub username: String,
    pub amount: u64,
}

/// Sum of the amounts held in a sequence of ledger entries.
pub open spec fn ledger_total(l: Seq<LedgerEntry>) -> nat
    decreases l.len(),
{
    if l.len() == 0 {
        0
    } else {
        ledger_total(l.drop_last()) + l.last().amount as nat
    }
}

/// No user appears twice.
pub open spec fn ledger_unique(l: Seq<LedgerEntry>) -> bool {
    forall|i: int, j: int|
        0 <= i < l.len() && 0 <= j < l.len() && i != j ==> l[i].username@ != l[j].username@
}

pub open spec fn has_user(l: Seq<LedgerEntry>, name: Seq<char>) -> bool {
    exists|i: int| 0 <= i < l.len() && l[i].username@ == name
}

pub open spec fn index_of(l: Seq<LedgerEntry>, name: Seq<char>) -> int {
    choose|i: int| 0 <= i < l.len() && l[i].username@ == name
}

/// What the ledger holds for `name`; `None` if the user was never credited.
pub open spec fn allocation_of(l: Seq<LedgerEntry>, name: Seq<char>) -> Option<u64> {
    if has_user(l, name) {
        Some(l[index_of(l, name)].amount)
    } else {
        None
    }
}

/// The allocation of `name` with absence read as zero.
pub open spec fn allocated(l: Seq<LedgerEntry>, name: Seq<char>) -> nat {
    match allocation_of(l, name) {
        Some(a) => a as nat,
        None => 0,
    }
}

/// The ledger after `a` units are credited to `name`: the user's entry grows by
/// `a`, or a new entry holding `a` is appended; crediting zero changes nothing.
pub open spec fn credited(l: Seq<LedgerEntry>, name: String, a: u64) -> Seq<LedgerEntry> {
    if a == 0 {
        l
    } else if has_user(l, name@) {
        let i = index_of(l, name@);
        l.update(i, LedgerEntry { username: name, amount: (l[i].amount + a) as u64 })
    } else {
        l.push(LedgerEntry { username: name, amount: a })
    }
}

pub proof fn lemma_total_update(l: Seq<LedgerEntry>, i: int, e: LedgerEntry)
    requires
        0 <= i < l.len(),
    ensures
        ledger_total(l.update(i, e)) + l[i].amount == ledger_total(l) + e.amount,
    decreases l.len(),
{
    let u = l.update(i, e);
    if i == l.len() - 1 {
        assert(u.drop_last() =~= l.drop_last());
    } else {
        assert(u.drop_last() =~= l.drop_last().update(i, e));
        lemma_total_update(l.drop_last(), i, e);
    }
}

pub proof fn lemma_entry_le_total(l: Seq<LedgerEntry>, i: int)
    requires
        0 <= i < l.len(),
    ensures
        l[i].amount <= ledger_total(l),
    decreases l.len(),
{
    if i < l.len() - 1 {
        lemma_entry_le_total(l.drop_last(), i);
    }
}

pub proof fn lemma_prefix_total_le(l: Seq<LedgerEntry>, k: int)
    requires
        0 <= k <= l.len(),
    ensures
        ledger_total(l.subrange(0, k)) <= ledger_total(l),
    decreases l.len(),
{
    if k < l.len() {
        assert(l.drop_last().subrange(0, k) =~= l.subrange(0, k));
        lemma_prefix_total_le(l.drop_last(), k);
    } else {
        assert(l.subrange(0, k) =~= l);
    }
}

/// Crediting adds exactly the credited amount to the ledger's total, keeps
/// users unique, and takes nothing from anybody.
pub proof fn lemma_credited(l: Seq<LedgerEntry>, name: String, a: u64)
    requires
        ledger_unique(l),
        ledger_total(l) + a <= u64::MAX,
    ensures
        ledger_total(credited(l, name, a)) == ledger_total(l) + a,
        ledger_unique(credited(l, name, a)),
        forall|n: Seq<char>| has_user(l, n) ==> #[trigger] has_user(credited(l, name, a), n),
        forall|n: Seq<char>|
            #[trigger] allocated(credited(l, name, a), n) == allocated(l, n) + if n == name@ {
                a as nat
            } else {
                0
            },
{
    let c = credited(l, name, a);
    if a == 0 {
    } else if has_user(l, name@) {
        let i = index_of(l, name@);
        lemma_entry_le_total(l, i);
        let e = LedgerEntry { username: name, amount: (l[i].amount + a) as u64 };
        lemma_total_update(l, i, e);
        assert forall|n: Seq<char>| has_user(l, n) implies #[trigger] has_user(c, n) by {
            let j = index_of(l, n);
            assert(c[j].username@ == n);
        }
        assert forall|n: Seq<char>|
            #[trigger] allocated(c, n) == allocated(l, n) + if n == name@ {
                a as nat
            } else {
                0
            } by {
            if has_user(l, n) {
                let j = index_of(l, n);
                assert(c[j].username@ == n);
                let k = index_of(c, n);
                assert(k == j);
            } else {
                if has_user(c, n) {
                    let k = index_of(c, n);
                    assert(l[k].username@ == n);
                }
            }
        }
    } else {
        assert(c.drop_last() =~= l);
        assert forall|n: Seq<char>| has_user(l, n) implies #[trigger] has_user(c, n) by {
            let j = index_of(l, n);
            assert(c[j].username@ == n);
        }
        assert forall|n: Seq<char>|
            #[trigger] allocated(c, n) == allocated(l, n) + if n == name@ {
                a as nat
            } else {
                0
            } by {
            if has_user(l, n) {
                let j = index_of(l, n);
                assert(c[j].username@ == n);
                let k = index_of(c, n);
                assert(k == j);
            } else if n == name@ {
                assert(c[l.len() as int].username@ == n);
                let k = index_of(c, n);
                assert(k == l.len());
            } else {
                if has_user(c, n) {
                    let k = index_of(c, n);
                    assert(l[k].username@ == n);
                }
            }
        }
    }
}

/// The allocation ledger: the users' cumulative allocated volume, one entry per
/// user, in the order in which users were first credited.
pub struct Ledger {
    entries: Vec<LedgerEntry>,
}

impl Ledger {
    pub closed spec fn view(&self) -> Seq<LedgerEntry> {
        self.entries@
    }

    pub open spec fn wf(&self) -> bool {
        ledger_unique(self.view())
    }

    pub fn new() -> (r: Ledger)
        ensures
            r.view() == Seq::<LedgerEntry>::empty(),
            r.wf(),
    {
        Ledger { entries: Vec::new() }
    }

    /// Adds `amount` to the running total of `username`.
    pub fn credit(&mut self, username: &String, amount: u64)
        requires
            old(self).wf(),
            ledger_total(old(self).view()) + amount <= u64::MAX,
        ensures
            final(self).view() == credited(old(self).view(), *username, amount),
            final(self).wf(),
    {
        proof {
            lemma_credited(self.view(), *username, amount);
        }
        if amount == 0 {
            return;
        }
        let n = self.entries.len();
        let mut i: usize = 0;
        while i < n
            invariant
                n == self.entries.len(),
                self.entries@ == old(self).entries@,
                ledger_unique(self.entries@),
                ledger_total(self.entries@) + amount <= u64::MAX,
                amount != 0,
                0 <= i <= n,
                forall|j: int| 0 <= j < i ==> self.entries@[j].username@ != username@,
            decreases n - i,
        {
            if self.entries[i].username == *username {
                let l = Ghost(self.entries@);
                proof {
                    assert(has_user(l@, username@));
                    let k = index_of(l@, username@);
                    assert(l@[k].username@ == username@);
                    assert(k == i);
                    lemma_entry_le_total(l@, i as int);
                }
                let total = self.entries[i].amount + amount;
                let entry = LedgerEntry { username: username.clone(), amount: total };
                self.entries.set(i, entry);
                assert(self.entries@ =~= l@.update(i as int, LedgerEntry { username: *username, amount: total }));

                return;
            }
            i = i + 1;
        }
        self.entries.push(LedgerEntry { username: username.clone(), amount });
    }

    /// The running total of `username`, if the user has ever been credited.
    pub fn get(&self, username: &String) -> (r: Option<u64>)
        requires
            self.wf(),
        ensures
            r == allocation_of(self.view(), username@),
    {
        let n = self.entries.len();
        let mut i: usize = 0;
        while i < n
            invariant
                n == self.entries.len(),
                ledger_unique(self.entries@),
                0 <= i <= n,
                forall|j: int| 0 <= j < i ==> self.entries@[j].username@ != username@,
            decreases n - i,
        {
            if self.entries[i].username == *username {
                proof {
                    assert(has_user(self.entries@, username@));
                    let k = index_of(self.entries@, username@);
                    assert(self.entries@[k].username@ == username@);
                    assert(k == i);
                }
                return Some(self.entries[i].amount);
            }
            i = i + 1;
        }
        None
    }

    /// How many users have been credited.
    pub fn len(&self) -> (r: usize)
        ensures
            r == self.view().len(),
    {
        self.entries.len()
    }

    /// Sum of all users' allocations.
    pub fn total(&self) -> (r: u64)
        requires
            ledger_total(self.view()) <= u64::MAX,
        ensures
            r == ledger_total(self.view()),
    {
        let n = self.entries.len();
        let mut sum: u64 = 0;
        let mut i: usize = 0;
        while i < n
            invariant
                n == self.entries.len(),
                0 <= i <= n,
                ledger_total(self.view()) <= u64::MAX,
                sum == ledger_total(self.entries@.subrange(0, i as int)),
            decreases n - i,
        {
            proof {
                let s = self.entries@.subrange(0, i as int + 1);
                assert(s.drop_last() =~= self.entries@.subrange(0, i as int));
                lemma_prefix_total_le(self.entries@, i as int + 1);
            }
            sum = sum + self.entries[i].amount;
            i = i + 1;
        }
        proof {
            assert(self.entries@.subrange(0, n as int) =~= self.entries@);
        }
        sum
    }
}

} // verus!
