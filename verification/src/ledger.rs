use crate::types::Identity;
use vstd::prelude::*;

verus! {

// ---------------------------------------------------------------------------
// The funding ledger. Storage is paid for: before a slot is allocated the
// funding identity's balance is checked and debited in the same step. The
// ledger holds each identity's balance in minor funding units.
// ---------------------------------------------------------------------------

/// Balances of the funding identities, one entry per identity.
pub struct Ledger {
    pub accounts: Vec<(Identity, u64)>,
}

/// Each identity holds at most one entry.
pub open spec fn ledger_wf(s: Seq<(Identity, u64)>) -> bool {
    forall|i: int, j: int| 0 <= i < j < s.len() ==> s[i].0 != s[j].0
}

/// Balance of `id` among the entries from index `i` on; zero when absent.
pub open spec fn balance_from(s: Seq<(Identity, u64)>, id: Identity, i: int) -> u64
    decreases s.len() - i,
{
    if i < 0 || i >= s.len() {
        0u64
    } else if s[i].0 == id {
        s[i].1
    } else {
        balance_from(s, id, i + 1)
    }
}

/// Balance of `id`; zero when the ledger has no entry for it.
pub open spec fn balance_in(s: Seq<(Identity, u64)>, id: Identity) -> u64 {
    balance_from(s, id, 0)
}

/// With distinct entries, the balance of the identity at index `k` is that
/// entry's balance, and scanning past absent prefixes changes nothing.
proof fn lemma_balance_at(s: Seq<(Identity, u64)>, k: int)
    requires
        ledger_wf(s),
        0 <= k < s.len(),
    ensures
        balance_in(s, s[k].0) == s[k].1,
    decreases k,
{
    if k > 0 {
        let t = s.drop_first();
        assert forall|i: int, j: int| 0 <= i < j < t.len() implies t[i].0 != t[j].0 by {
            assert(s[i + 1].0 != s[j + 1].0);
        }
        lemma_balance_at(t, k - 1);
        lemma_balance_shift(s, s[k].0);
    }
}

/// Scanning from index 1 equals scanning the tail from index 0.
proof fn lemma_balance_shift(s: Seq<(Identity, u64)>, id: Identity)
    requires
        1 <= s.len(),
    ensures
        balance_from(s, id, 1) == balance_in(s.drop_first(), id),
{
    lemma_balance_shift_from(s, id, 1);
}

/// Scanning `s` from `i + 1` equals scanning the tail from `i`.
proof fn lemma_balance_shift_from(s: Seq<(Identity, u64)>, id: Identity, i: int)
    requires
        1 <= i,
        1 <= s.len(),
    ensures
        balance_from(s, id, i) == balance_from(s.drop_first(), id, i - 1),
    decreases s.len() - i,
{
    if i < s.len() {
        assert(s.drop_first()[i - 1] == s[i]);
        lemma_balance_shift_from(s, id, i + 1);
    } else {
        assert(balance_from(s, id, i) == 0);
        assert(i - 1 >= s.drop_first().len());
        assert(balance_from(s.drop_first(), id, i - 1) == 0);
    }
}

impl Ledger {
    /// An empty ledger: every balance is zero.
    pub fn new() -> (r: Ledger)
        ensures
            r@ == Seq::<(Identity, u64)>::empty(),
            ledger_wf(r@),
    {
        Ledger { accounts: Vec::new() }
    }

    pub open spec fn view(&self) -> Seq<(Identity, u64)> {
        self.accounts@
    }

    /// Index of the entry holding `id`, if one exists.
    fn find(&self, id: Identity) -> (r: Option<usize>)
        ensures
            match r {
                Some(k) => k < self@.len() && self@[k as int].0 == id,
                None => forall|j: int| 0 <= j < self@.len() ==> self@[j].0 != id,
            },
    {
        let mut k: usize = 0;
        while k < self.accounts.len()
            invariant
                k <= self.accounts.len(),
                forall|j: int| 0 <= j < k ==> self.accounts@[j].0 != id,
            decreases self.accounts.len() - k,
        {
            if self.accounts[k].0 == id {
                return Some(k);
            }
            k = k + 1;
        }
        None
    }

    /// Current balance of `id`; zero when the ledger has no entry for it.
    pub fn balance_of(&self, id: Identity) -> (r: u64)
        requires
            ledger_wf(self@),
        ensures
            r == balance_in(self@, id),
    {
        match self.find(id) {
            Some(k) => {
                proof {
                    lemma_balance_at(self@, k as int);
                }
                self.accounts[k].1
            },
            None => {
                proof {
                    lemma_balance_absent(self@, id, 0);
                }
                0
            },
        }
    }

    /// Sets the balance of `id`, creating its entry if none exists. Every
    /// other identity's balance is untouched.
    pub fn set_balance(&mut self, id: Identity, amount: u64)
        requires
            ledger_wf(old(self)@),
        ensures
            ledger_wf(final(self)@),
            balance_in(final(self)@, id) == amount,
            forall|other: Identity|
                other != id ==> balance_in(final(self)@, other) == balance_in(old(self)@, other),
    {
        let ghost pre = self@;
        match self.find(id) {
            Some(k) => {
                self.accounts[k] = (id, amount);
                proof {
                    lemma_update_balances(pre, self@, k as int, id, amount);
                }
            },
            None => {
                self.accounts.push((id, amount));
                proof {
                    lemma_push_balances(pre, id, amount);
                }
            },
        }
    }

    /// Removes `amount` from the balance of `id`, which must cover it.
    /// Every other identity's balance is untouched.
    pub fn debit(&mut self, id: Identity, amount: u64)
        requires
            ledger_wf(old(self)@),
            amount <= balance_in(old(self)@, id),
        ensures
            ledger_wf(final(self)@),
            balance_in(final(self)@, id) == balance_in(old(self)@, id) - amount,
            forall|other: Identity|
                other != id ==> balance_in(final(self)@, other) == balance_in(old(self)@, other),
    {
        let ghost pre = self@;
        match self.find(id) {
            Some(k) => {
                proof {
                    lemma_balance_at(pre, k as int);
                }
                let left = self.accounts[k].1 - amount;
                self.accounts[k] = (id, left);
                proof {
                    lemma_update_balances(pre, self@, k as int, id, left);
                }
            },
            None => {
                proof {
                    lemma_balance_absent(pre, id, 0);
                }
            },
        }
    }
}

/// An identity absent from index `i` on has balance zero there.
proof fn lemma_balance_absent(s: Seq<(Identity, u64)>, id: Identity, i: int)
    requires
        forall|j: int| 0 <= j < s.len() ==> s[j].0 != id,
        0 <= i,
    ensures
        balance_from(s, id, i) == 0,
    decreases s.len() - i,
{
    if i < s.len() {
        lemma_balance_absent(s, id, i + 1);
    }
}

/// Replacing the entry at `k` with `(id, amount)`, where `k` already held
/// `id`, sets `id`'s balance and leaves every other balance unchanged.
proof fn lemma_update_balances(
    pre: Seq<(Identity, u64)>,
    post: Seq<(Identity, u64)>,
    k: int,
    id: Identity,
    amount: u64,
)
    requires
        ledger_wf(pre),
        0 <= k < pre.len(),
        pre[k].0 == id,
        post == pre.update(k, (id, amount)),
    ensures
        ledger_wf(post),
        balance_in(post, id) == amount,
        forall|other: Identity| other != id ==> balance_in(post, other) == balance_in(pre, other),
    decreases pre.len(),
{
    assert(ledger_wf(post));
    lemma_balance_at(post, k);
    assert forall|other: Identity| other != id implies balance_in(post, other) == balance_in(
        pre,
        other,
    ) by {
        lemma_balance_agree(pre, post, other, 0);
    }
}

/// Two ledgers whose entries agree wherever either holds `id` from index
/// `i` on have the same scan result for `id` there.
proof fn lemma_balance_agree(
    pre: Seq<(Identity, u64)>,
    post: Seq<(Identity, u64)>,
    id: Identity,
    i: int,
)
    requires
        pre.len() == post.len(),
        forall|j: int| 0 <= j < pre.len() && pre[j].0 == id ==> post[j] == pre[j],
        forall|j: int| 0 <= j < post.len() && post[j].0 == id ==> post[j] == pre[j],
        0 <= i,
    ensures
        balance_from(post, id, i) == balance_from(pre, id, i),
    decreases pre.len() - i,
{
    if i < pre.len() {
        lemma_balance_agree(pre, post, id, i + 1);
    }
}

/// Appending an entry for an absent identity sets its balance and leaves
/// every other balance unchanged.
proof fn lemma_push_balances(pre: Seq<(Identity, u64)>, id: Identity, amount: u64)
    requires
        ledger_wf(pre),
        forall|j: int| 0 <= j < pre.len() ==> pre[j].0 != id,
    ensures
        ledger_wf(pre.push((id, amount))),
        balance_in(pre.push((id, amount)), id) == amount,
        forall|other: Identity|
            other != id ==> balance_in(pre.push((id, amount)), other) == balance_in(pre, other),
{
    let post = pre.push((id, amount));
    lemma_balance_at(post, pre.len() as int);
    assert forall|other: Identity| other != id implies balance_in(post, other) == balance_in(
        pre,
        other,
    ) by {
        lemma_push_scan(pre, (id, amount), other, 0);
    }
}

/// Appending an entry for a different identity never changes a scan.
proof fn lemma_push_scan(s: Seq<(Identity, u64)>, e: (Identity, u64), id: Identity, i: int)
    requires
        e.0 != id,
        0 <= i,
    ensures
        balance_from(s.push(e), id, i) == balance_from(s, id, i),
    decreases s.len() + 1 - i,
{
    if i < s.len() {
        assert(s.push(e)[i] == s[i]);
        lemma_push_scan(s, e, id, i + 1);
    } else if i == s.len() {
        assert(s.push(e)[i] == e);
        assert(balance_from(s.push(e), id, i + 1) == 0);
        assert(balance_from(s, id, i) == 0);
    } else {
        assert(balance_from(s.push(e), id, i) == 0);
        assert(balance_from(s, id, i) == 0);
    }
}

} // verus!
