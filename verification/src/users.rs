//! Per-user accounts, addressed by the user's address string. The store is an
//! association list with unique keys; its mathematical face is `account`,
//! which maps any address to an account view (all-zero when the address has
//! never been seen, as the host's key-value store would report).
use vstd::prelude::*;
use crate::state::UserInfo;
use crate::arena::EntryIndex;
use crate::sums::{sum_by, lemma_sum_by_push, lemma_sum_by_remove};

verus! {

/// The mathematical view of one user's account.
pub struct AccountView {
    pub delegated: int,
    pub available: int,
    pub total_won: int,
    pub entries: Seq<(u128, u64)>,
    pub entry_index: Seq<EntryIndex>,
}

pub open spec fn empty_account() -> AccountView {
    AccountView {
        delegated: 0,
        available: 0,
        total_won: 0,
        entries: Seq::empty(),
        entry_index: Seq::empty(),
    }
}

pub open spec fn account_of(u: UserInfo) -> AccountView {
    AccountView {
        delegated: u.amount_delegated as int,
        available: u.available_tokens_for_withdraw as int,
        total_won: u.total_won as int,
        entries: u.entries@,
        entry_index: u.entry_index@,
    }
}

/// Index of the first pair whose key reads `a`, or -1.
pub open spec fn find_key(items: Seq<(String, UserInfo)>, a: Seq<char>) -> int
    decreases items.len(),
{
    if items.len() == 0 {
        -1
    } else if items[0].0@ == a {
        0
    } else {
        let r = find_key(items.skip(1), a);
        if r == -1 {
            -1
        } else {
            r + 1
        }
    }
}

pub open spec fn keys_unique_seq(items: Seq<(String, UserInfo)>) -> bool {
    forall|i: int, j: int| 0 <= i < j < items.len() ==> (#[trigger] items[i].0@) != (
    #[trigger] items[j].0@)
}

pub open spec fn account_seq(items: Seq<(String, UserInfo)>, a: Seq<char>) -> AccountView {
    let k = find_key(items, a);
    if k == -1 {
        empty_account()
    } else {
        account_of(items[k].1)
    }
}

pub open spec fn delegated_measure() -> spec_fn((String, UserInfo)) -> int {
    |p: (String, UserInfo)| p.1.amount_delegated as int
}

/// `find_key` returns -1 exactly when no pair carries the key, and otherwise
/// the first pair that does.
pub proof fn lemma_find_key_props(items: Seq<(String, UserInfo)>, a: Seq<char>)
    ensures
        find_key(items, a) == -1 ==> forall|i: int|
            0 <= i < items.len() ==> (#[trigger] items[i].0@) != a,
        find_key(items, a) != -1 ==> {
            let k = find_key(items, a);
            &&& 0 <= k < items.len()
            &&& items[k].0@ == a
            &&& forall|i: int| 0 <= i < k ==> (#[trigger] items[i].0@) != a
        },
    decreases items.len(),
{
    if items.len() > 0 {
        lemma_find_key_props(items.skip(1), a);
        let tail = items.skip(1);
        assert(forall|i: int| 0 <= i < tail.len() ==> #[trigger] tail[i] == items[i + 1]);
        let k = find_key(items, a);
        if k == -1 {
            assert forall|i: int| 0 <= i < items.len() implies (#[trigger] items[i].0@) != a by {
                if i > 0 {
                    assert(tail[i - 1] == items[i]);
                    assert(tail[i - 1].0@ != a);
                }
            }
        } else if items[0].0@ != a {
            assert(k == find_key(tail, a) + 1);
            assert(tail[k - 1].0@ == a);
            assert forall|i: int| 0 <= i < k implies (#[trigger] items[i].0@) != a by {
                if i > 0 {
                    assert(tail[i - 1] == items[i]);
                    assert(tail[i - 1].0@ != a);
                }
            }
        }
    }
}

/// Under unique keys, any pair carrying the key gives the stored account.
pub proof fn lemma_account_at(items: Seq<(String, UserInfo)>, j: int)
    requires
        keys_unique_seq(items),
        0 <= j < items.len(),
    ensures
        find_key(items, items[j].0@) == j,
        account_seq(items, items[j].0@) == account_of(items[j].1),
{
    lemma_find_key_props(items, items[j].0@);
    let k = find_key(items, items[j].0@);
    if k == -1 {
        assert(items[j].0@ == items[j].0@);
        assert(false);
    }
    if k != j {
        assert(items[k].0@ == items[j].0@);
        assert(false);
    }
}

/// Removing the pair at `k` empties that key's account and leaves every other
/// key's account alone.
pub proof fn lemma_remove_account(items: Seq<(String, UserInfo)>, k: int)
    requires
        keys_unique_seq(items),
        0 <= k < items.len(),
    ensures
        keys_unique_seq(items.remove(k)),
        account_seq(items.remove(k), items[k].0@) == empty_account(),
        forall|a: Seq<char>| a != items[k].0@ ==> #[trigger] account_seq(items.remove(k), a)
            == account_seq(items, a),
{
    let rem = items.remove(k);
    assert(forall|j: int| 0 <= j < rem.len() ==> #[trigger] rem[j] == if j < k {
        items[j]
    } else {
        items[j + 1]
    });
    assert(keys_unique_seq(rem));
    lemma_find_key_props(rem, items[k].0@);
    let kk = find_key(rem, items[k].0@);
    if kk != -1 {
        let orig = if kk < k {
            kk
        } else {
            kk + 1
        };
        assert(items[orig].0@ == items[k].0@);
        assert(false);
    }
    assert forall|a: Seq<char>| a != items[k].0@ implies #[trigger] account_seq(items.remove(k), a)
        == account_seq(items, a) by {
        lemma_find_key_props(items, a);
        lemma_find_key_props(rem, a);
        let f_old = find_key(items, a);
        let f_new = find_key(rem, a);
        if f_old == -1 {
            if f_new != -1 {
                let orig = if f_new < k {
                    f_new
                } else {
                    f_new + 1
                };
                assert(items[orig].0@ == a);
                assert(false);
            }
        } else {
            let j = if f_old < k {
                f_old
            } else {
                f_old - 1
            };
            assert(rem[j].0@ == a);
            if f_new == -1 {
                assert(false);
            }
            let orig = if f_new < k {
                f_new
            } else {
                f_new + 1
            };
            assert(items[orig].0@ == a);
            if orig != f_old {
                assert(false);
            }
        }
    }
}

/// Appending a pair under a fresh key fills that key's account and leaves
/// every other key's account alone.
pub proof fn lemma_push_account(items: Seq<(String, UserInfo)>, p: (String, UserInfo))
    requires
        keys_unique_seq(items),
        find_key(items, p.0@) == -1,
    ensures
        keys_unique_seq(items.push(p)),
        account_seq(items.push(p), p.0@) == account_of(p.1),
        forall|a: Seq<char>| a != p.0@ ==> #[trigger] account_seq(items.push(p), a) == account_seq(
            items,
            a,
        ),
{
    let pushed = items.push(p);
    lemma_find_key_props(items, p.0@);
    assert(keys_unique_seq(pushed));
    lemma_account_at(pushed, items.len() as int);
    assert forall|a: Seq<char>| a != p.0@ implies #[trigger] account_seq(pushed, a) == account_seq(
        items,
        a,
    ) by {
        lemma_find_key_props(items, a);
        lemma_find_key_props(pushed, a);
        let f_old = find_key(items, a);
        let f_new = find_key(pushed, a);
        if f_old == -1 {
            if f_new != -1 {
                assert(pushed[f_new].0@ == a);
                if f_new < items.len() {
                    assert(items[f_new].0@ == a);
                    assert(false);
                } else {
                    assert(pushed[f_new] == p);
                    assert(false);
                }
            }
        } else {
            assert(pushed[f_old].0@ == a);
            if f_new == -1 {
                assert(false);
            }
            if f_new != f_old {
                if f_new < items.len() {
                    assert(items[f_new].0@ == a);
                    assert(false);
                } else {
                    assert(pushed[f_new] == p);
                    assert(false);
                }
            }
        }
    }
}

/// The store of user accounts.
pub struct UserStore {
    pub items: Vec<(String, UserInfo)>,
}

impl UserStore {
    pub open spec fn keys_unique(&self) -> bool {
        keys_unique_seq(self.items@)
    }

    pub open spec fn contains(&self, a: Seq<char>) -> bool {
        find_key(self.items@, a) != -1
    }

    /// The account stored under `a`, or the all-zero account.
    pub open spec fn account(&self, a: Seq<char>) -> AccountView {
        account_seq(self.items@, a)
    }

    /// Sum of every account's delegated principal.
    pub open spec fn delegated_total(&self) -> int {
        sum_by(self.items@, delegated_measure())
    }

    pub fn new() -> (r: UserStore)
        ensures
            r.keys_unique(),
            r.delegated_total() == 0,
            forall|a: Seq<char>| #[trigger] r.account(a) == empty_account(),
            r.items@.len() == 0,
    {
        let r = UserStore { items: Vec::new() };
        proof {
            assert forall|a: Seq<char>| #[trigger] r.account(a) == empty_account() by {
                lemma_find_key_props(r.items@, a);
            }
        }
        r
    }

    fn find(&self, addr: &String) -> (r: Option<usize>)
        ensures
            r matches Some(i) ==> 0 <= (i as int) < self.items@.len() && self.items@[i as int].0@
                == addr@ && find_key(self.items@, addr@) == i,
            r is None ==> find_key(self.items@, addr@) == -1,
    {
        let n = self.items.len();
        let mut i: usize = 0;
        while i < n
            invariant
                n == self.items@.len(),
                i <= n,
                forall|j: int| 0 <= j < i ==> (#[trigger] self.items@[j].0@) != addr@,
            decreases n - i,
        {
            if self.items[i].0 == *addr {
                proof {
                    lemma_find_key_props(self.items@, addr@);
                    let k = find_key(self.items@, addr@);
                    if k == -1 {
                        assert(self.items@[i as int].0@ == addr@);
                        assert(false);
                    }
                    if k != i {
                        assert(self.items@[k].0@ == addr@);
                        assert(false);
                    }
                }
                return Some(i);
            }
            i = i + 1;
        }
        proof {
            lemma_find_key_props(self.items@, addr@);
            let k = find_key(self.items@, addr@);
            if k != -1 {
                assert(self.items@[k].0@ == addr@);
                assert(false);
            }
        }
        None
    }

    /// Take the account stored under `addr` out of the store, if any.
    pub fn extract(&mut self, addr: &String) -> (r: Option<UserInfo>)
        requires
            old(self).keys_unique(),
        ensures
            final(self).keys_unique(),
            r is Some <==> old(self).contains(addr@),
            r matches Some(u) ==> account_of(u) == old(self).account(addr@),
            final(self).account(addr@) == empty_account(),
            !final(self).contains(addr@),
            forall|a: Seq<char>| a != addr@ ==> #[trigger] final(self).account(a) == old(
                self,
            ).account(a),
            final(self).delegated_total() == old(self).delegated_total() - old(self).account(
                addr@,
            ).delegated,
    {
        let found = self.find(addr);
        match found {
            Some(i) => {
                proof {
                    lemma_account_at(self.items@, i as int);
                    lemma_remove_account(self.items@, i as int);
                    lemma_sum_by_remove(self.items@, delegated_measure(), i as int);
                    lemma_find_key_props(self.items@.remove(i as int), addr@);
                }
                let pair = self.items.remove(i);
                Some(pair.1)
            },
            None => {
                proof {
                    lemma_find_key_props(self.items@, addr@);
                }
                None
            },
        }
    }

    /// Store an account under a key not yet present.
    pub fn insert_new(&mut self, addr: String, u: UserInfo)
        requires
            old(self).keys_unique(),
            !old(self).contains(addr@),
        ensures
            final(self).keys_unique(),
            final(self).contains(addr@),
            final(self).account(addr@) == account_of(u),
            forall|a: Seq<char>| a != addr@ ==> #[trigger] final(self).account(a) == old(
                self,
            ).account(a),
            final(self).delegated_total() == old(self).delegated_total() + u.amount_delegated,
            final(self).items@ == old(self).items@.push((addr, u)),
    {
        proof {
            lemma_push_account(self.items@, (addr, u));
            lemma_sum_by_push(self.items@, delegated_measure(), (addr, u));
            lemma_account_at(self.items@.push((addr, u)), self.items@.len() as int);
        }
        self.items.push((addr, u));
    }

    /// Read-only access to the account stored under `addr`.
    pub fn get(&self, addr: &String) -> (r: Option<&UserInfo>)
        requires
            self.keys_unique(),
        ensures
            r is Some <==> self.contains(addr@),
            r matches Some(u) ==> account_of(*u) == self.account(addr@),
    {
        let found = self.find(addr);
        match found {
            Some(i) => Some(&self.items[i].1),
            None => None,
        }
    }
}

/// The all-zero account a fresh address starts from.
pub fn default_user() -> (u: UserInfo)
    ensures
        account_of(u) == empty_account(),
{
    UserInfo {
        amount_delegated: 0,
        available_tokens_for_withdraw: 0,
        total_won: 0,
        entries: Vec::new(),
        entry_index: Vec::new(),
    }
}

} // verus!
