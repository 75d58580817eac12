//! The ledger registry: thin orchestration that routes each transaction to
//! its client's account, creating the account lazily on first sight of the
//! client id, and keeps the accounts in ascending client-id order so that
//! the final snapshot is deterministic.

use vstd::prelude::*;

use crate::account::{admissible, empty_account, spec_execute, Account, AccountModel, Error};
use crate::transaction::{ClientId, Transaction};

verus! {

/// The mapping from client ids to accounts, as a vector kept strictly
/// sorted by client id.
pub struct Registry {
    pub accounts: Vec<Account>,
}

impl View for Registry {
    type V = Seq<AccountModel>;

    open spec fn view(&self) -> Seq<AccountModel> {
        self.accounts@.map_values(|account: Account| account@)
    }
}

/// Well-formedness of the registry: strictly ascending client ids (hence
/// one account per client) and every account well formed.
pub open spec fn registry_wf(s: Seq<AccountModel>) -> bool {
    &&& forall|i: int, j: int|
        0 <= i < j < s.len() ==> (#[trigger] s[i]).client_id < (#[trigger] s[j]).client_id
    &&& forall|i: int| 0 <= i < s.len() ==> (#[trigger] s[i]).wf()
}

/// Whether the registry holds an account for the client.
pub open spec fn registry_contains(s: Seq<AccountModel>, client_id: ClientId) -> bool {
    exists|i: int| 0 <= i < s.len() && s[i].client_id == client_id
}

/// The index of the client's account; meaningful only when present, in
/// which case sortedness makes it unambiguous.
pub open spec fn registry_index(s: Seq<AccountModel>, client_id: ClientId) -> int {
    choose|i: int| 0 <= i < s.len() && s[i].client_id == client_id
}

/// The account a transaction for this client acts on: the stored one, or a
/// fresh account on first sight of the client id.
pub open spec fn account_for(s: Seq<AccountModel>, client_id: ClientId) -> AccountModel {
    if registry_contains(s, client_id) {
        s[registry_index(s, client_id)]
    } else {
        empty_account(client_id)
    }
}

/// Where a fresh account for this client id belongs in the sorted order.
pub open spec fn insertion_point(s: Seq<AccountModel>, client_id: ClientId) -> int
    decreases s.len(),
{
    if s.len() == 0 {
        0
    } else if s[0].client_id < client_id {
        1 + insertion_point(s.skip(1), client_id)
    } else {
        0
    }
}

/// What processing one transaction does to the registry: the client's
/// account — created on demand at its sorted position — executes it.
pub open spec fn spec_process(s: Seq<AccountModel>, t: Transaction) -> (Seq<AccountModel>, Result<
    (),
    Error,
>) {
    let (a2, r) = spec_execute(account_for(s, t.client_id), t);
    if registry_contains(s, t.client_id) {
        (s.update(registry_index(s, t.client_id), a2), r)
    } else {
        (s.insert(insertion_point(s, t.client_id), a2), r)
    }
}

/// What the registry asks of a transaction before processing: exactly what
/// the target account asks (see [`admissible`]).
pub open spec fn registry_admits(s: Seq<AccountModel>, t: Transaction) -> bool {
    !account_for(s, t.client_id).locked ==> admissible(account_for(s, t.client_id), t)
}

/// With sorted client ids, any index holding the looked-up id is the index
/// the lookup denotes.
pub proof fn lemma_registry_index_of(s: Seq<AccountModel>, client_id: ClientId, i: int)
    requires
        forall|p: int, q: int|
            0 <= p < q < s.len() ==> (#[trigger] s[p]).client_id < (#[trigger] s[q]).client_id,
        0 <= i < s.len(),
        s[i].client_id == client_id,
    ensures
        registry_contains(s, client_id),
        registry_index(s, client_id) == i,
{
    assert(registry_contains(s, client_id));
    let j = registry_index(s, client_id);
    assert(0 <= j < s.len() && s[j].client_id == client_id);
    if i < j {
        assert(s[i].client_id < s[j].client_id);
    }
    if j < i {
        assert(s[j].client_id < s[i].client_id);
    }
}

/// The insertion point of a client id in a sorted registry splits it into
/// strictly smaller and at-least-as-large client ids.
pub proof fn lemma_insertion_point(s: Seq<AccountModel>, client_id: ClientId)
    requires
        forall|p: int, q: int|
            0 <= p < q < s.len() ==> (#[trigger] s[p]).client_id < (#[trigger] s[q]).client_id,
    ensures
        0 <= insertion_point(s, client_id) <= s.len(),
        forall|j: int|
            0 <= j < insertion_point(s, client_id) ==> (#[trigger] s[j]).client_id < client_id,
        forall|j: int|
            insertion_point(s, client_id) <= j < s.len() ==> (#[trigger] s[j]).client_id
                >= client_id,
    decreases s.len(),
{
    if s.len() != 0 && s[0].client_id < client_id {
        let tail = s.skip(1);
        assert forall|p: int, q: int| 0 <= p < q < tail.len() implies (
        #[trigger] tail[p]).client_id < (#[trigger] tail[q]).client_id by {
            assert(tail[p] == s[p + 1]);
            assert(tail[q] == s[q + 1]);
        };
        lemma_insertion_point(tail, client_id);
        assert forall|j: int| 0 <= j < insertion_point(s, client_id) implies (
        #[trigger] s[j]).client_id < client_id by {
            if j > 0 {
                assert(tail[j - 1] == s[j]);
            }
        };
        assert forall|j: int| insertion_point(s, client_id) <= j < s.len() implies (
        #[trigger] s[j]).client_id >= client_id by {
            assert(tail[j - 1] == s[j]);
        };
    } else if s.len() != 0 {
        assert forall|j: int| 0 <= j < s.len() implies (#[trigger] s[j]).client_id
            >= client_id by {
            if j > 0 {
                assert(s[0].client_id < s[j].client_id);
            }
        };
    }
}

impl Registry {
    /// An empty registry: no client has been seen yet.
    pub fn new() -> (registry: Registry)
        ensures
            registry@ == Seq::<AccountModel>::empty(),
            registry_wf(registry@),
    {
        let registry = Registry { accounts: Vec::new() };
        proof {
            assert(registry@ =~= Seq::<AccountModel>::empty());
        }
        registry
    }

    /// The first position whose account's client id is at least the given
    /// one: the place where this client's account stands or would stand.
    fn find_position(&self, client_id: ClientId) -> (i: usize)
        ensures
            i <= self.accounts.len(),
            forall|j: int| 0 <= j < i ==> (#[trigger] self@[j]).client_id < client_id,
            i < self.accounts.len() ==> self@[i as int].client_id >= client_id,
    {
        let mut i: usize = 0;
        while i < self.accounts.len() && self.accounts[i].client_id < client_id
            invariant
                i <= self.accounts.len(),
                forall|j: int| 0 <= j < i ==> (#[trigger] self@[j]).client_id < client_id,
            decreases self.accounts.len() - i,
        {
            i += 1;
        }
        i
    }

    /// Whether `process` accepts this transaction's shape: the guard a
    /// caller tests before processing (see [`Account::admits`]).
    pub fn admits(&self, transaction: &Transaction) -> (b: bool)
        requires
            registry_wf(self@),
        ensures
            b == registry_admits(self@, *transaction),
    {
        let i = self.find_position(transaction.client_id);
        if i < self.accounts.len() && self.accounts[i].client_id == transaction.client_id {
            proof {
                lemma_registry_index_of(self@, transaction.client_id, i as int);
                assert(self@[i as int].wf());
            }
            self.accounts[i].admits(transaction)
        } else {
            proof {
                assert forall|j: int| 0 <= j < self@.len() implies (#[trigger] self@[j]).client_id
                    != transaction.client_id by {
                    if j >= i {
                        assert(self@[i as int].client_id <= self@[j].client_id);
                    }
                };
                assert(!registry_contains(self@, transaction.client_id));
            }
            let fresh = Account::new(transaction.client_id);
            fresh.admits(transaction)
        }
    }

    /// Route one transaction to its client's account — created on demand —
    /// and execute it, keeping the registry sorted and well formed. The
    /// result and the new state are exactly those of [`spec_process`].
    pub fn process(&mut self, transaction: Transaction) -> (r: Result<(), Error>)
        requires
            registry_wf(old(self)@),
            registry_admits(old(self)@, transaction),
        ensures
            final(self)@ == spec_process(old(self)@, transaction).0,
            r == spec_process(old(self)@, transaction).1,
            registry_wf(final(self)@),
    {
        let ghost s0 = self@;
        let i = self.find_position(transaction.client_id);
        if i < self.accounts.len() && self.accounts[i].client_id == transaction.client_id {
            proof {
                lemma_registry_index_of(s0, transaction.client_id, i as int);
                assert(s0[i as int].wf());
            }
            let account = &mut self.accounts[i];
            let r = account.execute(transaction);
            proof {
                assert(self@ =~= s0.update(i as int, spec_execute(s0[i as int], transaction).0));
                assert(self@ =~= spec_process(s0, transaction).0);
                assert forall|p: int, q: int| 0 <= p < q < self@.len() implies (
                #[trigger] self@[p]).client_id < (#[trigger] self@[q]).client_id by {
                    assert(self@[p].client_id == s0[p].client_id);
                    assert(self@[q].client_id == s0[q].client_id);
                    assert(s0[p].client_id < s0[q].client_id);
                };
                assert forall|p: int| 0 <= p < self@.len() implies (#[trigger] self@[p]).wf() by {
                    if p != i as int {
                        assert(s0[p].wf());
                    }
                };
            }
            r
        } else {
            proof {
                assert forall|j: int| 0 <= j < s0.len() implies (#[trigger] s0[j]).client_id
                    != transaction.client_id by {
                    if j >= i {
                        assert(s0[i as int].client_id <= s0[j].client_id);
                    }
                };
                assert(!registry_contains(s0, transaction.client_id));
                lemma_insertion_point(s0, transaction.client_id);
                let ip = insertion_point(s0, transaction.client_id);
                if ip < i as int {
                    assert(s0[ip].client_id < transaction.client_id);
                    assert(s0[ip].client_id >= transaction.client_id);
                }
                if (i as int) < ip {
                    assert(s0[i as int].client_id < transaction.client_id);
                }
                assert(ip == i as int);
            }
            let mut account = Account::new(transaction.client_id);
            let r = account.execute(transaction);
            let ghost a2 = account@;
            self.accounts.insert(i, account);
            proof {
                assert(self@ =~= s0.insert(i as int, a2));
                assert(self@ =~= spec_process(s0, transaction).0);
                assert forall|p: int, q: int| 0 <= p < q < self@.len() implies (
                #[trigger] self@[p]).client_id < (#[trigger] self@[q]).client_id by {
                    assert(a2.client_id == transaction.client_id);
                    if p < i as int {
                        assert(self@[p] == s0[p]);
                        assert(s0[p].client_id < transaction.client_id);
                    }
                    if p > i as int {
                        assert(self@[p] == s0[p - 1]);
                    }
                    if q < i as int {
                        assert(self@[q] == s0[q]);
                    }
                    if q > i as int {
                        assert(self@[q] == s0[q - 1]);
                        assert(s0[q - 1].client_id >= transaction.client_id);
                        assert(s0[q - 1].client_id != transaction.client_id);
                    }
                };
                assert forall|p: int| 0 <= p < self@.len() implies (#[trigger] self@[p]).wf() by {
                    if p < i as int {
                        assert(self@[p] == s0[p]);
                        assert(s0[p].wf());
                    }
                    if p > i as int {
                        assert(self@[p] == s0[p - 1]);
                        assert(s0[p - 1].wf());
                    }
                };
            }
            r
        }
    }
}

} // verus!
