//! The persistence capability and a verified in-memory engine.
//!
//! Persistence is the sole arbiter of username uniqueness: the orchestrator
//! never does check-then-insert, it relies on [`Store::insert_account`]'s
//! insert-if-absent semantics. Any engine may stand behind the [`Store`]
//! trait; [`MemoryStore`] is the verified in-memory one, which also serves
//! tests as the scriptable fake (taken names are pre-inserted, storage
//! failure is toggled with [`MemoryStore::set_failing`]).

use vstd::prelude::*;

use crate::assoc::{
    assoc_map, lemma_assoc_absent, lemma_assoc_contains, lemma_assoc_index, lemma_assoc_push,
    lemma_assoc_remove, unique_keys,
};
use crate::text::str_eq;

verus! {

/// The two kinds of account the server provisions.
#[derive(Clone, Copy, PartialEq, Eq, Structural, Debug)]
pub enum AccountKind {
    /// A full account with the complete API at its disposal.
    User,
    /// A reduced-privilege account created without registration input.
    Guest,
}

/// The persistence collaborator was unavailable or erred; a bounded-timeout
/// expiry counts as this, never as "username available".
#[derive(Clone, Copy, PartialEq, Eq, Structural, Debug)]
pub struct StorageError;

/// What an atomic insert-if-absent of an account record reports.
#[derive(Clone, Copy, PartialEq, Eq, Structural, Debug)]
pub enum InsertOutcome {
    /// The record was absent and is now present.
    Inserted,
    /// A record with this localpart already existed; nothing changed.
    Collision,
    /// The engine erred; nothing changed.
    Failed,
}

/// Whether `t` is the active token of some (account, device) pair in `m`.
pub open spec fn token_active(m: Map<(Seq<char>, Seq<char>), Seq<char>>, t: Seq<char>) -> bool {
    exists|k: (Seq<char>, Seq<char>)| #[trigger] m.dom().contains(k) && m[k] == t
}

/// The persistence capability the registration core consumes.
///
/// The abstract state is two finite maps: `accounts`, localpart to account
/// kind, and `tokens`, the single active access token of each
/// (account, device) pair. Whether a call succeeds is the engine's choice —
/// an engine that is not `fallible` owes an answer; what each answer means,
/// and that a failed call changes nothing, is not the engine's choice.
pub trait Store: Sized {
    /// Well-formedness of the engine's own representation.
    spec fn wf(&self) -> bool;

    /// Whether the engine may refuse requests. An engine that answers `false`
    /// promises that every call succeeds.
    spec fn fallible(&self) -> bool;

    /// The account records: localpart to kind.
    spec fn accounts(&self) -> Map<Seq<char>, AccountKind>;

    /// The one active token of each (account localpart, device id) pair.
    spec fn tokens(&self) -> Map<(Seq<char>, Seq<char>), Seq<char>>;

    /// Advisory existence lookup for a localpart. Reserves nothing.
    fn check_username_exists(&self, localpart: &str) -> (r: Result<bool, StorageError>)
        requires
            self.wf(),
        ensures
            r matches Ok(b) ==> b == self.accounts().dom().contains(localpart@),
            !self.fallible() ==> r is Ok,
    ;

    /// Atomic insert-if-absent of an account record.
    fn insert_account(&mut self, localpart: &str, kind: AccountKind) -> (r: InsertOutcome)
        requires
            old(self).wf(),
        ensures
            final(self).wf(),
            final(self).fallible() == old(self).fallible(),
            final(self).tokens() == old(self).tokens(),
            r == InsertOutcome::Inserted ==> !old(self).accounts().dom().contains(localpart@)
                && final(self).accounts() == old(self).accounts().insert(localpart@, kind),
            r == InsertOutcome::Collision ==> old(self).accounts().dom().contains(localpart@)
                && final(self).accounts() == old(self).accounts(),
            r == InsertOutcome::Failed ==> final(self).accounts() == old(self).accounts(),
            !old(self).fallible() ==> r != InsertOutcome::Failed,
    ;

    /// Binds `token` to `(account, device)`, atomically invalidating the
    /// token previously bound to that pair, if any.
    fn insert_or_replace_device_token(&mut self, account: &str, device: &str, token: &str) -> (r:
        Result<(), StorageError>)
        requires
            old(self).wf(),
        ensures
            final(self).wf(),
            final(self).fallible() == old(self).fallible(),
            final(self).accounts() == old(self).accounts(),
            r is Ok ==> final(self).tokens() == old(self).tokens().insert(
                (account@, device@),
                token@,
            ),
            r is Err ==> final(self).tokens() == old(self).tokens(),
            !old(self).fallible() ==> r is Ok,
    ;

    /// The authorization check: is this value the active token of some
    /// (account, device) pair?
    fn token_is_active(&self, token: &str) -> (r: Result<bool, StorageError>)
        requires
            self.wf(),
        ensures
            r matches Ok(b) ==> b == token_active(self.tokens(), token@),
            !self.fallible() ==> r is Ok,
    ;
}

/// A verified in-memory persistence engine.
pub struct MemoryStore {
    accounts: Vec<(String, AccountKind)>,
    tokens: Vec<((String, String), String)>,
    fail_requests: bool,
}

impl MemoryStore {
    /// The account entries, as views.
    pub closed spec fn accounts_seq(&self) -> Seq<(Seq<char>, AccountKind)> {
        self.accounts@.map_values(|p: (String, AccountKind)| (p.0@, p.1))
    }

    /// The token entries, as views.
    pub closed spec fn tokens_seq(&self) -> Seq<((Seq<char>, Seq<char>), Seq<char>)> {
        self.tokens@.map_values(|p: ((String, String), String)| ((p.0.0@, p.0.1@), p.1@))
    }

    /// An empty, healthy store.
    pub fn new() -> (s: Self)
        ensures
            s.wf(),
            s.accounts() == Map::<Seq<char>, AccountKind>::empty(),
            s.tokens() == Map::<(Seq<char>, Seq<char>), Seq<char>>::empty(),
            !s.fallible(),
    {
        let s = MemoryStore { accounts: Vec::new(), tokens: Vec::new(), fail_requests: false };
        proof {
            assert(s.accounts_seq() =~= Seq::<(Seq<char>, AccountKind)>::empty());
            assert(s.tokens_seq() =~= Seq::<((Seq<char>, Seq<char>), Seq<char>)>::empty());
        }
        s
    }

    /// Scripts whether every following request errs; the contents stay.
    pub fn set_failing(&mut self, fail: bool)
        requires
            old(self).wf(),
        ensures
            final(self).wf(),
            final(self).accounts() == old(self).accounts(),
            final(self).tokens() == old(self).tokens(),
            final(self).fallible() == fail,
    {
        self.fail_requests = fail;
    }

    /// Index of the account entry for `localpart`, if any.
    fn find_account(&self, localpart: &str) -> (r: Option<usize>)
        ensures
            match r {
                Some(i) => i < self.accounts_seq().len() && self.accounts_seq()[i as int].0
                    == localpart@,
                None => forall|j: int|
                    0 <= j < self.accounts_seq().len() ==> (#[trigger] self.accounts_seq()[j]).0
                        != localpart@,
            },
    {
        let n = self.accounts.len();
        let mut i: usize = 0;
        while i < n
            invariant
                n == self.accounts@.len(),
                i <= n,
                forall|j: int| 0 <= j < i ==> (#[trigger] self.accounts_seq()[j]).0 != localpart@,
            decreases n - i,
        {
            if str_eq(self.accounts[i].0.as_str(), localpart) {
                return Some(i);
            }
            i += 1;
        }
        None
    }

    /// Index of the token entry for `(account, device)`, if any.
    fn find_token(&self, account: &str, device: &str) -> (r: Option<usize>)
        ensures
            match r {
                Some(i) => i < self.tokens_seq().len() && self.tokens_seq()[i as int].0 == (
                    account@,
                    device@,
                ),
                None => forall|j: int|
                    0 <= j < self.tokens_seq().len() ==> (#[trigger] self.tokens_seq()[j]).0 != (
                        account@,
                        device@,
                    ),
            },
    {
        let n = self.tokens.len();
        let mut i: usize = 0;
        while i < n
            invariant
                n == self.tokens@.len(),
                i <= n,
                forall|j: int|
                    0 <= j < i ==> (#[trigger] self.tokens_seq()[j]).0 != (account@, device@),
            decreases n - i,
        {
            let same_account = str_eq(self.tokens[i].0.0.as_str(), account);
            let same_device = str_eq(self.tokens[i].0.1.as_str(), device);
            if same_account && same_device {
                return Some(i);
            }
            i += 1;
        }
        None
    }
}

impl Store for MemoryStore {
    closed spec fn wf(&self) -> bool {
        unique_keys(self.accounts_seq()) && unique_keys(self.tokens_seq())
    }

    closed spec fn fallible(&self) -> bool {
        self.fail_requests
    }

    closed spec fn accounts(&self) -> Map<Seq<char>, AccountKind> {
        assoc_map(self.accounts_seq())
    }

    closed spec fn tokens(&self) -> Map<(Seq<char>, Seq<char>), Seq<char>> {
        assoc_map(self.tokens_seq())
    }

    fn check_username_exists(&self, localpart: &str) -> (r: Result<bool, StorageError>) {
        if self.fail_requests {
            return Err(StorageError);
        }
        match self.find_account(localpart) {
            Some(i) => {
                proof {
                    lemma_assoc_contains(self.accounts_seq(), i as int);
                }
                Ok(true)
            },
            None => {
                proof {
                    lemma_assoc_absent(self.accounts_seq(), localpart@);
                }
                Ok(false)
            },
        }
    }

    fn insert_account(&mut self, localpart: &str, kind: AccountKind) -> (r: InsertOutcome) {
        if self.fail_requests {
            return InsertOutcome::Failed;
        }
        match self.find_account(localpart) {
            Some(i) => {
                proof {
                    lemma_assoc_contains(self.accounts_seq(), i as int);
                }
                InsertOutcome::Collision
            },
            None => {
                proof {
                    lemma_assoc_absent(self.accounts_seq(), localpart@);
                }
                let ghost pre = *self;
                let owned = localpart.to_owned();
                self.accounts.push((owned, kind));
                proof {
                    let ps = pre.accounts_seq().push((localpart@, kind));
                    assert(self.accounts_seq() =~= ps);
                    assert forall|x: int, y: int|
                        0 <= x < y < ps.len() implies (#[trigger] ps[x]).0 != (
                    #[trigger] ps[y]).0 by {
                        if y < ps.len() - 1 {
                            assert(ps[x] == pre.accounts_seq()[x]);
                            assert(ps[y] == pre.accounts_seq()[y]);
                        } else {
                            assert(ps[x] == pre.accounts_seq()[x]);
                            assert(ps[y].0 == localpart@);
                        }
                    }
                    lemma_assoc_push(pre.accounts_seq(), (localpart@, kind));
                    assert(self.tokens_seq() =~= pre.tokens_seq());
                }
                InsertOutcome::Inserted
            },
        }
    }

    fn insert_or_replace_device_token(&mut self, account: &str, device: &str, token: &str) -> (r:
        Result<(), StorageError>) {
        if self.fail_requests {
            return Err(StorageError);
        }
        let ghost key = (account@, device@);
        let found = self.find_token(account, device);
        let ghost pre = *self;
        if let Some(i) = found {
            self.tokens.remove(i);
            proof {
                assert(self.tokens_seq() =~= pre.tokens_seq().remove(i as int));
                lemma_assoc_remove(pre.tokens_seq(), i as int);
                assert forall|x: int, y: int|
                    0 <= x < y < self.tokens_seq().len() implies (#[trigger] self.tokens_seq()[
                    x]).0 != (#[trigger] self.tokens_seq()[y]).0 by {
                    let s = pre.tokens_seq();
                    let xx: int = if x < i { x } else { x + 1 };
                    let yy: int = if y < i { y } else { y + 1 };
                    assert(self.tokens_seq()[x] == s[xx]);
                    assert(self.tokens_seq()[y] == s[yy]);
                }
                assert forall|j: int|
                    0 <= j < self.tokens_seq().len() implies (#[trigger] self.tokens_seq()[j]).0
                    != key by {
                    let s = pre.tokens_seq();
                    let jj: int = if j < i as int { j } else { j + 1 };
                    assert(self.tokens_seq()[j] == s[jj]);
                }
            }
        }
        let ghost mid = *self;
        proof {
            assert(forall|j: int|
                0 <= j < mid.tokens_seq().len() ==> (#[trigger] mid.tokens_seq()[j]).0 != key);
        }
        let owned_key = (account.to_owned(), device.to_owned());
        self.tokens.push((owned_key, token.to_owned()));
        proof {
            let ps = mid.tokens_seq().push((key, token@));
            assert(self.tokens_seq() =~= ps);
            assert forall|x: int, y: int|
                0 <= x < y < ps.len() implies (#[trigger] ps[x]).0 != (#[trigger] ps[y]).0 by {
                if y < ps.len() - 1 {
                    assert(ps[x] == mid.tokens_seq()[x]);
                    assert(ps[y] == mid.tokens_seq()[y]);
                } else {
                    assert(ps[x] == mid.tokens_seq()[x]);
                    assert(ps[y].0 == key);
                }
            }
            lemma_assoc_push(mid.tokens_seq(), (key, token@));
            if found matches Some(i) {
                assert(self.tokens() =~= pre.tokens().insert(key, token@));
            }
            assert(self.accounts_seq() =~= pre.accounts_seq());
        }
        Ok(())
    }

    fn token_is_active(&self, token: &str) -> (r: Result<bool, StorageError>) {
        if self.fail_requests {
            return Err(StorageError);
        }
        let n = self.tokens.len();
        let mut i: usize = 0;
        while i < n
            invariant
                self.wf(),
                n == self.tokens@.len(),
                i <= n,
                forall|j: int| 0 <= j < i ==> (#[trigger] self.tokens_seq()[j]).1 != token@,
            decreases n - i,
        {
            if str_eq(self.tokens[i].1.as_str(), token) {
                proof {
                    lemma_assoc_index(self.tokens_seq(), i as int);
                    let k = self.tokens_seq()[i as int].0;
                    assert(self.tokens().dom().contains(k) && self.tokens()[k] == token@);
                }
                return Ok(true);
            }
            i += 1;
        }
        proof {
            if exists|k: (Seq<char>, Seq<char>)|
                #[trigger] self.tokens().dom().contains(k) && self.tokens()[k] == token@ {
                let k = choose|k: (Seq<char>, Seq<char>)|
                    #[trigger] self.tokens().dom().contains(k) && self.tokens()[k] == token@;
                assert(exists|j: int|
                    0 <= j < self.tokens_seq().len() && (#[trigger] self.tokens_seq()[j]).0
                        == k) by {
                    if forall|j: int|
                        0 <= j < self.tokens_seq().len() ==> (#[trigger] self.tokens_seq()[j]).0
                            != k {
                        lemma_assoc_absent(self.tokens_seq(), k);
                    }
                }
                let j = choose|j: int|
                    0 <= j < self.tokens_seq().len() && (#[trigger] self.tokens_seq()[j]).0 == k;
                lemma_assoc_index(self.tokens_seq(), j);
            }
        }
        Ok(false)
    }
}

} // verus!
