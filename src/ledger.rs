//! The ledger: accounts with their native balance, storage and tokens.
use vstd::prelude::*;

use crate::text::{lemma_text_less_total, lemma_text_less_transitive, text_less, text_lt};

verus! {

/// Whether two byte strings are equal.
pub fn bytes_eq(a: &[u8], b: &[u8]) -> (r: bool)
    ensures
        r == (a@ == b@),
{
    if a.len() != b.len() {
        return false;
    }
    let mut i: usize = 0;
    while i < a.len()
        invariant
            a@.len() == b@.len(),
            i <= a@.len(),
            forall|k: int| 0 <= k < i ==> a@[k] == b@[k],
        decreases a.len() - i,
    {
        if a[i] != b[i] {
            return false;
        }
        i = i + 1;
    }
    assert(a@ =~= b@);
    true
}

/// What the ledger holds of one token unit besides its balance.
#[derive(Clone, Debug)]
pub struct EsdtInstanceMetadata {
    pub name: Vec<u8>,
    pub creator: Option<Vec<u8>>,
    pub royalties: u64,
    pub hash: Option<Vec<u8>>,
    pub uri: Option<Vec<u8>>,
    pub attributes: Vec<u8>,
}

/// The quantity held at one nonce of a token; nonce zero is the fungible slot.
#[derive(Clone, Debug)]
pub struct EsdtInstance {
    pub nonce: u64,
    pub balance: u128,
    pub metadata: EsdtInstanceMetadata,
}

/// Why a ledger operation was refused; nothing has changed when it is.
#[derive(Clone, Debug, PartialEq, Eq)]
pub enum LedgerError {
    UnknownAccount,
    InsufficientFunds,
    BalanceOverflow,
    NonceOverflow,
    UnknownTokenNonce,
}

/// One account's holdings of one token.
#[derive(Clone, Debug)]
pub struct EsdtData {
    pub token_identifier: Vec<u8>,
    pub last_nonce: u64,
    pub roles: Vec<String>,
    pub instances: Vec<EsdtInstance>,
}

pub struct EsdtModel {
    pub token_identifier: Seq<u8>,
    pub last_nonce: u64,
    pub roles: Seq<Seq<char>>,
    pub instances: Seq<EsdtInstance>,
}

impl View for EsdtData {
    type V = EsdtModel;

    open spec fn view(&self) -> EsdtModel {
        EsdtModel {
            token_identifier: self.token_identifier@,
            last_nonce: self.last_nonce,
            roles: self.roles@.map_values(|s: String| s@),
            instances: self.instances@,
        }
    }
}

/// Instances in increasing order of nonce, none above the last issued nonce,
/// and roles in strictly increasing order, so without repeats.
pub open spec fn esdt_wf(e: EsdtModel) -> bool {
    &&& forall|i: int, j: int|
        0 <= i < j < e.instances.len() ==> (#[trigger] e.instances[i]).nonce
            < (#[trigger] e.instances[j]).nonce
    &&& forall|i: int| 0 <= i < e.instances.len() ==> #[trigger] e.instances[i].nonce <= e.last_nonce
    &&& forall|i: int, j: int|
        0 <= i < j < e.roles.len() ==> text_less(#[trigger] e.roles[i], #[trigger] e.roles[j])
}

/// The token entry after a new unit is minted with `balance` and `metadata`.
pub open spec fn after_create(
    e: EsdtModel,
    item: (u128, EsdtInstanceMetadata),
) -> EsdtModel {
    EsdtModel {
        last_nonce: (e.last_nonce + 1) as u64,
        instances: e.instances.push(
            EsdtInstance { nonce: (e.last_nonce + 1) as u64, balance: item.0, metadata: item.1 },
        ),
        ..e
    }
}

/// The token entry after the units of `items` are minted in order.
pub open spec fn after_create_all(
    e: EsdtModel,
    items: Seq<(u128, EsdtInstanceMetadata)>,
) -> EsdtModel
    decreases items.len(),
{
    if items.len() == 0 {
        e
    } else {
        after_create(after_create_all(e, items.drop_last()), items.last())
    }
}

/// Minting a list of units in one step leaves the token entry as minting
/// them in two steps, the first part and then the rest, does.
pub proof fn lemma_create_in_steps(
    e: EsdtModel,
    first: Seq<(u128, EsdtInstanceMetadata)>,
    rest: Seq<(u128, EsdtInstanceMetadata)>,
)
    ensures
        after_create_all(e, first + rest) == after_create_all(after_create_all(e, first), rest),
    decreases rest.len(),
{
    if rest.len() == 0 {
        assert(first + rest =~= first);
    } else {
        lemma_create_in_steps(e, first, rest.drop_last());
        assert((first + rest).drop_last() =~= first + rest.drop_last());
        assert((first + rest).last() == rest.last());
    }
}

/// Minting `items` from last nonce `e.last_nonce` gives the units the nonces
/// that follow it, one by one, in the order of `items`.
pub proof fn lemma_create_all_nonces(e: EsdtModel, items: Seq<(u128, EsdtInstanceMetadata)>)
    requires
        e.last_nonce + items.len() <= u64::MAX,
    ensures
        after_create_all(e, items).last_nonce == e.last_nonce + items.len(),
        after_create_all(e, items).instances.len() == e.instances.len() + items.len(),
        after_create_all(e, items).instances.subrange(0, e.instances.len() as int) == e.instances,
        forall|k: int|
            0 <= k < items.len() ==> (#[trigger] after_create_all(e, items).instances[e.instances.len()
                + k]) == (EsdtInstance {
                nonce: (e.last_nonce + k + 1) as u64,
                balance: items[k].0,
                metadata: items[k].1,
            }),
    decreases items.len(),
{
    if items.len() > 0 {
        let front = items.drop_last();
        lemma_create_all_nonces(e, front);
        let a = after_create_all(e, front);
        let b = after_create_all(e, items);
        assert(b == after_create(a, items.last()));
        assert(b.instances.subrange(0, e.instances.len() as int) =~= a.instances.subrange(
            0,
            e.instances.len() as int,
        ));
        assert forall|k: int| 0 <= k < items.len() implies (#[trigger] b.instances[e.instances.len()
            + k]) == (EsdtInstance {
            nonce: (e.last_nonce + k + 1) as u64,
            balance: items[k].0,
            metadata: items[k].1,
        }) by {
            if k < front.len() {
                assert(b.instances[e.instances.len() + k] == a.instances[e.instances.len() + k]);
                assert(front[k] == items[k]);
            }
        }
    } else {
        assert(e.instances.subrange(0, e.instances.len() as int) =~= e.instances);
    }
}

impl EsdtData {
    /// A token entry with nothing minted and no roles.
    pub fn new(token_identifier: Vec<u8>) -> (r: EsdtData)
        ensures
            r@.token_identifier == token_identifier@,
            r.last_nonce == 0,
            r@.roles.len() == 0,
            r@.instances.len() == 0,
            esdt_wf(r@),
    {
        EsdtData { token_identifier, last_nonce: 0, roles: Vec::new(), instances: Vec::new() }
    }

    /// The granted roles, each once.
    pub fn get_roles(&self) -> (r: Vec<String>)
        ensures
            r@.map_values(|s: String| s@) == self@.roles,
    {
        let mut r: Vec<String> = Vec::new();
        let mut i: usize = 0;
        while i < self.roles.len()
            invariant
                i <= self.roles.len(),
                r@.len() == i,
                forall|k: int| 0 <= k < i ==> (#[trigger] r@[k])@ == self.roles@[k]@,
            decreases self.roles.len() - i,
        {
            r.push(self.roles[i].clone());
            i = i + 1;
        }
        assert(r@.map_values(|s: String| s@) =~= self@.roles);
        r
    }

    /// Whether `role` is granted.
    pub fn has_role(&self, role: &String) -> (r: bool)
        ensures
            r == self@.roles.contains(role@),
    {
        let mut i: usize = 0;
        while i < self.roles.len()
            invariant
                i <= self.roles.len(),
                forall|k: int| 0 <= k < i ==> self@.roles[k] != role@,
            decreases self.roles.len() - i,
        {
            if self.roles[i] == *role {
                assert(self@.roles[i as int] == role@);
                return true;
            }
            i = i + 1;
        }
        false
    }

    /// Grants `role`, keeping the roles in order; a role granted already is
    /// not repeated.
    pub fn add_role(&mut self, role: String)
        requires
            esdt_wf(old(self)@),
        ensures
            esdt_wf(final(self)@),
            final(self)@.roles.to_set() == old(self)@.roles.to_set().insert(role@),
            old(self)@.roles.contains(role@) ==> final(self)@.roles == old(self)@.roles,
            !old(self)@.roles.contains(role@) ==> final(self)@.roles.len() == old(self)@.roles.len()
                + 1,
            final(self)@.instances == old(self)@.instances,
            final(self)@.last_nonce == old(self)@.last_nonce,
            final(self)@.token_identifier == old(self)@.token_identifier,
    {
        let ghost x = role@;
        let ghost o = self@.roles;
        let mut p: usize = 0;
        while p < self.roles.len() && text_lt(&self.roles[p], &role)
            invariant
                self@ == old(self)@,
                o == old(self)@.roles,
                x == role@,
                p <= self.roles.len(),
                forall|k: int| 0 <= k < p ==> text_less(#[trigger] o[k], x),
            decreases self.roles.len() - p,
        {
            p = p + 1;
        }
        if p < self.roles.len() && self.roles[p] == role {
            proof {
                assert(o[p as int] == x);
                assert(o.to_set().insert(x) =~= o.to_set());
            }
            return;
        }
        proof {
            if p < o.len() {
                lemma_text_less_total(o[p as int], x);
            }
            assert forall|k: int| 0 <= k < o.len() implies o[k] != x by {
                if k < p {
                    crate::text::lemma_text_less_irreflexive(x);
                } else if k > p {
                    lemma_text_less_transitive(x, o[p as int], o[k]);
                    crate::text::lemma_text_less_irreflexive(x);
                }
            }
        }
        self.roles.insert(p, role);
        proof {
            let t = self@.roles;
            assert(t =~= o.insert(p as int, x));
            assert forall|i: int, j: int| 0 <= i < j < t.len() implies text_less(
                #[trigger] t[i],
                #[trigger] t[j],
            ) by {
                if j < p {
                } else if j == p {
                } else if i < p {
                    assert(t[j] == o[j - 1] && t[i] == o[i]);
                } else if i == p {
                    assert(t[j] == o[j - 1]);
                    if j - 1 > p {
                        lemma_text_less_transitive(x, o[p as int], o[j - 1]);
                    }
                } else {
                    assert(t[i] == o[i - 1] && t[j] == o[j - 1]);
                }
            }
            assert forall|y: Seq<char>| t.to_set().contains(y) == o.to_set().insert(x).contains(y) by {
                if o.contains(y) {
                    let k = choose|k: int| 0 <= k < o.len() && o[k] == y;
                    if k < p {
                        assert(t[k] == y);
                    } else {
                        assert(t[k + 1] == y);
                    }
                }
                if t.contains(y) {
                    let k = choose|k: int| 0 <= k < t.len() && t[k] == y;
                    if k < p {
                        assert(o[k] == y);
                    } else if k > p {
                        assert(o[k - 1] == y);
                    }
                }
                assert(t[p as int] == x);
            }
            assert(t.to_set() =~= o.to_set().insert(x));
        }
    }

    /// Mints a unit at the nonce after the last one issued, and returns that nonce.
    pub fn nft_create(&mut self, balance: u128, metadata: EsdtInstanceMetadata) -> (r: Result<
        u64,
        LedgerError,
    >)
        requires
            esdt_wf(old(self)@),
        ensures
            r is Err <==> old(self).last_nonce == u64::MAX,
            r is Err ==> r == Err::<u64, LedgerError>(LedgerError::NonceOverflow) && final(self)@
                == old(self)@,
            r is Ok ==> r->Ok_0 == old(self).last_nonce + 1 && final(self)@ == after_create(
                old(self)@,
                (balance, metadata),
            ),
            esdt_wf(final(self)@),
    {
        if self.last_nonce == u64::MAX {
            return Err(LedgerError::NonceOverflow);
        }
        let nonce = self.last_nonce + 1;
        self.last_nonce = nonce;
        self.instances.push(EsdtInstance { nonce, balance, metadata });
        assert(self@.roles == old(self)@.roles);
        Ok(nonce)
    }

    /// Mints the units of `items` in order, as many calls of
    /// [`EsdtData::nft_create`] would; refused whole where the nonces would run out.
    pub fn nft_create_many(&mut self, items: Vec<(u128, EsdtInstanceMetadata)>) -> (r: Result<
        Vec<u64>,
        LedgerError,
    >)
        requires
            esdt_wf(old(self)@),
        ensures
            r is Err <==> old(self).last_nonce + items@.len() > u64::MAX,
            r is Err ==> final(self)@ == old(self)@,
            r is Ok ==> final(self)@ == after_create_all(old(self)@, items@),
            r is Ok ==> r->Ok_0@.len() == items@.len() && forall|k: int|
                0 <= k < items@.len() ==> #[trigger] r->Ok_0@[k] == old(self).last_nonce + k + 1,
            esdt_wf(final(self)@),
    {
        if items.len() as u64 > u64::MAX - self.last_nonce {
            return Err(LedgerError::NonceOverflow);
        }
        let ghost start = self@;
        let mut nonces: Vec<u64> = Vec::new();
        let mut rest = items;
        let ghost all = rest@;
        let ghost n = all.len();
        while rest.len() > 0
            invariant
                esdt_wf(self@),
                rest@.len() + nonces@.len() == n,
                n == all.len(),
                start.last_nonce + n <= u64::MAX,
                self@ == after_create_all(start, all.subrange(0, nonces@.len() as int)),
                self.last_nonce == start.last_nonce + nonces@.len(),
                rest@ == all.subrange(nonces@.len() as int, n as int),
                forall|k: int|
                    0 <= k < nonces@.len() ==> #[trigger] nonces@[k] == start.last_nonce + k + 1,
            decreases rest@.len(),
        {
            let ghost done = nonces@.len() as int;
            let item = rest.remove(0);
            assert(item == all[done]);
            let (balance, metadata) = item;
            match self.nft_create(balance, metadata) {
                Ok(nonce) => nonces.push(nonce),
                Err(e) => return Err(e),
            }
            proof {
                let s = all.subrange(0, done + 1);
                assert(s.drop_last() =~= all.subrange(0, done));
                assert(s.last() == item);
            }
        }
        proof {
            assert(all.subrange(0, n as int) =~= all);
        }
        Ok(nonces)
    }

    /// The position of the unit at `nonce`, if there is one.
    pub fn instance_index(&self, nonce: u64) -> (r: Option<usize>)
        ensures
            r is Some ==> r->Some_0 < self@.instances.len() && self@.instances[r->Some_0 as int].nonce
                == nonce,
            r is None ==> forall|i: int|
                0 <= i < self@.instances.len() ==> #[trigger] self@.instances[i].nonce != nonce,
    {
        let mut i: usize = 0;
        while i < self.instances.len()
            invariant
                i <= self.instances.len(),
                forall|k: int| 0 <= k < i ==> #[trigger] self@.instances[k].nonce != nonce,
            decreases self.instances.len() - i,
        {
            if self.instances[i].nonce == nonce {
                return Some(i);
            }
            i = i + 1;
        }
        None
    }

    /// Adds `amount` to the unit at `nonce`. Refused, with nothing changed,
    /// where there is no such unit or its balance would pass `u128::MAX`.
    pub fn add_quantity(&mut self, nonce: u64, amount: u128) -> (r: Result<(), LedgerError>)
        requires
            esdt_wf(old(self)@),
        ensures
            esdt_wf(final(self)@),
            r == Err::<(), LedgerError>(LedgerError::UnknownTokenNonce) <==> forall|i: int|
                0 <= i < old(self)@.instances.len() ==> #[trigger] old(self)@.instances[i].nonce != nonce,
            r is Err ==> final(self)@ == old(self)@,
            r is Err ==> r == Err::<(), LedgerError>(LedgerError::UnknownTokenNonce) || r == Err::<
                (),
                LedgerError,
            >(LedgerError::BalanceOverflow),
            forall|i: int|
                0 <= i < old(self)@.instances.len() && #[trigger] old(self)@.instances[i].nonce
                    == nonce ==> {
                    &&& (r == Err::<(), LedgerError>(LedgerError::BalanceOverflow) <==> old(
                        self,
                    )@.instances[i].balance + amount > u128::MAX)
                    &&& r is Ok ==> final(self)@ == EsdtModel {
                        instances: old(self)@.instances.update(
                            i,
                            EsdtInstance {
                                balance: (old(self)@.instances[i].balance + amount) as u128,
                                ..old(self)@.instances[i]
                            },
                        ),
                        ..old(self)@
                    }
                },
    {
        let i = match self.instance_index(nonce) {
            Some(i) => i,
            None => return Err(LedgerError::UnknownTokenNonce),
        };
        if self.instances[i].balance > u128::MAX - amount {
            return Err(LedgerError::BalanceOverflow);
        }
        let b = self.instances[i].balance + amount;
        self.instances[i].balance = b;
        Ok(())
    }

    /// Takes `amount` from the unit at `nonce`; a unit left with nothing is
    /// removed. Refused, with nothing changed, where there is no such unit or
    /// it holds less than `amount`.
    pub fn burn(&mut self, nonce: u64, amount: u128) -> (r: Result<(), LedgerError>)
        requires
            esdt_wf(old(self)@),
        ensures
            esdt_wf(final(self)@),
            r == Err::<(), LedgerError>(LedgerError::UnknownTokenNonce) <==> forall|i: int|
                0 <= i < old(self)@.instances.len() ==> #[trigger] old(self)@.instances[i].nonce != nonce,
            r is Err ==> final(self)@ == old(self)@,
            r is Err ==> r == Err::<(), LedgerError>(LedgerError::UnknownTokenNonce) || r == Err::<
                (),
                LedgerError,
            >(LedgerError::InsufficientFunds),
            forall|i: int|
                0 <= i < old(self)@.instances.len() && #[trigger] old(self)@.instances[i].nonce
                    == nonce ==> {
                    &&& (r == Err::<(), LedgerError>(LedgerError::InsufficientFunds) <==> old(
                        self,
                    )@.instances[i].balance < amount)
                    &&& r is Ok ==> final(self)@ == EsdtModel {
                        instances: if old(self)@.instances[i].balance == amount {
                            old(self)@.instances.remove(i)
                        } else {
                            old(self)@.instances.update(
                                i,
                                EsdtInstance {
                                    balance: (old(self)@.instances[i].balance - amount) as u128,
                                    ..old(self)@.instances[i]
                                },
                            )
                        },
                        ..old(self)@
                    }
                },
    {
        let i = match self.instance_index(nonce) {
            Some(i) => i,
            None => return Err(LedgerError::UnknownTokenNonce),
        };
        if self.instances[i].balance < amount {
            return Err(LedgerError::InsufficientFunds);
        }
        if self.instances[i].balance == amount {
            let _ = self.instances.remove(i);
            proof {
                let o = old(self)@.instances;
                let s = self@.instances;
                assert forall|a: int, b: int| 0 <= a < b < s.len() implies (#[trigger] s[a]).nonce
                    < (#[trigger] s[b]).nonce by {
                    if a < i {
                        if b < i {
                            assert(o[a].nonce < o[b].nonce);
                        } else {
                            assert(s[b] == o[b + 1]);
                            assert(o[a].nonce < o[b + 1].nonce);
                        }
                    } else {
                        assert(s[a] == o[a + 1] && s[b] == o[b + 1]);
                        assert(o[a + 1].nonce < o[b + 1].nonce);
                    }
                }
                assert forall|a: int| 0 <= a < s.len() implies #[trigger] s[a].nonce <= self@.last_nonce by {
                    if a < i {
                        assert(s[a] == o[a]);
                    } else {
                        assert(s[a] == o[a + 1]);
                    }
                }
            }
        } else {
            let b = self.instances[i].balance - amount;
            self.instances[i].balance = b;
        }
        proof {
            assert forall|j: int|
                0 <= j < old(self)@.instances.len() && #[trigger] old(self)@.instances[j].nonce
                    == nonce implies j == i by {
                if j < i {
                    assert(old(self)@.instances[j].nonce < old(self)@.instances[i as int].nonce);
                } else if j > i {
                    assert(old(self)@.instances[i as int].nonce < old(self)@.instances[j].nonce);
                }
            }
        }
        Ok(())
    }

    /// The unit held at `nonce`, if any.
    pub fn get_instance(&self, nonce: u64) -> (r: Option<&EsdtInstance>)
        ensures
            r is Some ==> self@.instances.contains(*r->Some_0) && r->Some_0.nonce == nonce,
            r is None ==> forall|i: int|
                0 <= i < self@.instances.len() ==> #[trigger] self@.instances[i].nonce != nonce,
    {
        let mut i: usize = 0;
        while i < self.instances.len()
            invariant
                i <= self.instances.len(),
                forall|k: int| 0 <= k < i ==> #[trigger] self@.instances[k].nonce != nonce,
            decreases self.instances.len() - i,
        {
            if self.instances[i].nonce == nonce {
                return Some(&self.instances[i]);
            }
            i = i + 1;
        }
        None
    }

    /// The quantity held at `nonce`; zero where nothing is.
    pub fn balance_of(&self, nonce: u64) -> (r: u128)
        ensures
            r == esdt_balance(self@, nonce),
    {
        let mut i: usize = 0;
        while i < self.instances.len()
            invariant
                i <= self.instances.len(),
                forall|k: int| 0 <= k < i ==> #[trigger] self@.instances[k].nonce != nonce,
            decreases self.instances.len() - i,
        {
            if self.instances[i].nonce == nonce {
                return self.instances[i].balance;
            }
            i = i + 1;
        }
        0
    }
}

/// The quantity that `e` holds at `nonce`: that of the first unit with that
/// nonce, or zero.
pub open spec fn esdt_balance(e: EsdtModel, nonce: u64) -> u128 {
    if exists|i: int| 0 <= i < e.instances.len() && e.instances[i].nonce == nonce {
        e.instances[first_with_nonce(e.instances, nonce)].balance
    } else {
        0
    }
}

pub open spec fn first_with_nonce(s: Seq<EsdtInstance>, nonce: u64) -> int {
    choose|i: int|
        0 <= i < s.len() && s[i].nonce == nonce && forall|k: int|
            0 <= k < i ==> #[trigger] s[k].nonce != nonce
}

/// Fields of the current block, handed to each transaction.
#[derive(Clone, Debug)]
pub struct BlockInfo {
    pub block_timestamp: u64,
    pub block_nonce: u64,
    pub block_round: u64,
    pub block_epoch: u64,
    pub block_random_seed: Vec<u8>,
}

/// One account of the ledger.
#[derive(Clone, Debug)]
pub struct AccountData {
    pub address: Vec<u8>,
    pub nonce: u64,
    pub egld_balance: u128,
    /// Key and value pairs, each key once.
    pub storage: Vec<(Vec<u8>, Vec<u8>)>,
    /// Token entries, each token identifier once.
    pub esdt: Vec<EsdtData>,
    pub username: Vec<u8>,
    pub contract_path: Option<String>,
    pub contract_owner: Option<Vec<u8>>,
}

/// The storage as a map from key to value.
pub open spec fn storage_map(s: Seq<(Vec<u8>, Vec<u8>)>) -> Map<Seq<u8>, Seq<u8>> {
    Map::new(
        |k: Seq<u8>| exists|i: int| 0 <= i < s.len() && (#[trigger] s[i]).0@ == k,
        |k: Seq<u8>| s[choose|i: int| 0 <= i < s.len() && (#[trigger] s[i]).0@ == k].1@,
    )
}

pub open spec fn storage_keys_unique(s: Seq<(Vec<u8>, Vec<u8>)>) -> bool {
    forall|i: int, j: int| 0 <= i < j < s.len() ==> (#[trigger] s[i]).0@ != (#[trigger] s[j]).0@
}

pub open spec fn token_ids_unique(s: Seq<EsdtData>) -> bool {
    forall|i: int, j: int|
        0 <= i < j < s.len() ==> (#[trigger] s[i]).token_identifier@
            != (#[trigger] s[j]).token_identifier@
}

pub open spec fn account_wf(a: AccountData) -> bool {
    &&& storage_keys_unique(a.storage@)
    &&& token_ids_unique(a.esdt@)
    &&& forall|i: int| 0 <= i < a.esdt@.len() ==> esdt_wf((#[trigger] a.esdt@[i])@)
}

proof fn lemma_storage_at(s: Seq<(Vec<u8>, Vec<u8>)>, i: int)
    requires
        storage_keys_unique(s),
        0 <= i < s.len(),
    ensures
        storage_map(s).contains_key(s[i].0@),
        storage_map(s)[s[i].0@] == s[i].1@,
{
    let k = s[i].0@;
    assert(exists|j: int| 0 <= j < s.len() && (#[trigger] s[j]).0@ == k);
    let j = choose|j: int| 0 <= j < s.len() && (#[trigger] s[j]).0@ == k;
    if j < i {
        assert(s[j].0@ != s[i].0@);
    } else if i < j {
        assert(s[i].0@ != s[j].0@);
    }
}

impl AccountData {
    /// An account with nothing in it.
    pub fn new(address: Vec<u8>) -> (r: AccountData)
        ensures
            r.address@ == address@,
            r.nonce == 0,
            r.egld_balance == 0,
            storage_map(r.storage@) == Map::<Seq<u8>, Seq<u8>>::empty(),
            r.esdt@.len() == 0,
            r.username@.len() == 0,
            r.contract_path is None,
            r.contract_owner is None,
            account_wf(r),
    {
        let r = AccountData {
            address,
            nonce: 0,
            egld_balance: 0,
            storage: Vec::new(),
            esdt: Vec::new(),
            username: Vec::new(),
            contract_path: None,
            contract_owner: None,
        };
        assert(storage_map(r.storage@) =~= Map::<Seq<u8>, Seq<u8>>::empty());
        r
    }

    /// The value stored under `key`; empty where nothing is.
    pub fn get_storage(&self, key: &[u8]) -> (r: Vec<u8>)
        requires
            account_wf(*self),
        ensures
            r@ == if storage_map(self.storage@).contains_key(key@) {
                storage_map(self.storage@)[key@]
            } else {
                Seq::empty()
            },
    {
        let mut i: usize = 0;
        while i < self.storage.len()
            invariant
                account_wf(*self),
                i <= self.storage.len(),
                forall|k: int| 0 <= k < i ==> (#[trigger] self.storage@[k]).0@ != key@,
            decreases self.storage.len() - i,
        {
            if bytes_eq(self.storage[i].0.as_slice(), key) {
                proof {
                    lemma_storage_at(self.storage@, i as int);
                }
                return self.storage[i].1.clone();
            }
            i = i + 1;
        }
        Vec::new()
    }

    /// Stores `value` under `key`, in place of what was there.
    pub fn set_storage(&mut self, key: Vec<u8>, value: Vec<u8>)
        requires
            account_wf(*old(self)),
        ensures
            account_wf(*final(self)),
            storage_map(final(self).storage@) == storage_map(old(self).storage@).insert(
                key@,
                value@,
            ),
            final(self).address == old(self).address,
            final(self).nonce == old(self).nonce,
            final(self).egld_balance == old(self).egld_balance,
            final(self).esdt == old(self).esdt,
            final(self).contract_path == old(self).contract_path,
            final(self).contract_owner == old(self).contract_owner,
    {
        let ghost old_s = self.storage@;
        let ghost k = key@;
        let ghost v = value@;
        let mut i: usize = 0;
        while i < self.storage.len()
            invariant
                i <= self.storage.len(),
                self.storage@ == old_s,
                *self == *old(self),
                account_wf(*old(self)),
                old_s == old(self).storage@,
                k == key@,
                v == value@,
                forall|j: int| 0 <= j < i ==> (#[trigger] old_s[j]).0@ != k,
            decreases self.storage.len() - i,
        {
            if bytes_eq(self.storage[i].0.as_slice(), key.as_slice()) {
                self.storage.set(i, (key, value));
                proof {
                    let s = self.storage@;
                    assert forall|a: int, b: int| 0 <= a < b < s.len() implies (#[trigger] s[a]).0@
                        != (#[trigger] s[b]).0@ by {
                        assert(old_s[a].0@ != old_s[b].0@);
                    }
                    assert forall|q: Seq<u8>| #[trigger] storage_map(s).contains_key(q)
                        == storage_map(old_s).insert(k, v).contains_key(q) by {
                        if storage_map(old_s).contains_key(q) && q != k {
                            let j = choose|j: int| 0 <= j < old_s.len() && (#[trigger] old_s[j]).0@ == q;
                            assert(s[j].0@ == q);
                        }
                        if storage_map(s).contains_key(q) && q != k {
                            let j = choose|j: int| 0 <= j < s.len() && (#[trigger] s[j]).0@ == q;
                            assert(old_s[j].0@ == q);
                        }
                        assert(s[i as int].0@ == k);
                    }
                    assert forall|q: Seq<u8>| #[trigger] storage_map(s).contains_key(q) implies storage_map(s)[q]
                        == storage_map(old_s).insert(k, v)[q] by {
                        let j = choose|j: int| 0 <= j < s.len() && (#[trigger] s[j]).0@ == q;
                        lemma_storage_at(s, j);
                        if q != k {
                            lemma_storage_at(old_s, j);
                        }
                    }
                    assert(storage_map(s) =~= storage_map(old_s).insert(k, v));
                }
                return;
            }
            i = i + 1;
        }
        self.storage.push((key, value));
        proof {
            let s = self.storage@;
            let n = old_s.len() as int;
            assert forall|a: int, b: int| 0 <= a < b < s.len() implies (#[trigger] s[a]).0@
                != (#[trigger] s[b]).0@ by {
                if b < n {
                    assert(old_s[a].0@ != old_s[b].0@);
                }
            }
            assert forall|q: Seq<u8>| #[trigger] storage_map(s).contains_key(q)
                == storage_map(old_s).insert(k, v).contains_key(q) by {
                if storage_map(old_s).contains_key(q) {
                    let j = choose|j: int| 0 <= j < old_s.len() && (#[trigger] old_s[j]).0@ == q;
                    assert(s[j].0@ == q);
                }
                if storage_map(s).contains_key(q) && q != k {
                    let j = choose|j: int| 0 <= j < s.len() && (#[trigger] s[j]).0@ == q;
                    assert(old_s[j].0@ == q);
                }
                assert(s[n].0@ == k);
            }
            assert forall|q: Seq<u8>| #[trigger] storage_map(s).contains_key(q) implies storage_map(s)[q]
                == storage_map(old_s).insert(k, v)[q] by {
                let j = choose|j: int| 0 <= j < s.len() && (#[trigger] s[j]).0@ == q;
                lemma_storage_at(s, j);
                if q != k {
                    lemma_storage_at(old_s, j);
                }
            }
            assert(storage_map(s) =~= storage_map(old_s).insert(k, v));
        }
    }

    /// The position of the entry of `token_identifier`, if the account has one.
    pub fn esdt_index(&self, token_identifier: &[u8]) -> (r: Option<usize>)
        ensures
            r is Some ==> r->Some_0 < self.esdt@.len() && self.esdt@[r->Some_0 as int].token_identifier@
                == token_identifier@,
            r is None ==> forall|i: int|
                0 <= i < self.esdt@.len() ==> (#[trigger] self.esdt@[i]).token_identifier@
                    != token_identifier@,
    {
        let mut i: usize = 0;
        while i < self.esdt.len()
            invariant
                i <= self.esdt.len(),
                forall|k: int| 0 <= k < i ==> (#[trigger] self.esdt@[k]).token_identifier@
                    != token_identifier@,
            decreases self.esdt.len() - i,
        {
            if bytes_eq(self.esdt[i].token_identifier.as_slice(), token_identifier) {
                return Some(i);
            }
            i = i + 1;
        }
        None
    }
}

/// All accounts, each address once, and the current block.
#[derive(Clone, Debug)]
pub struct BlockchainMock {
    pub accounts: Vec<AccountData>,
    pub current_block_info: BlockInfo,
}

/// The accounts as a map from address to account.
pub open spec fn accounts_map(s: Seq<AccountData>) -> Map<Seq<u8>, AccountData> {
    Map::new(
        |a: Seq<u8>| exists|i: int| 0 <= i < s.len() && (#[trigger] s[i]).address@ == a,
        |a: Seq<u8>| s[choose|i: int| 0 <= i < s.len() && (#[trigger] s[i]).address@ == a],
    )
}

pub open spec fn addresses_unique(s: Seq<AccountData>) -> bool {
    forall|i: int, j: int|
        0 <= i < j < s.len() ==> (#[trigger] s[i]).address@ != (#[trigger] s[j]).address@
}

/// The accounts after `amount` moves from `from` to `to`.
pub open spec fn transferred(
    m: Map<Seq<u8>, AccountData>,
    from: Seq<u8>,
    to: Seq<u8>,
    amount: u128,
) -> Map<Seq<u8>, AccountData> {
    if from == to {
        m
    } else {
        m.insert(from, AccountData { egld_balance: (m[from].egld_balance - amount) as u128, ..m[from] }).insert(
            to,
            AccountData { egld_balance: (m[to].egld_balance + amount) as u128, ..m[to] },
        )
    }
}

proof fn lemma_account_at(s: Seq<AccountData>, i: int)
    requires
        addresses_unique(s),
        0 <= i < s.len(),
    ensures
        accounts_map(s).contains_key(s[i].address@),
        accounts_map(s)[s[i].address@] == s[i],
{
    let k = s[i].address@;
    assert(exists|j: int| 0 <= j < s.len() && (#[trigger] s[j]).address@ == k);
    let j = choose|j: int| 0 <= j < s.len() && (#[trigger] s[j]).address@ == k;
    if j < i {
        assert(s[j].address@ != s[i].address@);
    } else if i < j {
        assert(s[i].address@ != s[j].address@);
    }
}

/// Replacing the account at `i` by one of the same address replaces it in the map.
proof fn lemma_account_update(s: Seq<AccountData>, i: int, x: AccountData)
    requires
        addresses_unique(s),
        0 <= i < s.len(),
        x.address@ == s[i].address@,
    ensures
        addresses_unique(s.update(i, x)),
        accounts_map(s.update(i, x)) == accounts_map(s).insert(x.address@, x),
{
    let t = s.update(i, x);
    assert forall|a: int, b: int| 0 <= a < b < t.len() implies (#[trigger] t[a]).address@
        != (#[trigger] t[b]).address@ by {
        assert(s[a].address@ != s[b].address@);
    }
    lemma_accounts_same_keys(s, t);
    assert forall|q: Seq<u8>| #[trigger] accounts_map(t).contains_key(q) implies accounts_map(t)[q]
        == accounts_map(s).insert(x.address@, x)[q] by {
        let j = choose|j: int| 0 <= j < t.len() && (#[trigger] t[j]).address@ == q;
        lemma_account_at(t, j);
        if j != i {
            lemma_account_at(s, j);
        }
    }
    assert(accounts_map(t) =~= accounts_map(s).insert(x.address@, x));
}

proof fn lemma_accounts_same_keys(s: Seq<AccountData>, t: Seq<AccountData>)
    requires
        s.len() == t.len(),
        forall|i: int| 0 <= i < s.len() ==> (#[trigger] s[i]).address@ == t[i].address@,
    ensures
        forall|q: Seq<u8>| #[trigger] accounts_map(t).contains_key(q) == accounts_map(s).contains_key(q),
{
    assert forall|q: Seq<u8>| #[trigger] accounts_map(t).contains_key(q) == accounts_map(s).contains_key(q) by {
        if accounts_map(s).contains_key(q) {
            let j = choose|j: int| 0 <= j < s.len() && (#[trigger] s[j]).address@ == q;
            assert(t[j].address@ == q);
        }
        if accounts_map(t).contains_key(q) {
            let j = choose|j: int| 0 <= j < t.len() && (#[trigger] t[j]).address@ == q;
            assert(s[j].address@ == q);
        }
    }
}

impl BlockchainMock {
    pub open spec fn wf(&self) -> bool {
        &&& addresses_unique(self.accounts@)
        &&& forall|i: int| 0 <= i < self.accounts@.len() ==> account_wf(#[trigger] self.accounts@[i])
    }

    /// The ledger's accounts, by address.
    pub open spec fn view(&self) -> Map<Seq<u8>, AccountData> {
        accounts_map(self.accounts@)
    }

    /// A ledger with no accounts.
    pub fn new(current_block_info: BlockInfo) -> (r: BlockchainMock)
        ensures
            r.wf(),
            r.view() == Map::<Seq<u8>, AccountData>::empty(),
    {
        let r = BlockchainMock { accounts: Vec::new(), current_block_info };
        assert(r.view() =~= Map::<Seq<u8>, AccountData>::empty());
        r
    }

    /// The position of the account at `address`, if there is one.
    pub fn account_index(&self, address: &[u8]) -> (r: Option<usize>)
        requires
            self.wf(),
        ensures
            r is Some <==> self.view().contains_key(address@),
            r is Some ==> r->Some_0 < self.accounts@.len() && self.accounts@[r->Some_0 as int].address@
                == address@,
    {
        let mut i: usize = 0;
        while i < self.accounts.len()
            invariant
                i <= self.accounts.len(),
                forall|k: int| 0 <= k < i ==> (#[trigger] self.accounts@[k]).address@ != address@,
            decreases self.accounts.len() - i,
        {
            if bytes_eq(self.accounts[i].address.as_slice(), address) {
                return Some(i);
            }
            i = i + 1;
        }
        None
    }

    /// The account at `address`.
    pub fn get_account(&self, address: &[u8]) -> (r: Result<&AccountData, LedgerError>)
        requires
            self.wf(),
        ensures
            r is Err <==> !self.view().contains_key(address@),
            r is Err ==> r->Err_0 == LedgerError::UnknownAccount,
            r is Ok ==> *r->Ok_0 == self.view()[address@],
    {
        match self.account_index(address) {
            Some(i) => {
                proof {
                    lemma_account_at(self.accounts@, i as int);
                }
                Ok(&self.accounts[i])
            },
            None => Err(LedgerError::UnknownAccount),
        }
    }

    /// Puts `account` in the ledger, in place of any account at its address.
    pub fn add_account(&mut self, account: AccountData)
        requires
            old(self).wf(),
            account_wf(account),
        ensures
            final(self).wf(),
            final(self).view() == old(self).view().insert(account.address@, account),
            final(self).current_block_info == old(self).current_block_info,
    {
        let ghost a = account;
        match self.account_index(account.address.as_slice()) {
            Some(i) => {
                self.accounts.set(i, account);
                proof {
                    lemma_account_update(old(self).accounts@, i as int, a);
                }
            },
            None => {
                self.accounts.push(account);
                proof {
                    let s = old(self).accounts@;
                    let t = self.accounts@;
                    let n = s.len() as int;
                    assert forall|x: int, y: int| 0 <= x < y < t.len() implies (#[trigger] t[x]).address@
                        != (#[trigger] t[y]).address@ by {
                        if y < n {
                            assert(s[x].address@ != s[y].address@);
                        } else {
                            assert(!accounts_map(s).contains_key(a.address@));
                            assert(s[x].address@ == t[x].address@);
                        }
                    }
                    assert forall|q: Seq<u8>| #[trigger] accounts_map(t).contains_key(q)
                        == accounts_map(s).insert(a.address@, a).contains_key(q) by {
                        if accounts_map(s).contains_key(q) {
                            let j = choose|j: int| 0 <= j < s.len() && (#[trigger] s[j]).address@ == q;
                            assert(t[j].address@ == q);
                        }
                        if accounts_map(t).contains_key(q) && q != a.address@ {
                            let j = choose|j: int| 0 <= j < t.len() && (#[trigger] t[j]).address@ == q;
                            assert(s[j].address@ == q);
                        }
                        assert(t[n].address@ == a.address@);
                    }
                    assert forall|q: Seq<u8>| #[trigger] accounts_map(t).contains_key(q) implies accounts_map(t)[q]
                        == accounts_map(s).insert(a.address@, a)[q] by {
                        let j = choose|j: int| 0 <= j < t.len() && (#[trigger] t[j]).address@ == q;
                        lemma_account_at(t, j);
                        if j < n {
                            lemma_account_at(s, j);
                        }
                    }
                    assert(accounts_map(t) =~= accounts_map(s).insert(a.address@, a));
                }
            },
        }
    }

    /// Moves `amount` of the native currency from `from` to `to`. Refused,
    /// with nothing changed, where an account is missing, `from` holds less
    /// than `amount`, or `to` would hold more than a `u128` can.
    pub fn transfer_egld(&mut self, from: &[u8], to: &[u8], amount: u128) -> (r: Result<
        (),
        LedgerError,
    >)
        requires
            old(self).wf(),
        ensures
            final(self).wf(),
            r == Err::<(), LedgerError>(LedgerError::UnknownAccount) <==> !old(self).view().contains_key(from@)
                || !old(self).view().contains_key(to@),
            r == Err::<(), LedgerError>(LedgerError::InsufficientFunds) <==> old(self).view().contains_key(from@)
                && old(self).view().contains_key(to@) && old(self).view()[from@].egld_balance < amount,
            r == Err::<(), LedgerError>(LedgerError::BalanceOverflow) <==> old(self).view().contains_key(from@)
                && old(self).view().contains_key(to@) && old(self).view()[from@].egld_balance >= amount
                && from@ != to@ && old(self).view()[to@].egld_balance + amount > u128::MAX,
            r is Err ==> final(self).view() == old(self).view() && (r->Err_0
                == LedgerError::UnknownAccount || r->Err_0 == LedgerError::InsufficientFunds
                || r->Err_0 == LedgerError::BalanceOverflow),
            r is Ok ==> final(self).view() == transferred(old(self).view(), from@, to@, amount),
            final(self).current_block_info == old(self).current_block_info,
    {
        let fi = match self.account_index(from) {
            Some(i) => i,
            None => return Err(LedgerError::UnknownAccount),
        };
        let ti = match self.account_index(to) {
            Some(i) => i,
            None => return Err(LedgerError::UnknownAccount),
        };
        proof {
            lemma_account_at(self.accounts@, fi as int);
            lemma_account_at(self.accounts@, ti as int);
        }
        if self.accounts[fi].egld_balance < amount {
            return Err(LedgerError::InsufficientFunds);
        }
        if fi == ti {
            return Ok(());
        }
        if self.accounts[ti].egld_balance > u128::MAX - amount {
            return Err(LedgerError::BalanceOverflow);
        }
        let ghost s0 = self.accounts@;
        let new_from = self.accounts[fi].egld_balance - amount;
        self.accounts[fi].egld_balance = new_from;
        proof {
            lemma_account_update(s0, fi as int, self.accounts@[fi as int]);
            assert(self.accounts@ == s0.update(fi as int, self.accounts@[fi as int]));
            assert forall|i: int| 0 <= i < self.accounts@.len() implies account_wf(
                #[trigger] self.accounts@[i],
            ) by {
                assert(account_wf(s0[i]));
            }
        }
        let ghost s1 = self.accounts@;
        let new_to = self.accounts[ti].egld_balance + amount;
        self.accounts[ti].egld_balance = new_to;
        proof {
            lemma_account_update(s1, ti as int, self.accounts@[ti as int]);
            assert(self.accounts@ == s1.update(ti as int, self.accounts@[ti as int]));
            assert forall|i: int| 0 <= i < self.accounts@.len() implies account_wf(
                #[trigger] self.accounts@[i],
            ) by {
                assert(account_wf(s1[i]));
            }
            assert(self.view() =~= transferred(old(self).view(), from@, to@, amount));
        }
        Ok(())
    }

    /// Raises the nonce of the account at `address` by one; refused, with
    /// nothing changed, where there is no such account or the nonce is at its
    /// largest.
    pub fn increase_nonce(&mut self, address: &[u8]) -> (r: Result<(), LedgerError>)
        requires
            old(self).wf(),
        ensures
            final(self).wf(),
            r == Err::<(), LedgerError>(LedgerError::UnknownAccount) <==> !old(self).view().contains_key(
                address@,
            ),
            r == Err::<(), LedgerError>(LedgerError::NonceOverflow) <==> old(self).view().contains_key(
                address@,
            ) && old(self).view()[address@].nonce == u64::MAX,
            r is Err ==> final(self).view() == old(self).view(),
            r is Ok ==> final(self).view() == old(self).view().insert(
                address@,
                AccountData {
                    nonce: (old(self).view()[address@].nonce + 1) as u64,
                    ..old(self).view()[address@]
                },
            ),
            final(self).current_block_info == old(self).current_block_info,
    {
        let i = match self.account_index(address) {
            Some(i) => i,
            None => return Err(LedgerError::UnknownAccount),
        };
        proof {
            lemma_account_at(self.accounts@, i as int);
        }
        if self.accounts[i].nonce == u64::MAX {
            return Err(LedgerError::NonceOverflow);
        }
        let ghost s0 = self.accounts@;
        let n = self.accounts[i].nonce + 1;
        self.accounts[i].nonce = n;
        proof {
            lemma_account_update(s0, i as int, self.accounts@[i as int]);
            assert forall|k: int| 0 <= k < self.accounts@.len() implies account_wf(
                #[trigger] self.accounts@[k],
            ) by {
                assert(account_wf(s0[k]));
            }
        }
        Ok(())
    }

    /// Mints a unit of `token_identifier` for the account at `address`, at
    /// the nonce after the last one issued to that account; the token entry is
    /// made where the account has none. Returns the nonce.
    pub fn esdt_nft_create(
        &mut self,
        address: &[u8],
        token_identifier: Vec<u8>,
        balance: u128,
        metadata: EsdtInstanceMetadata,
    ) -> (r: Result<u64, LedgerError>)
        requires
            old(self).wf(),
        ensures
            final(self).wf(),
            r == Err::<u64, LedgerError>(LedgerError::UnknownAccount) <==> !old(self).view().contains_key(
                address@,
            ),
            r == Err::<u64, LedgerError>(LedgerError::NonceOverflow) <==> old(self).view().contains_key(
                address@,
            ) && account_token(old(self).view()[address@], token_identifier@).last_nonce == u64::MAX,
            r is Err ==> final(self).view() == old(self).view(),
            r is Ok ==> {
                let o = old(self).view()[address@];
                let a = final(self).view()[address@];
                &&& r->Ok_0 == account_token(o, token_identifier@).last_nonce + 1
                &&& final(self).view() == old(self).view().insert(address@, a)
                &&& a == AccountData { esdt: a.esdt, ..o }
                &&& has_token(a, token_identifier@)
                &&& account_token(a, token_identifier@) == after_create(
                    account_token(o, token_identifier@),
                    (balance, metadata),
                )
                &&& forall|t: Seq<u8>|
                    t != token_identifier@ ==> has_token(a, t) == has_token(o, t) && account_token(
                        a,
                        t,
                    ) == account_token(o, t)
            },
            final(self).current_block_info == old(self).current_block_info,
    {
        let ghost tok = token_identifier@;
        let i = match self.account_index(address) {
            Some(i) => i,
            None => return Err(LedgerError::UnknownAccount),
        };
        proof {
            lemma_account_at(self.accounts@, i as int);
        }
        let ghost s0 = self.accounts@;
        let ghost o = s0[i as int];
        let j = match self.accounts[i].esdt_index(token_identifier.as_slice()) {
            Some(j) => {
                proof {
                    lemma_token_at(o, j as int);
                }
                j
            },
            None => {
                let entry = EsdtData::new(token_identifier);
                self.accounts[i].esdt.push(entry);
                proof {
                    let e = self.accounts@[i as int].esdt@;
                    let n = o.esdt@.len() as int;
                    assert forall|x: int, y: int| 0 <= x < y < e.len() implies (
                    #[trigger] e[x]).token_identifier@ != (#[trigger] e[y]).token_identifier@ by {
                        if y < n {
                            assert(o.esdt@[x].token_identifier@ != o.esdt@[y].token_identifier@);
                        } else {
                            assert(e[x] == o.esdt@[x]);
                        }
                    }
                    assert forall|x: int| 0 <= x < e.len() implies esdt_wf(#[trigger] e[x]@) by {
                        if x < n {
                            assert(e[x] == o.esdt@[x]);
                        }
                    }
                    assert(!has_token(o, tok));
                    assert(e[n].token_identifier@ == tok);
                    lemma_token_at(self.accounts@[i as int], n);
                    assert(e[n]@.roles =~= Seq::<Seq<char>>::empty());
                    assert(e[n]@.instances =~= Seq::<EsdtInstance>::empty());
                    assert(e[n]@ == empty_token(tok));
                    assert forall|t: Seq<u8>| t != tok implies has_token(self.accounts@[i as int], t)
                        == has_token(o, t) && account_token(self.accounts@[i as int], t)
                        == account_token(o, t) by {
                        lemma_tokens_after_push(o, self.accounts@[i as int], t);
                    }
                }
                self.accounts[i].esdt.len() - 1
            },
        };
        let ghost a1 = self.accounts@[i as int];
        if self.accounts[i].esdt[j].last_nonce == u64::MAX {
            proof {
                lemma_token_at(a1, j as int);
                if !has_token(o, tok) {
                    assert(account_token(o, tok).last_nonce == 0);
                }
            }
            return Err(LedgerError::NonceOverflow);
        }
        let created = self.accounts[i].esdt[j].nft_create(balance, metadata);
        let ghost a2 = self.accounts@[i as int];
        proof {
            lemma_token_at(a1, j as int);
            assert(a2.esdt@ == a1.esdt@.update(j as int, a2.esdt@[j as int]));
            assert forall|x: int, y: int| 0 <= x < y < a2.esdt@.len() implies (
            #[trigger] a2.esdt@[x]).token_identifier@ != (#[trigger] a2.esdt@[y]).token_identifier@ by {
                assert(a1.esdt@[x].token_identifier@ != a1.esdt@[y].token_identifier@);
            }
            assert forall|x: int| 0 <= x < a2.esdt@.len() implies esdt_wf(#[trigger] a2.esdt@[x]@) by {
                assert(esdt_wf(a1.esdt@[x]@));
            }
            lemma_token_at(a2, j as int);
            assert forall|t: Seq<u8>| t != tok implies has_token(a2, t) == has_token(a1, t)
                && account_token(a2, t) == account_token(a1, t) by {
                lemma_tokens_after_update(a1, a2, j as int, t);
            }
            assert(self.accounts@ =~= s0.update(i as int, a2));
            lemma_account_update(s0, i as int, a2);
            assert forall|k: int| 0 <= k < self.accounts@.len() implies account_wf(
                #[trigger] self.accounts@[k],
            ) by {
                assert(account_wf(s0[k]));
            }
            lemma_account_at(self.accounts@, i as int);
            assert(a2.address@ == address@);
            if !has_token(o, tok) {
                assert(account_token(o, tok) == a1.esdt@[j as int]@);
            }
        }
        created
    }
}

/// The account holds an entry for the token `t`.
pub open spec fn has_token(a: AccountData, t: Seq<u8>) -> bool {
    exists|j: int| 0 <= j < a.esdt@.len() && (#[trigger] a.esdt@[j]).token_identifier@ == t
}

/// An entry for `t` with nothing minted and no roles.
pub open spec fn empty_token(t: Seq<u8>) -> EsdtModel {
    EsdtModel { token_identifier: t, last_nonce: 0, roles: Seq::empty(), instances: Seq::empty() }
}

/// The account's entry for the token `t`; an empty one where it has none.
pub open spec fn account_token(a: AccountData, t: Seq<u8>) -> EsdtModel {
    if has_token(a, t) {
        a.esdt@[choose|j: int|
            0 <= j < a.esdt@.len() && (#[trigger] a.esdt@[j]).token_identifier@ == t]@
    } else {
        empty_token(t)
    }
}

proof fn lemma_token_at(a: AccountData, j: int)
    requires
        token_ids_unique(a.esdt@),
        0 <= j < a.esdt@.len(),
    ensures
        has_token(a, a.esdt@[j].token_identifier@),
        account_token(a, a.esdt@[j].token_identifier@) == a.esdt@[j]@,
{
    let t = a.esdt@[j].token_identifier@;
    assert(a.esdt@[j].token_identifier@ == t);
    let k = choose|k: int| 0 <= k < a.esdt@.len() && (#[trigger] a.esdt@[k]).token_identifier@ == t;
    if k < j {
        assert(a.esdt@[k].token_identifier@ != a.esdt@[j].token_identifier@);
    } else if j < k {
        assert(a.esdt@[j].token_identifier@ != a.esdt@[k].token_identifier@);
    }
}

proof fn lemma_tokens_after_push(a: AccountData, b: AccountData, t: Seq<u8>)
    requires
        token_ids_unique(a.esdt@),
        token_ids_unique(b.esdt@),
        b.esdt@.len() == a.esdt@.len() + 1,
        forall|x: int| 0 <= x < a.esdt@.len() ==> b.esdt@[x] == a.esdt@[x],
        b.esdt@[a.esdt@.len() as int].token_identifier@ != t,
    ensures
        has_token(b, t) == has_token(a, t),
        account_token(b, t) == account_token(a, t),
{
    if has_token(a, t) {
        let j = choose|j: int| 0 <= j < a.esdt@.len() && (#[trigger] a.esdt@[j]).token_identifier@ == t;
        assert(b.esdt@[j].token_identifier@ == t);
        lemma_token_at(a, j);
        lemma_token_at(b, j);
    }
    if has_token(b, t) {
        let j = choose|j: int| 0 <= j < b.esdt@.len() && (#[trigger] b.esdt@[j]).token_identifier@ == t;
        assert(a.esdt@[j].token_identifier@ == t);
    }
}

proof fn lemma_tokens_after_update(a: AccountData, b: AccountData, j: int, t: Seq<u8>)
    requires
        token_ids_unique(a.esdt@),
        token_ids_unique(b.esdt@),
        0 <= j < a.esdt@.len(),
        b.esdt@ == a.esdt@.update(j, b.esdt@[j]),
        b.esdt@[j].token_identifier@ == a.esdt@[j].token_identifier@,
        a.esdt@[j].token_identifier@ != t,
    ensures
        has_token(b, t) == has_token(a, t),
        account_token(b, t) == account_token(a, t),
{
    if has_token(a, t) {
        let k = choose|k: int| 0 <= k < a.esdt@.len() && (#[trigger] a.esdt@[k]).token_identifier@ == t;
        assert(b.esdt@[k].token_identifier@ == t);
        lemma_token_at(a, k);
        lemma_token_at(b, k);
    }
    if has_token(b, t) {
        let k = choose|k: int| 0 <= k < b.esdt@.len() && (#[trigger] b.esdt@[k]).token_identifier@ == t;
        assert(a.esdt@[k].token_identifier@ == t);
    }
}

} // verus!
