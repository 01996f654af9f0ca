//! An in-memory snapshot of the ledger: components, key-value stores, vaults and
//! resource definitions, with lookups specified against the record tables.
use vstd::prelude::*;

verus! {

/// The first value stored under `k` in a table of key/value pairs.
pub open spec fn lookup<K, V>(s: Seq<(K, V)>, k: K) -> Option<V>
    decreases s.len(),
{
    if s.len() == 0 {
        None
    } else if s[0].0 == k {
        Some(s[0].1)
    } else {
        lookup(s.subrange(1, s.len() as int), k)
    }
}

proof fn lemma_lookup_step<K, V>(s: Seq<(K, V)>, i: int, k: K)
    requires
        0 <= i < s.len(),
    ensures
        lookup(s.subrange(i, s.len() as int), k) == if s[i].0 == k {
            Some(s[i].1)
        } else {
            lookup(s.subrange(i + 1, s.len() as int), k)
        },
{
    let t = s.subrange(i, s.len() as int);
    assert(t.subrange(1, t.len() as int) =~= s.subrange(i + 1, s.len() as int));
}

proof fn lemma_lookup_whole<K, V>(s: Seq<(K, V)>, k: K)
    ensures
        lookup(s.subrange(0, s.len() as int), k) == lookup(s, k),
        lookup(s.subrange(s.len() as int, s.len() as int), k) is None,
{
    assert(s.subrange(0, s.len() as int) =~= s);
}

/// Why a walk over the ledger stopped: a record that a reference names is
/// missing, an encoded state is malformed, or a non-fungible vault cannot list
/// its items.
#[derive(Debug, Clone, Copy, PartialEq, Eq, Structural)]
pub enum Fault {
    NotFound,
    MalformedState,
    InconsistentVault,
}

/// The byte strings held in a list of byte vectors.
pub open spec fn bytes_view(v: Seq<Vec<u8>>) -> Seq<Seq<u8>> {
    v.map_values(|b: Vec<u8>| b@)
}

/// Byte-wise equality of two byte strings.
pub fn same_bytes(a: &Vec<u8>, b: &Vec<u8>) -> (r: bool)
    ensures
        r == (a@ == b@),
{
    if a.len() != b.len() {
        return false;
    }
    let mut i: usize = 0;
    while i < a.len()
        invariant
            a.len() == b.len(),
            i <= a.len(),
            forall|j: int| 0 <= j < i ==> a@[j] == b@[j],
        decreases a.len() - i,
    {
        if a[i] != b[i] {
            return false;
        }
        i = i + 1;
    }
    assert(a@ =~= b@);
    true
}

/// A copy of a byte string.
pub fn copy_bytes(a: &Vec<u8>) -> (r: Vec<u8>)
    ensures
        r@ == a@,
{
    let mut r: Vec<u8> = Vec::new();
    let mut i: usize = 0;
    while i < a.len()
        invariant
            i <= a.len(),
            r@ == a@.subrange(0, i as int),
        decreases a.len() - i,
    {
        r.push(a[i]);
        i = i + 1;
        assert(r@ =~= a@.subrange(0, i as int));
    }
    assert(a@.subrange(0, a.len() as int) =~= a@);
    r
}

/// The identity of a component, an account or a resource definition: the bytes
/// of its node id. Two addresses are the same exactly when their bytes are.
#[derive(Debug, Clone, PartialEq, Eq, Hash)]
pub struct Address {
    pub bytes: Vec<u8>,
}

impl View for Address {
    type V = Seq<u8>;

    open spec fn view(&self) -> Seq<u8> {
        self.bytes@
    }
}

impl Address {
    pub fn new(bytes: Vec<u8>) -> (r: Address)
        ensures
            r@ == bytes@,
    {
        Address { bytes }
    }

    /// Whether the two addresses name the same thing.
    pub fn same_as(&self, other: &Address) -> (r: bool)
        ensures
            r == (self@ == other@),
    {
        same_bytes(&self.bytes, &other.bytes)
    }

    pub fn duplicate(&self) -> (r: Address)
        ensures
            r@ == self@,
    {
        Address { bytes: copy_bytes(&self.bytes) }
    }
}

/// The identifier of one item of a non-fungible resource.
#[derive(Debug, Clone, PartialEq, Eq, Hash)]
pub struct NonFungibleKey {
    pub bytes: Vec<u8>,
}

impl View for NonFungibleKey {
    type V = Seq<u8>;

    open spec fn view(&self) -> Seq<u8> {
        self.bytes@
    }
}

impl NonFungibleKey {
    pub fn new(bytes: Vec<u8>) -> (r: NonFungibleKey)
        ensures
            r@ == bytes@,
    {
        NonFungibleKey { bytes }
    }

    pub fn duplicate(&self) -> (r: NonFungibleKey)
        ensures
            r@ == self@,
    {
        NonFungibleKey { bytes: copy_bytes(&self.bytes) }
    }
}

/// The item identifiers of a list of keys.
pub open spec fn keys_view(keys: Seq<NonFungibleKey>) -> Seq<Seq<u8>> {
    keys.map_values(|k: NonFungibleKey| k@)
}

/// A copy of a list of item identifiers.
pub fn copy_keys(keys: &Vec<NonFungibleKey>) -> (r: Vec<NonFungibleKey>)
    ensures
        keys_view(r@) == keys_view(keys@),
{
    let mut r: Vec<NonFungibleKey> = Vec::new();
    let mut i: usize = 0;
    while i < keys.len()
        invariant
            i <= keys.len(),
            r@.len() == i,
            forall|j: int| 0 <= j < i ==> r@[j]@ == keys@[j]@,
        decreases keys.len() - i,
    {
        r.push(keys[i].duplicate());
        i = i + 1;
    }
    assert(keys_view(r@) =~= keys_view(keys@));
    r
}

/// A quantity of a fungible resource, in attos (units of 10^-18).
#[derive(Debug, Clone, Copy, PartialEq, Eq, Structural)]
pub struct Decimal {
    pub attos: i128,
}

impl Decimal {
    pub fn zero() -> (r: Decimal)
        ensures
            r.attos == 0,
    {
        Decimal { attos: 0 }
    }
}

/// What a resource definition says of its items: a divisible quantity, or
/// discrete identified items.
#[derive(Debug, Clone, Copy, PartialEq, Eq, Structural)]
pub enum ResourceKind {
    Fungible,
    NonFungible,
}

/// A vault as the ledger stores it. `non_fungible_ids` is `None` where the
/// ledger cannot enumerate the vault's items.
pub struct VaultRecord {
    pub component: Address,
    pub vault_id: Vec<u8>,
    pub resource: Address,
    pub amount: Decimal,
    pub non_fungible_ids: Option<Vec<NonFungibleKey>>,
}

/// The part of a vault that the walk reads.
pub struct VaultModel {
    pub resource: Seq<u8>,
    pub amount: Decimal,
    pub non_fungible_ids: Option<Seq<Seq<u8>>>,
}

impl VaultRecord {
    pub open spec fn key(&self) -> (Seq<u8>, Seq<u8>) {
        (self.component@, self.vault_id@)
    }

    pub open spec fn model(&self) -> VaultModel {
        VaultModel {
            resource: self.resource@,
            amount: self.amount,
            non_fungible_ids: match self.non_fungible_ids {
                Some(ids) => Some(keys_view(ids@)),
                None => None,
            },
        }
    }
}

/// A component and its encoded root state.
pub struct ComponentRecord {
    pub address: Address,
    pub state: Vec<u8>,
}

/// A key-value store owned by a component, with its entries as encoded keys
/// and encoded values.
pub struct StoreRecord {
    pub component: Address,
    pub store_id: Vec<u8>,
    pub entries: Vec<(Vec<u8>, Vec<u8>)>,
}

impl StoreRecord {
    pub open spec fn key(&self) -> (Seq<u8>, Seq<u8>) {
        (self.component@, self.store_id@)
    }
}

/// The encoded values of a store's entries, in order.
pub open spec fn entry_values(entries: Seq<(Vec<u8>, Vec<u8>)>) -> Seq<Seq<u8>> {
    entries.map_values(|e: (Vec<u8>, Vec<u8>)| e.1@)
}

/// A resource definition and its kind.
pub struct ResourceRecord {
    pub address: Address,
    pub kind: ResourceKind,
}

/// A snapshot of the ledger. Each table is searched front to back and the first
/// record under a key is the one that counts.
pub struct Ledger {
    pub components: Vec<ComponentRecord>,
    pub stores: Vec<StoreRecord>,
    pub vaults: Vec<VaultRecord>,
    pub resources: Vec<ResourceRecord>,
}

/// The ledger as tables of plain values, each searched front to back.
pub struct LedgerModel {
    pub components: Seq<(Seq<u8>, Seq<u8>)>,
    pub stores: Seq<((Seq<u8>, Seq<u8>), Seq<Seq<u8>>)>,
    pub vaults: Seq<((Seq<u8>, Seq<u8>), VaultModel)>,
    pub resources: Seq<(Seq<u8>, ResourceKind)>,
}

impl LedgerModel {
    /// The root state of a component.
    pub open spec fn component_state(self, component: Seq<u8>) -> Option<Seq<u8>> {
        lookup(self.components, component)
    }

    /// The encoded entry values of a component's key-value store.
    pub open spec fn store_values(self, component: Seq<u8>, store: Seq<u8>) -> Option<Seq<Seq<u8>>> {
        lookup(self.stores, (component, store))
    }

    /// A component's vault.
    pub open spec fn vault(self, component: Seq<u8>, vault: Seq<u8>) -> Option<VaultModel> {
        lookup(self.vaults, (component, vault))
    }

    /// The kind of a resource definition.
    pub open spec fn resource_kind(self, resource: Seq<u8>) -> Option<ResourceKind> {
        lookup(self.resources, resource)
    }
}

impl View for Ledger {
    type V = LedgerModel;

    open spec fn view(&self) -> LedgerModel {
        LedgerModel {
            components: self.components@.map_values(|c: ComponentRecord| (c.address@, c.state@)),
            stores: self.stores@.map_values(|s: StoreRecord| (s.key(), entry_values(s.entries@))),
            vaults: self.vaults@.map_values(|v: VaultRecord| (v.key(), v.model())),
            resources: self.resources@.map_values(|r: ResourceRecord| (r.address@, r.kind)),
        }
    }
}

impl Ledger {
    pub fn new() -> (r: Ledger)
        ensures
            r.components@.len() == 0,
            r.stores@.len() == 0,
            r.vaults@.len() == 0,
            r.resources@.len() == 0,
    {
        Ledger { components: Vec::new(), stores: Vec::new(), vaults: Vec::new(), resources: Vec::new() }
    }

    /// Looks up a component's root state.
    pub fn get_component_state(&self, component: &Address) -> (r: Option<&Vec<u8>>)
        ensures
            match r {
                Some(s) => self@.component_state(component@) == Some(s@),
                None => self@.component_state(component@) is None,
            },
    {
        let ghost t = self@.components;
        proof {
            lemma_lookup_whole(t, component@);
        }
        let mut i: usize = 0;
        while i < self.components.len()
            invariant
                i <= self.components.len(),
                t == self@.components,
                lookup(t, component@) == lookup(t.subrange(i as int, t.len() as int), component@),
            decreases self.components.len() - i,
        {
            proof {
                lemma_lookup_step(t, i as int, component@);
            }
            if self.components[i].address.same_as(component) {
                return Some(&self.components[i].state);
            }
            i = i + 1;
        }
        proof {
            lemma_lookup_whole(t, component@);
        }
        None
    }

    /// Looks up a key-value store of a component.
    pub fn get_store(&self, component: &Address, store: &Vec<u8>) -> (r: Option<&StoreRecord>)
        ensures
            match r {
                Some(s) => self@.store_values(component@, store@) == Some(entry_values(s.entries@)),
                None => self@.store_values(component@, store@) is None,
            },
    {
        let ghost t = self@.stores;
        let ghost k = (component@, store@);
        proof {
            lemma_lookup_whole(t, k);
        }
        let mut i: usize = 0;
        while i < self.stores.len()
            invariant
                i <= self.stores.len(),
                t == self@.stores,
                k == (component@, store@),
                lookup(t, k) == lookup(t.subrange(i as int, t.len() as int), k),
            decreases self.stores.len() - i,
        {
            proof {
                lemma_lookup_step(t, i as int, k);
            }
            let s = &self.stores[i];
            if s.component.same_as(component) && same_bytes(&s.store_id, store) {
                return Some(s);
            }
            i = i + 1;
        }
        proof {
            lemma_lookup_whole(t, k);
        }
        None
    }

    /// Looks up a vault of a component.
    pub fn get_vault(&self, component: &Address, vault: &Vec<u8>) -> (r: Option<&VaultRecord>)
        ensures
            match r {
                Some(v) => self@.vault(component@, vault@) == Some(v.model()),
                None => self@.vault(component@, vault@) is None,
            },
    {
        let ghost t = self@.vaults;
        let ghost k = (component@, vault@);
        proof {
            lemma_lookup_whole(t, k);
        }
        let mut i: usize = 0;
        while i < self.vaults.len()
            invariant
                i <= self.vaults.len(),
                t == self@.vaults,
                k == (component@, vault@),
                lookup(t, k) == lookup(t.subrange(i as int, t.len() as int), k),
            decreases self.vaults.len() - i,
        {
            proof {
                lemma_lookup_step(t, i as int, k);
            }
            let v = &self.vaults[i];
            if v.component.same_as(component) && same_bytes(&v.vault_id, vault) {
                return Some(v);
            }
            i = i + 1;
        }
        proof {
            lemma_lookup_whole(t, k);
        }
        None
    }

    /// Looks up the kind of a resource definition.
    pub fn get_resource_kind(&self, resource: &Address) -> (r: Option<ResourceKind>)
        ensures
            r == self@.resource_kind(resource@),
    {
        let ghost t = self@.resources;
        proof {
            lemma_lookup_whole(t, resource@);
        }
        let mut i: usize = 0;
        while i < self.resources.len()
            invariant
                i <= self.resources.len(),
                t == self@.resources,
                lookup(t, resource@) == lookup(t.subrange(i as int, t.len() as int), resource@),
            decreases self.resources.len() - i,
        {
            proof {
                lemma_lookup_step(t, i as int, resource@);
            }
            if self.resources[i].address.same_as(resource) {
                return Some(self.resources[i].kind);
            }
            i = i + 1;
        }
        proof {
            lemma_lookup_whole(t, resource@);
        }
        None
    }
}

} // verus!
