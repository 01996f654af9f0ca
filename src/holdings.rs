//! The walk from a component to its holdings: each vault that its key-value
//! stores own is resolved to the resource it holds and what it holds of it,
//! and the results are gathered into an index by resource.
use vstd::prelude::*;

use crate::ledger::{
    bytes_view, copy_keys, entry_values, keys_view, Address, Decimal, Fault, Ledger, LedgerModel, NonFungibleKey,
    ResourceKind,
};
use crate::state::{validate_data, validated_of};

verus! {

/// What a vault holds: a quantity of a fungible resource, or the identifiers
/// of the items of a non-fungible one.
#[derive(Debug, PartialEq, Eq)]
pub enum Contents {
    Amount(Decimal),
    NonFungibleKeys(Vec<NonFungibleKey>),
}

/// What a vault holds, as plain values.
pub enum ContentsModel {
    Amount(Decimal),
    NonFungibleKeys(Seq<Seq<u8>>),
}

impl View for Contents {
    type V = ContentsModel;

    open spec fn view(&self) -> ContentsModel {
        match self {
            Contents::Amount(a) => ContentsModel::Amount(*a),
            Contents::NonFungibleKeys(keys) => ContentsModel::NonFungibleKeys(keys_view(keys@)),
        }
    }
}

/// One holding: a resource and what a vault holds of it.
pub type Holding = (Seq<u8>, ContentsModel);

pub open spec fn holding_view(h: (Address, Contents)) -> Holding {
    (h.0@, h.1@)
}

pub open spec fn holdings_view(hs: Seq<(Address, Contents)>) -> Seq<Holding> {
    hs.map_values(|h: (Address, Contents)| holding_view(h))
}

/// The holding of one vault of a component: the vault's resource, with its
/// amount where the resource is fungible and its item identifiers where it is
/// not.
pub open spec fn vault_info(m: LedgerModel, component: Seq<u8>, vault: Seq<u8>) -> Result<Holding, Fault> {
    match m.vault(component, vault) {
        None => Err(Fault::NotFound),
        Some(v) => match m.resource_kind(v.resource) {
            None => Err(Fault::NotFound),
            Some(ResourceKind::Fungible) => Ok((v.resource, ContentsModel::Amount(v.amount))),
            Some(ResourceKind::NonFungible) => match v.non_fungible_ids {
                Some(ids) => Ok((v.resource, ContentsModel::NonFungibleKeys(ids))),
                None => Err(Fault::InconsistentVault),
            },
        },
    }
}

/// The holdings of a list of vaults, in order; the first fault met, if any.
pub open spec fn vaults_info(m: LedgerModel, component: Seq<u8>, vaults: Seq<Seq<u8>>) -> Result<
    Seq<Holding>,
    Fault,
>
    decreases vaults.len(),
{
    if vaults.len() == 0 {
        Ok(Seq::empty())
    } else {
        match vaults_info(m, component, vaults.drop_last()) {
            Err(e) => Err(e),
            Ok(acc) => match vault_info(m, component, vaults.last()) {
                Err(e) => Err(e),
                Ok(h) => Ok(acc.push(h)),
            },
        }
    }
}

/// The holdings of the vaults owned by a list of encoded entry values, entry by
/// entry; the first fault met, if any.
pub open spec fn entries_info(m: LedgerModel, component: Seq<u8>, values: Seq<Seq<u8>>) -> Result<
    Seq<Holding>,
    Fault,
>
    decreases values.len(),
{
    if values.len() == 0 {
        Ok(Seq::empty())
    } else {
        match entries_info(m, component, values.drop_last()) {
            Err(e) => Err(e),
            Ok(acc) => match validated_of(values.last()) {
                None => Err(Fault::MalformedState),
                Some(refs) => match vaults_info(m, component, refs.vaults) {
                    Err(e) => Err(e),
                    Ok(hs) => Ok(acc + hs),
                },
            },
        }
    }
}

/// The holdings reachable through one key-value store of a component.
pub open spec fn store_info(m: LedgerModel, component: Seq<u8>, store: Seq<u8>) -> Result<
    Seq<Holding>,
    Fault,
> {
    match m.store_values(component, store) {
        None => Err(Fault::NotFound),
        Some(values) => entries_info(m, component, values),
    }
}

/// The holdings reachable through a list of key-value stores, store by store.
pub open spec fn stores_info(m: LedgerModel, component: Seq<u8>, stores: Seq<Seq<u8>>) -> Result<
    Seq<Holding>,
    Fault,
>
    decreases stores.len(),
{
    if stores.len() == 0 {
        Ok(Seq::empty())
    } else {
        match stores_info(m, component, stores.drop_last()) {
            Err(e) => Err(e),
            Ok(acc) => match store_info(m, component, stores.last()) {
                Err(e) => Err(e),
                Ok(hs) => Ok(acc + hs),
            },
        }
    }
}

/// Every holding reachable from a component's root state, in the order of the
/// walk.
pub open spec fn reachable_holdings(m: LedgerModel, component: Seq<u8>) -> Result<
    Seq<Holding>,
    Fault,
> {
    match m.component_state(component) {
        None => Err(Fault::NotFound),
        Some(state) => match validated_of(state) {
            None => Err(Fault::MalformedState),
            Some(refs) => stores_info(m, component, refs.stores),
        },
    }
}

/// The index of a sequence of holdings: each is inserted in turn, so a later
/// holding of a resource replaces an earlier one.
pub open spec fn index_of(hs: Seq<Holding>) -> Map<Seq<u8>, ContentsModel>
    decreases hs.len(),
{
    if hs.len() == 0 {
        Map::empty()
    } else {
        index_of(hs.drop_last()).insert(hs.last().0, hs.last().1)
    }
}

/// The index of what a component holds, by resource.
pub open spec fn account_index(m: LedgerModel, component: Seq<u8>) -> Result<
    Map<Seq<u8>, ContentsModel>,
    Fault,
> {
    match reachable_holdings(m, component) {
        Err(e) => Err(e),
        Ok(hs) => Ok(index_of(hs)),
    }
}

proof fn lemma_vaults_fault(m: LedgerModel, component: Seq<u8>, vaults: Seq<Seq<u8>>, k: int)
    requires
        0 <= k <= vaults.len(),
        vaults_info(m, component, vaults.take(k)) is Err,
    ensures
        vaults_info(m, component, vaults) == vaults_info(m, component, vaults.take(k)),
    decreases vaults.len(),
{
    if k == vaults.len() {
        assert(vaults.take(k) =~= vaults);
    } else {
        assert(vaults.drop_last().take(k) =~= vaults.take(k));
        lemma_vaults_fault(m, component, vaults.drop_last(), k);
    }
}

proof fn lemma_entries_fault(m: LedgerModel, component: Seq<u8>, values: Seq<Seq<u8>>, k: int)
    requires
        0 <= k <= values.len(),
        entries_info(m, component, values.take(k)) is Err,
    ensures
        entries_info(m, component, values) == entries_info(m, component, values.take(k)),
    decreases values.len(),
{
    if k == values.len() {
        assert(values.take(k) =~= values);
    } else {
        assert(values.drop_last().take(k) =~= values.take(k));
        lemma_entries_fault(m, component, values.drop_last(), k);
    }
}

proof fn lemma_stores_fault(m: LedgerModel, component: Seq<u8>, stores: Seq<Seq<u8>>, k: int)
    requires
        0 <= k <= stores.len(),
        stores_info(m, component, stores.take(k)) is Err,
    ensures
        stores_info(m, component, stores) == stores_info(m, component, stores.take(k)),
    decreases stores.len(),
{
    if k == stores.len() {
        assert(stores.take(k) =~= stores);
    } else {
        assert(stores.drop_last().take(k) =~= stores.take(k));
        lemma_stores_fault(m, component, stores.drop_last(), k);
    }
}

proof fn lemma_holdings_append(a: Seq<(Address, Contents)>, b: Seq<(Address, Contents)>)
    ensures
        holdings_view(a + b) == holdings_view(a) + holdings_view(b),
{
    assert(holdings_view(a + b) =~= holdings_view(a) + holdings_view(b));
}

/// Resolves one vault of a component to the resource it holds and what it
/// holds of it.
pub fn get_vault_info(ledger: &Ledger, component_address: &Address, vid: &Vec<u8>) -> (r: Result<
    (Address, Contents),
    Fault,
>)
    ensures
        match r {
            Ok(h) => vault_info(ledger@, component_address@, vid@) == Ok::<Holding, Fault>(
                holding_view(h),
            ),
            Err(e) => vault_info(ledger@, component_address@, vid@) == Err::<Holding, Fault>(e),
        },
{
    let vault = match ledger.get_vault(component_address, vid) {
        Some(v) => v,
        None => return Err(Fault::NotFound),
    };
    let kind = match ledger.get_resource_kind(&vault.resource) {
        Some(k) => k,
        None => return Err(Fault::NotFound),
    };
    let contents = match kind {
        ResourceKind::Fungible => Contents::Amount(vault.amount),
        ResourceKind::NonFungible => match &vault.non_fungible_ids {
            Some(ids) => Contents::NonFungibleKeys(copy_keys(ids)),
            None => return Err(Fault::InconsistentVault),
        },
    };
    Ok((vault.resource.duplicate(), contents))
}

/// Resolves a list of vaults of a component, in order.
fn resolve_vaults(ledger: &Ledger, component_address: &Address, vids: &Vec<Vec<u8>>) -> (r: Result<
    Vec<(Address, Contents)>,
    Fault,
>)
    ensures
        match r {
            Ok(hs) => vaults_info(ledger@, component_address@, bytes_view(vids@))
                == Ok::<Seq<Holding>, Fault>(holdings_view(hs@)),
            Err(e) => vaults_info(ledger@, component_address@, bytes_view(vids@))
                == Err::<Seq<Holding>, Fault>(e),
        },
{
    let ghost vs = bytes_view(vids@);
    let mut out: Vec<(Address, Contents)> = Vec::new();
    let mut i: usize = 0;
    assert(vs.take(0) =~= Seq::<Seq<u8>>::empty());
    assert(holdings_view(out@) =~= Seq::<Holding>::empty());
    while i < vids.len()
        invariant
            i <= vids.len(),
            vs == bytes_view(vids@),
            vaults_info(ledger@, component_address@, vs.take(i as int)) == Ok::<Seq<Holding>, Fault>(
                holdings_view(out@),
            ),
        decreases vids.len() - i,
    {
        assert(vs.take(i + 1).drop_last() =~= vs.take(i as int));
        assert(vs.take(i + 1).last() == vids@[i as int]@);
        let h = match get_vault_info(ledger, component_address, &vids[i]) {
            Ok(h) => h,
            Err(e) => {
                proof {
                    lemma_vaults_fault(ledger@, component_address@, vs, i + 1);
                }
                return Err(e);
            },
        };
        let ghost before = out@;
        out.push(h);
        assert(holdings_view(out@) =~= holdings_view(before).push(holding_view(h)));
        assert(vaults_info(ledger@, component_address@, vs.take(i + 1)) == Ok::<Seq<Holding>, Fault>(
                holdings_view(before).push(holding_view(h)),
            ));
        i = i + 1;
    }
    assert(vs.take(vids.len() as int) =~= vs);
    Ok(out)
}

/// Resolves every vault owned by the entries of one key-value store of a
/// component, entry by entry.
pub fn get_lazymap_info(ledger: &Ledger, component_address: &Address, id: &Vec<u8>) -> (r: Result<
    Vec<(Address, Contents)>,
    Fault,
>)
    ensures
        match r {
            Ok(hs) => store_info(ledger@, component_address@, id@) == Ok::<Seq<Holding>, Fault>(
                holdings_view(hs@),
            ),
            Err(e) => store_info(ledger@, component_address@, id@) == Err::<Seq<Holding>, Fault>(e),
        },
{
    let store = match ledger.get_store(component_address, id) {
        Some(s) => s,
        None => return Err(Fault::NotFound),
    };
    let ghost vals = entry_values(store.entries@);
    let mut out: Vec<(Address, Contents)> = Vec::new();
    let mut i: usize = 0;
    assert(vals.take(0) =~= Seq::<Seq<u8>>::empty());
    assert(holdings_view(out@) =~= Seq::<Holding>::empty());
    while i < store.entries.len()
        invariant
            i <= store.entries.len(),
            vals == entry_values(store.entries@),
            ledger@.store_values(component_address@, id@) == Some(vals),
            entries_info(ledger@, component_address@, vals.take(i as int)) == Ok::<
                Seq<Holding>,
                Fault,
            >(holdings_view(out@)),
        decreases store.entries.len() - i,
    {
        assert(vals.take(i + 1).drop_last() =~= vals.take(i as int));
        assert(vals.take(i + 1).last() == store.entries@[i as int].1@);
        let validated = match validate_data(&store.entries[i].1) {
            Ok(v) => v,
            Err(e) => {
                proof {
                    lemma_entries_fault(ledger@, component_address@, vals, i + 1);
                }
                return Err(e);
            },
        };
        let mut hs = match resolve_vaults(ledger, component_address, &validated.vaults) {
            Ok(hs) => hs,
            Err(e) => {
                proof {
                    lemma_entries_fault(ledger@, component_address@, vals, i + 1);
                }
                return Err(e);
            },
        };
        let ghost before = out@;
        let ghost added = hs@;
        out.append(&mut hs);
        proof {
            lemma_holdings_append(before, added);
        }
        i = i + 1;
    }
    assert(vals.take(store.entries.len() as int) =~= vals);
    Ok(out)
}

/// What a component holds, by resource. The holdings are kept in the order of
/// the walk; the index maps each resource to the last of its holdings.
pub struct ResourceIndex {
    pub holdings: Vec<(Address, Contents)>,
}

impl View for ResourceIndex {
    type V = Map<Seq<u8>, ContentsModel>;

    open spec fn view(&self) -> Map<Seq<u8>, ContentsModel> {
        index_of(holdings_view(self.holdings@))
    }
}

/// Holdings after position `i` that are not of resource `k` leave the index's
/// entry for `k` as the first `i` holdings made it.
proof fn lemma_index_suffix(hs: Seq<Holding>, i: int, k: Seq<u8>)
    requires
        0 <= i <= hs.len(),
        forall|j: int| i <= j < hs.len() ==> hs[j].0 != k,
    ensures
        index_of(hs).contains_key(k) == index_of(hs.take(i)).contains_key(k),
        index_of(hs)[k] == index_of(hs.take(i))[k],
    decreases hs.len(),
{
    if i == hs.len() {
        assert(hs.take(i) =~= hs);
    } else {
        assert(hs.drop_last().take(i) =~= hs.take(i));
        lemma_index_suffix(hs.drop_last(), i, k);
    }
}

impl ResourceIndex {
    /// What the component holds of a resource, if any vault holds it.
    pub fn get(&self, resource: &Address) -> (r: Option<&Contents>)
        ensures
            match r {
                Some(c) => self@.contains_key(resource@) && self@[resource@] == c@,
                None => !self@.contains_key(resource@),
            },
    {
        let ghost hs = holdings_view(self.holdings@);
        let mut i: usize = self.holdings.len();
        while i > 0
            invariant
                i <= self.holdings.len(),
                hs == holdings_view(self.holdings@),
                forall|j: int| i <= j < hs.len() ==> hs[j].0 != resource@,
            decreases i,
        {
            if self.holdings[i - 1].0.same_as(resource) {
                proof {
                    lemma_index_suffix(hs, i as int, resource@);
                    assert(hs.take(i as int).drop_last() =~= hs.take(i - 1));
                }
                return Some(&self.holdings[i - 1].1);
            }
            i = i - 1;
        }
        proof {
            lemma_index_suffix(hs, 0, resource@);
        }
        None
    }
}

/// Walks a component: validates its root state, resolves every vault owned by
/// the entries of each key-value store that the state owns, and indexes the
/// holdings by resource.
pub fn get_account_vaults(ledger: &Ledger, component_address: &Address) -> (r: Result<
    ResourceIndex,
    Fault,
>)
    ensures
        match r {
            Ok(ix) => {
                &&& reachable_holdings(ledger@, component_address@) == Ok::<Seq<Holding>, Fault>(
                    holdings_view(ix.holdings@),
                )
                &&& account_index(ledger@, component_address@) == Ok::<
                    Map<Seq<u8>, ContentsModel>,
                    Fault,
                >(ix@)
            },
            Err(e) => {
                &&& reachable_holdings(ledger@, component_address@) == Err::<Seq<Holding>, Fault>(e)
                &&& account_index(ledger@, component_address@) == Err::<
                    Map<Seq<u8>, ContentsModel>,
                    Fault,
                >(e)
            },
        },
{
    let state = match ledger.get_component_state(component_address) {
        Some(s) => s,
        None => return Err(Fault::NotFound),
    };
    let validated = match validate_data(state) {
        Ok(v) => v,
        Err(e) => return Err(e),
    };
    let ghost ids = bytes_view(validated.stores@);
    let mut out: Vec<(Address, Contents)> = Vec::new();
    let mut i: usize = 0;
    assert(ids.take(0) =~= Seq::<Seq<u8>>::empty());
    assert(holdings_view(out@) =~= Seq::<Holding>::empty());
    while i < validated.stores.len()
        invariant
            i <= validated.stores.len(),
            ids == bytes_view(validated.stores@),
            validated_of(state@) == Some(validated@),
            ledger@.component_state(component_address@) == Some(state@),
            stores_info(ledger@, component_address@, ids.take(i as int)) == Ok::<
                Seq<Holding>,
                Fault,
            >(holdings_view(out@)),
        decreases validated.stores.len() - i,
    {
        assert(ids.take(i + 1).drop_last() =~= ids.take(i as int));
        assert(ids.take(i + 1).last() == validated.stores@[i as int]@);
        let mut hs = match get_lazymap_info(ledger, component_address, &validated.stores[i]) {
            Ok(hs) => hs,
            Err(e) => {
                proof {
                    lemma_stores_fault(ledger@, component_address@, ids, i + 1);
                }
                return Err(e);
            },
        };
        let ghost before = out@;
        let ghost added = hs@;
        out.append(&mut hs);
        proof {
            lemma_holdings_append(before, added);
        }
        i = i + 1;
    }
    assert(ids.take(validated.stores.len() as int) =~= ids);
    Ok(ResourceIndex { holdings: out })
}

} // verus!

verus! {

/// A holding that some vault of the component resolves to.
pub open spec fn from_some_vault(m: LedgerModel, component: Seq<u8>, h: Holding) -> bool {
    exists|v: Seq<u8>| vault_info(m, component, v) == Ok::<Holding, Fault>(h)
}

proof fn lemma_vaults_origin(m: LedgerModel, component: Seq<u8>, vaults: Seq<Seq<u8>>)
    requires
        vaults_info(m, component, vaults) is Ok,
    ensures
        vaults_info(m, component, vaults).unwrap().len() == vaults.len(),
        forall|i: int|
            0 <= i < vaults.len() ==> vault_info(m, component, #[trigger] vaults[i]) == Ok::<
                Holding,
                Fault,
            >(vaults_info(m, component, vaults).unwrap()[i]),
    decreases vaults.len(),
{
    if vaults.len() > 0 {
        lemma_vaults_origin(m, component, vaults.drop_last());
        let hs = vaults_info(m, component, vaults).unwrap();
        assert forall|i: int| 0 <= i < vaults.len() implies vault_info(
            m,
            component,
            #[trigger] vaults[i],
        ) == Ok::<Holding, Fault>(hs[i]) by {
            if i < vaults.len() - 1 {
                assert(vaults[i] == vaults.drop_last()[i]);
            }
        }
    }
}

proof fn lemma_entries_origin(m: LedgerModel, component: Seq<u8>, values: Seq<Seq<u8>>)
    requires
        entries_info(m, component, values) is Ok,
    ensures
        forall|i: int|
            0 <= i < entries_info(m, component, values).unwrap().len() ==> from_some_vault(
                m,
                component,
                #[trigger] entries_info(m, component, values).unwrap()[i],
            ),
    decreases values.len(),
{
    if values.len() > 0 {
        lemma_entries_origin(m, component, values.drop_last());
        let acc = entries_info(m, component, values.drop_last()).unwrap();
        let refs = validated_of(values.last()).unwrap();
        lemma_vaults_origin(m, component, refs.vaults);
        let added = vaults_info(m, component, refs.vaults).unwrap();
        let hs = entries_info(m, component, values).unwrap();
        assert forall|i: int| 0 <= i < hs.len() implies from_some_vault(
            m,
            component,
            #[trigger] hs[i],
        ) by {
            if i < acc.len() {
                assert(hs[i] == acc[i]);
            } else {
                let w = refs.vaults[i - acc.len()];
                assert(vault_info(m, component, w) == Ok::<Holding, Fault>(hs[i]));
            }
        }
    }
}

proof fn lemma_stores_origin(m: LedgerModel, component: Seq<u8>, stores: Seq<Seq<u8>>)
    requires
        stores_info(m, component, stores) is Ok,
    ensures
        forall|i: int|
            0 <= i < stores_info(m, component, stores).unwrap().len() ==> from_some_vault(
                m,
                component,
                #[trigger] stores_info(m, component, stores).unwrap()[i],
            ),
    decreases stores.len(),
{
    if stores.len() > 0 {
        lemma_stores_origin(m, component, stores.drop_last());
        let acc = stores_info(m, component, stores.drop_last()).unwrap();
        let values = m.store_values(component, stores.last()).unwrap();
        lemma_entries_origin(m, component, values);
        let hs = stores_info(m, component, stores).unwrap();
        assert forall|i: int| 0 <= i < hs.len() implies from_some_vault(
            m,
            component,
            #[trigger] hs[i],
        ) by {
            if i < acc.len() {
                assert(hs[i] == acc[i]);
            } else {
                assert(hs[i] == entries_info(m, component, values).unwrap()[i - acc.len()]);
            }
        }
    }
}

/// Every holding that the walk reports is what some vault of the component
/// resolves to.
pub proof fn lemma_holdings_from_vaults(m: LedgerModel, component: Seq<u8>)
    requires
        reachable_holdings(m, component) is Ok,
    ensures
        forall|i: int|
            0 <= i < reachable_holdings(m, component).unwrap().len() ==> from_some_vault(
                m,
                component,
                #[trigger] reachable_holdings(m, component).unwrap()[i],
            ),
{
    let state = m.component_state(component).unwrap();
    lemma_stores_origin(m, component, validated_of(state).unwrap().stores);
}

/// Each resource in the index of a sequence of holdings got its entry from a
/// holding of that resource.
pub proof fn lemma_index_origin(hs: Seq<Holding>, k: Seq<u8>)
    requires
        index_of(hs).contains_key(k),
    ensures
        exists|j: int| 0 <= j < hs.len() && hs[j].0 == k && index_of(hs)[k] == hs[j].1,
    decreases hs.len(),
{
    if hs.last().0 != k {
        lemma_index_origin(hs.drop_last(), k);
        let j = choose|j: int|
            0 <= j < hs.drop_last().len() && hs.drop_last()[j].0 == k && index_of(hs.drop_last())[k]
                == hs.drop_last()[j].1;
        assert(hs[j] == hs.drop_last()[j]);
    } else {
        assert(hs[hs.len() - 1] == hs.last());
    }
}

/// A component whose root state owns no key-value store holds nothing: its
/// index is empty.
pub proof fn lemma_no_stores_empty_index(m: LedgerModel, component: Seq<u8>, state: Seq<u8>)
    requires
        m.component_state(component) == Some(state),
        validated_of(state) is Some,
        validated_of(state).unwrap().stores.len() == 0,
    ensures
        account_index(m, component) == Ok::<Map<Seq<u8>, ContentsModel>, Fault>(Map::empty()),
{
}

/// A vault of a fungible resource resolves to that resource and the amount the
/// ledger reports for the vault.
pub proof fn lemma_fungible_vault(m: LedgerModel, component: Seq<u8>, vault: Seq<u8>)
    requires
        m.vault(component, vault) is Some,
        m.resource_kind(m.vault(component, vault).unwrap().resource) == Some(ResourceKind::Fungible),
    ensures
        vault_info(m, component, vault) == Ok::<Holding, Fault>(
            (
                m.vault(component, vault).unwrap().resource,
                ContentsModel::Amount(m.vault(component, vault).unwrap().amount),
            ),
        ),
{
}

/// A vault of a non-fungible resource resolves to that resource and the item
/// identifiers the ledger reports for the vault.
pub proof fn lemma_non_fungible_vault(m: LedgerModel, component: Seq<u8>, vault: Seq<u8>)
    requires
        m.vault(component, vault) is Some,
        m.resource_kind(m.vault(component, vault).unwrap().resource) == Some(
            ResourceKind::NonFungible,
        ),
        m.vault(component, vault).unwrap().non_fungible_ids is Some,
    ensures
        vault_info(m, component, vault) == Ok::<Holding, Fault>(
            (
                m.vault(component, vault).unwrap().resource,
                ContentsModel::NonFungibleKeys(
                    m.vault(component, vault).unwrap().non_fungible_ids.unwrap(),
                ),
            ),
        ),
{
}

/// Where the walk meets several holdings of one resource, the index holds
/// exactly the last of them.
pub proof fn lemma_last_write_wins(m: LedgerModel, component: Seq<u8>, j: int)
    requires
        reachable_holdings(m, component) is Ok,
        0 <= j < reachable_holdings(m, component).unwrap().len(),
        forall|i: int|
            j < i < reachable_holdings(m, component).unwrap().len() ==> (#[trigger] reachable_holdings(
                m,
                component,
            ).unwrap()[i]).0 != reachable_holdings(m, component).unwrap()[j].0,
    ensures
        ({
            let hs = reachable_holdings(m, component).unwrap();
            &&& account_index(m, component) is Ok
            &&& account_index(m, component).unwrap().contains_key(hs[j].0)
            &&& account_index(m, component).unwrap()[hs[j].0] == hs[j].1
        }),
{
    let hs = reachable_holdings(m, component).unwrap();
    lemma_index_suffix(hs, j + 1, hs[j].0);
    assert(hs.take(j + 1).drop_last() =~= hs.take(j));
    assert(hs.take(j + 1).last() == hs[j]);
}

/// Building the index twice over the same ledger state gives the same index.
pub proof fn lemma_index_deterministic(a: LedgerModel, b: LedgerModel, component: Seq<u8>)
    requires
        a == b,
    ensures
        account_index(a, component) == account_index(b, component),
        reachable_holdings(a, component) == reachable_holdings(b, component),
{
}

} // verus!
