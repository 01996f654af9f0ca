//! Queries over a component's holdings of one resource: the amount of a
//! fungible resource, or the item identifiers of a non-fungible one.
use vstd::prelude::*;

use crate::holdings::{
    account_index, get_account_vaults, lemma_holdings_from_vaults, lemma_index_origin,
    reachable_holdings, vault_info, Contents, ContentsModel, Holding,
};
use crate::ledger::{
    copy_keys, keys_view, Address, Decimal, Fault, Ledger, LedgerModel, NonFungibleKey,
    ResourceKind,
};

verus! {

/// Why a query failed: the walk stopped, or the resource is held but is not of
/// the kind that the query asks for.
#[derive(Debug, PartialEq, Eq)]
pub enum QueryError {
    Ledger(Fault),
    ResourceKindMismatch(Address),
}

/// The kind of a query's failure.
#[derive(Debug, Clone, Copy, PartialEq, Eq, Structural)]
pub enum QueryFault {
    Ledger(Fault),
    ResourceKindMismatch,
}

impl View for QueryError {
    type V = QueryFault;

    open spec fn view(&self) -> QueryFault {
        match self {
            QueryError::Ledger(f) => QueryFault::Ledger(*f),
            QueryError::ResourceKindMismatch(_) => QueryFault::ResourceKindMismatch,
        }
    }
}

/// The amount of a resource that a component holds: zero where no reachable
/// vault holds it.
pub open spec fn amount_for(m: LedgerModel, component: Seq<u8>, resource: Seq<u8>) -> Result<
    Decimal,
    QueryFault,
> {
    match account_index(m, component) {
        Err(e) => Err(QueryFault::Ledger(e)),
        Ok(ix) => if !ix.contains_key(resource) {
            Ok(Decimal { attos: 0 })
        } else {
            match ix[resource] {
                ContentsModel::Amount(a) => Ok(a),
                ContentsModel::NonFungibleKeys(_) => Err(QueryFault::ResourceKindMismatch),
            }
        },
    }
}

/// The item identifiers of a resource that a component holds: none where no
/// reachable vault holds it.
pub open spec fn keys_for(m: LedgerModel, component: Seq<u8>, resource: Seq<u8>) -> Result<
    Seq<Seq<u8>>,
    QueryFault,
> {
    match account_index(m, component) {
        Err(e) => Err(QueryFault::Ledger(e)),
        Ok(ix) => if !ix.contains_key(resource) {
            Ok(Seq::empty())
        } else {
            match ix[resource] {
                ContentsModel::NonFungibleKeys(ids) => Ok(ids),
                ContentsModel::Amount(_) => Err(QueryFault::ResourceKindMismatch),
            }
        },
    }
}

/// The amount of a fungible resource that a component holds.
pub fn get_amount_for_rd(ledger: &Ledger, component_address: &Address, resource_def: &Address) -> (r:
    Result<Decimal, QueryError>)
    ensures
        match r {
            Ok(a) => amount_for(ledger@, component_address@, resource_def@) == Ok::<
                Decimal,
                QueryFault,
            >(a),
            Err(e) => {
                &&& amount_for(ledger@, component_address@, resource_def@) == Err::<
                    Decimal,
                    QueryFault,
                >(e@)
                &&& (e matches QueryError::ResourceKindMismatch(a) ==> a@ == resource_def@)
            },
        },
{
    let index = match get_account_vaults(ledger, component_address) {
        Ok(ix) => ix,
        Err(e) => return Err(QueryError::Ledger(e)),
    };
    match index.get(resource_def) {
        None => Ok(Decimal::zero()),
        Some(Contents::Amount(a)) => Ok(*a),
        Some(Contents::NonFungibleKeys(_)) => Err(
            QueryError::ResourceKindMismatch(resource_def.duplicate()),
        ),
    }
}

/// The item identifiers of a non-fungible resource that a component holds.
pub fn get_non_fungible_keys_for_rd(
    ledger: &Ledger,
    component_address: &Address,
    resource_def: &Address,
) -> (r: Result<Vec<NonFungibleKey>, QueryError>)
    ensures
        match r {
            Ok(keys) => keys_for(ledger@, component_address@, resource_def@) == Ok::<
                Seq<Seq<u8>>,
                QueryFault,
            >(keys_view(keys@)),
            Err(e) => {
                &&& keys_for(ledger@, component_address@, resource_def@) == Err::<
                    Seq<Seq<u8>>,
                    QueryFault,
                >(e@)
                &&& (e matches QueryError::ResourceKindMismatch(a) ==> a@ == resource_def@)
            },
        },
{
    let index = match get_account_vaults(ledger, component_address) {
        Ok(ix) => ix,
        Err(e) => return Err(QueryError::Ledger(e)),
    };
    match index.get(resource_def) {
        None => {
            let keys: Vec<NonFungibleKey> = Vec::new();
            assert(keys_view(keys@) =~= Seq::<Seq<u8>>::empty());
            Ok(keys)
        },
        Some(Contents::NonFungibleKeys(keys)) => Ok(copy_keys(keys)),
        Some(Contents::Amount(_)) => Err(QueryError::ResourceKindMismatch(resource_def.duplicate())),
    }
}

/// A resource held by the index came from a vault of that resource that the
/// walk reached: there is such a vault whose holding is the index's entry.
proof fn lemma_entry_from_vault(m: LedgerModel, component: Seq<u8>, resource: Seq<u8>) -> (v: Seq<u8>)
    requires
        account_index(m, component) is Ok,
        account_index(m, component).unwrap().contains_key(resource),
    ensures
        vault_info(m, component, v) == Ok::<Holding, Fault>(
            (resource, account_index(m, component).unwrap()[resource]),
        ),
{
    let hs = reachable_holdings(m, component).unwrap();
    lemma_index_origin(hs, resource);
    let j = choose|j: int| 0 <= j < hs.len() && hs[j].0 == resource && account_index(m, component).unwrap()[resource] == hs[j].1;
    lemma_holdings_from_vaults(m, component);
    assert(crate::holdings::from_some_vault(m, component, hs[j]));
    choose|v: Seq<u8>| vault_info(m, component, v) == Ok::<Holding, Fault>(hs[j])
}

/// Where the index holds a fungible resource, it holds the amount that the
/// ledger reports for a vault of that resource, the amount query returns it,
/// and asking for the resource's item identifiers fails.
pub proof fn lemma_fungible_in_index(m: LedgerModel, component: Seq<u8>, resource: Seq<u8>)
    requires
        account_index(m, component) is Ok,
        account_index(m, component).unwrap().contains_key(resource),
        m.resource_kind(resource) == Some(ResourceKind::Fungible),
    ensures
        exists|v: Seq<u8>|
            {
                &&& #[trigger] m.vault(component, v) is Some
                &&& m.vault(component, v).unwrap().resource == resource
                &&& account_index(m, component).unwrap()[resource] == ContentsModel::Amount(
                    m.vault(component, v).unwrap().amount,
                )
                &&& amount_for(m, component, resource) == Ok::<Decimal, QueryFault>(
                    m.vault(component, v).unwrap().amount,
                )
            },
        keys_for(m, component, resource) == Err::<Seq<Seq<u8>>, QueryFault>(
            QueryFault::ResourceKindMismatch,
        ),
{
    let v = lemma_entry_from_vault(m, component, resource);
    assert(m.vault(component, v) is Some);
}

/// Where the index holds a non-fungible resource, it holds the item identifiers
/// that the ledger reports for a vault of that resource, the identifier query
/// returns them, and asking for the resource's amount fails.
pub proof fn lemma_non_fungible_in_index(m: LedgerModel, component: Seq<u8>, resource: Seq<u8>)
    requires
        account_index(m, component) is Ok,
        account_index(m, component).unwrap().contains_key(resource),
        m.resource_kind(resource) == Some(ResourceKind::NonFungible),
    ensures
        exists|v: Seq<u8>|
            {
                &&& #[trigger] m.vault(component, v) is Some
                &&& m.vault(component, v).unwrap().resource == resource
                &&& m.vault(component, v).unwrap().non_fungible_ids is Some
                &&& account_index(m, component).unwrap()[resource] == ContentsModel::NonFungibleKeys(
                    m.vault(component, v).unwrap().non_fungible_ids.unwrap(),
                )
                &&& keys_for(m, component, resource) == Ok::<Seq<Seq<u8>>, QueryFault>(
                    m.vault(component, v).unwrap().non_fungible_ids.unwrap(),
                )
            },
        amount_for(m, component, resource) == Err::<Decimal, QueryFault>(
            QueryFault::ResourceKindMismatch,
        ),
{
    let v = lemma_entry_from_vault(m, component, resource);
    assert(m.vault(component, v) is Some);
}

/// A resource that no reachable vault holds has amount zero and no item
/// identifiers.
pub proof fn lemma_absent_resource(m: LedgerModel, component: Seq<u8>, resource: Seq<u8>)
    requires
        account_index(m, component) is Ok,
        !account_index(m, component).unwrap().contains_key(resource),
    ensures
        amount_for(m, component, resource) == Ok::<Decimal, QueryFault>(Decimal { attos: 0 }),
        keys_for(m, component, resource) == Ok::<Seq<Seq<u8>>, QueryFault>(Seq::empty()),
{
}

} // verus!
