use scrypto::data::scrypto::model::Own;
use scrypto::data::scrypto::scrypto_encode;
use scrypto::types::{EntityType, NodeId};
use scrypto_unit::holdings::{get_account_vaults, get_lazymap_info, get_vault_info, Contents};
use scrypto_unit::ledger::{
    Address, ComponentRecord, Decimal, Fault, Ledger, NonFungibleKey, ResourceKind,
    ResourceRecord, StoreRecord, VaultRecord,
};
use scrypto_unit::query::{get_amount_for_rd, get_non_fungible_keys_for_rd, QueryError};
use scrypto_unit::state::validate_data;

const UNIT: i128 = 1_000_000_000_000_000_000;

fn node(kind: EntityType, tag: u8) -> NodeId {
    NodeId::new(kind as u8, &[tag; 29])
}

fn addr(tag: u8) -> Address {
    Address::new(node(EntityType::GlobalGenericComponent, tag).to_vec())
}

fn resource(tag: u8) -> Address {
    Address::new(node(EntityType::GlobalFungibleResourceManager, tag).to_vec())
}

fn owning(nodes: &[NodeId]) -> Vec<u8> {
    let owns: Vec<Own> = nodes.iter().map(|n| Own(*n)).collect();
    scrypto_encode(&owns).unwrap()
}

fn key(n: u8) -> NonFungibleKey {
    NonFungibleKey::new(vec![n])
}

fn store_id(tag: u8) -> NodeId {
    node(EntityType::InternalKeyValueStore, tag)
}

fn fungible_vault(tag: u8) -> NodeId {
    node(EntityType::InternalFungibleVault, tag)
}

fn non_fungible_vault(tag: u8) -> NodeId {
    node(EntityType::InternalNonFungibleVault, tag)
}

fn add_component(ledger: &mut Ledger, component: &Address, owned: &[NodeId]) {
    ledger.components.push(ComponentRecord { address: component.clone(), state: owning(owned) });
}

fn add_store(ledger: &mut Ledger, component: &Address, id: NodeId, values: Vec<Vec<u8>>) {
    let entries = values.into_iter().enumerate().map(|(i, v)| (vec![i as u8], v)).collect();
    ledger.stores.push(StoreRecord { component: component.clone(), store_id: id.to_vec(), entries });
}

fn add_vault(
    ledger: &mut Ledger,
    component: &Address,
    id: NodeId,
    res: &Address,
    attos: i128,
    ids: Option<Vec<NonFungibleKey>>,
) {
    ledger.vaults.push(VaultRecord {
        component: component.clone(),
        vault_id: id.to_vec(),
        resource: res.clone(),
        amount: Decimal { attos },
        non_fungible_ids: ids,
    });
}

fn add_resource(ledger: &mut Ledger, res: &Address, kind: ResourceKind) {
    ledger.resources.push(ResourceRecord { address: res.clone(), kind });
}

/// One component, one store with one entry owning a fungible vault of R1
/// (500) and a non-fungible vault of R2 (items 1 and 3).
fn two_vault_ledger() -> (Ledger, Address, Address, Address) {
    let mut ledger = Ledger::new();
    let c = addr(1);
    let r1 = resource(11);
    let r2 = resource(12);
    add_component(&mut ledger, &c, &[store_id(1)]);
    add_store(
        &mut ledger,
        &c,
        store_id(1),
        vec![owning(&[fungible_vault(1), non_fungible_vault(2)])],
    );
    add_vault(&mut ledger, &c, fungible_vault(1), &r1, 500 * UNIT, None);
    add_vault(&mut ledger, &c, non_fungible_vault(2), &r2, 0, Some(vec![key(1), key(3)]));
    add_resource(&mut ledger, &r1, ResourceKind::Fungible);
    add_resource(&mut ledger, &r2, ResourceKind::NonFungible);
    (ledger, c, r1, r2)
}

#[test]
fn scenario_one_store_two_vaults() {
    let (ledger, c, r1, r2) = two_vault_ledger();
    let index = get_account_vaults(&ledger, &c).unwrap();
    assert_eq!(index.holdings.len(), 2);
    assert_eq!(index.get(&r1), Some(&Contents::Amount(Decimal { attos: 500 * UNIT })));
    assert_eq!(index.get(&r2), Some(&Contents::NonFungibleKeys(vec![key(1), key(3)])));
    assert_eq!(get_amount_for_rd(&ledger, &c, &r1), Ok(Decimal { attos: 500 * UNIT }));
    assert_eq!(get_non_fungible_keys_for_rd(&ledger, &c, &r2), Ok(vec![key(1), key(3)]));
    assert_eq!(
        get_amount_for_rd(&ledger, &c, &r2),
        Err(QueryError::ResourceKindMismatch(r2.clone()))
    );
}

#[test]
fn fungible_holding_rejects_item_query() {
    let (ledger, c, r1, _) = two_vault_ledger();
    assert_eq!(
        get_non_fungible_keys_for_rd(&ledger, &c, &r1),
        Err(QueryError::ResourceKindMismatch(r1.clone()))
    );
}

#[test]
fn unknown_component_is_not_found() {
    let (ledger, _, r1, _) = two_vault_ledger();
    let unknown = addr(99);
    assert_eq!(get_account_vaults(&ledger, &unknown).err(), Some(Fault::NotFound));
    assert_eq!(get_amount_for_rd(&ledger, &unknown, &r1), Err(QueryError::Ledger(Fault::NotFound)));
}

#[test]
fn component_without_stores_has_empty_index() {
    let mut ledger = Ledger::new();
    let c = addr(2);
    let r1 = resource(11);
    // A vault owned directly by the root state is not walked: only stores are.
    add_component(&mut ledger, &c, &[fungible_vault(5)]);
    add_vault(&mut ledger, &c, fungible_vault(5), &r1, 7, None);
    add_resource(&mut ledger, &r1, ResourceKind::Fungible);
    let index = get_account_vaults(&ledger, &c).unwrap();
    assert!(index.holdings.is_empty());
    assert_eq!(index.get(&r1), None);
}

#[test]
fn rebuilding_gives_same_index() {
    let (ledger, c, r1, r2) = two_vault_ledger();
    let a = get_account_vaults(&ledger, &c).unwrap();
    let b = get_account_vaults(&ledger, &c).unwrap();
    assert_eq!(a.holdings, b.holdings);
    assert_eq!(a.get(&r1), b.get(&r1));
    assert_eq!(a.get(&r2), b.get(&r2));
}

#[test]
fn last_vault_of_a_resource_wins() {
    let mut ledger = Ledger::new();
    let c = addr(3);
    let r1 = resource(11);
    add_component(&mut ledger, &c, &[store_id(1), store_id(2)]);
    add_store(&mut ledger, &c, store_id(1), vec![owning(&[fungible_vault(1)])]);
    add_store(
        &mut ledger,
        &c,
        store_id(2),
        vec![owning(&[fungible_vault(2)]), owning(&[fungible_vault(3)])],
    );
    add_vault(&mut ledger, &c, fungible_vault(1), &r1, 10, None);
    add_vault(&mut ledger, &c, fungible_vault(2), &r1, 20, None);
    add_vault(&mut ledger, &c, fungible_vault(3), &r1, 30, None);
    add_resource(&mut ledger, &r1, ResourceKind::Fungible);
    let index = get_account_vaults(&ledger, &c).unwrap();
    assert_eq!(index.holdings.len(), 3);
    assert_eq!(index.get(&r1), Some(&Contents::Amount(Decimal { attos: 30 })));
    assert_eq!(get_amount_for_rd(&ledger, &c, &r1), Ok(Decimal { attos: 30 }));
}

#[test]
fn absent_resource_defaults() {
    let (ledger, c, _, _) = two_vault_ledger();
    let other = resource(77);
    assert_eq!(get_amount_for_rd(&ledger, &c, &other), Ok(Decimal::zero()));
    assert_eq!(get_non_fungible_keys_for_rd(&ledger, &c, &other), Ok(vec![]));
}

#[test]
fn malformed_root_state() {
    let mut ledger = Ledger::new();
    let c = addr(4);
    ledger.components.push(ComponentRecord { address: c.clone(), state: vec![1, 2, 3] });
    assert_eq!(get_account_vaults(&ledger, &c).err(), Some(Fault::MalformedState));
}

#[test]
fn malformed_entry_state() {
    let mut ledger = Ledger::new();
    let c = addr(5);
    add_component(&mut ledger, &c, &[store_id(1)]);
    add_store(&mut ledger, &c, store_id(1), vec![vec![0xff]]);
    assert_eq!(get_account_vaults(&ledger, &c).err(), Some(Fault::MalformedState));
}

#[test]
fn missing_store_is_not_found() {
    let mut ledger = Ledger::new();
    let c = addr(6);
    add_component(&mut ledger, &c, &[store_id(1)]);
    assert_eq!(get_account_vaults(&ledger, &c).err(), Some(Fault::NotFound));
    assert_eq!(get_lazymap_info(&ledger, &c, &store_id(1).to_vec()).err(), Some(Fault::NotFound));
}

#[test]
fn missing_vault_or_resource_is_not_found() {
    let (mut ledger, c, r1, _) = two_vault_ledger();
    assert_eq!(get_vault_info(&ledger, &c, &fungible_vault(9).to_vec()).err(), Some(Fault::NotFound));
    ledger.resources.retain(|r| r.address != r1);
    assert_eq!(get_vault_info(&ledger, &c, &fungible_vault(1).to_vec()).err(), Some(Fault::NotFound));
    assert_eq!(get_account_vaults(&ledger, &c).err(), Some(Fault::NotFound));
}

#[test]
fn non_fungible_vault_without_items_is_inconsistent() {
    let mut ledger = Ledger::new();
    let c = addr(7);
    let r2 = resource(12);
    add_component(&mut ledger, &c, &[store_id(1)]);
    add_store(&mut ledger, &c, store_id(1), vec![owning(&[non_fungible_vault(1)])]);
    add_vault(&mut ledger, &c, non_fungible_vault(1), &r2, 0, None);
    add_resource(&mut ledger, &r2, ResourceKind::NonFungible);
    assert_eq!(get_account_vaults(&ledger, &c).err(), Some(Fault::InconsistentVault));
    assert_eq!(
        get_non_fungible_keys_for_rd(&ledger, &c, &r2),
        Err(QueryError::Ledger(Fault::InconsistentVault))
    );
}

#[test]
fn vault_info_reports_resource_and_contents() {
    let (ledger, c, r1, r2) = two_vault_ledger();
    let (res, contents) = get_vault_info(&ledger, &c, &fungible_vault(1).to_vec()).unwrap();
    assert_eq!(res, r1);
    assert_eq!(contents, Contents::Amount(Decimal { attos: 500 * UNIT }));
    let (res, contents) = get_vault_info(&ledger, &c, &non_fungible_vault(2).to_vec()).unwrap();
    assert_eq!(res, r2);
    assert_eq!(contents, Contents::NonFungibleKeys(vec![key(1), key(3)]));
}

#[test]
fn store_walk_flattens_entries() {
    let mut ledger = Ledger::new();
    let c = addr(8);
    let r1 = resource(11);
    let r3 = resource(13);
    add_store(
        &mut ledger,
        &c,
        store_id(1),
        vec![owning(&[]), owning(&[fungible_vault(1)]), owning(&[fungible_vault(2)])],
    );
    add_vault(&mut ledger, &c, fungible_vault(1), &r1, 1, None);
    add_vault(&mut ledger, &c, fungible_vault(2), &r3, 2, None);
    add_resource(&mut ledger, &r1, ResourceKind::Fungible);
    add_resource(&mut ledger, &r3, ResourceKind::Fungible);
    let hs = get_lazymap_info(&ledger, &c, &store_id(1).to_vec()).unwrap();
    assert_eq!(
        hs,
        vec![
            (r1.clone(), Contents::Amount(Decimal { attos: 1 })),
            (r3.clone(), Contents::Amount(Decimal { attos: 2 })),
        ]
    );
}

#[test]
fn validation_sorts_owned_nodes() {
    let state = owning(&[fungible_vault(1), store_id(2), non_fungible_vault(3), addr_node(4)]);
    let v = validate_data(&state).unwrap();
    assert_eq!(v.stores, vec![store_id(2).to_vec()]);
    assert_eq!(v.vaults, vec![fungible_vault(1).to_vec(), non_fungible_vault(3).to_vec()]);
    assert_eq!(validate_data(&vec![]).err(), Some(Fault::MalformedState));
}

fn addr_node(tag: u8) -> NodeId {
    node(EntityType::GlobalGenericComponent, tag)
}
