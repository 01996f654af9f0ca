//! Validation of encoded state: which key-value stores and which vaults an
//! encoded value owns.
use vstd::prelude::*;

use crate::ledger::{bytes_view, copy_bytes, Fault};
use scrypto::types::{IndexedScryptoValue, NodeId};

verus! {

/// The ids of the nodes that an encoded value owns, in the order in which they
/// occur in it; `None` where the bytes are not a well-formed encoded value.
pub uninterp spec fn owned_nodes_of(state: Seq<u8>) -> Option<Seq<Seq<u8>>>;

/// Whether a node id names a key-value store owned by a component.
pub uninterp spec fn is_store_node(id: Seq<u8>) -> bool;

/// Whether a node id names a vault owned by a component.
pub uninterp spec fn is_vault_node(id: Seq<u8>) -> bool;

/// Relies on `IndexedScryptoValue::from_slice`, which decodes a value and
/// collects the nodes it owns, and on `IndexedScryptoValue::owned_nodes`, which
/// hands them out in order. Decoding depends on the bytes alone.
#[verifier::external_body]
fn decode_owned_nodes(state: &Vec<u8>) -> (r: Option<Vec<Vec<u8>>>)
    ensures
        match r {
            Some(v) => owned_nodes_of(state@) == Some(bytes_view(v@)),
            None => owned_nodes_of(state@) is None,
        },
{
    match IndexedScryptoValue::from_slice(state.as_slice()) {
        Ok(v) => Some(v.owned_nodes().iter().map(|n| n.to_vec()).collect()),
        Err(_) => None,
    }
}

/// Relies on `NodeId::is_internal_kv_store`: the entity type that leads the id
/// is that of a key-value store. An id that is no node id is none.
#[verifier::external_body]
fn node_is_store(id: &Vec<u8>) -> (r: bool)
    ensures
        r == is_store_node(id@),
{
    match <[u8; 30]>::try_from(id.as_slice()) {
        Ok(bytes) => NodeId(bytes).is_internal_kv_store(),
        Err(_) => false,
    }
}

/// Relies on `NodeId::is_internal_vault`: the entity type that leads the id is
/// that of a fungible or a non-fungible vault. An id that is no node id is none.
#[verifier::external_body]
fn node_is_vault(id: &Vec<u8>) -> (r: bool)
    ensures
        r == is_vault_node(id@),
{
    match <[u8; 30]>::try_from(id.as_slice()) {
        Ok(bytes) => NodeId(bytes).is_internal_vault(),
        Err(_) => false,
    }
}

/// The owned nodes that are key-value stores, in order.
pub open spec fn store_refs(nodes: Seq<Seq<u8>>) -> Seq<Seq<u8>>
    decreases nodes.len(),
{
    if nodes.len() == 0 {
        Seq::empty()
    } else if is_store_node(nodes.last()) {
        store_refs(nodes.drop_last()).push(nodes.last())
    } else {
        store_refs(nodes.drop_last())
    }
}

/// The owned nodes that are vaults, in order.
pub open spec fn vault_refs(nodes: Seq<Seq<u8>>) -> Seq<Seq<u8>>
    decreases nodes.len(),
{
    if nodes.len() == 0 {
        Seq::empty()
    } else if is_vault_node(nodes.last()) {
        vault_refs(nodes.drop_last()).push(nodes.last())
    } else {
        vault_refs(nodes.drop_last())
    }
}

/// The references that validated state holds.
pub struct StateRefs {
    pub stores: Seq<Seq<u8>>,
    pub vaults: Seq<Seq<u8>>,
}

/// The references held by an encoded state, or `None` where it is malformed.
pub open spec fn validated_of(state: Seq<u8>) -> Option<StateRefs> {
    match owned_nodes_of(state) {
        Some(nodes) => Some(StateRefs { stores: store_refs(nodes), vaults: vault_refs(nodes) }),
        None => None,
    }
}

/// Encoded state once validated: the key-value stores and the vaults it owns.
pub struct ValidatedState {
    pub stores: Vec<Vec<u8>>,
    pub vaults: Vec<Vec<u8>>,
}

impl View for ValidatedState {
    type V = StateRefs;

    open spec fn view(&self) -> StateRefs {
        StateRefs { stores: bytes_view(self.stores@), vaults: bytes_view(self.vaults@) }
    }
}

/// Validates an encoded state and sorts the nodes it owns into key-value
/// stores and vaults.
pub fn validate_data(state: &Vec<u8>) -> (r: Result<ValidatedState, Fault>)
    ensures
        match r {
            Ok(v) => validated_of(state@) == Some(v@),
            Err(e) => validated_of(state@) is None && e == Fault::MalformedState,
        },
{
    let nodes = match decode_owned_nodes(state) {
        Some(n) => n,
        None => return Err(Fault::MalformedState),
    };
    let ghost ns = bytes_view(nodes@);
    let mut stores: Vec<Vec<u8>> = Vec::new();
    let mut vaults: Vec<Vec<u8>> = Vec::new();
    let mut i: usize = 0;
    while i < nodes.len()
        invariant
            i <= nodes.len(),
            ns == bytes_view(nodes@),
            bytes_view(stores@) == store_refs(ns.take(i as int)),
            bytes_view(vaults@) == vault_refs(ns.take(i as int)),
        decreases nodes.len() - i,
    {
        let ghost before = ns.take(i as int);
        assert(ns.take(i + 1).drop_last() =~= before);
        assert(ns.take(i + 1).last() == nodes@[i as int]@);
        if node_is_store(&nodes[i]) {
            stores.push(copy_bytes(&nodes[i]));
        }
        if node_is_vault(&nodes[i]) {
            vaults.push(copy_bytes(&nodes[i]));
        }
        assert(bytes_view(stores@) =~= store_refs(ns.take(i + 1)));
        assert(bytes_view(vaults@) =~= vault_refs(ns.take(i + 1)));
        i = i + 1;
    }
    assert(ns.take(nodes.len() as int) =~= ns);
    Ok(ValidatedState { stores, vaults })
}

} // verus!
