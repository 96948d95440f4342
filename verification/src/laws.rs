//! The library's laws, stated and proved once over the spec-level models
//! that the executable functions' contracts use.

use vstd::prelude::*;
use crate::records::{FarmerModel, enc_farmer, lemma_enc_farmer_inj};
use crate::records::{ProductModel, enc_product, lemma_enc_product_inj};
use crate::records::{WholesalerModel, enc_wholesaler, lemma_enc_wholesaler_inj};
use crate::records::{SupplyOrderModel, enc_supply_order, lemma_enc_supply_order_inj};
use crate::store::Store;

verus! {

/// The one farmer model a byte run can encode, if it encodes any.
pub open spec fn dec_farmer(b: Seq<u8>) -> Option<FarmerModel> {
    if exists|m: FarmerModel| b == enc_farmer(m) {
        Some(choose|m: FarmerModel| b == enc_farmer(m))
    } else {
        None
    }
}

/// The one product model a byte run can encode, if it encodes any.
pub open spec fn dec_product(b: Seq<u8>) -> Option<ProductModel> {
    if exists|m: ProductModel| b == enc_product(m) {
        Some(choose|m: ProductModel| b == enc_product(m))
    } else {
        None
    }
}

/// The one wholesaler model a byte run can encode, if it encodes any.
pub open spec fn dec_wholesaler(b: Seq<u8>) -> Option<WholesalerModel> {
    if exists|m: WholesalerModel| b == enc_wholesaler(m) {
        Some(choose|m: WholesalerModel| b == enc_wholesaler(m))
    } else {
        None
    }
}

/// The one supply-order model a byte run can encode, if it encodes any.
pub open spec fn dec_supply_order(b: Seq<u8>) -> Option<SupplyOrderModel> {
    if exists|m: SupplyOrderModel| b == enc_supply_order(m) {
        Some(choose|m: SupplyOrderModel| b == enc_supply_order(m))
    } else {
        None
    }
}

/// Law: decoding inverts encoding. Every farmer model whose encoding is
/// short enough to address decodes back to exactly itself.
pub proof fn lemma_farmer_round_trip(m: FarmerModel)
    requires
        enc_farmer(m).len() < 0x1_0000_0000_0000_0000,
    ensures
        dec_farmer(enc_farmer(m)) == Some(m),
{
    let b = enc_farmer(m);
    let m2 = choose|m2: FarmerModel| b == enc_farmer(m2);
    lemma_enc_farmer_inj(b, m2, m);
}

/// Law: decoding inverts encoding, for products.
pub proof fn lemma_product_round_trip(m: ProductModel)
    requires
        enc_product(m).len() < 0x1_0000_0000_0000_0000,
    ensures
        dec_product(enc_product(m)) == Some(m),
{
    let b = enc_product(m);
    let m2 = choose|m2: ProductModel| b == enc_product(m2);
    lemma_enc_product_inj(b, m2, m);
}

/// Law: decoding inverts encoding, for wholesalers.
pub proof fn lemma_wholesaler_round_trip(m: WholesalerModel)
    requires
        enc_wholesaler(m).len() < 0x1_0000_0000_0000_0000,
    ensures
        dec_wholesaler(enc_wholesaler(m)) == Some(m),
{
    let b = enc_wholesaler(m);
    let m2 = choose|m2: WholesalerModel| b == enc_wholesaler(m2);
    lemma_enc_wholesaler_inj(b, m2, m);
}

/// Law: decoding inverts encoding, for supply orders.
pub proof fn lemma_supply_order_round_trip(m: SupplyOrderModel)
    requires
        enc_supply_order(m).len() < 0x1_0000_0000_0000_0000,
    ensures
        dec_supply_order(enc_supply_order(m)) == Some(m),
{
    let b = enc_supply_order(m);
    let m2 = choose|m2: SupplyOrderModel| b == enc_supply_order(m2);
    lemma_enc_supply_order_inj(b, m2, m);
}

/// Law: ids handed out by creates strictly increase and never repeat.
/// A create returns the counter's value and leaves the counter one
/// higher; every other handler leaves the counter unchanged, so however
/// many operations — deletes included — run between two creates, the
/// counter at the second is at least one past the first id.
pub proof fn lemma_create_ids_strictly_increase(c1: u64, c2: u64, id1: u64, id2: u64)
    requires
        id1 == c1,
        c2 >= c1 + 1,
        id2 == c2,
    ensures
        id2 > id1,
{
}

/// Law: read after write. Storing a value under a key makes a read of
/// that key yield exactly that value, and leaves every other key as it
/// was — so the read stays the same until the next insert or remove of
/// the same key.
pub proof fn lemma_read_after_write(m: Map<u64, Seq<u8>>, k: u64, v: Seq<u8>, k2: u64)
    ensures
        m.insert(k, v).contains_key(k),
        m.insert(k, v)[k] == v,
        k2 != k ==> m.insert(k, v).contains_key(k2) == m.contains_key(k2),
        k2 != k && m.contains_key(k2) ==> m.insert(k, v)[k2] == m[k2],
{
}

/// Law: removing an absent key returns nothing and leaves the map
/// exactly as it was.
pub proof fn lemma_remove_absent_key(m: Map<u64, Seq<u8>>, k: u64)
    requires
        !m.contains_key(k),
    ensures
        m.remove(k) == m,
{
    assert(m.remove(k) =~= m);
}

/// Law: an id the allocator has not yet handed out is absent from every
/// map of a well-formed store, so reading it yields the not-found error.
pub proof fn lemma_unallocated_id_absent(s: Store, id: u64)
    requires
        s.wf(),
        id >= s.next_id(),
    ensures
        !s.farmer_map().contains_key(id),
        !s.product_map().contains_key(id),
        !s.wholesaler_map().contains_key(id),
        !s.order_map().contains_key(id),
{
    if s.farmer_map().contains_key(id) {
        assert(id < s.next_id());
    }
    if s.product_map().contains_key(id) {
        assert(id < s.next_id());
    }
    if s.wholesaler_map().contains_key(id) {
        assert(id < s.next_id());
    }
    if s.order_map().contains_key(id) {
        assert(id < s.next_id());
    }
}

} // verus!
