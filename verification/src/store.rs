//! The store: one identifier allocator and four persisted maps, with the
//! CRUD handlers of the domain.
//!
//! Every handler reads whole records through the codec and writes whole
//! records back, so the maps only ever hold codec-produced bytes. The
//! store's well-formedness (`wf`) pins that down: every stored value is
//! the encoding of a record whose id equals its key, and every key was
//! handed out by the allocator before.
//!
//! Handlers that stamp a record take the current time as a plain `now`
//! argument: the host's clock is an outside capability, so the caller at
//! the host boundary reads it and hands the value in.

use vstd::prelude::*;
use crate::codec::{str_views, pair_views};
use crate::decimal::format_id_message;
use crate::records::{Farmer, FarmerModel, FarmerPayload, enc_farmer, encode_farmer,
    decode_farmer, lemma_enc_farmer_inj};
use crate::records::{Product, ProductModel, ProductPayload, enc_product, encode_product,
    decode_product, lemma_enc_product_inj};
use crate::records::{Wholesaler, WholesalerModel, WholesalerPayload, enc_wholesaler,
    encode_wholesaler, decode_wholesaler, lemma_enc_wholesaler_inj};
use crate::records::{SupplyOrder, SupplyOrderModel, SupplyOrderPayload,
    AddSupplyOrderWholesalerPayload, enc_supply_order, encode_supply_order, decode_supply_order,
    lemma_enc_supply_order_inj};
use crate::storage::{StableCounter, StableMap, counter_value, map_entries, entries_of,
    fresh_partitions};

verus! {

/// The ways a handler can fail.
#[derive(Debug, Clone)]
pub enum Error {
    NotFound { msg: String },
    SupplyOrderNotFound { msg: String },
}

/// The store: the allocator's counter cell and one map per entity.
pub struct Store {
    pub counter: StableCounter,
    pub farmers: StableMap,
    pub products: StableMap,
    pub wholesalers: StableMap,
    pub orders: StableMap,
}

/// The value under `k` is a farmer encoding whose id field is `k`.
pub open spec fn farmer_entry_ok(v: Seq<u8>, k: u64) -> bool {
    exists|m: FarmerModel| v == enc_farmer(m) && m.id == k
}

/// The value under `k` is a product encoding whose id field is `k`.
pub open spec fn product_entry_ok(v: Seq<u8>, k: u64) -> bool {
    exists|m: ProductModel| v == enc_product(m) && m.id == k
}

/// The value under `k` is a wholesaler encoding whose id field is `k`.
pub open spec fn wholesaler_entry_ok(v: Seq<u8>, k: u64) -> bool {
    exists|m: WholesalerModel| v == enc_wholesaler(m) && m.id == k
}

/// The value under `k` is a supply-order encoding whose id field is `k`.
pub open spec fn order_entry_ok(v: Seq<u8>, k: u64) -> bool {
    exists|m: SupplyOrderModel| v == enc_supply_order(m) && m.id == k
}

impl Store {
    /// The id the allocator will hand out next.
    pub open spec fn next_id(self) -> u64 {
        counter_value(self.counter)
    }

    pub open spec fn farmer_map(self) -> Map<u64, Seq<u8>> {
        map_entries(self.farmers)
    }

    pub open spec fn product_map(self) -> Map<u64, Seq<u8>> {
        map_entries(self.products)
    }

    pub open spec fn wholesaler_map(self) -> Map<u64, Seq<u8>> {
        map_entries(self.wholesalers)
    }

    pub open spec fn order_map(self) -> Map<u64, Seq<u8>> {
        map_entries(self.orders)
    }

    /// Every stored value is the encoding of a record whose id equals its
    /// key, and every key is below the allocator's next id.
    pub open spec fn wf(self) -> bool {
        &&& forall|k: u64|
            #![trigger self.farmer_map().contains_key(k)]
            self.farmer_map().contains_key(k) ==> k < self.next_id() && farmer_entry_ok(
                self.farmer_map()[k],
                k,
            )
        &&& forall|k: u64|
            #![trigger self.product_map().contains_key(k)]
            self.product_map().contains_key(k) ==> k < self.next_id() && product_entry_ok(
                self.product_map()[k],
                k,
            )
        &&& forall|k: u64|
            #![trigger self.wholesaler_map().contains_key(k)]
            self.wholesaler_map().contains_key(k) ==> k < self.next_id() && wholesaler_entry_ok(
                self.wholesaler_map()[k],
                k,
            )
        &&& forall|k: u64|
            #![trigger self.order_map().contains_key(k)]
            self.order_map().contains_key(k) ==> k < self.next_id() && order_entry_ok(
                self.order_map()[k],
                k,
            )
    }

    /// A store over fresh partitions: no records, and ids start at 0.
    pub fn new() -> (s: Store)
        ensures
            s.wf(),
            s.next_id() == 0,
            s.farmer_map() == Map::<u64, Seq<u8>>::empty(),
            s.product_map() == Map::<u64, Seq<u8>>::empty(),
            s.wholesaler_map() == Map::<u64, Seq<u8>>::empty(),
            s.order_map() == Map::<u64, Seq<u8>>::empty(),
    {
        let (counter, farmers, products, wholesalers, orders) = fresh_partitions();
        Store { counter, farmers, products, wholesalers, orders }
    }
}

/// Growing the allocator without touching the maps keeps the store
/// well-formed.
pub proof fn lemma_wf_counter_grow(pre: Store, post: Store)
    requires
        pre.wf(),
        post.farmers == pre.farmers,
        post.products == pre.products,
        post.wholesalers == pre.wholesalers,
        post.orders == pre.orders,
        post.next_id() >= pre.next_id(),
    ensures
        post.wf(),
{
    assert forall|j: u64| post.farmer_map().contains_key(j) implies j < post.next_id()
        && farmer_entry_ok(post.farmer_map()[j], j) by {
        assert(pre.farmer_map().contains_key(j));
        assert(pre.farmer_map()[j] == post.farmer_map()[j]);
    }
    assert forall|j: u64| post.product_map().contains_key(j) implies j < post.next_id()
        && product_entry_ok(post.product_map()[j], j) by {
        assert(pre.product_map().contains_key(j));
        assert(pre.product_map()[j] == post.product_map()[j]);
    }
    assert forall|j: u64| post.wholesaler_map().contains_key(j) implies j < post.next_id()
        && wholesaler_entry_ok(post.wholesaler_map()[j], j) by {
        assert(pre.wholesaler_map().contains_key(j));
        assert(pre.wholesaler_map()[j] == post.wholesaler_map()[j]);
    }
    assert forall|j: u64| post.order_map().contains_key(j) implies j < post.next_id()
        && order_entry_ok(post.order_map()[j], j) by {
        assert(pre.order_map().contains_key(j));
        assert(pre.order_map()[j] == post.order_map()[j]);
    }
}

/// Inserting a well-formed farmer entry under an allocated key keeps the
/// store well-formed.
pub proof fn lemma_wf_farmer_insert(pre: Store, post: Store, k: u64, v: Seq<u8>)
    requires
        pre.wf(),
        post.farmer_map() == pre.farmer_map().insert(k, v),
        post.products == pre.products,
        post.wholesalers == pre.wholesalers,
        post.orders == pre.orders,
        post.next_id() == pre.next_id(),
        k < pre.next_id(),
        farmer_entry_ok(v, k),
    ensures
        post.wf(),
{
    assert forall|j: u64| post.farmer_map().contains_key(j) implies j < post.next_id()
        && farmer_entry_ok(post.farmer_map()[j], j) by {
        if j != k {
            assert(pre.farmer_map().contains_key(j));
        }
    }
    assert forall|j: u64| post.product_map().contains_key(j) implies j < post.next_id()
        && product_entry_ok(post.product_map()[j], j) by {
        assert(pre.product_map().contains_key(j));
        assert(pre.product_map()[j] == post.product_map()[j]);
    }
    assert forall|j: u64| post.wholesaler_map().contains_key(j) implies j < post.next_id()
        && wholesaler_entry_ok(post.wholesaler_map()[j], j) by {
        assert(pre.wholesaler_map().contains_key(j));
        assert(pre.wholesaler_map()[j] == post.wholesaler_map()[j]);
    }
    assert forall|j: u64| post.order_map().contains_key(j) implies j < post.next_id()
        && order_entry_ok(post.order_map()[j], j) by {
        assert(pre.order_map().contains_key(j));
        assert(pre.order_map()[j] == post.order_map()[j]);
    }
}

/// Inserting a well-formed product entry under an allocated key keeps the
/// store well-formed.
pub proof fn lemma_wf_product_insert(pre: Store, post: Store, k: u64, v: Seq<u8>)
    requires
        pre.wf(),
        post.product_map() == pre.product_map().insert(k, v),
        post.farmers == pre.farmers,
        post.wholesalers == pre.wholesalers,
        post.orders == pre.orders,
        post.next_id() == pre.next_id(),
        k < pre.next_id(),
        product_entry_ok(v, k),
    ensures
        post.wf(),
{
    assert forall|j: u64| post.farmer_map().contains_key(j) implies j < post.next_id()
        && farmer_entry_ok(post.farmer_map()[j], j) by {
        assert(pre.farmer_map().contains_key(j));
        assert(pre.farmer_map()[j] == post.farmer_map()[j]);
    }
    assert forall|j: u64| post.product_map().contains_key(j) implies j < post.next_id()
        && product_entry_ok(post.product_map()[j], j) by {
        if j != k {
            assert(pre.product_map().contains_key(j));
        }
    }
    assert forall|j: u64| post.wholesaler_map().contains_key(j) implies j < post.next_id()
        && wholesaler_entry_ok(post.wholesaler_map()[j], j) by {
        assert(pre.wholesaler_map().contains_key(j));
        assert(pre.wholesaler_map()[j] == post.wholesaler_map()[j]);
    }
    assert forall|j: u64| post.order_map().contains_key(j) implies j < post.next_id()
        && order_entry_ok(post.order_map()[j], j) by {
        assert(pre.order_map().contains_key(j));
        assert(pre.order_map()[j] == post.order_map()[j]);
    }
}

/// Inserting a well-formed wholesaler entry under an allocated key keeps
/// the store well-formed.
pub proof fn lemma_wf_wholesaler_insert(pre: Store, post: Store, k: u64, v: Seq<u8>)
    requires
        pre.wf(),
        post.wholesaler_map() == pre.wholesaler_map().insert(k, v),
        post.farmers == pre.farmers,
        post.products == pre.products,
        post.orders == pre.orders,
        post.next_id() == pre.next_id(),
        k < pre.next_id(),
        wholesaler_entry_ok(v, k),
    ensures
        post.wf(),
{
    assert forall|j: u64| post.farmer_map().contains_key(j) implies j < post.next_id()
        && farmer_entry_ok(post.farmer_map()[j], j) by {
        assert(pre.farmer_map().contains_key(j));
        assert(pre.farmer_map()[j] == post.farmer_map()[j]);
    }
    assert forall|j: u64| post.product_map().contains_key(j) implies j < post.next_id()
        && product_entry_ok(post.product_map()[j], j) by {
        assert(pre.product_map().contains_key(j));
        assert(pre.product_map()[j] == post.product_map()[j]);
    }
    assert forall|j: u64| post.wholesaler_map().contains_key(j) implies j < post.next_id()
        && wholesaler_entry_ok(post.wholesaler_map()[j], j) by {
        if j != k {
            assert(pre.wholesaler_map().contains_key(j));
        }
    }
    assert forall|j: u64| post.order_map().contains_key(j) implies j < post.next_id()
        && order_entry_ok(post.order_map()[j], j) by {
        assert(pre.order_map().contains_key(j));
        assert(pre.order_map()[j] == post.order_map()[j]);
    }
}

/// Inserting a well-formed supply-order entry under an allocated key keeps
/// the store well-formed.
pub proof fn lemma_wf_order_insert(pre: Store, post: Store, k: u64, v: Seq<u8>)
    requires
        pre.wf(),
        post.order_map() == pre.order_map().insert(k, v),
        post.farmers == pre.farmers,
        post.products == pre.products,
        post.wholesalers == pre.wholesalers,
        post.next_id() == pre.next_id(),
        k < pre.next_id(),
        order_entry_ok(v, k),
    ensures
        post.wf(),
{
    assert forall|j: u64| post.farmer_map().contains_key(j) implies j < post.next_id()
        && farmer_entry_ok(post.farmer_map()[j], j) by {
        assert(pre.farmer_map().contains_key(j));
        assert(pre.farmer_map()[j] == post.farmer_map()[j]);
    }
    assert forall|j: u64| post.product_map().contains_key(j) implies j < post.next_id()
        && product_entry_ok(post.product_map()[j], j) by {
        assert(pre.product_map().contains_key(j));
        assert(pre.product_map()[j] == post.product_map()[j]);
    }
    assert forall|j: u64| post.wholesaler_map().contains_key(j) implies j < post.next_id()
        && wholesaler_entry_ok(post.wholesaler_map()[j], j) by {
        assert(pre.wholesaler_map().contains_key(j));
        assert(pre.wholesaler_map()[j] == post.wholesaler_map()[j]);
    }
    assert forall|j: u64| post.order_map().contains_key(j) implies j < post.next_id()
        && order_entry_ok(post.order_map()[j], j) by {
        if j != k {
            assert(pre.order_map().contains_key(j));
        }
    }
}

/// Removing a supply-order entry keeps the store well-formed.
pub proof fn lemma_wf_order_remove(pre: Store, post: Store, k: u64)
    requires
        pre.wf(),
        post.order_map() == pre.order_map().remove(k),
        post.farmers == pre.farmers,
        post.products == pre.products,
        post.wholesalers == pre.wholesalers,
        post.next_id() == pre.next_id(),
    ensures
        post.wf(),
{
    assert forall|j: u64| post.farmer_map().contains_key(j) implies j < post.next_id()
        && farmer_entry_ok(post.farmer_map()[j], j) by {
        assert(pre.farmer_map().contains_key(j));
        assert(pre.farmer_map()[j] == post.farmer_map()[j]);
    }
    assert forall|j: u64| post.product_map().contains_key(j) implies j < post.next_id()
        && product_entry_ok(post.product_map()[j], j) by {
        assert(pre.product_map().contains_key(j));
        assert(pre.product_map()[j] == post.product_map()[j]);
    }
    assert forall|j: u64| post.wholesaler_map().contains_key(j) implies j < post.next_id()
        && wholesaler_entry_ok(post.wholesaler_map()[j], j) by {
        assert(pre.wholesaler_map().contains_key(j));
        assert(pre.wholesaler_map()[j] == post.wholesaler_map()[j]);
    }
    assert forall|j: u64| post.order_map().contains_key(j) implies j < post.next_id()
        && order_entry_ok(post.order_map()[j], j) by {
        assert(pre.order_map().contains_key(j));
        assert(pre.order_map()[j] == post.order_map()[j]);
    }
}

/// The record a farmer create builds from its payload.
pub open spec fn new_farmer_model(p: FarmerPayload, id: u64, now: u64) -> FarmerModel {
    FarmerModel {
        id,
        name: p.name@,
        email: p.email@,
        phone: p.phone@,
        product_ids: Seq::empty(),
        created_at: now,
        updated_at: None,
    }
}

impl Store {
    /// Read a farmer straight from the map.
    pub fn _get_farmer(&self, id: &u64) -> (r: Option<Farmer>)
        requires
            self.wf(),
        ensures
            r matches Some(f) ==> self.farmer_map().contains_key(*id) && self.farmer_map()[*id]
                == enc_farmer(f@) && f@.id == *id,
            r is None ==> !self.farmer_map().contains_key(*id),
    {
        match self.farmers.get(*id) {
            None => None,
            Some(bytes) => {
                proof {
                    assert(farmer_entry_ok(self.farmer_map()[*id], *id));
                }
                let f = decode_farmer(&bytes);
                proof {
                    let m1 = choose|m: FarmerModel|
                        bytes@ == enc_farmer(m) && m.id == *id;
                    assert(bytes@ == enc_farmer(m1));
                }
                match f {
                    Some(farmer) => Some(farmer),
                    None => {
                        proof {
                            assert(false);
                        }
                        None
                    },
                }
            },
        }
    }

    /// Write a farmer under its own id.
    pub fn _insert_farmer(&mut self, farmer: &Farmer)
        requires
            old(self).wf(),
            farmer.id < old(self).next_id(),
        ensures
            final(self).wf(),
            final(self).next_id() == old(self).next_id(),
            final(self).farmer_map() == old(self).farmer_map().insert(
                farmer.id,
                enc_farmer(farmer@),
            ),
            final(self).product_map() == old(self).product_map(),
            final(self).wholesaler_map() == old(self).wholesaler_map(),
            final(self).order_map() == old(self).order_map(),
    {
        let bytes = encode_farmer(farmer);
        self.farmers.insert(farmer.id, bytes);
        proof {
            lemma_wf_farmer_insert(*old(self), *self, farmer.id, enc_farmer(farmer@));
        }
    }

    /// Look a farmer up; absence is a not-found error.
    pub fn get_farmer(&self, id: u64) -> (r: Result<Farmer, Error>)
        requires
            self.wf(),
        ensures
            r matches Ok(f) ==> self.farmer_map().contains_key(id) && self.farmer_map()[id]
                == enc_farmer(f@) && f@.id == id,
            r matches Err(e) ==> !self.farmer_map().contains_key(id) && e is NotFound,
    {
        match self._get_farmer(&id) {
            Some(farmer) => Ok(farmer),
            None => Err(
                Error::NotFound { msg: format_id_message("Farmer with id:", id, " not found") },
            ),
        }
    }

    /// Allocate an id, build the farmer from the payload, and store it.
    pub fn add_farmer(&mut self, payload: FarmerPayload, now: u64) -> (r: Result<Farmer, Error>)
        requires
            old(self).wf(),
            old(self).next_id() < u64::MAX,
        ensures
            final(self).wf(),
            final(self).next_id() == old(self).next_id() + 1,
            r matches Ok(f) && f@ == new_farmer_model(payload, old(self).next_id(), now),
            final(self).farmer_map() == old(self).farmer_map().insert(
                old(self).next_id(),
                enc_farmer(new_farmer_model(payload, old(self).next_id(), now)),
            ),
            final(self).product_map() == old(self).product_map(),
            final(self).wholesaler_map() == old(self).wholesaler_map(),
            final(self).order_map() == old(self).order_map(),
    {
        let id = self.counter.get();
        let _prev = self.counter.set(id + 1);
        let farmer = Farmer {
            id,
            name: payload.name,
            email: payload.email,
            phone: payload.phone,
            product_ids: Vec::new(),
            created_at: now,
            updated_at: None,
        };
        proof {
            assert(farmer@ == new_farmer_model(payload, old(self).next_id(), now));
            lemma_wf_counter_grow(*old(self), *self);
        }
        self._insert_farmer(&farmer);
        Ok(farmer)
    }
}

/// The record a product create builds from its payload.
pub open spec fn new_product_model(p: ProductPayload, id: u64, now: u64) -> ProductModel {
    ProductModel {
        id,
        name: p.name@,
        description: p.description@,
        farmer_id: p.farmer_id,
        created_at: now,
        updated_at: None,
    }
}

impl Store {
    /// Read a product straight from the map.
    pub fn _get_product(&self, id: &u64) -> (r: Option<Product>)
        requires
            self.wf(),
        ensures
            r matches Some(f) ==> self.product_map().contains_key(*id) && self.product_map()[*id]
                == enc_product(f@) && f@.id == *id,
            r is None ==> !self.product_map().contains_key(*id),
    {
        match self.products.get(*id) {
            None => None,
            Some(bytes) => {
                proof {
                    assert(product_entry_ok(self.product_map()[*id], *id));
                }
                let f = decode_product(&bytes);
                proof {
                    let m1 = choose|m: ProductModel|
                        bytes@ == enc_product(m) && m.id == *id;
                    assert(bytes@ == enc_product(m1));
                }
                match f {
                    Some(product) => Some(product),
                    None => {
                        proof {
                            assert(false);
                        }
                        None
                    },
                }
            },
        }
    }

    /// Write a product under its own id.
    pub fn _insert_product(&mut self, product: &Product)
        requires
            old(self).wf(),
            product.id < old(self).next_id(),
        ensures
            final(self).wf(),
            final(self).next_id() == old(self).next_id(),
            final(self).product_map() == old(self).product_map().insert(
                product.id,
                enc_product(product@),
            ),
            final(self).farmer_map() == old(self).farmer_map(),
            final(self).wholesaler_map() == old(self).wholesaler_map(),
            final(self).order_map() == old(self).order_map(),
    {
        let bytes = encode_product(product);
        self.products.insert(product.id, bytes);
        proof {
            lemma_wf_product_insert(*old(self), *self, product.id, enc_product(product@));
        }
    }

    /// Look a product up; absence is a not-found error.
    pub fn get_product(&self, id: u64) -> (r: Result<Product, Error>)
        requires
            self.wf(),
        ensures
            r matches Ok(f) ==> self.product_map().contains_key(id) && self.product_map()[id]
                == enc_product(f@) && f@.id == id,
            r matches Err(e) ==> !self.product_map().contains_key(id) && e is NotFound,
    {
        match self._get_product(&id) {
            Some(product) => Ok(product),
            None => Err(
                Error::NotFound { msg: format_id_message("Product with id:", id, " not found") },
            ),
        }
    }

    /// Allocate an id, build the product from the payload, and store it.
    pub fn add_product(&mut self, payload: ProductPayload, now: u64) -> (r: Result<Product, Error>)
        requires
            old(self).wf(),
            old(self).next_id() < u64::MAX,
        ensures
            final(self).wf(),
            final(self).next_id() == old(self).next_id() + 1,
            r matches Ok(f) && f@ == new_product_model(payload, old(self).next_id(), now),
            final(self).product_map() == old(self).product_map().insert(
                old(self).next_id(),
                enc_product(new_product_model(payload, old(self).next_id(), now)),
            ),
            final(self).farmer_map() == old(self).farmer_map(),
            final(self).wholesaler_map() == old(self).wholesaler_map(),
            final(self).order_map() == old(self).order_map(),
    {
        let id = self.counter.get();
        let _prev = self.counter.set(id + 1);
        let product = Product {
            id,
            name: payload.name,
            description: payload.description,
            farmer_id: payload.farmer_id,
            created_at: now,
            updated_at: None,
        };
        proof {
            assert(product@ == new_product_model(payload, old(self).next_id(), now));
            lemma_wf_counter_grow(*old(self), *self);
        }
        self._insert_product(&product);
        Ok(product)
    }
}

/// The record a wholesaler create builds from its payload.
pub open spec fn new_wholesaler_model(p: WholesalerPayload, id: u64, now: u64) -> WholesalerModel {
    WholesalerModel {
        id,
        name: p.name@,
        email: p.email@,
        phone: p.phone@,
        order_ids: Seq::empty(),
        created_at: now,
        updated_at: None,
    }
}

impl Store {
    /// Read a wholesaler straight from the map.
    pub fn _get_wholesaler(&self, id: &u64) -> (r: Option<Wholesaler>)
        requires
            self.wf(),
        ensures
            r matches Some(f) ==> self.wholesaler_map().contains_key(*id) && self.wholesaler_map()[*id]
                == enc_wholesaler(f@) && f@.id == *id,
            r is None ==> !self.wholesaler_map().contains_key(*id),
    {
        match self.wholesalers.get(*id) {
            None => None,
            Some(bytes) => {
                proof {
                    assert(wholesaler_entry_ok(self.wholesaler_map()[*id], *id));
                }
                let f = decode_wholesaler(&bytes);
                proof {
                    let m1 = choose|m: WholesalerModel|
                        bytes@ == enc_wholesaler(m) && m.id == *id;
                    assert(bytes@ == enc_wholesaler(m1));
                }
                match f {
                    Some(wholesaler) => Some(wholesaler),
                    None => {
                        proof {
                            assert(false);
                        }
                        None
                    },
                }
            },
        }
    }

    /// Write a wholesaler under its own id.
    pub fn _insert_wholesaler(&mut self, wholesaler: &Wholesaler)
        requires
            old(self).wf(),
            wholesaler.id < old(self).next_id(),
        ensures
            final(self).wf(),
            final(self).next_id() == old(self).next_id(),
            final(self).wholesaler_map() == old(self).wholesaler_map().insert(
                wholesaler.id,
                enc_wholesaler(wholesaler@),
            ),
            final(self).farmer_map() == old(self).farmer_map(),
            final(self).product_map() == old(self).product_map(),
            final(self).order_map() == old(self).order_map(),
    {
        let bytes = encode_wholesaler(wholesaler);
        self.wholesalers.insert(wholesaler.id, bytes);
        proof {
            lemma_wf_wholesaler_insert(*old(self), *self, wholesaler.id, enc_wholesaler(wholesaler@));
        }
    }

    /// Look a wholesaler up; absence is a not-found error.
    pub fn get_wholesaler(&self, id: u64) -> (r: Result<Wholesaler, Error>)
        requires
            self.wf(),
        ensures
            r matches Ok(f) ==> self.wholesaler_map().contains_key(id) && self.wholesaler_map()[id]
                == enc_wholesaler(f@) && f@.id == id,
            r matches Err(e) ==> !self.wholesaler_map().contains_key(id) && e is NotFound,
    {
        match self._get_wholesaler(&id) {
            Some(wholesaler) => Ok(wholesaler),
            None => Err(
                Error::NotFound { msg: format_id_message("Wholesaler with id:", id, " not found") },
            ),
        }
    }

    /// Allocate an id, build the wholesaler from the payload, and store it.
    pub fn add_wholesaler(&mut self, payload: WholesalerPayload, now: u64) -> (r: Result<Wholesaler, Error>)
        requires
            old(self).wf(),
            old(self).next_id() < u64::MAX,
        ensures
            final(self).wf(),
            final(self).next_id() == old(self).next_id() + 1,
            r matches Ok(f) && f@ == new_wholesaler_model(payload, old(self).next_id(), now),
            final(self).wholesaler_map() == old(self).wholesaler_map().insert(
                old(self).next_id(),
                enc_wholesaler(new_wholesaler_model(payload, old(self).next_id(), now)),
            ),
            final(self).farmer_map() == old(self).farmer_map(),
            final(self).product_map() == old(self).product_map(),
            final(self).order_map() == old(self).order_map(),
    {
        let id = self.counter.get();
        let _prev = self.counter.set(id + 1);
        let wholesaler = Wholesaler {
            id,
            name: payload.name,
            email: payload.email,
            phone: payload.phone,
            order_ids: Vec::new(),
            created_at: now,
            updated_at: None,
        };
        proof {
            assert(wholesaler@ == new_wholesaler_model(payload, old(self).next_id(), now));
            lemma_wf_counter_grow(*old(self), *self);
        }
        self._insert_wholesaler(&wholesaler);
        Ok(wholesaler)
    }
}


/// The record a supply-order create builds from its payload. The order
/// starts incomplete whatever the payload's flag says.
pub open spec fn new_order_model(p: SupplyOrderPayload, id: u64, now: u64) -> SupplyOrderModel {
    SupplyOrderModel {
        id,
        title: p.title@,
        farmer_id: p.farmer_id,
        wholesaler_id: Some(p.wholesaler_id),
        product_types: str_views(p.product_types@),
        products: pair_views(p.products@),
        is_complete: false,
        created_at: now,
        updated_at: None,
    }
}

/// A stored order with its wholesaler replaced and its update time set.
pub open spec fn with_wholesaler(om: SupplyOrderModel, wid: u64, now: u64) -> SupplyOrderModel {
    SupplyOrderModel { wholesaler_id: Some(wid), updated_at: Some(now), ..om }
}

/// A stored order marked complete, with its update time set.
pub open spec fn with_complete(om: SupplyOrderModel, now: u64) -> SupplyOrderModel {
    SupplyOrderModel { is_complete: true, updated_at: Some(now), ..om }
}

/// A stored order rewritten from an update payload: the id and creation
/// time stay, every caller-supplied field is replaced, and the update time
/// is set.
pub open spec fn updated_order_model(
    om: SupplyOrderModel,
    p: SupplyOrderPayload,
    now: u64,
) -> SupplyOrderModel {
    SupplyOrderModel {
        id: om.id,
        title: p.title@,
        farmer_id: p.farmer_id,
        wholesaler_id: Some(p.wholesaler_id),
        product_types: str_views(p.product_types@),
        products: pair_views(p.products@),
        is_complete: p.is_complete,
        created_at: om.created_at,
        updated_at: Some(now),
    }
}

/// A farmer with one more product id attributed.
pub open spec fn farmer_with_product(fm: FarmerModel, pid: u64) -> FarmerModel {
    FarmerModel { product_ids: fm.product_ids.push(pid), ..fm }
}

/// A wholesaler with one more order id attributed.
pub open spec fn wholesaler_with_order(wm: WholesalerModel, oid: u64) -> WholesalerModel {
    WholesalerModel { order_ids: wm.order_ids.push(oid), ..wm }
}

impl Store {
    /// Read a supply order straight from the map.
    pub fn _get_supply_order(&self, id: &u64) -> (r: Option<SupplyOrder>)
        requires
            self.wf(),
        ensures
            r matches Some(o) ==> self.order_map().contains_key(*id) && self.order_map()[*id]
                == enc_supply_order(o@) && o@.id == *id,
            r is None ==> !self.order_map().contains_key(*id),
    {
        match self.orders.get(*id) {
            None => None,
            Some(bytes) => {
                proof {
                    assert(order_entry_ok(self.order_map()[*id], *id));
                }
                let o = decode_supply_order(&bytes);
                proof {
                    let m1 = choose|m: SupplyOrderModel|
                        bytes@ == enc_supply_order(m) && m.id == *id;
                    assert(bytes@ == enc_supply_order(m1));
                }
                match o {
                    Some(order) => Some(order),
                    None => {
                        proof {
                            assert(false);
                        }
                        None
                    },
                }
            },
        }
    }

    /// Write a supply order under its own id.
    pub fn _insert_supply_order(&mut self, supply_order: &SupplyOrder)
        requires
            old(self).wf(),
            supply_order.id < old(self).next_id(),
        ensures
            final(self).wf(),
            final(self).next_id() == old(self).next_id(),
            final(self).order_map() == old(self).order_map().insert(
                supply_order.id,
                enc_supply_order(supply_order@),
            ),
            final(self).farmer_map() == old(self).farmer_map(),
            final(self).product_map() == old(self).product_map(),
            final(self).wholesaler_map() == old(self).wholesaler_map(),
    {
        let bytes = encode_supply_order(supply_order);
        self.orders.insert(supply_order.id, bytes);
        proof {
            lemma_wf_order_insert(*old(self), *self, supply_order.id, enc_supply_order(supply_order@));
        }
    }

    /// Look a supply order up; absence is a not-found error.
    pub fn get_supply_order(&self, id: u64) -> (r: Result<SupplyOrder, Error>)
        requires
            self.wf(),
        ensures
            r matches Ok(o) ==> self.order_map().contains_key(id) && self.order_map()[id]
                == enc_supply_order(o@) && o@.id == id,
            r matches Err(e) ==> !self.order_map().contains_key(id) && e is NotFound,
    {
        match self._get_supply_order(&id) {
            Some(order) => Ok(order),
            None => Err(
                Error::NotFound { msg: format_id_message("Supply order with id:", id, " not found") },
            ),
        }
    }

    /// Allocate an id, build the order from the payload, and store it.
    pub fn add_supply_order(&mut self, payload: SupplyOrderPayload, now: u64) -> (r: Option<
        SupplyOrder,
    >)
        requires
            old(self).wf(),
            old(self).next_id() < u64::MAX,
        ensures
            final(self).wf(),
            final(self).next_id() == old(self).next_id() + 1,
            r matches Some(o) && o@ == new_order_model(payload, old(self).next_id(), now),
            final(self).order_map() == old(self).order_map().insert(
                old(self).next_id(),
                enc_supply_order(new_order_model(payload, old(self).next_id(), now)),
            ),
            final(self).farmer_map() == old(self).farmer_map(),
            final(self).product_map() == old(self).product_map(),
            final(self).wholesaler_map() == old(self).wholesaler_map(),
    {
        let id = self.counter.get();
        let _prev = self.counter.set(id + 1);
        let supply_order = SupplyOrder {
            id,
            title: payload.title,
            farmer_id: payload.farmer_id,
            wholesaler_id: Some(payload.wholesaler_id),
            product_types: payload.product_types,
            products: payload.products,
            is_complete: false,
            created_at: now,
            updated_at: None,
        };
        proof {
            assert(supply_order@ == new_order_model(payload, old(self).next_id(), now));
            lemma_wf_counter_grow(*old(self), *self);
        }
        self._insert_supply_order(&supply_order);
        Some(supply_order)
    }

    /// Attach a wholesaler to a stored order; absence is a not-found error.
    pub fn add_supply_order_wholesaler(
        &mut self,
        payload: AddSupplyOrderWholesalerPayload,
        now: u64,
    ) -> (r: Result<SupplyOrder, Error>)
        requires
            old(self).wf(),
        ensures
            final(self).wf(),
            final(self).next_id() == old(self).next_id(),
            final(self).farmer_map() == old(self).farmer_map(),
            final(self).product_map() == old(self).product_map(),
            final(self).wholesaler_map() == old(self).wholesaler_map(),
            r matches Err(e) ==> e is NotFound && !old(self).order_map().contains_key(
                payload.order_id,
            ) && final(self).order_map() == old(self).order_map(),
            r matches Ok(o) ==> old(self).order_map().contains_key(payload.order_id) && o@.id
                == payload.order_id && (forall|om: SupplyOrderModel|
                old(self).order_map()[payload.order_id] == enc_supply_order(om) ==> o@
                    == with_wholesaler(om, payload.wholesaler_id, now)) && final(self).order_map()
                == old(self).order_map().insert(payload.order_id, enc_supply_order(o@)),
    {
        match self.orders.get(payload.order_id) {
            None => Err(
                Error::NotFound {
                    msg: format_id_message(
                        "Couldn't update a supply order with id=",
                        payload.order_id,
                        ". Supply order not found",
                    ),
                },
            ),
            Some(bytes) => {
                let _blen: usize = bytes.len();
                proof {
                    assert(order_entry_ok(self.order_map()[payload.order_id], payload.order_id));
                }
                let dec = decode_supply_order(&bytes);
                proof {
                    let m1 = choose|m: SupplyOrderModel|
                        bytes@ == enc_supply_order(m) && m.id == payload.order_id;
                    assert(bytes@ == enc_supply_order(m1));
                }
                match dec {
                    None => {
                        proof {
                            assert(false);
                        }
                        Err(Error::NotFound { msg: String::new() })
                    },
                    Some(mut order) => {
                        let ghost m1 = order@;
                        order.wholesaler_id = Some(payload.wholesaler_id);
                        order.updated_at = Some(now);
                        self._insert_supply_order(&order);
                        proof {
                            assert(order@ == with_wholesaler(m1, payload.wholesaler_id, now));
                            assert forall|om: SupplyOrderModel|
                                old(self).order_map()[payload.order_id] == enc_supply_order(om)
                                implies order@ == with_wholesaler(
                                om,
                                payload.wholesaler_id,
                                now,
                            ) by {
                                lemma_enc_supply_order_inj(bytes@, om, m1);
                            }
                        }
                        Ok(order)
                    },
                }
            },
        }
    }

    /// Mark a stored order complete; absence is a not-found error.
    pub fn complete_supply_order(&mut self, id: u64, now: u64) -> (r: Result<SupplyOrder, Error>)
        requires
            old(self).wf(),
        ensures
            final(self).wf(),
            final(self).next_id() == old(self).next_id(),
            final(self).farmer_map() == old(self).farmer_map(),
            final(self).product_map() == old(self).product_map(),
            final(self).wholesaler_map() == old(self).wholesaler_map(),
            r matches Err(e) ==> e is NotFound && !old(self).order_map().contains_key(id)
                && final(self).order_map() == old(self).order_map(),
            r matches Ok(o) ==> old(self).order_map().contains_key(id) && o@.id == id && (
            forall|om: SupplyOrderModel|
                old(self).order_map()[id] == enc_supply_order(om) ==> o@ == with_complete(om, now))
                && final(self).order_map() == old(self).order_map().insert(
                id,
                enc_supply_order(o@),
            ),
    {
        match self.orders.get(id) {
            None => Err(
                Error::NotFound {
                    msg: format_id_message(
                        "Couldn't update a supply order with id=",
                        id,
                        ". Supply order not found",
                    ),
                },
            ),
            Some(bytes) => {
                let _blen: usize = bytes.len();
                proof {
                    assert(order_entry_ok(self.order_map()[id], id));
                }
                let dec = decode_supply_order(&bytes);
                proof {
                    let m1 = choose|m: SupplyOrderModel|
                        bytes@ == enc_supply_order(m) && m.id == id;
                    assert(bytes@ == enc_supply_order(m1));
                }
                match dec {
                    None => {
                        proof {
                            assert(false);
                        }
                        Err(Error::NotFound { msg: String::new() })
                    },
                    Some(mut order) => {
                        let ghost m1 = order@;
                        order.is_complete = true;
                        order.updated_at = Some(now);
                        self._insert_supply_order(&order);
                        proof {
                            assert(order@ == with_complete(m1, now));
                            assert forall|om: SupplyOrderModel|
                                old(self).order_map()[id] == enc_supply_order(om) implies order@
                                == with_complete(om, now) by {
                                lemma_enc_supply_order_inj(bytes@, om, m1);
                            }
                        }
                        Ok(order)
                    },
                }
            },
        }
    }

    /// Remove a stored order, returning it; absence is a not-found error.
    pub fn delete_supply_order(&mut self, id: u64) -> (r: Result<SupplyOrder, Error>)
        requires
            old(self).wf(),
        ensures
            final(self).wf(),
            final(self).next_id() == old(self).next_id(),
            final(self).farmer_map() == old(self).farmer_map(),
            final(self).product_map() == old(self).product_map(),
            final(self).wholesaler_map() == old(self).wholesaler_map(),
            final(self).order_map() == old(self).order_map().remove(id),
            r matches Ok(o) ==> old(self).order_map().contains_key(id) && old(self).order_map()[id]
                == enc_supply_order(o@) && o@.id == id,
            r matches Err(e) ==> e is NotFound && !old(self).order_map().contains_key(id),
    {
        let removed = self.orders.remove(id);
        proof {
            lemma_wf_order_remove(*old(self), *self, id);
        }
        match removed {
            None => Err(
                Error::NotFound {
                    msg: format_id_message(
                        "Supply order id:",
                        id,
                        " deletion unsuccessful. Supply order not found",
                    ),
                },
            ),
            Some(bytes) => {
                proof {
                    assert(order_entry_ok(old(self).order_map()[id], id));
                }
                let dec = decode_supply_order(&bytes);
                proof {
                    let m1 = choose|m: SupplyOrderModel|
                        bytes@ == enc_supply_order(m) && m.id == id;
                    assert(bytes@ == enc_supply_order(m1));
                }
                match dec {
                    None => {
                        proof {
                            assert(false);
                        }
                        Err(Error::NotFound { msg: String::new() })
                    },
                    Some(order) => Ok(order),
                }
            },
        }
    }
}


/// When completing an update, the stored order's farmer — and its
/// wholesaler, if one is attached — must themselves be stored.
pub open spec fn update_links_ok(s: Store, id: u64, completing: bool) -> bool {
    (completing && s.order_map().contains_key(id)) ==> (forall|om: SupplyOrderModel|
        s.order_map()[id] == enc_supply_order(om) ==> s.farmer_map().contains_key(om.farmer_id)
            && (om.wholesaler_id matches Some(w) ==> s.wholesaler_map().contains_key(w)))
}

impl Store {
    /// Attribute an order to its farmer's product list and, when a
    /// wholesaler is attached, to that wholesaler's order list.
    pub fn _update_supply_order_ids(&mut self, supply_order: SupplyOrder)
        requires
            old(self).wf(),
            old(self).farmer_map().contains_key(supply_order.farmer_id),
            supply_order.wholesaler_id matches Some(w) ==> old(self).wholesaler_map().contains_key(
                w,
            ),
        ensures
            final(self).wf(),
            final(self).next_id() == old(self).next_id(),
            final(self).product_map() == old(self).product_map(),
            final(self).order_map() == old(self).order_map(),
            forall|fm: FarmerModel|
                old(self).farmer_map()[supply_order.farmer_id] == enc_farmer(fm) ==> final(self).farmer_map() == old(self).farmer_map().insert(
                    supply_order.farmer_id,
                    enc_farmer(farmer_with_product(fm, supply_order.id)),
                ),
            supply_order.wholesaler_id matches Some(w) ==> (forall|wm: WholesalerModel|
                old(self).wholesaler_map()[w] == enc_wholesaler(wm) ==> final(self).wholesaler_map() == old(self).wholesaler_map().insert(
                    w,
                    enc_wholesaler(wholesaler_with_order(wm, supply_order.id)),
                )),
            supply_order.wholesaler_id is None ==> final(self).wholesaler_map() == old(
                self,
            ).wholesaler_map(),
    {
        let fid = supply_order.farmer_id;
        let fbytes = match self.farmers.get(fid) {
            Some(b) => b,
            None => {
                proof {
                    assert(false);
                }
                return ;
            },
        };
        let _fblen: usize = fbytes.len();
        proof {
            assert(farmer_entry_ok(self.farmer_map()[fid], fid));
        }
        let fdec = decode_farmer(&fbytes);
        proof {
            let fm1 = choose|m: FarmerModel| fbytes@ == enc_farmer(m) && m.id == fid;
            assert(fbytes@ == enc_farmer(fm1));
        }
        let mut farmer = match fdec {
            Some(f) => f,
            None => {
                proof {
                    assert(false);
                }
                return ;
            },
        };
        let ghost fm1 = farmer@;
        farmer.product_ids.push(supply_order.id);
        proof {
            assert(farmer@ == farmer_with_product(fm1, supply_order.id));
        }
        self._insert_farmer(&farmer);
        proof {
            assert forall|fm: FarmerModel|
                old(self).farmer_map()[supply_order.farmer_id] == enc_farmer(fm) implies self
                .farmer_map() == old(self).farmer_map().insert(
                supply_order.farmer_id,
                enc_farmer(farmer_with_product(fm, supply_order.id)),
            ) by {
                crate::records::lemma_enc_farmer_inj(fbytes@, fm, fm1);
            }
        }
        match supply_order.wholesaler_id {
            None => {},
            Some(wid) => {
                let wbytes = match self.wholesalers.get(wid) {
                    Some(b) => b,
                    None => {
                        proof {
                            assert(false);
                        }
                        return ;
                    },
                };
                let _wblen: usize = wbytes.len();
                proof {
                    assert(wholesaler_entry_ok(self.wholesaler_map()[wid], wid));
                }
                let wdec = decode_wholesaler(&wbytes);
                proof {
                    let wm1 = choose|m: WholesalerModel| wbytes@ == enc_wholesaler(m) && m.id == wid;
                    assert(wbytes@ == enc_wholesaler(wm1));
                }
                let mut wholesaler = match wdec {
                    Some(w) => w,
                    None => {
                        proof {
                            assert(false);
                        }
                        return ;
                    },
                };
                let ghost wm1 = wholesaler@;
                wholesaler.order_ids.push(supply_order.id);
                proof {
                    assert(wholesaler@ == wholesaler_with_order(wm1, supply_order.id));
                }
                self._insert_wholesaler(&wholesaler);
                proof {
                    assert forall|wm: WholesalerModel|
                        old(self).wholesaler_map()[wid] == enc_wholesaler(wm) implies self
                        .wholesaler_map() == old(self).wholesaler_map().insert(
                        wid,
                        enc_wholesaler(wholesaler_with_order(wm, supply_order.id)),
                    ) by {
                        crate::records::lemma_enc_wholesaler_inj(wbytes@, wm, wm1);
                    }
                }
            },
        }
    }

    /// Rewrite a stored order from the payload; absence is a not-found
    /// error. When the payload marks the order complete, the order's id is
    /// also attributed to the prior record's farmer and wholesaler.
    pub fn update_supply_order(&mut self, id: u64, payload: SupplyOrderPayload, now: u64) -> (r:
        Result<SupplyOrder, Error>)
        requires
            old(self).wf(),
            update_links_ok(*old(self), id, payload.is_complete),
        ensures
            final(self).wf(),
            final(self).next_id() == old(self).next_id(),
            final(self).product_map() == old(self).product_map(),
            r matches Err(e) ==> e is NotFound && !old(self).order_map().contains_key(id)
                && final(self).order_map() == old(self).order_map()
                && final(self).farmer_map() == old(self).farmer_map()
                && final(self).wholesaler_map() == old(self).wholesaler_map(),
            r matches Ok(o) ==> old(self).order_map().contains_key(id) && (
            forall|om: SupplyOrderModel|
                old(self).order_map()[id] == enc_supply_order(om) ==> o@ == updated_order_model(
                    om,
                    payload,
                    now,
                ) && final(self).order_map() == old(self).order_map().insert(
                    id,
                    enc_supply_order(o@),
                ) && (payload.is_complete ==> (forall|fm: FarmerModel|
                    old(self).farmer_map()[om.farmer_id] == enc_farmer(fm) ==> final(self).farmer_map() == old(self).farmer_map().insert(
                        om.farmer_id,
                        enc_farmer(farmer_with_product(fm, id)),
                    ))) && ((payload.is_complete && om.wholesaler_id is Some) ==> (
                forall|wm: WholesalerModel|
                    old(self).wholesaler_map()[om.wholesaler_id->0] == enc_wholesaler(wm)
                        ==> final(self).wholesaler_map() == old(self).wholesaler_map().insert(
                        om.wholesaler_id->0,
                        enc_wholesaler(wholesaler_with_order(wm, id)),
                    ))) && ((payload.is_complete && om.wholesaler_id is None) ==> final(self).wholesaler_map() == old(self).wholesaler_map())) && (!payload.is_complete
                ==> final(self).farmer_map() == old(self).farmer_map() && final(self).wholesaler_map() == old(self).wholesaler_map()),
    {
        let completing = payload.is_complete;
        let got = self.orders.get(id);
        let bytes = match got {
            None => {
                return Err(
                    Error::NotFound { msg: ("Supply order does not exist").to_owned() },
                );
            },
            Some(b) => b,
        };
        let _blen: usize = bytes.len();
        proof {
            assert(order_entry_ok(self.order_map()[id], id));
        }
        let dec = decode_supply_order(&bytes);
        proof {
            let m1 = choose|m: SupplyOrderModel| bytes@ == enc_supply_order(m) && m.id == id;
            assert(bytes@ == enc_supply_order(m1));
        }
        let supply_order = match dec {
            None => {
                proof {
                    assert(false);
                }
                return Err(Error::NotFound { msg: String::new() });
            },
            Some(o) => o,
        };
        let ghost m1 = supply_order@;
        let updated = SupplyOrder {
            id: supply_order.id,
            title: payload.title,
            farmer_id: payload.farmer_id,
            wholesaler_id: Some(payload.wholesaler_id),
            product_types: payload.product_types,
            products: payload.products,
            is_complete: completing,
            created_at: supply_order.created_at,
            updated_at: Some(now),
        };
        proof {
            assert(updated@ == updated_order_model(m1, payload, now));
        }
        self._insert_supply_order(&updated);
        if completing {
            proof {
                assert(self.farmer_map().contains_key(m1.farmer_id));
                assert(supply_order.wholesaler_id matches Some(w)
                    ==> self.wholesaler_map().contains_key(w));
            }
            self._update_supply_order_ids(supply_order);
        }
        proof {
            assert forall|om: SupplyOrderModel|
                old(self).order_map()[id] == enc_supply_order(om) implies om == m1 by {
                lemma_enc_supply_order_inj(bytes@, om, m1);
            }
        }
        Ok(updated)
    }
}


/// The sequence lists exactly the stored wholesalers, ascending by id.
pub open spec fn wholesaler_listing(m: Map<u64, Seq<u8>>, rs: Seq<WholesalerModel>) -> bool {
    &&& forall|i: int|
        #![trigger rs[i]]
        0 <= i < rs.len() ==> m.contains_key(rs[i].id) && m[rs[i].id] == enc_wholesaler(rs[i])
    &&& forall|i: int, j: int|
        #![trigger rs[i], rs[j]]
        0 <= i < j < rs.len() ==> rs[i].id < rs[j].id
    &&& forall|k: u64|
        #![trigger m.contains_key(k)]
        m.contains_key(k) ==> exists|i: int|
            #![trigger rs[i]]
            0 <= i < rs.len() && rs[i].id == k
}

impl Store {
    /// List every stored wholesaler, ascending by id; an empty store is a
    /// not-found error.
    pub fn get_wholesalers(&self) -> (r: Result<Vec<Wholesaler>, Error>)
        requires
            self.wf(),
        ensures
            r matches Ok(v) ==> v@.len() > 0 && wholesaler_listing(
                self.wholesaler_map(),
                v@.map_values(|w: Wholesaler| w@),
            ),
            r matches Err(e) ==> e is NotFound && (forall|k: u64|
                !self.wholesaler_map().contains_key(k)),
    {
        let ghost m = self.wholesaler_map();
        let es = self.wholesalers.entries();
        let n = es.len();
        let mut out: Vec<Wholesaler> = Vec::new();
        let mut i: usize = 0;
        while i < n
            invariant
                self.wf(),
                m == self.wholesaler_map(),
                entries_of(es@, m),
                n == es@.len(),
                i <= n,
                out@.len() == i,
                forall|j: int|
                    #![trigger out@[j]]
                    0 <= j < i ==> out@[j]@.id == es@[j].0 && m.contains_key(es@[j].0) && m[es@[j].0]
                        == enc_wholesaler(out@[j]@),
            decreases n - i,
        {
            let pair = &es[i];
            proof {
                assert(m.contains_key(es@[i as int].0) && es@[i as int].1@ == m[es@[i as int].0]);
                assert(wholesaler_entry_ok(m[es@[i as int].0], es@[i as int].0));
            }
            let dec = decode_wholesaler(&pair.1);
            proof {
                let m1 = choose|mm: WholesalerModel|
                    es@[i as int].1@ == enc_wholesaler(mm) && mm.id == es@[i as int].0;
                assert(es@[i as int].1@ == enc_wholesaler(m1));
            }
            match dec {
                Some(w) => {
                    out.push(w);
                },
                None => {
                    proof {
                        assert(false);
                    }
                },
            }
            i += 1;
        }
        if out.len() == 0 {
            proof {
                assert forall|k: u64| !m.contains_key(k) by {
                    if m.contains_key(k) {
                        let e = choose|e: int| 0 <= e < es@.len() && es@[e].0 == k;
                        assert(es@[e].0 == k);
                    }
                }
            }
            Err(Error::NotFound { msg: ("No wholesalers available.").to_owned() })
        } else {
            proof {
                let rs = out@.map_values(|w: Wholesaler| w@);
                assert forall|ii: int| 0 <= ii < rs.len() implies m.contains_key(rs[ii].id)
                    && m[rs[ii].id] == enc_wholesaler(rs[ii]) by {
                    assert(rs[ii] == out@[ii]@);
                }
                assert forall|ii: int, jj: int| 0 <= ii < jj < rs.len() implies rs[ii].id
                    < rs[jj].id by {
                    assert(rs[ii] == out@[ii]@);
                    assert(rs[jj] == out@[jj]@);
                    assert(es@[ii].0 < es@[jj].0);
                }
                assert forall|k: u64| m.contains_key(k) implies exists|ii: int|
                    0 <= ii < rs.len() && rs[ii].id == k by {
                    let e = choose|e: int| 0 <= e < es@.len() && es@[e].0 == k;
                    assert(rs[e] == out@[e]@);
                    assert(rs[e].id == k);
                }
            }
            Ok(out)
        }
    }
}


/// The sequence lists exactly the stored supply orders, ascending by id.
pub open spec fn order_listing(m: Map<u64, Seq<u8>>, rs: Seq<SupplyOrderModel>) -> bool {
    &&& forall|i: int|
        #![trigger rs[i]]
        0 <= i < rs.len() ==> m.contains_key(rs[i].id) && m[rs[i].id] == enc_supply_order(rs[i])
    &&& forall|i: int, j: int|
        #![trigger rs[i], rs[j]]
        0 <= i < j < rs.len() ==> rs[i].id < rs[j].id
    &&& forall|k: u64, om: SupplyOrderModel|
        #![trigger m.contains_key(k), enc_supply_order(om)]
        m.contains_key(k) && m[k] == enc_supply_order(om) ==> exists|i: int|
            #![trigger rs[i]]
            0 <= i < rs.len() && rs[i].id == k
}

/// The sequence lists exactly the stored orders not yet complete,
/// ascending by id.
pub open spec fn incomplete_order_listing(m: Map<u64, Seq<u8>>, rs: Seq<SupplyOrderModel>) -> bool {
    &&& forall|i: int|
        #![trigger rs[i]]
        0 <= i < rs.len() ==> m.contains_key(rs[i].id) && m[rs[i].id] == enc_supply_order(rs[i])
            && !rs[i].is_complete
    &&& forall|i: int, j: int|
        #![trigger rs[i], rs[j]]
        0 <= i < j < rs.len() ==> rs[i].id < rs[j].id
    &&& forall|k: u64, om: SupplyOrderModel|
        #![trigger m.contains_key(k), enc_supply_order(om)]
        m.contains_key(k) && m[k] == enc_supply_order(om) && !om.is_complete ==> exists|i: int|
            #![trigger rs[i]]
            0 <= i < rs.len() && rs[i].id == k
}

/// The sequence lists exactly the stored orders attached to the given
/// wholesaler, ascending by id.
pub open spec fn wholesaler_order_listing(
    m: Map<u64, Seq<u8>>,
    rs: Seq<SupplyOrderModel>,
    wid: u64,
) -> bool {
    &&& forall|i: int|
        #![trigger rs[i]]
        0 <= i < rs.len() ==> m.contains_key(rs[i].id) && m[rs[i].id] == enc_supply_order(rs[i])
            && rs[i].wholesaler_id == Some(wid)
    &&& forall|i: int, j: int|
        #![trigger rs[i], rs[j]]
        0 <= i < j < rs.len() ==> rs[i].id < rs[j].id
    &&& forall|k: u64, om: SupplyOrderModel|
        #![trigger m.contains_key(k), enc_supply_order(om)]
        m.contains_key(k) && m[k] == enc_supply_order(om) && om.wholesaler_id == Some(wid)
            ==> exists|i: int|
            #![trigger rs[i]]
            0 <= i < rs.len() && rs[i].id == k
}

impl Store {
    /// List every stored supply order, ascending by id; an empty store is a not-found error.
    #[verifier::rlimit(60)]
    pub fn get_supply_orders(&self) -> (r: Result<Vec<SupplyOrder>, Error>)
        requires
            self.wf(),
        ensures
            r matches Ok(v) ==> v@.len() > 0 && order_listing(
                self.order_map(),
                v@.map_values(|o: SupplyOrder| o@),
            ),
            r matches Err(e) ==> e is NotFound && (forall|k: u64|
                !self.order_map().contains_key(k)),
    {
        let ghost m = self.order_map();
        let es = self.orders.entries();
        let n = es.len();
        let mut out: Vec<SupplyOrder> = Vec::new();
        let mut i: usize = 0;
        while i < n
            invariant
                self.wf(),
                m == self.order_map(),
                entries_of(es@, m),
                n == es@.len(),
                i <= n,
                forall|j: int|
                    #![trigger out@[j]]
                    0 <= j < out@.len() ==> m.contains_key(out@[j]@.id) && m[out@[j]@.id]
                        == enc_supply_order(out@[j]@),
                forall|j: int|
                    #![trigger out@[j]]
                    0 <= j < out@.len() ==> exists|e: int|
                        #![trigger es@[e]]
                        0 <= e < i && es@[e].0 == out@[j]@.id,
                forall|j1: int, j2: int|
                    #![trigger out@[j1], out@[j2]]
                    0 <= j1 < j2 < out@.len() ==> out@[j1]@.id < out@[j2]@.id,
                forall|e: int, om: SupplyOrderModel|
                    #![trigger es@[e], enc_supply_order(om)]
                    0 <= e < i && m[es@[e].0] == enc_supply_order(om)
                        ==> exists|j: int|
                        #![trigger out@[j]]
                        0 <= j < out@.len() && out@[j]@.id == es@[e].0,
            decreases n - i,
        {
            let pair = &es[i];
            let _blen: usize = pair.1.len();
            proof {
                assert(m.contains_key(es@[i as int].0) && es@[i as int].1@ == m[es@[i as int].0]);
                assert(order_entry_ok(m[es@[i as int].0], es@[i as int].0));
            }
            let dec = decode_supply_order(&pair.1);
            proof {
                let m1 = choose|mm: SupplyOrderModel|
                    es@[i as int].1@ == enc_supply_order(mm) && mm.id == es@[i as int].0;
                assert(es@[i as int].1@ == enc_supply_order(m1));
            }
            match dec {
                Some(w) => {
                    let ghost wv = w@;
                    proof {
                        assert forall|om: SupplyOrderModel|
                            m[es@[i as int].0] == enc_supply_order(om) implies om == wv by {
                            lemma_enc_supply_order_inj(es@[i as int].1@, om, wv);
                        }
                        assert(wv.id == es@[i as int].0) by {
                            let mm = choose|mm: SupplyOrderModel|
                                es@[i as int].1@ == enc_supply_order(mm) && mm.id == es@[
                                    i as int
                                ].0;
                            assert(mm == wv);
                        }
                    }
                    {
                        proof {
                            assert forall|j: int| 0 <= j < out@.len() implies out@[j]@.id < es@[
                                i as int
                            ].0 by {
                                let e = choose|e: int| 0 <= e < i && es@[e].0 == out@[j]@.id;
                                assert(es@[e].0 < es@[i as int].0);
                            }
                        }
                        let ghost out_pre = out@;
                        out.push(w);
                        proof {
                            assert(out@[out@.len() - 1] == w);
                            assert forall|e: int, om: SupplyOrderModel|
                                #![trigger es@[e], enc_supply_order(om)]
                                0 <= e < i + 1 && m[es@[e].0] == enc_supply_order(om)
                                    implies exists|j: int|
                                    #![trigger out@[j]]
                                    0 <= j < out@.len() && out@[j]@.id == es@[e].0 by {
                                if e == i {
                                    assert(out@[out@.len() - 1]@.id == es@[i as int].0);
                                } else {
                                    let j = choose|j: int|
                                        0 <= j < out_pre.len() && out_pre[j]@.id == es@[e].0;
                                    assert(out@[j] == out_pre[j]);
                                }
                            }
                        }
                    }
                },
                None => {
                    proof {
                        assert(false);
                    }
                },
            }
            i += 1;
        }
        if out.len() == 0 {
            proof {
                assert forall|k: u64| !m.contains_key(k) by {
                    if m.contains_key(k) {
                        assert(order_entry_ok(m[k], k));
                        let om = choose|om: SupplyOrderModel|
                            m[k] == enc_supply_order(om) && om.id == k;
                        let e = choose|e: int| 0 <= e < es@.len() && es@[e].0 == k;
                        assert(m[es@[e].0] == enc_supply_order(om));
                    }
                }
            }
            Err(Error::NotFound { msg: ("No supply orders available.").to_owned() })
        } else {
            proof {
                let rs = out@.map_values(|o: SupplyOrder| o@);
                assert forall|ii: int| 0 <= ii < rs.len() implies m.contains_key(rs[ii].id)
                    && m[rs[ii].id] == enc_supply_order(rs[ii]) by {
                    assert(rs[ii] == out@[ii]@);
                }
                assert forall|ii: int, jj: int| 0 <= ii < jj < rs.len() implies rs[ii].id
                    < rs[jj].id by {
                    assert(rs[ii] == out@[ii]@);
                    assert(rs[jj] == out@[jj]@);
                }
                assert forall|k: u64, om: SupplyOrderModel|
                    m.contains_key(k) && m[k] == enc_supply_order(om) implies
                    exists|ii: int| 0 <= ii < rs.len() && rs[ii].id == k by {
                    let e = choose|e: int| 0 <= e < es@.len() && es@[e].0 == k;
                    assert(m[es@[e].0] == enc_supply_order(om));
                    let j = choose|j: int| 0 <= j < out@.len() && out@[j]@.id == es@[e].0;
                    assert(rs[j] == out@[j]@);
                    assert(rs[j].id == k);
                }
            }
            Ok(out)
        }
    }
}

impl Store {
    /// List the stored orders not yet complete, ascending by id; none being stored is a not-found error.
    #[verifier::rlimit(60)]
    pub fn get_incomplete_supply_orders(&self) -> (r: Result<Vec<SupplyOrder>, Error>)
        requires
            self.wf(),
        ensures
            r matches Ok(v) ==> v@.len() > 0 && incomplete_order_listing(
                self.order_map(),
                v@.map_values(|o: SupplyOrder| o@),
                
            ),
            r matches Err(e) ==> e is NotFound && (forall|k: u64, om: SupplyOrderModel|
                self.order_map().contains_key(k) && self.order_map()[k] == enc_supply_order(om)
                    ==> om.is_complete),
    {
        let ghost m = self.order_map();
        let es = self.orders.entries();
        let n = es.len();
        let mut out: Vec<SupplyOrder> = Vec::new();
        let mut i: usize = 0;
        while i < n
            invariant
                self.wf(),
                m == self.order_map(),
                entries_of(es@, m),
                n == es@.len(),
                i <= n,
                forall|j: int|
                    #![trigger out@[j]]
                    0 <= j < out@.len() ==> m.contains_key(out@[j]@.id) && m[out@[j]@.id]
                        == enc_supply_order(out@[j]@) && !out@[j]@.is_complete,
                forall|j: int|
                    #![trigger out@[j]]
                    0 <= j < out@.len() ==> exists|e: int|
                        #![trigger es@[e]]
                        0 <= e < i && es@[e].0 == out@[j]@.id,
                forall|j1: int, j2: int|
                    #![trigger out@[j1], out@[j2]]
                    0 <= j1 < j2 < out@.len() ==> out@[j1]@.id < out@[j2]@.id,
                forall|e: int, om: SupplyOrderModel|
                    #![trigger es@[e], enc_supply_order(om)]
                    0 <= e < i && m[es@[e].0] == enc_supply_order(om) && !om.is_complete
                        ==> exists|j: int|
                        #![trigger out@[j]]
                        0 <= j < out@.len() && out@[j]@.id == es@[e].0,
            decreases n - i,
        {
            let pair = &es[i];
            let _blen: usize = pair.1.len();
            proof {
                assert(m.contains_key(es@[i as int].0) && es@[i as int].1@ == m[es@[i as int].0]);
                assert(order_entry_ok(m[es@[i as int].0], es@[i as int].0));
            }
            let dec = decode_supply_order(&pair.1);
            proof {
                let m1 = choose|mm: SupplyOrderModel|
                    es@[i as int].1@ == enc_supply_order(mm) && mm.id == es@[i as int].0;
                assert(es@[i as int].1@ == enc_supply_order(m1));
            }
            match dec {
                Some(w) => {
                    let ghost wv = w@;
                    proof {
                        assert forall|om: SupplyOrderModel|
                            m[es@[i as int].0] == enc_supply_order(om) implies om == wv by {
                            lemma_enc_supply_order_inj(es@[i as int].1@, om, wv);
                        }
                        assert(wv.id == es@[i as int].0) by {
                            let mm = choose|mm: SupplyOrderModel|
                                es@[i as int].1@ == enc_supply_order(mm) && mm.id == es@[
                                    i as int
                                ].0;
                            assert(mm == wv);
                        }
                    }
                    if !w.is_complete {
                        proof {
                            assert forall|j: int| 0 <= j < out@.len() implies out@[j]@.id < es@[
                                i as int
                            ].0 by {
                                let e = choose|e: int| 0 <= e < i && es@[e].0 == out@[j]@.id;
                                assert(es@[e].0 < es@[i as int].0);
                            }
                        }
                        let ghost out_pre = out@;
                        out.push(w);
                        proof {
                            assert(out@[out@.len() - 1] == w);
                            assert forall|e: int, om: SupplyOrderModel|
                                #![trigger es@[e], enc_supply_order(om)]
                                0 <= e < i + 1 && m[es@[e].0] == enc_supply_order(om) && !om.is_complete
                                    implies exists|j: int|
                                    #![trigger out@[j]]
                                    0 <= j < out@.len() && out@[j]@.id == es@[e].0 by {
                                if e == i {
                                    assert(out@[out@.len() - 1]@.id == es@[i as int].0);
                                } else {
                                    let j = choose|j: int|
                                        0 <= j < out_pre.len() && out_pre[j]@.id == es@[e].0;
                                    assert(out@[j] == out_pre[j]);
                                }
                            }
                        }
                    }
                },
                None => {
                    proof {
                        assert(false);
                    }
                },
            }
            i += 1;
        }
        if out.len() == 0 {
            proof {
                assert forall|k: u64, om: SupplyOrderModel|
                    m.contains_key(k) && m[k] == enc_supply_order(om) implies om.is_complete by {
                    let e = choose|e: int| 0 <= e < es@.len() && es@[e].0 == k;
                    assert(m[es@[e].0] == enc_supply_order(om));
                }
            }
            Err(Error::NotFound { msg: ("No incomplete supply orders available.").to_owned() })
        } else {
            proof {
                let rs = out@.map_values(|o: SupplyOrder| o@);
                assert forall|ii: int| 0 <= ii < rs.len() implies m.contains_key(rs[ii].id)
                    && m[rs[ii].id] == enc_supply_order(rs[ii]) && !rs[ii].is_complete by {
                    assert(rs[ii] == out@[ii]@);
                }
                assert forall|ii: int, jj: int| 0 <= ii < jj < rs.len() implies rs[ii].id
                    < rs[jj].id by {
                    assert(rs[ii] == out@[ii]@);
                    assert(rs[jj] == out@[jj]@);
                }
                assert forall|k: u64, om: SupplyOrderModel|
                    m.contains_key(k) && m[k] == enc_supply_order(om) && !om.is_complete implies
                    exists|ii: int| 0 <= ii < rs.len() && rs[ii].id == k by {
                    let e = choose|e: int| 0 <= e < es@.len() && es@[e].0 == k;
                    assert(m[es@[e].0] == enc_supply_order(om));
                    let j = choose|j: int| 0 <= j < out@.len() && out@[j]@.id == es@[e].0;
                    assert(rs[j] == out@[j]@);
                    assert(rs[j].id == k);
                }
            }
            Ok(out)
        }
    }
}

impl Store {
    /// List the stored orders attached to the given wholesaler, ascending by id; none being stored is a not-found error.
    #[verifier::rlimit(60)]
    pub fn get_wholesaler_orders(&self, wid: u64) -> (r: Result<Vec<SupplyOrder>, Error>)
        requires
            self.wf(),
        ensures
            r matches Ok(v) ==> v@.len() > 0 && wholesaler_order_listing(
                self.order_map(),
                v@.map_values(|o: SupplyOrder| o@),
                wid,
                
            ),
            r matches Err(e) ==> e is NotFound && (forall|k: u64, om: SupplyOrderModel|
                self.order_map().contains_key(k) && self.order_map()[k] == enc_supply_order(om)
                    ==> om.wholesaler_id != Some(wid)),
    {
        let ghost m = self.order_map();
        let es = self.orders.entries();
        let n = es.len();
        let mut out: Vec<SupplyOrder> = Vec::new();
        let mut i: usize = 0;
        while i < n
            invariant
                self.wf(),
                m == self.order_map(),
                entries_of(es@, m),
                n == es@.len(),
                i <= n,
                forall|j: int|
                    #![trigger out@[j]]
                    0 <= j < out@.len() ==> m.contains_key(out@[j]@.id) && m[out@[j]@.id]
                        == enc_supply_order(out@[j]@) && out@[j]@.wholesaler_id == Some(wid),
                forall|j: int|
                    #![trigger out@[j]]
                    0 <= j < out@.len() ==> exists|e: int|
                        #![trigger es@[e]]
                        0 <= e < i && es@[e].0 == out@[j]@.id,
                forall|j1: int, j2: int|
                    #![trigger out@[j1], out@[j2]]
                    0 <= j1 < j2 < out@.len() ==> out@[j1]@.id < out@[j2]@.id,
                forall|e: int, om: SupplyOrderModel|
                    #![trigger es@[e], enc_supply_order(om)]
                    0 <= e < i && m[es@[e].0] == enc_supply_order(om) && om.wholesaler_id == Some(wid)
                        ==> exists|j: int|
                        #![trigger out@[j]]
                        0 <= j < out@.len() && out@[j]@.id == es@[e].0,
            decreases n - i,
        {
            let pair = &es[i];
            let _blen: usize = pair.1.len();
            proof {
                assert(m.contains_key(es@[i as int].0) && es@[i as int].1@ == m[es@[i as int].0]);
                assert(order_entry_ok(m[es@[i as int].0], es@[i as int].0));
            }
            let dec = decode_supply_order(&pair.1);
            proof {
                let m1 = choose|mm: SupplyOrderModel|
                    es@[i as int].1@ == enc_supply_order(mm) && mm.id == es@[i as int].0;
                assert(es@[i as int].1@ == enc_supply_order(m1));
            }
            match dec {
                Some(w) => {
                    let ghost wv = w@;
                    proof {
                        assert forall|om: SupplyOrderModel|
                            m[es@[i as int].0] == enc_supply_order(om) implies om == wv by {
                            lemma_enc_supply_order_inj(es@[i as int].1@, om, wv);
                        }
                        assert(wv.id == es@[i as int].0) by {
                            let mm = choose|mm: SupplyOrderModel|
                                es@[i as int].1@ == enc_supply_order(mm) && mm.id == es@[
                                    i as int
                                ].0;
                            assert(mm == wv);
                        }
                    }
                    if match w.wholesaler_id { Some(x) => x == wid, None => false } {
                        proof {
                            assert forall|j: int| 0 <= j < out@.len() implies out@[j]@.id < es@[
                                i as int
                            ].0 by {
                                let e = choose|e: int| 0 <= e < i && es@[e].0 == out@[j]@.id;
                                assert(es@[e].0 < es@[i as int].0);
                            }
                        }
                        let ghost out_pre = out@;
                        out.push(w);
                        proof {
                            assert(out@[out@.len() - 1] == w);
                            assert forall|e: int, om: SupplyOrderModel|
                                #![trigger es@[e], enc_supply_order(om)]
                                0 <= e < i + 1 && m[es@[e].0] == enc_supply_order(om) && om.wholesaler_id == Some(wid)
                                    implies exists|j: int|
                                    #![trigger out@[j]]
                                    0 <= j < out@.len() && out@[j]@.id == es@[e].0 by {
                                if e == i {
                                    assert(out@[out@.len() - 1]@.id == es@[i as int].0);
                                } else {
                                    let j = choose|j: int|
                                        0 <= j < out_pre.len() && out_pre[j]@.id == es@[e].0;
                                    assert(out@[j] == out_pre[j]);
                                }
                            }
                        }
                    }
                },
                None => {
                    proof {
                        assert(false);
                    }
                },
            }
            i += 1;
        }
        if out.len() == 0 {
            proof {
                assert forall|k: u64, om: SupplyOrderModel|
                    m.contains_key(k) && m[k] == enc_supply_order(om) implies om.wholesaler_id != Some(wid) by {
                    let e = choose|e: int| 0 <= e < es@.len() && es@[e].0 == k;
                    assert(m[es@[e].0] == enc_supply_order(om));
                }
            }
            Err(
                Error::NotFound {
                    msg: format_id_message(
                        "No supply orders available for wholesaler id:",
                        wid,
                        "",
                    ),
                },
            )
        } else {
            proof {
                let rs = out@.map_values(|o: SupplyOrder| o@);
                assert forall|ii: int| 0 <= ii < rs.len() implies m.contains_key(rs[ii].id)
                    && m[rs[ii].id] == enc_supply_order(rs[ii]) && rs[ii].wholesaler_id == Some(wid) by {
                    assert(rs[ii] == out@[ii]@);
                }
                assert forall|ii: int, jj: int| 0 <= ii < jj < rs.len() implies rs[ii].id
                    < rs[jj].id by {
                    assert(rs[ii] == out@[ii]@);
                    assert(rs[jj] == out@[jj]@);
                }
                assert forall|k: u64, om: SupplyOrderModel|
                    m.contains_key(k) && m[k] == enc_supply_order(om) && om.wholesaler_id == Some(wid) implies
                    exists|ii: int| 0 <= ii < rs.len() && rs[ii].id == k by {
                    let e = choose|e: int| 0 <= e < es@.len() && es@[e].0 == k;
                    assert(m[es@[e].0] == enc_supply_order(om));
                    let j = choose|j: int| 0 <= j < out@.len() && out@[j]@.id == es@[e].0;
                    assert(rs[j] == out@[j]@);
                    assert(rs[j].id == k);
                }
            }
            Ok(out)
        }
    }
}

} // verus!
