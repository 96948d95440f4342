use supply_registry::records::{
    encode_farmer, encode_supply_order, AddSupplyOrderWholesalerPayload, FarmerPayload,
    ProductPayload, SupplyOrderPayload, WholesalerPayload,
};
use supply_registry::decimal::u64_to_decimal;
use supply_registry::store::{Error, Store};

const T0: u64 = 1_700_000_000;
const T1: u64 = 1_700_000_060;

fn farmer_payload(name: &str) -> FarmerPayload {
    FarmerPayload {
        name: name.to_string(),
        email: format!("{}@farm.example", name),
        phone: "555-0101".to_string(),
    }
}

fn wholesaler_payload(name: &str) -> WholesalerPayload {
    WholesalerPayload {
        name: name.to_string(),
        email: format!("{}@market.example", name),
        phone: "555-0202".to_string(),
    }
}

fn order_payload(title: &str, farmer_id: u64, wholesaler_id: u64) -> SupplyOrderPayload {
    SupplyOrderPayload {
        title: title.to_string(),
        farmer_id,
        wholesaler_id,
        products: vec![("wheat".to_string(), 100)],
        product_types: vec!["wheat".to_string()],
        is_complete: false,
    }
}

#[test]
fn create_then_read_returns_identical_record() {
    let mut store = Store::new();
    let created = store.add_farmer(farmer_payload("ada"), T0).unwrap();
    assert_eq!(created.id, 0);
    assert_eq!(created.name, "ada");
    assert_eq!(created.email, "ada@farm.example");
    assert_eq!(created.created_at, T0);
    assert_eq!(created.updated_at, None);
    assert!(created.product_ids.is_empty());

    let read = store.get_farmer(0).unwrap();
    assert_eq!(encode_farmer(&read), encode_farmer(&created));
}

#[test]
fn created_ids_strictly_increase_even_across_deletes() {
    let mut store = Store::new();
    let f = store.add_farmer(farmer_payload("ada"), T0).unwrap();
    let w = store.add_wholesaler(wholesaler_payload("acme"), T0).unwrap();
    let o1 = store.add_supply_order(order_payload("one", f.id, w.id), T0).unwrap();
    store.delete_supply_order(o1.id).unwrap();
    let o2 = store.add_supply_order(order_payload("two", f.id, w.id), T0).unwrap();
    let p = store
        .add_product(
            ProductPayload {
                name: "wheat".to_string(),
                description: "grain".to_string(),
                farmer_id: f.id,
            },
            T0,
        )
        .unwrap();
    let ids = [f.id, w.id, o1.id, o2.id, p.id];
    assert_eq!(ids, [0, 1, 2, 3, 4]);
}

#[test]
fn read_after_write_holds_until_overwrite() {
    let mut store = Store::new();
    let f = store.add_farmer(farmer_payload("ada"), T0).unwrap();
    let w = store.add_wholesaler(wholesaler_payload("acme"), T0).unwrap();
    let o = store.add_supply_order(order_payload("one", f.id, w.id), T0).unwrap();

    // unrelated writes leave the stored order as it was
    store.add_farmer(farmer_payload("bob"), T1).unwrap();
    let read = store.get_supply_order(o.id).unwrap();
    assert_eq!(encode_supply_order(&read), encode_supply_order(&o));

    // an overwrite of the same key changes what a read yields
    let updated = store
        .update_supply_order(o.id, order_payload("renamed", f.id, w.id), T1)
        .unwrap();
    let reread = store.get_supply_order(o.id).unwrap();
    assert_eq!(reread.title, "renamed");
    assert_eq!(encode_supply_order(&reread), encode_supply_order(&updated));
}

#[test]
fn remove_of_absent_key_reports_not_found_and_changes_nothing() {
    let mut store = Store::new();
    let f = store.add_farmer(farmer_payload("ada"), T0).unwrap();
    let w = store.add_wholesaler(wholesaler_payload("acme"), T0).unwrap();
    let o = store.add_supply_order(order_payload("one", f.id, w.id), T0).unwrap();

    let r = store.delete_supply_order(999);
    assert!(matches!(r, Err(Error::NotFound { .. })));

    // the present order is untouched
    let read = store.get_supply_order(o.id).unwrap();
    assert_eq!(encode_supply_order(&read), encode_supply_order(&o));
}

#[test]
fn never_allocated_id_is_not_found() {
    let store = Store::new();
    assert!(matches!(store.get_farmer(0), Err(Error::NotFound { .. })));
    assert!(matches!(store.get_product(5), Err(Error::NotFound { .. })));
    assert!(matches!(store.get_wholesaler(17), Err(Error::NotFound { .. })));
    assert!(matches!(store.get_supply_order(99), Err(Error::NotFound { .. })));
}

#[test]
fn update_preserves_id_and_creation_time() {
    let mut store = Store::new();
    let f = store.add_farmer(farmer_payload("ada"), T0).unwrap();
    let w = store.add_wholesaler(wholesaler_payload("acme"), T0).unwrap();
    let o = store.add_supply_order(order_payload("one", f.id, w.id), T0).unwrap();

    let updated = store
        .update_supply_order(o.id, order_payload("two", f.id, w.id), T1)
        .unwrap();
    assert_eq!(updated.id, o.id);
    assert_eq!(updated.created_at, o.created_at);
    assert_eq!(updated.title, "two");
    assert_eq!(updated.updated_at, Some(T1));
}

#[test]
fn update_of_missing_order_is_not_found() {
    let mut store = Store::new();
    let r = store.update_supply_order(3, order_payload("none", 0, 0), T1);
    assert!(matches!(r, Err(Error::NotFound { .. })));
}

#[test]
fn completing_update_attributes_order_to_farmer_and_wholesaler() {
    let mut store = Store::new();
    let f = store.add_farmer(farmer_payload("ada"), T0).unwrap();
    let w = store.add_wholesaler(wholesaler_payload("acme"), T0).unwrap();
    let o = store.add_supply_order(order_payload("one", f.id, w.id), T0).unwrap();

    let mut payload = order_payload("one", f.id, w.id);
    payload.is_complete = true;
    store.update_supply_order(o.id, payload, T1).unwrap();

    let farmer = store.get_farmer(f.id).unwrap();
    assert_eq!(farmer.product_ids, vec![o.id]);
    let wholesaler = store.get_wholesaler(w.id).unwrap();
    assert_eq!(wholesaler.order_ids, vec![o.id]);
}

#[test]
fn delete_then_read_is_not_found() {
    let mut store = Store::new();
    let f = store.add_farmer(farmer_payload("ada"), T0).unwrap();
    let w = store.add_wholesaler(wholesaler_payload("acme"), T0).unwrap();
    let o = store.add_supply_order(order_payload("one", f.id, w.id), T0).unwrap();

    let removed = store.delete_supply_order(o.id).unwrap();
    assert_eq!(encode_supply_order(&removed), encode_supply_order(&o));
    assert!(matches!(
        store.get_supply_order(o.id),
        Err(Error::NotFound { .. })
    ));
}

#[test]
fn filters_report_not_found_when_empty_and_exactly_the_match_after() {
    let mut store = Store::new();
    let f = store.add_farmer(farmer_payload("ada"), T0).unwrap();
    let w = store.add_wholesaler(wholesaler_payload("acme"), T0).unwrap();

    // before any order is attached to w, an empty filter result is
    // reported as not-found
    assert!(matches!(
        store.get_wholesaler_orders(w.id),
        Err(Error::NotFound { .. })
    ));

    let o = store.add_supply_order(order_payload("one", f.id, w.id), T0).unwrap();
    let listed = store.get_wholesaler_orders(w.id).unwrap();
    assert_eq!(listed.len(), 1);
    assert_eq!(encode_supply_order(&listed[0]), encode_supply_order(&o));

    // an order attached to another wholesaler does not show up
    let w2 = store.add_wholesaler(wholesaler_payload("other"), T0).unwrap();
    store.add_supply_order(order_payload("two", f.id, w2.id), T0).unwrap();
    let listed = store.get_wholesaler_orders(w.id).unwrap();
    assert_eq!(listed.len(), 1);
    assert_eq!(listed[0].id, o.id);
}

#[test]
fn incomplete_listing_tracks_completion() {
    let mut store = Store::new();
    let f = store.add_farmer(farmer_payload("ada"), T0).unwrap();
    let w = store.add_wholesaler(wholesaler_payload("acme"), T0).unwrap();
    assert!(matches!(
        store.get_incomplete_supply_orders(),
        Err(Error::NotFound { .. })
    ));

    let o1 = store.add_supply_order(order_payload("one", f.id, w.id), T0).unwrap();
    let o2 = store.add_supply_order(order_payload("two", f.id, w.id), T0).unwrap();
    let open = store.get_incomplete_supply_orders().unwrap();
    assert_eq!(open.iter().map(|o| o.id).collect::<Vec<_>>(), vec![o1.id, o2.id]);

    let completed = store.complete_supply_order(o1.id, T1).unwrap();
    assert!(completed.is_complete);
    assert_eq!(completed.updated_at, Some(T1));
    let open = store.get_incomplete_supply_orders().unwrap();
    assert_eq!(open.iter().map(|o| o.id).collect::<Vec<_>>(), vec![o2.id]);
}

#[test]
fn listings_come_back_ascending_by_id() {
    let mut store = Store::new();
    let f = store.add_farmer(farmer_payload("ada"), T0).unwrap();
    let mut wids = Vec::new();
    for name in ["w1", "w2", "w3"] {
        wids.push(store.add_wholesaler(wholesaler_payload(name), T0).unwrap().id);
    }
    for title in ["a", "b", "c"] {
        store.add_supply_order(order_payload(title, f.id, wids[0]), T0).unwrap();
    }
    let ws = store.get_wholesalers().unwrap();
    let listed: Vec<u64> = ws.iter().map(|w| w.id).collect();
    assert_eq!(listed, wids);
    let orders = store.get_supply_orders().unwrap();
    let order_ids: Vec<u64> = orders.iter().map(|o| o.id).collect();
    let mut sorted = order_ids.clone();
    sorted.sort();
    assert_eq!(order_ids, sorted);
    assert_eq!(order_ids.len(), 3);
}

#[test]
fn get_wholesalers_on_empty_store_is_not_found() {
    let store = Store::new();
    assert!(matches!(store.get_wholesalers(), Err(Error::NotFound { .. })));
    assert!(matches!(store.get_supply_orders(), Err(Error::NotFound { .. })));
}

#[test]
fn attach_wholesaler_to_order() {
    let mut store = Store::new();
    let f = store.add_farmer(farmer_payload("ada"), T0).unwrap();
    let w = store.add_wholesaler(wholesaler_payload("acme"), T0).unwrap();
    let mut payload = order_payload("one", f.id, w.id);
    payload.wholesaler_id = w.id;
    let o = store.add_supply_order(payload, T0).unwrap();

    let w2 = store.add_wholesaler(wholesaler_payload("late"), T0).unwrap();
    let attached = store
        .add_supply_order_wholesaler(
            AddSupplyOrderWholesalerPayload { order_id: o.id, wholesaler_id: w2.id },
            T1,
        )
        .unwrap();
    assert_eq!(attached.wholesaler_id, Some(w2.id));
    assert_eq!(attached.updated_at, Some(T1));
    assert_eq!(attached.id, o.id);

    let missing = store.add_supply_order_wholesaler(
        AddSupplyOrderWholesalerPayload { order_id: 404, wholesaler_id: w2.id },
        T1,
    );
    assert!(matches!(missing, Err(Error::NotFound { .. })));
}

#[test]
fn direct_map_accessors_mirror_the_handlers() {
    let mut store = Store::new();
    let f = store.add_farmer(farmer_payload("ada"), T0).unwrap();
    assert!(store._get_farmer(&f.id).is_some());
    assert!(store._get_farmer(&99).is_none());
    assert!(store._get_product(&0).is_none());
    assert!(store._get_wholesaler(&0).is_none());
    assert!(store._get_supply_order(&0).is_none());

    let mut renamed = store._get_farmer(&f.id).unwrap();
    renamed.name = "renamed".to_string();
    store._insert_farmer(&renamed);
    assert_eq!(store.get_farmer(f.id).unwrap().name, "renamed");
}

#[test]
fn not_found_messages_carry_the_id() {
    let store = Store::new();
    match store.get_farmer(42) {
        Err(Error::NotFound { msg }) => assert_eq!(msg, "Farmer with id:42 not found"),
        _ => panic!("expected a not-found error"),
    }
    match store.get_supply_order(7) {
        Err(Error::NotFound { msg }) => assert_eq!(msg, "Supply order with id:7 not found"),
        _ => panic!("expected a not-found error"),
    }
    match store.get_wholesalers() {
        Err(Error::NotFound { msg }) => assert_eq!(msg, "No wholesalers available."),
        _ => panic!("expected a not-found error"),
    }
}

#[test]
fn decimal_rendering_is_exact() {
    assert_eq!(u64_to_decimal(0), "0");
    assert_eq!(u64_to_decimal(10), "10");
    assert_eq!(u64_to_decimal(1_234_567_890), "1234567890");
    assert_eq!(u64_to_decimal(u64::MAX), "18446744073709551615");
}
