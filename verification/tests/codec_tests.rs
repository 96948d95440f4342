use supply_registry::records::{
    decode_farmer, decode_product, decode_supply_order, decode_wholesaler, encode_farmer,
    encode_product, encode_supply_order, encode_wholesaler, Farmer, Product, SupplyOrder,
    Wholesaler,
};

fn sample_farmer() -> Farmer {
    Farmer {
        id: 7,
        name: "Amélie Dupont".to_string(),
        email: "amelie@ferme.example".to_string(),
        phone: "+33 1 23 45 67 89".to_string(),
        product_ids: vec![3, 9, 27],
        created_at: 1_700_000_000_000,
        updated_at: Some(1_700_000_100_000),
    }
}

#[test]
fn farmer_round_trip() {
    let f = sample_farmer();
    let bytes = encode_farmer(&f);
    let back = decode_farmer(&bytes).expect("a farmer encoding must decode");
    assert_eq!(encode_farmer(&back), bytes);
    assert_eq!(back.id, 7);
    assert_eq!(back.name, "Amélie Dupont");
    assert_eq!(back.email, "amelie@ferme.example");
    assert_eq!(back.phone, "+33 1 23 45 67 89");
    assert_eq!(back.product_ids, vec![3, 9, 27]);
    assert_eq!(back.created_at, 1_700_000_000_000);
    assert_eq!(back.updated_at, Some(1_700_000_100_000));
}

#[test]
fn farmer_round_trip_empty_fields() {
    let f = Farmer {
        id: 0,
        name: String::new(),
        email: String::new(),
        phone: String::new(),
        product_ids: vec![],
        created_at: 0,
        updated_at: None,
    };
    let bytes = encode_farmer(&f);
    let back = decode_farmer(&bytes).expect("an empty farmer must decode");
    assert_eq!(back.name, "");
    assert_eq!(back.product_ids, Vec::<u64>::new());
    assert_eq!(back.updated_at, None);
    assert_eq!(encode_farmer(&back), bytes);
}

#[test]
fn product_round_trip() {
    let p = Product {
        id: u64::MAX,
        name: "日本の米".to_string(),
        description: "short-grain rice\nsecond line".to_string(),
        farmer_id: 42,
        created_at: 5,
        updated_at: None,
    };
    let bytes = encode_product(&p);
    let back = decode_product(&bytes).expect("a product encoding must decode");
    assert_eq!(back.id, u64::MAX);
    assert_eq!(back.name, "日本の米");
    assert_eq!(back.description, "short-grain rice\nsecond line");
    assert_eq!(back.farmer_id, 42);
    assert_eq!(back.updated_at, None);
    assert_eq!(encode_product(&back), bytes);
}

#[test]
fn wholesaler_round_trip() {
    let w = Wholesaler {
        id: 11,
        name: "Grøn Marked".to_string(),
        email: "kontakt@marked.example".to_string(),
        phone: "555-0100".to_string(),
        order_ids: vec![1, 2, 3, 5, 8, 13],
        created_at: 99,
        updated_at: Some(0),
    };
    let bytes = encode_wholesaler(&w);
    let back = decode_wholesaler(&bytes).expect("a wholesaler encoding must decode");
    assert_eq!(back.order_ids, vec![1, 2, 3, 5, 8, 13]);
    assert_eq!(back.updated_at, Some(0));
    assert_eq!(encode_wholesaler(&back), bytes);
}

#[test]
fn supply_order_round_trip() {
    let o = SupplyOrder {
        id: 21,
        title: "autumn wheat".to_string(),
        farmer_id: 7,
        wholesaler_id: Some(11),
        product_types: vec!["wheat".to_string(), "rye — organic".to_string()],
        products: vec![("wheat".to_string(), 1200), ("rye — organic".to_string(), 80)],
        is_complete: true,
        created_at: 1_000,
        updated_at: Some(2_000),
    };
    let bytes = encode_supply_order(&o);
    let back = decode_supply_order(&bytes).expect("a supply-order encoding must decode");
    assert_eq!(back.id, 21);
    assert_eq!(back.title, "autumn wheat");
    assert_eq!(back.wholesaler_id, Some(11));
    assert_eq!(
        back.product_types,
        vec!["wheat".to_string(), "rye — organic".to_string()]
    );
    assert_eq!(
        back.products,
        vec![("wheat".to_string(), 1200), ("rye — organic".to_string(), 80)]
    );
    assert!(back.is_complete);
    assert_eq!(encode_supply_order(&back), bytes);
}

#[test]
fn supply_order_round_trip_unclaimed() {
    let o = SupplyOrder {
        id: 0,
        title: String::new(),
        farmer_id: 0,
        wholesaler_id: None,
        product_types: vec![],
        products: vec![],
        is_complete: false,
        created_at: 0,
        updated_at: None,
    };
    let bytes = encode_supply_order(&o);
    let back = decode_supply_order(&bytes).expect("an unclaimed order must decode");
    assert_eq!(back.wholesaler_id, None);
    assert!(!back.is_complete);
    assert_eq!(encode_supply_order(&back), bytes);
}

#[test]
fn decode_rejects_malformed_bytes() {
    assert!(decode_farmer(&vec![]).is_none());
    assert!(decode_farmer(&vec![1, 2, 3]).is_none());
    // a valid encoding with its last byte cut off
    let mut bytes = encode_farmer(&sample_farmer());
    bytes.pop();
    assert!(decode_farmer(&bytes).is_none());
    // a valid encoding with a trailing byte added
    let mut longer = encode_farmer(&sample_farmer());
    longer.push(0);
    assert!(decode_farmer(&longer).is_none());
    // an option tag that is neither 0 nor 1
    let mut bad_tag = encode_farmer(&sample_farmer());
    let last = bad_tag.len() - 9;
    bad_tag[last] = 7;
    assert!(decode_farmer(&bad_tag).is_none());
}

#[test]
fn decode_rejects_invalid_utf8() {
    let f = Farmer {
        id: 1,
        name: "ok".to_string(),
        email: String::new(),
        phone: String::new(),
        product_ids: vec![],
        created_at: 0,
        updated_at: None,
    };
    let mut bytes = encode_farmer(&f);
    // the name's two bytes start at offset 16; 0xFF is never valid UTF-8
    bytes[16] = 0xFF;
    assert!(decode_farmer(&bytes).is_none());
}
