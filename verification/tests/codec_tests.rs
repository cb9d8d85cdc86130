use liquor_backend::records::{
    InventoryAdjustment, LiquorProduct, Record, SaleRecord, SupplyChainEvent, User,
};

#[test]
fn user_bytes_round_trip() {
    let u = User {
        id: 7,
        username: "grüße 🍇".to_string(),
        role: "".to_string(),
        points: u64::MAX,
        contact_info: "a@x.com".to_string(),
    };
    let bytes = u.encode();
    assert_eq!(User::decode(&bytes), Some(u));
}

#[test]
fn product_bytes_round_trip_with_and_without_options() {
    let with = LiquorProduct {
        id: 1,
        user_id: 2,
        name: "Dry Gin".to_string(),
        product_type: "gin".to_string(),
        brand: "Juniper & Co".to_string(),
        alcohol_content: 47,
        batch_number: "B-1".to_string(),
        vintage_year: Some("2001".to_string()),
        bottle_size: "700ml".to_string(),
        cost_price: 10,
        retail_price: 20,
        current_stock: 3,
        expiry_date: Some("2030-01-01".to_string()),
    };
    let without = LiquorProduct { vintage_year: None, expiry_date: None, ..with.clone() };
    assert_eq!(LiquorProduct::decode(&with.encode()), Some(with));
    assert_eq!(LiquorProduct::decode(&without.encode()), Some(without));
}

#[test]
fn sale_bytes_round_trip() {
    let s = SaleRecord {
        id: 0,
        liquor_product_id: u64::MAX,
        quantity: 3,
        total_price: 120,
        sale_date: 20240101,
        sales_staff_id: 5,
        customer_age: 21,
    };
    assert_eq!(SaleRecord::decode(&s.encode()), Some(s));
}

#[test]
fn adjustment_bytes_round_trip_keeps_signed_deltas() {
    for delta in [i64::MIN, -1, 0, 1, i64::MAX] {
        let a = InventoryAdjustment {
            id: 9,
            liquor_product_id: 4,
            quantity_changed: delta,
            reason: "stocktake".to_string(),
            adjusted_by: 2,
            adjustment_date: 20240105,
        };
        assert_eq!(InventoryAdjustment::decode(&a.encode()), Some(a));
    }
}

#[test]
fn event_bytes_round_trip() {
    let e = SupplyChainEvent {
        id: 3,
        liquor_product_id: 4,
        event_type: "delivery".to_string(),
        location: "pier 39".to_string(),
        quantity: 6,
        date: 20240106,
        participant_id: 8,
    };
    assert_eq!(SupplyChainEvent::decode(&e.encode()), Some(e));
}

#[test]
fn decode_rejects_truncated_bytes() {
    let s = SaleRecord {
        id: 1,
        liquor_product_id: 2,
        quantity: 3,
        total_price: 4,
        sale_date: 5,
        sales_staff_id: 6,
        customer_age: 7,
    };
    let mut bytes = s.encode();
    bytes.truncate(bytes.len() - 1);
    assert_eq!(SaleRecord::decode(&bytes), None);
}

#[test]
fn decode_rejects_trailing_bytes() {
    let u = User {
        id: 7,
        username: "alice".to_string(),
        role: "staff".to_string(),
        points: 3,
        contact_info: "a@x.com".to_string(),
    };
    let mut bytes = u.encode();
    bytes.push(0);
    assert_eq!(User::decode(&bytes), None);
    let p = LiquorProduct {
        id: 1,
        user_id: 2,
        name: "Dry Gin".to_string(),
        product_type: "gin".to_string(),
        brand: "Juniper & Co".to_string(),
        alcohol_content: 47,
        batch_number: "B-1".to_string(),
        vintage_year: None,
        bottle_size: "700ml".to_string(),
        cost_price: 10,
        retail_price: 20,
        current_stock: 3,
        expiry_date: None,
    };
    let mut pb = p.encode();
    pb.push(0);
    assert_eq!(LiquorProduct::decode(&pb), None);
    let s = SaleRecord {
        id: 1,
        liquor_product_id: 2,
        quantity: 3,
        total_price: 4,
        sale_date: 5,
        sales_staff_id: 6,
        customer_age: 7,
    };
    let mut sb = s.encode();
    sb.push(0);
    assert_eq!(SaleRecord::decode(&sb), None);
}

#[test]
fn decode_rejects_garbage_bytes() {
    let garbage: Vec<u8> = (0u8..255).collect();
    assert_eq!(User::decode(&garbage), None);
    assert_eq!(SaleRecord::decode(&garbage[..60]), None);
}
