use liquor_backend::records::{
    InventoryAdjustment, LiquorProduct, Message, SaleRecord, SupplyChainEvent,
};
use liquor_backend::service::{validate_string_field, LiquorService};

fn sample_product(id: u64, name: &str, stock: u64) -> LiquorProduct {
    LiquorProduct {
        id,
        user_id: 1,
        name: name.to_string(),
        product_type: "whiskey".to_string(),
        brand: "Oak & Ember".to_string(),
        alcohol_content: 43,
        batch_number: "B-17".to_string(),
        vintage_year: Some("1998".to_string()),
        bottle_size: "750ml".to_string(),
        cost_price: 25,
        retail_price: 40,
        current_stock: stock,
        expiry_date: None,
    }
}

fn sample_sale(id: u64, product_id: u64, quantity: u64, age: u64) -> SaleRecord {
    SaleRecord {
        id,
        liquor_product_id: product_id,
        quantity,
        total_price: quantity * 40,
        sale_date: 20240101,
        sales_staff_id: 7,
        customer_age: age,
    }
}

#[test]
fn generated_ids_strictly_increase() {
    let mut s = LiquorService::new();
    let a = s
        .register_user("alice".to_string(), "staff".to_string(), "a@x.com".to_string())
        .unwrap();
    let b = s
        .register_user("bob".to_string(), "staff".to_string(), "b@x.com".to_string())
        .unwrap();
    let c = s
        .register_user("carol".to_string(), "staff".to_string(), "c@x.com".to_string())
        .unwrap();
    assert!(a.id < b.id && b.id < c.id);
    assert_eq!(a.id, 0);
    assert_eq!(b.id, 1);
    assert_eq!(c.id, 2);
}

#[test]
fn register_user_rejects_empty_username() {
    let mut s = LiquorService::new();
    let r = s.register_user("".to_string(), "staff".to_string(), "c@x.com".to_string());
    assert!(matches!(r, Err(Message::InvalidPayload(_))));
    assert!(s.list_all_users().is_empty());
}

#[test]
fn register_user_rejects_whitespace_role() {
    let mut s = LiquorService::new();
    let r = s.register_user("alice".to_string(), "  \t ".to_string(), "c@x.com".to_string());
    assert!(matches!(r, Err(Message::InvalidPayload(_))));
}

#[test]
fn register_user_succeeds_with_fresh_id_and_zero_points() {
    let mut s = LiquorService::new();
    let u = s
        .register_user("alice".to_string(), "staff".to_string(), "c@x.com".to_string())
        .unwrap();
    assert_eq!(u.id, 0);
    assert_eq!(u.username, "alice");
    assert_eq!(u.role, "staff");
    assert_eq!(u.points, 0);
    assert_eq!(u.contact_info, "c@x.com");
    let fetched = s.get_user_by_id(0).unwrap();
    assert_eq!(fetched, u);
}

#[test]
fn validate_string_field_reports_the_field_name() {
    assert!(validate_string_field("alice", "Username").is_ok());
    match validate_string_field("   ", "Username") {
        Err(Message::InvalidPayload(t)) => assert_eq!(t, "Username cannot be empty"),
        other => panic!("unexpected result: {:?}", other),
    }
}

#[test]
fn sell_with_insufficient_stock_leaves_stock_unchanged() {
    let mut s = LiquorService::new();
    s.add_liquor_product(sample_product(10, "Dry Gin", 3)).unwrap();
    let r = s.sell_liquor_product(sample_sale(100, 10, 4, 30));
    assert!(matches!(r, Err(Message::InsufficientStock(_))));
    assert_eq!(s.check_stock_availability(10).unwrap(), 3);
    assert!(s.list_all_sales().is_empty());
}

#[test]
fn sell_to_underage_customer_leaves_stock_unchanged() {
    let mut s = LiquorService::new();
    s.add_liquor_product(sample_product(10, "Dry Gin", 5)).unwrap();
    let r = s.sell_liquor_product(sample_sale(100, 10, 2, 20));
    assert!(matches!(r, Err(Message::AgeRestriction(_))));
    assert_eq!(s.check_stock_availability(10).unwrap(), 5);
    assert!(s.list_all_sales().is_empty());
}

#[test]
fn stock_check_comes_before_age_check() {
    let mut s = LiquorService::new();
    s.add_liquor_product(sample_product(10, "Dry Gin", 1)).unwrap();
    // Both rules are violated; the stock rule wins.
    let r = s.sell_liquor_product(sample_sale(100, 10, 2, 20));
    assert!(matches!(r, Err(Message::InsufficientStock(_))));
}

#[test]
fn successful_sale_decrements_stock_and_records_the_sale() {
    let mut s = LiquorService::new();
    s.add_liquor_product(sample_product(10, "Dry Gin", 5)).unwrap();
    let sale = sample_sale(100, 10, 2, 21);
    let recorded = s.sell_liquor_product(sale.clone()).unwrap();
    assert_eq!(recorded, sale);
    assert_eq!(s.check_stock_availability(10).unwrap(), 3);
    let sales = s.list_all_sales();
    assert_eq!(sales.len(), 1);
    assert_eq!(sales[0], sale);
}

#[test]
fn update_stock_of_missing_product_is_not_found() {
    let mut s = LiquorService::new();
    let r = s.update_stock(999, 5);
    assert!(matches!(r, Err(Message::NotFound(_))));
}

#[test]
fn update_stock_overwrites_the_level() {
    let mut s = LiquorService::new();
    s.add_liquor_product(sample_product(10, "Dry Gin", 5)).unwrap();
    let p = s.update_stock(10, 42).unwrap();
    assert_eq!(p.current_stock, 42);
    assert_eq!(s.check_stock_availability(10).unwrap(), 42);
}

#[test]
fn negative_adjustment_beyond_stock_wraps_around() {
    let mut s = LiquorService::new();
    s.add_liquor_product(sample_product(10, "Dry Gin", 5)).unwrap();
    let adj = InventoryAdjustment {
        id: 200,
        liquor_product_id: 10,
        quantity_changed: -10,
        reason: "breakage".to_string(),
        adjusted_by: 1,
        adjustment_date: 20240102,
    };
    s.log_inventory_adjustment(adj).unwrap();
    // 5 - 10 under the narrowing arithmetic: wraps to 2^64 - 5.
    assert_eq!(s.check_stock_availability(10).unwrap(), u64::MAX - 4);
}

#[test]
fn positive_adjustment_raises_stock_and_is_recorded() {
    let mut s = LiquorService::new();
    s.add_liquor_product(sample_product(10, "Dry Gin", 5)).unwrap();
    let adj = InventoryAdjustment {
        id: 200,
        liquor_product_id: 10,
        quantity_changed: 7,
        reason: "recount".to_string(),
        adjusted_by: 1,
        adjustment_date: 20240102,
    };
    let logged = s.log_inventory_adjustment(adj.clone()).unwrap();
    assert_eq!(logged, adj);
    assert_eq!(s.check_stock_availability(10).unwrap(), 12);
    let all = s.list_all_inventory_adjustments();
    assert_eq!(all.len(), 1);
    assert_eq!(all[0], adj);
}

#[test]
fn adjustment_for_missing_product_is_not_found() {
    let mut s = LiquorService::new();
    let adj = InventoryAdjustment {
        id: 200,
        liquor_product_id: 999,
        quantity_changed: 1,
        reason: "recount".to_string(),
        adjusted_by: 1,
        adjustment_date: 20240102,
    };
    let r = s.log_inventory_adjustment(adj);
    assert!(matches!(r, Err(Message::NotFound(_))));
}

#[test]
fn report_excludes_sales_of_deleted_products() {
    let mut s = LiquorService::new();
    s.add_liquor_product(sample_product(10, "Dry Gin", 5)).unwrap();
    s.add_liquor_product(sample_product(11, "Old Rum", 5)).unwrap();
    s.sell_liquor_product(sample_sale(100, 10, 1, 30)).unwrap();
    s.sell_liquor_product(sample_sale(101, 11, 2, 30)).unwrap();
    s.delete_liquor_product(10).unwrap();
    let report = s.generate_sales_report();
    assert_eq!(report.len(), 1);
    assert_eq!(report[0].0, "Old Rum");
    assert_eq!(report[0].1, 80);
    // The dropped sale itself is still on file.
    assert_eq!(s.list_all_sales().len(), 2);
}

#[test]
fn report_joins_product_names_with_sale_prices() {
    let mut s = LiquorService::new();
    s.add_liquor_product(sample_product(10, "Dry Gin", 5)).unwrap();
    s.sell_liquor_product(sample_sale(100, 10, 2, 30)).unwrap();
    let report = s.generate_sales_report();
    assert_eq!(report, vec![("Dry Gin".to_string(), 80)]);
}

#[test]
fn delete_product_twice_reports_not_found_the_second_time() {
    let mut s = LiquorService::new();
    s.add_liquor_product(sample_product(10, "Dry Gin", 5)).unwrap();
    assert!(s.delete_liquor_product(10).is_ok());
    let again = s.delete_liquor_product(10);
    assert!(matches!(again, Err(Message::NotFound(_))));
}

#[test]
fn add_product_rejects_empty_name() {
    let mut s = LiquorService::new();
    let r = s.add_liquor_product(sample_product(10, "", 5));
    assert!(matches!(r, Err(Message::InvalidPayload(_))));
    assert!(s.list_all_products().is_empty());
}

#[test]
fn product_round_trips_through_the_store() {
    let mut s = LiquorService::new();
    let p = sample_product(10, "Crème de Menthe 🍷", 5);
    s.add_liquor_product(p.clone()).unwrap();
    let all = s.list_all_products();
    assert_eq!(all.len(), 1);
    assert_eq!(all[0], p);
}

#[test]
fn supply_chain_event_round_trips_through_the_store() {
    let mut s = LiquorService::new();
    let e = SupplyChainEvent {
        id: 300,
        liquor_product_id: 10,
        event_type: "shipment".to_string(),
        location: "warehouse 4".to_string(),
        quantity: 12,
        date: 20240103,
        participant_id: 9,
    };
    let logged = s.log_supply_chain_event(e.clone()).unwrap();
    assert_eq!(logged, e);
    let all = s.list_all_supply_chain_events();
    assert_eq!(all.len(), 1);
    assert_eq!(all[0], e);
}

#[test]
fn listings_come_back_in_ascending_id_order() {
    let mut s = LiquorService::new();
    s.add_liquor_product(sample_product(30, "Cask C", 1)).unwrap();
    s.add_liquor_product(sample_product(10, "Cask A", 1)).unwrap();
    s.add_liquor_product(sample_product(20, "Cask B", 1)).unwrap();
    let ids: Vec<u64> = s.list_all_products().iter().map(|p| p.id).collect();
    assert_eq!(ids, vec![10, 20, 30]);
}

#[test]
fn update_user_points_accumulates() {
    let mut s = LiquorService::new();
    let u = s
        .register_user("alice".to_string(), "staff".to_string(), "c@x.com".to_string())
        .unwrap();
    s.update_user_points(u.id, 5).unwrap();
    let after = s.update_user_points(u.id, 7).unwrap();
    assert_eq!(after.points, 12);
}

#[test]
fn update_user_points_overflow_is_an_error() {
    let mut s = LiquorService::new();
    let u = s
        .register_user("alice".to_string(), "staff".to_string(), "c@x.com".to_string())
        .unwrap();
    s.update_user_points(u.id, u64::MAX - 1).unwrap();
    let r = s.update_user_points(u.id, 2);
    assert!(matches!(r, Err(Message::Error(_))));
    assert_eq!(s.get_user_by_id(u.id).unwrap().points, u64::MAX - 1);
}

#[test]
fn update_points_of_missing_user_is_not_found() {
    let mut s = LiquorService::new();
    let r = s.update_user_points(999, 1);
    assert!(matches!(r, Err(Message::NotFound(_))));
}

#[test]
fn search_user_by_username_finds_exact_matches_only() {
    let mut s = LiquorService::new();
    s.register_user("alice".to_string(), "staff".to_string(), "a@x.com".to_string())
        .unwrap();
    s.register_user("alicia".to_string(), "staff".to_string(), "b@x.com".to_string())
        .unwrap();
    let found = s.search_user_by_username("alice".to_string()).unwrap();
    assert_eq!(found.username, "alice");
    let missing = s.search_user_by_username("ali".to_string());
    assert!(matches!(missing, Err(Message::NotFound(_))));
}

#[test]
fn search_products_by_name_matches_substrings() {
    let mut s = LiquorService::new();
    s.add_liquor_product(sample_product(1, "Highland Single Malt", 1)).unwrap();
    s.add_liquor_product(sample_product(2, "Lowland Blend", 1)).unwrap();
    s.add_liquor_product(sample_product(3, "Island Single Cask", 1)).unwrap();
    let hits = s.search_products_by_name("Single".to_string());
    let ids: Vec<u64> = hits.iter().map(|p| p.id).collect();
    assert_eq!(ids, vec![1, 3]);
}

#[test]
fn low_stock_filter_is_a_strict_threshold() {
    let mut s = LiquorService::new();
    s.add_liquor_product(sample_product(1, "Cask A", 2)).unwrap();
    s.add_liquor_product(sample_product(2, "Cask B", 5)).unwrap();
    s.add_liquor_product(sample_product(3, "Cask C", 4)).unwrap();
    let low = s.list_low_stock_products(5);
    let ids: Vec<u64> = low.iter().map(|p| p.id).collect();
    assert_eq!(ids, vec![1, 3]);
}

#[test]
fn check_stock_of_missing_product_is_not_found() {
    let s = LiquorService::new();
    assert!(matches!(s.check_stock_availability(1), Err(Message::NotFound(_))));
}

#[test]
fn generate_id_returns_then_advances_the_counter() {
    let mut s = LiquorService::new();
    assert_eq!(s.generate_id(), 0);
    assert_eq!(s.generate_id(), 1);
    assert_eq!(s.generate_id(), 2);
}

#[test]
fn register_user_rejects_a_record_over_the_size_ceiling() {
    let mut s = LiquorService::new();
    let long_name = "x".repeat(600);
    let r = s.register_user(long_name, "staff".to_string(), "c@x.com".to_string());
    assert!(matches!(r, Err(Message::InvalidPayload(_))));
    assert!(s.list_all_users().is_empty());
    // The identifier counter did not move.
    let u = s
        .register_user("alice".to_string(), "staff".to_string(), "c@x.com".to_string())
        .unwrap();
    assert_eq!(u.id, 0);
}

#[test]
fn add_product_rejects_a_record_over_the_size_ceiling() {
    let mut s = LiquorService::new();
    let r = s.add_liquor_product(sample_product(10, &"y".repeat(2000), 5));
    assert!(matches!(r, Err(Message::InvalidPayload(_))));
    assert!(s.list_all_products().is_empty());
    // A product within the ceiling is accepted.
    assert!(s.add_liquor_product(sample_product(10, "Dry Gin", 5)).is_ok());
}

#[test]
fn adjustment_rejects_a_record_over_the_size_ceiling() {
    let mut s = LiquorService::new();
    s.add_liquor_product(sample_product(10, "Dry Gin", 5)).unwrap();
    let adj = InventoryAdjustment {
        id: 200,
        liquor_product_id: 10,
        quantity_changed: -1,
        reason: "r".repeat(600),
        adjusted_by: 1,
        adjustment_date: 20240102,
    };
    let r = s.log_inventory_adjustment(adj);
    assert!(matches!(r, Err(Message::InvalidPayload(_))));
    assert_eq!(s.check_stock_availability(10).unwrap(), 5);
    assert!(s.list_all_inventory_adjustments().is_empty());
}

#[test]
fn supply_chain_event_rejects_a_record_over_the_size_ceiling() {
    let mut s = LiquorService::new();
    let e = SupplyChainEvent {
        id: 300,
        liquor_product_id: 10,
        event_type: "shipment".to_string(),
        location: "z".repeat(600),
        quantity: 12,
        date: 20240103,
        participant_id: 9,
    };
    let r = s.log_supply_chain_event(e);
    assert!(matches!(r, Err(Message::InvalidPayload(_))));
    assert!(s.list_all_supply_chain_events().is_empty());
}
