use tacho_bridge::pool::TaskPool;
use tacho_bridge::registry::{
    is_card_connected, is_virtual_reader, reader_cards_pool_update, reader_is_dead,
    remove_card_number_entries, should_create_session, should_emit_event, CardState, PoolEntry,
};

fn present_state() -> CardState {
    CardState {
        changed: true,
        present: true,
        in_use: false,
        empty: false,
        unknown: false,
        ignore: false,
    }
}

fn empty_state() -> CardState {
    CardState {
        changed: true,
        present: false,
        in_use: false,
        empty: true,
        unknown: false,
        ignore: false,
    }
}

#[test]
fn adding_same_pair_twice_keeps_one_entry() {
    let mut pool: Vec<PoolEntry> = Vec::new();
    let removed = reader_cards_pool_update(&mut pool, "Reader A", &present_state(), "111");
    assert!(removed.is_empty());
    assert_eq!(pool.len(), 1);
    let removed = reader_cards_pool_update(&mut pool, "Reader A", &present_state(), "111");
    assert!(removed.is_empty());
    assert_eq!(pool.len(), 1);
    assert!(is_card_connected(&pool, "Reader A"));
    assert!(!is_card_connected(&pool, "Reader B"));
}

#[test]
fn removing_empty_reader_returns_its_card_numbers() {
    let mut pool: Vec<PoolEntry> = Vec::new();
    reader_cards_pool_update(&mut pool, "Reader A", &present_state(), "111");
    reader_cards_pool_update(&mut pool, "Reader B", &present_state(), "222");
    let removed = reader_cards_pool_update(&mut pool, "Reader A", &empty_state(), "");
    assert_eq!(removed, vec![String::from("111")]);
    assert!(!is_card_connected(&pool, "Reader A"));
    assert!(is_card_connected(&pool, "Reader B"));
    assert_eq!(pool.len(), 1);
}

#[test]
fn transitional_states_are_no_ops() {
    let mut pool: Vec<PoolEntry> = Vec::new();
    reader_cards_pool_update(&mut pool, "Reader A", &present_state(), "111");
    // Reader without card number but not empty/unknown: tolerated, no-op.
    let removed = reader_cards_pool_update(&mut pool, "Reader A", &present_state(), "");
    assert!(removed.is_empty());
    assert_eq!(pool.len(), 1);
    // Empty reader name: no-op.
    let removed = reader_cards_pool_update(&mut pool, "", &empty_state(), "");
    assert!(removed.is_empty());
    assert_eq!(pool.len(), 1);
    // Card number present but reader empty: no-op.
    let removed = reader_cards_pool_update(&mut pool, "", &present_state(), "333");
    assert!(removed.is_empty());
    assert_eq!(pool.len(), 1);
}

#[test]
fn removing_card_number_entries_filters_them() {
    let mut pool: Vec<PoolEntry> = Vec::new();
    reader_cards_pool_update(&mut pool, "Reader A", &present_state(), "111");
    reader_cards_pool_update(&mut pool, "Reader B", &present_state(), "222");
    remove_card_number_entries(&mut pool, "111");
    assert!(!is_card_connected(&pool, "Reader A"));
    assert!(is_card_connected(&pool, "Reader B"));
}

#[test]
fn monitor_decisions() {
    let dead = CardState { unknown: true, ..present_state() };
    assert!(reader_is_dead(&dead));
    assert!(!reader_is_dead(&present_state()));
    assert!(should_create_session(&present_state(), false));
    assert!(!should_create_session(&present_state(), true));
    let busy = CardState { in_use: true, ..present_state() };
    assert!(!should_create_session(&busy, false));
    assert!(!should_emit_event(&busy));
    assert!(should_emit_event(&present_state()));
}

#[test]
fn virtual_readers_are_recognised() {
    assert!(is_virtual_reader("Microsoft Virtual Smart Card 0"));
    assert!(is_virtual_reader("ACME VIRTUAL Reader"));
    assert!(is_virtual_reader("remote desktop reader"));
    assert!(!is_virtual_reader("Gemalto PC Twin Reader"));
    assert!(!is_virtual_reader(""));
}

#[test]
fn ensure_connection_is_idempotent_per_card_number() {
    let mut pool: TaskPool<u32> = TaskPool::new();
    assert!(pool.needs_connection("123"));
    assert!(pool.ensure_connection("123", 7).is_none());
    assert!(pool.contains_card("123"));
    assert!(!pool.needs_connection("123"));
    // The second request is rejected and hands the handle back.
    assert_eq!(pool.ensure_connection("123", 8), Some(8));
    // Exactly one entry exists: tearing the card number down yields one handle.
    let handles = pool.remove_connections(&vec![String::from("123")]);
    assert_eq!(handles, vec![7]);
    assert!(!pool.contains_card("123"));
}

#[test]
fn empty_card_number_never_creates_an_entry() {
    let mut pool: TaskPool<u32> = TaskPool::new();
    assert!(!pool.needs_connection(""));
    assert_eq!(pool.ensure_connection("", 9), Some(9));
    assert!(!pool.contains_card(""));
    let handles = pool.remove_connections_all();
    assert!(handles.is_empty());
}

#[test]
fn removing_absent_card_number_is_a_no_op() {
    let mut pool: TaskPool<u32> = TaskPool::new();
    pool.ensure_connection("123", 7);
    let handles = pool.remove_connections(&vec![String::from("999")]);
    assert!(handles.is_empty());
    assert!(pool.contains_card("123"));
}

#[test]
fn remove_all_aborts_everything() {
    let mut pool: TaskPool<u32> = TaskPool::new();
    pool.ensure_connection("123", 7);
    pool.ensure_connection("456", 8);
    let handles = pool.remove_connections_all();
    assert_eq!(handles.len(), 2);
    assert!(!pool.contains_card("123"));
    assert!(!pool.contains_card("456"));
}
