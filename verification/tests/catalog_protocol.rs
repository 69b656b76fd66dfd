use ticketing::catalog::{clear_cache, get_ticket, populate_tickets};
use ticketing::fraud::anti_fraud;
use ticketing::protocol::{get_rw_set, reserve_decide, reserve_ticket};
use ticketing::store::CacheKV;
use ticketing::{Ticket, TicketError};

fn proposal(id: u32, email: &str, name: &str, card: &str) -> Ticket {
    Ticket {
        id,
        taken: false,
        res_email: Some(email.to_string()),
        res_name: Some(name.to_string()),
        res_card: Some(card.to_string()),
    }
}

#[test]
fn populate_then_get_all_fresh() {
    let mut store = CacheKV::new();
    populate_tickets(&mut store, 5);
    for i in 0..5u32 {
        let t = get_ticket(&store, i).unwrap();
        assert_eq!(t.id, i);
        assert!(!t.taken);
        assert!(t.res_email.is_none());
        assert!(t.res_name.is_none());
        assert!(t.res_card.is_none());
    }
}

#[test]
fn clear_after_populate_removes_all() {
    let mut store = CacheKV::new();
    populate_tickets(&mut store, 4);
    assert!(clear_cache(&mut store).is_ok());
    for i in 0..4u32 {
        assert_eq!(get_ticket(&store, i).unwrap_err(), TicketError::NotFound);
    }
}

#[test]
fn clear_without_populate_not_found() {
    let mut store = CacheKV::new();
    assert_eq!(clear_cache(&mut store).unwrap_err(), TicketError::NotFound);
}

#[test]
fn get_ticket_missing_not_found() {
    let store = CacheKV::new();
    assert_eq!(get_ticket(&store, 3).unwrap_err(), TicketError::NotFound);
}

#[test]
fn repopulating_without_clear_leaves_old_tickets() {
    let mut store = CacheKV::new();
    populate_tickets(&mut store, 3);
    populate_tickets(&mut store, 1);
    // the recorded count is now 1, so clearing removes only ticket 0
    assert!(clear_cache(&mut store).is_ok());
    assert_eq!(get_ticket(&store, 0).unwrap_err(), TicketError::NotFound);
    assert!(get_ticket(&store, 2).is_ok());
}

#[test]
fn repopulating_overwrites_covered_tickets() {
    let mut store = CacheKV::new();
    populate_tickets(&mut store, 1);
    assert!(reserve_ticket(&mut store, proposal(0, "a@b.co", "Ann", "4111")).is_ok());
    // populating again blindly overwrites ticket 0 with a fresh record
    populate_tickets(&mut store, 1);
    let t = get_ticket(&store, 0).unwrap();
    assert!(!t.taken);
    assert_eq!(store.get(0).unwrap().version, 0);
}

#[test]
fn list_available_skips_taken() {
    let mut store = CacheKV::new();
    populate_tickets(&mut store, 3);
    assert!(reserve_ticket(&mut store, proposal(1, "a@b.co", "Ann", "4111")).is_ok());
    let free = store.list_available();
    assert_eq!(free, vec![0u32, 2u32]);
}

#[test]
fn reserve_nonexistent_not_found_and_no_write() {
    let mut store = CacheKV::new();
    populate_tickets(&mut store, 2);
    let r = reserve_ticket(&mut store, proposal(7, "a@b.co", "Ann", "4111"));
    assert_eq!(r.unwrap_err(), TicketError::NotFound);
    // nothing else was touched
    assert!(!get_ticket(&store, 0).unwrap().taken);
    assert!(!get_ticket(&store, 1).unwrap().taken);
    assert_eq!(get_ticket(&store, 7).unwrap_err(), TicketError::NotFound);
}

#[test]
fn reserve_invalid_email_fraud_rejected() {
    let mut store = CacheKV::new();
    populate_tickets(&mut store, 1);
    let r = reserve_ticket(&mut store, proposal(0, "not-an-email", "Ann", "4111"));
    assert_eq!(r.unwrap_err(), TicketError::FraudRejected);
    // no write happened
    assert!(!get_ticket(&store, 0).unwrap().taken);
}

#[test]
fn reserve_missing_field_rejected() {
    let mut store = CacheKV::new();
    populate_tickets(&mut store, 1);
    let mut p = proposal(0, "a@b.co", "Ann", "4111");
    p.res_name = None;
    assert_eq!(
        reserve_ticket(&mut store, p).unwrap_err(),
        TicketError::MissingField
    );
    assert!(!get_ticket(&store, 0).unwrap().taken);
}

#[test]
fn reserve_valid_success_and_details_stored() {
    let mut store = CacheKV::new();
    populate_tickets(&mut store, 2);
    let r = reserve_ticket(&mut store, proposal(1, "a@b.co", "Ann", "4111"));
    assert!(r.is_ok());
    let t = get_ticket(&store, 1).unwrap();
    assert!(t.taken);
    assert_eq!(t.res_email.as_deref(), Some("a@b.co"));
    assert_eq!(t.res_name.as_deref(), Some("Ann"));
    assert_eq!(t.res_card.as_deref(), Some("4111"));
    // the other ticket is untouched
    assert!(!get_ticket(&store, 0).unwrap().taken);
}

#[test]
fn reserve_increments_version() {
    let mut store = CacheKV::new();
    populate_tickets(&mut store, 1);
    assert_eq!(store.get(0).unwrap().version, 0);
    assert!(reserve_ticket(&mut store, proposal(0, "a@b.co", "Ann", "4111")).is_ok());
    assert_eq!(store.get(0).unwrap().version, 1);
}

#[test]
fn reserve_twice_already_reserved() {
    let mut store = CacheKV::new();
    populate_tickets(&mut store, 1);
    assert!(reserve_ticket(&mut store, proposal(0, "a@b.co", "Ann", "4111")).is_ok());
    let second = reserve_ticket(&mut store, proposal(0, "c@d.eu", "Bob", "5500"));
    assert_eq!(second.unwrap_err(), TicketError::AlreadyReserved);
    // the first reservation still stands
    let t = get_ticket(&store, 0).unwrap();
    assert_eq!(t.res_email.as_deref(), Some("a@b.co"));
}

#[test]
fn concurrent_reserves_both_accept_and_later_write_wins() {
    // Two writers read the same available record before either writes: the
    // protocol accepts both, and the second blind overwrite silently
    // discards the first writer's reservation. This is the documented
    // design gap, reproduced faithfully.
    let mut store = CacheKV::new();
    populate_tickets(&mut store, 1);
    let read_a = store.get(0).unwrap().duplicate();
    let read_b = store.get(0).unwrap().duplicate();
    let write_a = reserve_decide(&read_a, proposal(0, "a@b.co", "Ann", "4111")).unwrap();
    let write_b = reserve_decide(&read_b, proposal(0, "c@d.eu", "Bob", "5500")).unwrap();
    store.put(0, write_a);
    store.put(0, write_b);
    let t = get_ticket(&store, 0).unwrap();
    assert!(t.taken);
    // the later write clobbered the earlier one
    assert_eq!(t.res_email.as_deref(), Some("c@d.eu"));
    assert_eq!(t.res_name.as_deref(), Some("Bob"));
    // both writers stored version 1: the counter shows one update, not two
    assert_eq!(store.get(0).unwrap().version, 1);
}

#[test]
fn rw_set_names_the_one_record_key() {
    let p = proposal(7, "a@b.co", "Ann", "4111");
    let r = get_rw_set(&p);
    assert_eq!(r.status, 200);
    assert_eq!(r.rw_set, vec!["ticket-7".to_string()]);
}

#[test]
fn anti_fraud_accepts_and_rejects_email_shapes() {
    let taken = |email: &str| Ticket {
        id: 0,
        taken: true,
        res_email: Some(email.to_string()),
        res_name: Some("Ann".to_string()),
        res_card: Some("4111".to_string()),
    };
    assert!(anti_fraud(&taken("a@b.co")));
    assert!(anti_fraud(&taken("user.name+tag@example-site.co.uk")));
    assert!(anti_fraud(&taken("a@b.c")));
    assert!(!anti_fraud(&taken("not-an-email")));
    assert!(!anti_fraud(&taken("@b.co")));
    assert!(!anti_fraud(&taken("a@b")));
    assert!(!anti_fraud(&taken("a@b.")));
    assert!(!anti_fraud(&taken("a@.co")));
    assert!(!anti_fraud(&taken("a b@c.de")));
    assert!(!anti_fraud(&taken("a@b@c.de")));
    assert!(!anti_fraud(&taken("")));
}
