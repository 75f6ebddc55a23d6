use rustgym::registry::{QueryOutcome, Registry, RegistryError};
use rustgym::search::{ProblemSummary, SearchResult, Category};

fn found(id: u64) -> QueryOutcome {
    QueryOutcome::Found(SearchResult {
        items: vec![ProblemSummary::new(id, Category::Leetcode, format!("P{}", id), String::new())],
    })
}

#[test]
fn register_binds_fresh_handles() {
    let mut reg = Registry::new();
    let a = reg.register(7);
    let b = reg.register(8);
    assert_eq!(a.superseded, None);
    assert_eq!(b.superseded, None);
    assert_ne!(a.handle, b.handle);
    assert_eq!(reg.handle_of(7), Some(a.handle));
    assert_eq!(reg.handle_of(8), Some(b.handle));
    assert_eq!(reg.handle_of(9), None);
}

#[test]
fn unregister_is_idempotent() {
    let mut reg = Registry::new();
    let a = reg.register(7);
    assert_eq!(reg.unregister(7), Some(a.handle));
    assert_eq!(reg.handle_of(7), None);
    assert_eq!(reg.unregister(7), None);
    assert_eq!(reg.unregister(42), None);
    assert_eq!(reg.handle_of(7), None);
}

#[test]
fn supersession_keeps_one_entry_and_skips_old_handle() {
    let mut reg = Registry::new();
    let h1 = reg.register(5).handle;
    let ticket = reg.dispatch(5).unwrap();
    let second = reg.register(5);
    assert_eq!(second.superseded, Some(h1));
    assert_eq!(reg.handle_of(5), Some(second.handle));
    assert!(reg.complete(ticket, found(1)).is_none());
}

#[test]
fn release_of_superseded_connection_keeps_new_binding() {
    let mut reg = Registry::new();
    let h1 = reg.register(5).handle;
    let h2 = reg.register(5).handle;
    assert!(!reg.release(5, h1));
    assert_eq!(reg.handle_of(5), Some(h2));
    assert!(reg.release(5, h2));
    assert_eq!(reg.handle_of(5), None);
}

#[test]
fn dispatch_for_unknown_session_is_session_gone() {
    let mut reg = Registry::new();
    assert_eq!(reg.dispatch(3).err(), Some(RegistryError::SessionGone));
    reg.register(3);
    reg.unregister(3);
    assert_eq!(reg.dispatch(3).err(), Some(RegistryError::SessionGone));
}

#[test]
fn outcome_is_delivered_exactly_once() {
    let mut reg = Registry::new();
    let h = reg.register(1).handle;
    let t = reg.dispatch(1).unwrap();
    let d = reg.complete(t, found(10)).expect("delivered");
    assert_eq!(d.session, 1);
    assert_eq!(d.handle, h);
    match d.outcome {
        QueryOutcome::Found(r) => assert_eq!(r.items[0].id, 10),
        QueryOutcome::BackendUnavailable => panic!("wrong outcome"),
    }
    assert!(reg.complete(t, found(10)).is_none());
}

#[test]
fn backend_failure_is_delivered_as_failure() {
    let mut reg = Registry::new();
    let h = reg.register(1).handle;
    let t = reg.dispatch(1).unwrap();
    let d = reg.complete(t, QueryOutcome::BackendUnavailable).expect("delivered");
    assert_eq!(d.handle, h);
    assert!(matches!(d.outcome, QueryOutcome::BackendUnavailable));
}

#[test]
fn concurrent_sessions_receive_their_own_results() {
    let mut reg = Registry::new();
    let ha = reg.register(100).handle;
    let hb = reg.register(200).handle;
    let ta = reg.dispatch(100).unwrap();
    let tb = reg.dispatch(200).unwrap();
    assert_ne!(ta, tb);
    let db = reg.complete(tb, found(2)).expect("b delivered");
    let da = reg.complete(ta, found(1)).expect("a delivered");
    assert_eq!((da.session, da.handle), (100, ha));
    assert_eq!((db.session, db.handle), (200, hb));
    match (da.outcome, db.outcome) {
        (QueryOutcome::Found(a), QueryOutcome::Found(b)) => {
            assert_eq!(a.items[0].id, 1);
            assert_eq!(b.items[0].id, 2);
        }
        _ => panic!("wrong outcomes"),
    }
}

#[test]
fn no_delivery_after_teardown() {
    let mut reg = Registry::new();
    reg.register(9);
    let t = reg.dispatch(9).unwrap();
    reg.unregister(9);
    reg.register(9);
    assert!(reg.complete(t, found(3)).is_none());
}

#[test]
fn unknown_ticket_delivers_nothing() {
    let mut reg = Registry::new();
    reg.register(1);
    assert!(reg.complete(77, found(1)).is_none());
    assert!(reg.has_capacity());
}
