//! Kinds that wait for the operator.
use corral::approved_commands::{read_approved, Template};
use corral::daemon::registrations::Registrar;

fn tmpl(spawn: &str) -> Template {
    Template {
        spawn: Some(vec![spawn.into()]),
        resume: None,
        gui: false,
        message_flag: None,
    }
}

#[test]
fn approve_writes_the_store_and_clears_pending() {
    let mut r = Registrar::new();
    r.observe(vec![("pi".into(), tmpl("pi")), ("opencode".into(), tmpl("opencode"))]);
    assert_eq!(r.current().unwrap().0, "pi");

    let file = r.approve("pi", None).unwrap();
    // Persisted to the store.
    let approved = read_approved(Some(&file));
    assert_eq!(approved.get("pi"), Some(&tmpl("pi")));
    // No longer pending; the next kind surfaces.
    assert_eq!(r.current().unwrap().0, "opencode");
    // A stale approve of an already-cleared label is a no-op.
    assert!(r.approve("pi", Some(&file)).is_none());
}

#[test]
fn deny_keeps_it_from_resurfacing() {
    let mut r = Registrar::new();
    r.observe(vec![("pi".into(), tmpl("pi"))]);
    r.deny("pi");
    assert!(r.current().is_none());
    // The curator keeps reporting it (the record still exists), but a denied
    // set is filtered out, so it does not nag.
    r.observe(vec![("pi".into(), tmpl("pi"))]);
    assert!(r.current().is_none());
    // A *changed* set (new template) is a different pair, so it surfaces.
    r.observe(vec![("pi".into(), tmpl("pi-v2"))]);
    assert_eq!(r.current().unwrap().0, "pi");
}
