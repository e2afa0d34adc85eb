use gratefulset::manager::Manager;
use gratefulset::set_reconcile::str_lex_lt;

#[test]
fn required_crds_are_both_kinds() {
    let crds = Manager::required_crds();
    assert_eq!(crds.len(), 2);
    assert_eq!(crds[0], "gratefulsets.pikach.us");
    assert_eq!(crds[1], "gratefulsetpools.pikach.us");
}

#[test]
fn requeue_policy_matches_the_design() {
    assert_eq!(Manager::error_requeue_secs(), 60);
    assert_eq!(Manager::safety_requeue_secs(), 300);
}

#[test]
fn field_managers_are_distinct_per_reconciler() {
    assert_eq!(Manager::set_field_manager(), "gratefulset-mgr");
    assert_eq!(Manager::pool_field_manager(), "gratefulsetpool-mgr");
    assert_ne!(Manager::set_field_manager(), Manager::pool_field_manager());
}

#[test]
fn owner_selector_names_the_set() {
    let sel = Manager::owner_selector(&"db".to_string());
    assert_eq!(sel, "owner.pikach.us=db");
}

#[test]
fn name_order_is_lexicographic() {
    let a = "db-1a".to_string();
    let b = "db-1b".to_string();
    let c = "db-1a0".to_string();
    assert!(str_lex_lt(&a, &b));
    assert!(!str_lex_lt(&b, &a));
    assert!(str_lex_lt(&a, &c));
    assert!(!str_lex_lt(&c, &a));
    assert!(!str_lex_lt(&a, &a));
}
