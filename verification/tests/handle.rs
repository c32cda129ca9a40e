use security_framework::handle::OwnedHandle;
use security_framework::handle::RefTable;

#[test]
fn handle_accounting_balances() {
    let mut refs = RefTable::new();

    // A native create/copy operation hands out a +1 reference, which the
    // create-rule wrap takes over without a retain of its own.
    refs.acquire(7);
    let a = OwnedHandle::wrap_under_create_rule(7);

    // A get-rule wrap retains on its own.
    let b = OwnedHandle::wrap_under_get_rule(7, &mut refs);

    // An explicit clone retains on its own.
    let c = a.retained_clone(&mut refs);

    assert_eq!(a.as_ptr(), 7);
    assert_eq!(refs.count(7), 3);
    assert_eq!(refs.total_acquired(), 3);
    assert_eq!(refs.total_released(), 0);

    a.dispose(&mut refs);
    b.dispose(&mut refs);
    assert_eq!(refs.count(7), 1);

    c.dispose(&mut refs);
    assert_eq!(refs.count(7), 0);
    assert_eq!(refs.total_acquired(), 3);
    assert_eq!(refs.total_released(), 3);
}

#[test]
fn independent_objects_do_not_interfere() {
    let mut refs = RefTable::new();
    refs.acquire(3);
    refs.acquire(4);
    let x = OwnedHandle::wrap_under_create_rule(3);
    let y = OwnedHandle::wrap_under_create_rule(4);

    x.dispose(&mut refs);
    assert_eq!(refs.count(3), 0);
    assert_eq!(refs.count(4), 1);

    y.dispose(&mut refs);
    assert_eq!(refs.total_acquired(), refs.total_released());
}
