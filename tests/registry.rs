use hiss_native::{HissError, Registry};

#[test]
fn lookup_after_close_fails() {
    let mut reg: Registry<&str> = Registry::new();
    let h = reg.register("first").unwrap();
    assert_eq!(*reg.get_conn(h).unwrap(), "first");
    reg.close(h);
    assert!(matches!(reg.get_conn(h), Err(HissError::ConnectionClosed)));
}

#[test]
fn handles_increase_and_are_never_reused() {
    let mut reg: Registry<u32> = Registry::new();
    let a = reg.register(10).unwrap();
    let b = reg.register(20).unwrap();
    assert_eq!((a, b), (1, 2));
    reg.close(a);
    let c = reg.register(30).unwrap();
    assert_eq!(c, 3);
    assert!(matches!(reg.get_conn(a), Err(HissError::ConnectionClosed)));
    assert_eq!(*reg.get_conn(b).unwrap(), 20);
    assert_eq!(*reg.get_conn(c).unwrap(), 30);
}

#[test]
fn unknown_handle_is_closed() {
    let reg: Registry<u32> = Registry::new();
    assert!(matches!(reg.get_conn(0), Err(HissError::ConnectionClosed)));
    assert!(matches!(reg.get_conn(99), Err(HissError::ConnectionClosed)));
}

#[test]
fn closing_twice_is_harmless() {
    let mut reg: Registry<u32> = Registry::new();
    let a = reg.register(1).unwrap();
    reg.close(a);
    reg.close(a);
    assert!(reg.get_conn(a).is_err());
}
