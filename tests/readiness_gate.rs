use futures::Future;
use rain::asyncinit::AsyncInitWrapper;

#[test]
fn gate_releases_all_waiters_once() {
    let mut gate: AsyncInitWrapper<u32> = AsyncInitWrapper::new();
    assert!(!gate.is_ready());
    let w1 = gate.wait().unwrap();
    let w2 = gate.wait().unwrap();
    assert_eq!(gate.set_value(5), 2);
    assert!(gate.is_ready());
    assert_eq!(*gate.get(), 5);
    assert_eq!(w1.wait(), Ok(()));
    assert_eq!(w2.wait(), Ok(()));
    assert!(gate.wait().is_none());
}

#[test]
fn gate_once_set_stays_with_first_value() {
    let mut gate: AsyncInitWrapper<String> = AsyncInitWrapper::new();
    assert_eq!(gate.set_value("first".to_string()), 0);
    assert!(gate.is_ready());
    assert!(gate.wait().is_none());
    assert_eq!(gate.get().as_str(), "first");
}
