use arena::version::{Checked16, Checked32, Checked64, Checked8, CheckedUsize, Nil, Version, Wrapping};

#[test]
fn checked_starts_at_one_and_counts_up() {
    let v = Checked32::new();
    assert_eq!(v.get(), 1);
    assert_eq!(v.increment().unwrap().get(), 2);
    assert!(v.same(Checked32::new()));
    assert!(!v.same(v.increment().unwrap()));
    assert_eq!(Checked16::new().increment().unwrap().get(), 2);
    assert_eq!(Checked64::new().increment().unwrap().get(), 2);
    assert_eq!(CheckedUsize::new().increment().unwrap().get(), 2);
}

#[test]
fn checked_is_exhausted_at_max() {
    let mut v = Checked8::new();
    let mut steps: u32 = 0;
    while let Some(next) = v.increment() {
        v = next;
        steps += 1;
    }
    assert_eq!(steps, 254);
    assert_eq!(v.get(), u8::MAX);
}

#[test]
fn wrapping_restarts_after_max() {
    let mut v = Wrapping(Checked8::new());
    for _ in 0..254 {
        v = v.increment().unwrap();
    }
    assert_eq!(v.0.get(), u8::MAX);
    let w = v.increment().unwrap();
    assert_eq!(w, Wrapping::<Checked8>::new());
    assert_eq!(w.0.get(), 1);
}

#[test]
fn nil_never_changes() {
    let v = Nil::new();
    assert_eq!(v.increment(), Some(Nil));
    assert!(v.same(Nil));
}
