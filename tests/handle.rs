use snarc::{Dump, Site, Snarc, Strong};

#[test]
fn basic() {
    let thing = ();
    let thing_strong_0 = Snarc::new_at_line(thing, "tests/handle.rs", 6);
    let thing_strong_1 = thing_strong_0.clone_at_line("tests/handle.rs", 7).unwrap();
    let thing_weak_0 = Snarc::downgrade_at_line(&thing_strong_0, "tests/handle.rs", 8).unwrap();
    let thing_weak_1 = Snarc::downgrade_at_line(&thing_strong_0, "tests/handle.rs", 9).unwrap();
    let thing_strong_2 = thing_weak_0.upgrade_at_line("tests/handle.rs", 10);

    println!("\nthing_strong_0: {:?}", Snarc::origin(&thing_strong_0).map(|o| o.render()));
    println!("\nthing_strong_1: {:?}", Snarc::origin(&thing_strong_1).map(|o| o.render()));
    println!("\nthing_weak_0: {:?}", thing_weak_0.id());
    println!("\nthing_weak_1: {:?}", thing_weak_1.id());
    println!(
        "\nthing_strong_2: {:?}",
        thing_strong_2.as_ref().and_then(|s| Snarc::origin(s)).map(|o| o.render())
    );

    assert_eq!(thing_strong_0.id(), 0);
    assert_eq!(thing_strong_1.id(), 1);
    assert_eq!(thing_weak_0.id(), 2);
    assert_eq!(thing_weak_1.id(), 3);
    assert_eq!(thing_strong_2.as_ref().map(|s| s.id()), Some(4));
}

fn note(s: &str) -> Site {
    Site::Annotated(s.to_string())
}

#[test]
fn handles_clone_downgrade_release_scenario() {
    let a = Snarc::new_at_site(String::from("value"), note("A"));
    assert_eq!(Snarc::strong_count(&a), 1);
    let b = a.clone_at_site(note("B")).unwrap();
    assert_eq!(b.id(), 1);
    assert_eq!(Snarc::strong_count(&a), 2);
    assert_eq!(Snarc::origin(&b).unwrap().render(), "clone<1>[\"B\"] <- new<0>[\"A\"]");
    let w = Snarc::downgrade_at_site(&a, note("C")).unwrap();
    assert_eq!(w.id(), 2);
    assert_eq!(Snarc::weak_count(&a), 1);
    assert!(!Snarc::release(a));
    assert!(!Snarc::release(b));
    assert!(w.upgrade_at_site(note("D")).is_none());
    assert!(w.release());
}

#[test]
fn handles_upgrade_before_any_release() {
    let a = Snarc::new_at_site(41u32, note("A"));
    let w = Snarc::downgrade_at_site(&a, note("B")).unwrap();
    let s = w.upgrade_at_site(note("C")).unwrap();
    assert_eq!(s.id(), 2);
    assert_eq!(*s.get(), 41);
    assert_eq!(
        Snarc::origin(&s).unwrap().render(),
        "upgrade<2>[\"C\"] <- downgrade<1>[\"B\"] <- new<0>[\"A\"]"
    );
    assert!(Snarc::ptr_eq(&a, &s));
}

#[test]
fn handles_family_and_dump() {
    let foo = Snarc::new(123);
    let bar = Snarc::clone_at_line(&foo, "src/lib.rs", 475).unwrap();
    let weak = Snarc::downgrade(&bar).unwrap();
    let (strongs, weaks) = Snarc::family(&bar);
    assert_eq!(strongs.len(), Snarc::strong_count(&bar));
    assert_eq!(weaks.len(), Snarc::weak_count(&bar));
    assert_eq!(
        Dump(&bar).render(),
        "Family associated with ID: 1\n\
         S| new<0>[?]\n\
         S| clone<1>[src/lib.rs:475] <- new<0>[?]\n\
         W| downgrade<2>[?] <- clone<1>[src/lib.rs:475] <- new<0>[?]\n"
    );
    assert!(!weak.release());
    assert!(!Snarc::release(foo));
    assert!(Snarc::release(bar));
}

#[test]
fn handles_of_distinct_values_differ() {
    let a = Strong::new_from(1u8, "main.rs", 3);
    let b = Strong::new(1u8);
    assert!(!Snarc::ptr_eq(&a, &b));
    assert!(Snarc::ptr_eq(&a, &a));
    assert_eq!(Snarc::origin(&a).unwrap().render(), "new<0>[main.rs:3]");
}

#[test]
fn weak_clone_and_late_upgrade() {
    let a = Snarc::new(vec![1u8]);
    let w = Snarc::downgrade(&a).unwrap();
    let w2 = w.clone_at_site(note("copy")).unwrap();
    assert_eq!(w2.id(), 2);
    let up = w2.upgrade().unwrap();
    assert_eq!(up.get(), &vec![1u8]);
    assert!(!Snarc::release(up));
    assert!(!Snarc::release(a));
    assert!(w2.upgrade().is_none());
    assert!(w.clone_at_site(Site::Unknown).is_some());
    assert!(!w.release());
}

struct CountsDrops(std::sync::Arc<std::sync::atomic::AtomicUsize>);

impl Drop for CountsDrops {
    fn drop(&mut self) {
        self.0.fetch_add(1, std::sync::atomic::Ordering::SeqCst);
    }
}

#[test]
fn value_is_dropped_once_with_last_strong_handle() {
    let drops = std::sync::Arc::new(std::sync::atomic::AtomicUsize::new(0));
    let first = Snarc::new(CountsDrops(drops.clone()));
    let mut strongs = Vec::new();
    for _ in 0..10 {
        strongs.push(first.clone_at_site(Site::Unknown).unwrap());
    }
    let weak = Snarc::downgrade(&strongs[3]).unwrap();
    assert!(!Snarc::release(first));
    while let Some(s) = strongs.pop() {
        assert_eq!(drops.load(std::sync::atomic::Ordering::SeqCst), 0);
        assert!(!Snarc::release(s));
    }
    assert_eq!(drops.load(std::sync::atomic::Ordering::SeqCst), 1);
    assert!(weak.upgrade().is_none());
    assert!(weak.release());
    assert_eq!(drops.load(std::sync::atomic::Ordering::SeqCst), 1);
}

#[test]
fn last_release_of_a_strong_handle_reclaims() {
    let drops = std::sync::Arc::new(std::sync::atomic::AtomicUsize::new(0));
    let a = Snarc::new(CountsDrops(drops.clone()));
    let b = a.clone_at_site(Site::Unknown).unwrap();
    assert!(!Snarc::release(a));
    assert_eq!(drops.load(std::sync::atomic::Ordering::SeqCst), 0);
    assert!(Snarc::release(b));
    assert_eq!(drops.load(std::sync::atomic::Ordering::SeqCst), 1);
}

#[test]
fn interleaved_clones_and_releases() {
    let a = Snarc::new(7u64);
    let mut mine = Vec::new();
    for _ in 0..4 {
        mine.push(a.clone_at_site(Site::Unknown).unwrap());
    }
    for round in 0..50 {
        let m = &mine[round % 4];
        let c = m.clone_at_site(Site::Unknown).unwrap();
        assert_eq!(*c.get(), 7);
        let w = Snarc::downgrade(&c).unwrap();
        assert!(w.upgrade().map(Snarc::release).is_some());
        assert!(!w.release());
        assert!(!Snarc::release(c));
    }
    for m in mine {
        assert!(!Snarc::release(m));
    }
    assert_eq!(Snarc::strong_count(&a), 1);
    assert_eq!(Snarc::weak_count(&a), 0);
    assert!(Snarc::release(a));
}

#[test]
fn deref_reaches_the_shared_value() {
    let a = Snarc::new(String::from("shared"));
    let b = a.clone_at_site(Site::Unknown).unwrap();
    assert_eq!(a.len(), 6);
    assert_eq!(*b, "shared");
    assert!(Snarc::ptr_eq(&a, &b));
    assert!(!Snarc::release(b));
    assert!(Snarc::release(a));
}
