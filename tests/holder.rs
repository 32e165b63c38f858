use snarc::{Holder, RefError, Site};

fn note(s: &str) -> Site {
    Site::Annotated(s.to_string())
}

#[test]
fn holder_clone_downgrade_release_scenario() {
    let mut h = Holder::new(5u8, note("A"));
    assert_eq!(h.strong_count(), 1);
    assert_eq!(h.weak_count(), 0);
    assert_eq!(h.clone_strong_ref(0, note("B")), Ok(1));
    assert_eq!(h.strong_count(), 2);
    assert_eq!(h.strong_origin(1).unwrap().render(), "clone<1>[\"B\"] <- new<0>[\"A\"]");
    assert_eq!(h.downgrade_ref(0, note("C")), Ok(2));
    assert_eq!(h.weak_count(), 1);
    assert_eq!(h.drop_strong_ref(0), Ok(false));
    assert!(h.has_value());
    assert_eq!(h.value(), Some(&5u8));
    assert_eq!(h.drop_strong_ref(1), Ok(false));
    assert_eq!(h.strong_count(), 0);
    assert!(!h.has_value());
    assert_eq!(h.value(), None);
    assert_eq!(h.weak_count(), 1);
    assert_eq!(h.upgrade_ref(2, note("D")), Err(RefError::ValueGone));
    assert_eq!(h.strong_count(), 0);
    assert_eq!(h.drop_weak_ref(2), Ok(true));
    assert_eq!(h.weak_count(), 0);
}

#[test]
fn holder_upgrade_before_any_release() {
    let mut h = Holder::new(String::from("v"), note("A"));
    assert_eq!(h.downgrade_ref(0, note("B")), Ok(1));
    assert_eq!(h.upgrade_ref(1, note("C")), Ok(2));
    assert_eq!(
        h.strong_origin(2).unwrap().render(),
        "upgrade<2>[\"C\"] <- downgrade<1>[\"B\"] <- new<0>[\"A\"]"
    );
    assert_eq!(h.strong_count(), 2);
}

#[test]
fn holder_unknown_ids_are_refused() {
    let mut h = Holder::new(1u32, Site::Unknown);
    assert_eq!(h.clone_strong_ref(9, Site::Unknown), Err(RefError::UnknownHandle));
    assert_eq!(h.downgrade_ref(9, Site::Unknown), Err(RefError::UnknownHandle));
    assert_eq!(h.clone_weak_ref(0, Site::Unknown), Err(RefError::UnknownHandle));
    assert_eq!(h.upgrade_ref(0, Site::Unknown), Err(RefError::UnknownHandle));
    assert_eq!(h.drop_weak_ref(0), Err(RefError::UnknownHandle));
    assert_eq!(h.drop_strong_ref(3), Err(RefError::UnknownHandle));
    assert_eq!(h.drop_strong_ref(0), Ok(true));
    assert_eq!(h.drop_strong_ref(0), Err(RefError::UnknownHandle));
    assert!(h.strong_origin(0).is_none());
    assert!(h.weak_origin(0).is_none());
}

#[test]
fn holder_ids_are_never_reused() {
    let mut h = Holder::new((), Site::Unknown);
    assert_eq!(h.clone_strong_ref(0, Site::Unknown), Ok(1));
    assert_eq!(h.drop_strong_ref(1), Ok(false));
    assert_eq!(h.clone_strong_ref(0, Site::Unknown), Ok(2));
    assert_eq!(h.downgrade_ref(2, Site::Unknown), Ok(3));
    assert_eq!(h.clone_weak_ref(3, note("w")), Ok(4));
    assert_eq!(
        h.weak_origin(4).unwrap().render(),
        "clone<4>[\"w\"] <- downgrade<3>[?] <- clone<2>[?] <- new<0>[?]"
    );
}

#[test]
fn holder_clones_then_release_all() {
    let n: usize = 20;
    let mut h = Holder::new(vec![1, 2, 3], Site::Unknown);
    for i in 1..=n {
        assert_eq!(h.clone_strong_ref(0, Site::Unknown), Ok(i));
    }
    assert_eq!(h.strong_count(), n + 1);
    let order: Vec<usize> = (0..=n).rev().collect();
    let mut destroyed = 0;
    for (k, id) in order.iter().enumerate() {
        let had = h.has_value();
        let r = h.drop_strong_ref(*id);
        assert_eq!(r, Ok(k == n));
        if had && !h.has_value() {
            destroyed += 1;
        }
    }
    assert_eq!(destroyed, 1);
}

#[test]
fn holder_reclaims_once_after_both_sets_empty() {
    let mut h = Holder::new(0i64, Site::Unknown);
    assert_eq!(h.downgrade_ref(0, Site::Unknown), Ok(1));
    assert_eq!(h.drop_weak_ref(1), Ok(false));
    assert_eq!(h.downgrade_ref(0, Site::Unknown), Ok(2));
    assert_eq!(h.drop_strong_ref(0), Ok(false));
    assert!(!h.has_value());
    assert_eq!(h.clone_weak_ref(2, Site::Unknown), Ok(3));
    assert_eq!(h.drop_weak_ref(2), Ok(false));
    assert_eq!(h.drop_weak_ref(3), Ok(true));
    assert_eq!(h.drop_weak_ref(3), Err(RefError::UnknownHandle));
}

#[test]
fn holder_family_matches_counts() {
    let mut h = Holder::new('x', Site::Unknown);
    h.clone_strong_ref(0, Site::Unknown).unwrap();
    h.downgrade_ref(1, Site::Unknown).unwrap();
    h.downgrade_ref(0, Site::Unknown).unwrap();
    h.drop_strong_ref(0).unwrap();
    let (strongs, weaks) = h.family();
    assert_eq!(strongs.len(), h.strong_count());
    assert_eq!(weaks.len(), h.weak_count());
    let strong_ids: Vec<usize> = strongs.iter().map(|o| o.id).collect();
    let weak_ids: Vec<usize> = weaks.iter().map(|o| o.id).collect();
    assert_eq!(strong_ids, vec![1]);
    assert_eq!(weak_ids, vec![2, 3]);
}
