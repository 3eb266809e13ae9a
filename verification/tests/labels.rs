use email_classifier::labels::Priority;

#[test]
fn index_round_trips() {
    for p in Priority::ALL {
        assert_eq!(Priority::from_index(p.to_index()), Some(p));
    }
}

#[test]
fn index_order_matches_priority_order() {
    // P1 < P2 < P3 must line up with 0 < 1 < 2.
    assert_eq!(Priority::P1.to_index(), 0);
    assert_eq!(Priority::P2.to_index(), 1);
    assert_eq!(Priority::P3.to_index(), 2);
}

#[test]
fn from_index_rejects_out_of_range() {
    assert_eq!(Priority::from_index(3), None);
    assert_eq!(Priority::from_index(usize::MAX), None);
}

#[test]
fn tag_round_trips() {
    for p in Priority::ALL {
        assert_eq!(Priority::from_tag(p.to_tag()), Some(p));
    }
}

#[test]
fn tag_mapping_is_exact() {
    assert_eq!(Priority::P1.to_tag(), "prio-low");
    assert_eq!(Priority::P2.to_tag(), "prio-normal");
    assert_eq!(Priority::P3.to_tag(), "prio-high");
}

#[test]
fn from_tag_rejects_unknown() {
    assert_eq!(Priority::from_tag("auto"), None);
    assert_eq!(Priority::from_tag("prio-high "), None);
    assert_eq!(Priority::from_tag(""), None);
    assert_eq!(Priority::from_tag("inbox"), None);
}
