use wanipaper::events::EventKind;

#[test]
fn tags_map_to_sources() {
    assert_eq!(EventKind::from(1u64), EventKind::Wayland);
    assert_eq!(EventKind::from(2u64), EventKind::Mq);
    assert_eq!(EventKind::from(0u64), EventKind::Unknown);
    assert_eq!(EventKind::from(7u64), EventKind::Unknown);
}

#[test]
fn ids_round_trip() {
    for kind in [EventKind::Unknown, EventKind::Wayland, EventKind::Mq] {
        assert_eq!(EventKind::from(kind.id()), kind);
    }
}

#[test]
fn ids_are_distinct() {
    assert_ne!(EventKind::Wayland.id(), EventKind::Mq.id());
    assert_ne!(EventKind::Wayland.id(), EventKind::Unknown.id());
    assert_ne!(EventKind::Mq.id(), EventKind::Unknown.id());
}
