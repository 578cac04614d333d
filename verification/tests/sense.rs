use keru::Sense;

#[test]
fn sense_flags_combine() {
    let s = Sense::click().union(Sense::drag());
    assert!(s.contains(Sense::click()));
    assert!(s.contains(Sense::drag()));
    assert!(!s.contains(Sense::hover()));
    assert!(s.intersects(Sense::drag().union(Sense::scroll())));
    assert!(!s.intersects(Sense::scroll()));
    assert!(Sense::empty().is_empty());
    assert!(!s.is_empty());
    assert!(s.contains(Sense::none()));
}

#[test]
fn sense_bits_are_distinct() {
    let all = [
        Sense::click(),
        Sense::drag(),
        Sense::hover(),
        Sense::scroll(),
        Sense::hold(),
        Sense::click_release(),
        Sense::drag_drop_target(),
        Sense::time(),
        Sense::hover_enter_or_exit(),
    ];
    for (a, x) in all.iter().enumerate() {
        for (b, y) in all.iter().enumerate() {
            assert_eq!(x.intersects(*y), a == b);
        }
    }
}
