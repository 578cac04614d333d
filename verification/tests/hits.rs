use keru::{scan_hits, scan_press_hits, ClickRect, HitFilter, Id, NodeI, Sense, Xy};

fn rect(i: usize, senses: Sense, absorbs: bool) -> ClickRect {
    ClickRect { i: NodeI::from(i), id: Id(i as u64), senses, scrollable: Xy::new(false, false), absorbs_mouse_events: absorbs }
}

fn stack() -> Vec<ClickRect> {
    vec![
        rect(1, Sense::click().union(Sense::drag()), false),
        rect(2, Sense::click(), true),
        rect(3, Sense::hover(), false),
    ]
}

#[test]
fn scan_stops_at_the_first_absorbing_hit() {
    let rects = stack();
    let hits = vec![true, true, true];
    assert_eq!(scan_hits(&rects, &hits, HitFilter::Any), vec![Id(3), Id(2)]);
    assert_eq!(scan_hits(&rects, &hits, HitFilter::Senses(Sense::click())), vec![Id(2)]);
    assert_eq!(scan_hits(&rects, &hits, HitFilter::Opaque), vec![Id(3), Id(2)]);
    let hits = vec![true, false, true];
    assert_eq!(scan_hits(&rects, &hits, HitFilter::Any), vec![Id(3), Id(1)]);
    assert_eq!(scan_hits(&rects, &vec![false, false, false], HitFilter::Any), Vec::<Id>::new());
}

#[test]
fn press_scan_separates_clicks_and_drags() {
    let rects = stack();
    let hits = vec![true, true, true];
    let p = scan_press_hits(&rects, &hits);
    assert_eq!(p.topmost, Some(Id(3)));
    assert_eq!(p.click_ids.to_vec(), vec![Id(2)]);
    assert_eq!(p.drag_ids.to_vec(), vec![Id(1)]);
    let p = scan_press_hits(&rects, &vec![true, false, false]);
    assert_eq!(p.topmost, Some(Id(1)));
    assert_eq!(p.click_ids.to_vec(), vec![Id(1)]);
    let p = scan_press_hits(&rects, &vec![false, false, false]);
    assert_eq!(p.topmost, None);
    assert!(p.click_ids.to_vec().is_empty());
}

#[test]
fn drop_target_is_found_below_non_absorbing_nodes() {
    let rects = vec![
        rect(1, Sense::drag_drop_target(), false),
        rect(2, Sense::click(), true),
        rect(3, Sense::drag_drop_target(), false),
    ];
    assert!(keru::drop_target_hit(&rects, &vec![true, true, true], Id(3)));
    assert!(keru::drop_target_hit(&rects, &vec![true, true, true], Id(1)));
    assert!(!keru::drop_target_hit(&rects, &vec![true, true, false], Id(3)));
    assert!(!keru::drop_target_hit(&rects, &vec![false, true, true], Id(1)));
}
