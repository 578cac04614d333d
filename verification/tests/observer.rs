use keru::{Changed, Changes, Observer, ObserverClock, Ui};

#[test]
fn observer_records_when_it_changed() {
    let mut clock = ObserverClock::new();
    assert_eq!(clock.time, 10);
    let mut o = Observer::new(5, &mut clock);
    assert_eq!(o.changed_at, 10);
    assert_eq!(clock.time, 11);
    o.set(6, &mut clock);
    assert_eq!(*o.get(), 6);
    assert_eq!(o.changed_at(), Changed::ChangedAt(11));
    assert_eq!(clock.observer_timestamp(), 12);
    assert_eq!(clock.time, 13);
}

#[test]
fn ui_sees_recent_changes_only() {
    let mut ui: Ui<u32, i32> = Ui::new(0);
    ui.third_last_frame_end_fake_time = 10;
    let mut clock = ObserverClock::new();
    let mut o = Observer::new(1, &mut clock);
    assert!(!ui.check_changes(&o));
    o.set(2, &mut clock);
    assert!(ui.check_changes(&o));
    let c = Observer::new_const(3);
    assert!(!ui.check_changes(&c));
}

#[test]
fn clock_wraps_around() {
    let mut clock = ObserverClock { time: u64::MAX };
    assert_eq!(clock.observer_timestamp(), u64::MAX);
    assert_eq!(clock.time, 0);
}

#[test]
fn changes_reset_keeps_other_flags() {
    let mut c = Changes::new();
    assert!(c.full_relayout && c.need_rerender && c.should_rebuild_render_data);
    c.rebuild_render_data = true;
    c.text_changed = true;
    c.reset_layout_changes();
    assert!(!c.full_relayout && !c.rebuild_render_data);
    assert!(c.partial_relayouts.is_empty());
    assert!(c.text_changed && c.need_rerender);
}

#[test]
fn a_write_is_seen_until_two_more_frames_end() {
    let mut ui: Ui<u32, i32> = Ui::new(0);
    ui.end_frame_timestamps();
    ui.end_frame_timestamps();
    ui.end_frame_timestamps();
    assert_eq!(ui.last_frame_end_fake_time, 12);
    assert_eq!(ui.second_last_frame_end_fake_time, 11);
    assert_eq!(ui.third_last_frame_end_fake_time, 10);
    let mut o = Observer::new_const(1);
    assert!(!ui.check_changes(&o));
    o.set(2, &mut ui.clock);
    assert!(ui.check_changes(&o));
    ui.end_frame_timestamps();
    assert!(ui.check_changes(&o));
    ui.end_frame_timestamps();
    assert!(ui.check_changes(&o));
    ui.end_frame_timestamps();
    assert!(!ui.check_changes(&o));
}

#[test]
fn a_relayout_starts_only_when_requested() {
    let mut c = Changes::new();
    c.reset_layout_changes();
    c.need_rerender = false;
    c.need_gpu_rect_update = false;
    assert!(!c.begin_relayout());
    assert!(!c.need_rerender && !c.need_gpu_rect_update);
    c.text_changed = true;
    assert!(c.begin_relayout());
    assert!(c.need_rerender && c.need_gpu_rect_update);
}

#[test]
fn a_later_observer_is_newer() {
    let mut clock = ObserverClock::new();
    let a = Observer::new(1, &mut clock);
    let b = Observer::new(2, &mut clock);
    assert!(0 < a.changed_at && a.changed_at < b.changed_at);
    assert!(Observer::new_const(0).changed_at < a.changed_at);
}
