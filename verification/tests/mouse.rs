use keru::{Id, MouseButton, MouseInput, Targets};

fn t(ids: &[u64]) -> Targets {
    Targets::from_vec(&ids.iter().map(|i| Id(*i)).collect())
}

#[test]
fn press_drag_and_release() {
    let mut m: MouseInput<u32, i32> = MouseInput::new(5);
    m.cursor_moved(7);
    assert_eq!(m.cursor_position(), 7);
    assert_eq!(m.prev_cursor_position(), 5);
    m.push_press(MouseButton::Left, t(&[1]), t(&[1]));
    assert!(m.check_pressed(Id(1), MouseButton::Left));
    assert!(!m.check_pressed(Id(1), MouseButton::Right));
    assert!(!m.check_pressed(Id(2), MouseButton::Left));
    assert_eq!(m.currently_dragging(), vec![(Id(1), MouseButton::Left)]);
    m.finish_frame();
    assert!(!m.check_pressed(Id(1), MouseButton::Left));
    m.cursor_moved(9);
    m.begin_new_frame();
    assert_eq!(m.check_dragged(Id(1), MouseButton::Left), Some((7, 7, 9)));
    m.push_release(MouseButton::Left, t(&[1]));
    assert!(m.check_click_released(Id(1), MouseButton::Left));
    assert!(m.check_drag_released(Id(1), MouseButton::Left));
    assert!(m.currently_dragging().is_empty());
}

#[test]
fn release_elsewhere_is_not_a_click() {
    let mut m: MouseInput<u32, i32> = MouseInput::new(0);
    m.push_press(MouseButton::Left, t(&[1]), t(&[]));
    m.push_release(MouseButton::Left, t(&[2]));
    assert!(!m.check_click_released(Id(1), MouseButton::Left));
    assert!(!m.check_drag_released(Id(1), MouseButton::Left));
}

#[test]
fn releasing_one_button_keeps_the_others() {
    let mut m: MouseInput<u32, i32> = MouseInput::new(0);
    m.push_press(MouseButton::Left, t(&[]), t(&[1]));
    m.push_press(MouseButton::Right, t(&[]), t(&[2]));
    m.push_release(MouseButton::Right, t(&[]));
    assert_eq!(m.currently_dragging(), vec![(Id(1), MouseButton::Left)]);
    assert!(m.check_drag_released(Id(2), MouseButton::Right));
}

#[test]
fn scrolls_are_collected_per_target() {
    let mut m: MouseInput<u32, i32> = MouseInput::new(4);
    m.push_scroll(3, Id(2));
    m.push_scroll(8, Id(5));
    m.push_scroll(-1, Id(2));
    assert_eq!(m.scroll_deltas(Id(2)), vec![3, -1]);
    assert_eq!(m.check_last_scroll_event(Id(2)), Some((-1, 4)));
    assert_eq!(m.check_last_scroll_event(Id(9)), None);
}

#[test]
fn synthetic_click_presses_and_releases() {
    let mut m: MouseInput<u32, i32> = MouseInput::new(0);
    m.push_synthetic_click(Id(4), 11);
    assert!(m.check_pressed(Id(4), MouseButton::Left));
    assert!(m.check_click_released(Id(4), MouseButton::Left));
}

#[test]
fn targets_round_trip() {
    let ids = vec![Id(3), Id(1)];
    let targets = Targets::from_vec(&ids);
    assert_eq!(targets.to_vec(), ids);
    assert!(targets.contains(Id(1)));
    assert!(!targets.contains(Id(2)));
}
