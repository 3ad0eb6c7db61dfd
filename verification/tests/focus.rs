use arenic::focus::{focus_on_press, tab_focus, UiFocus};

#[test]
fn tab_walks_controls_in_id_order_and_wraps() {
    let ids = vec![40u64, 7, 19, 3];
    assert_eq!(tab_focus(&ids, None, false), Some(3));
    assert_eq!(tab_focus(&ids, Some(3), false), Some(7));
    assert_eq!(tab_focus(&ids, Some(19), false), Some(40));
    assert_eq!(tab_focus(&ids, Some(40), false), Some(3));
    assert_eq!(tab_focus(&ids, Some(3), true), Some(40));
    assert_eq!(tab_focus(&ids, Some(19), true), Some(7));
    assert_eq!(tab_focus(&ids, Some(99), true), Some(3));
    assert_eq!(tab_focus(&vec![], Some(5), false), Some(5));
    assert_eq!(tab_focus(&vec![], None, true), None);
}

#[test]
fn back_tab_undoes_tab() {
    let ids = vec![12u64, 5, 30, 8];
    for &f in &ids {
        let forward = tab_focus(&ids, Some(f), false);
        assert_eq!(tab_focus(&ids, forward, true), Some(f));
    }
}

#[test]
fn a_press_focuses_the_control() {
    let mut focus = UiFocus::default();
    assert_eq!(focus, UiFocus(None));
    focus_on_press(&mut focus, Some(9));
    focus_on_press(&mut focus, None);
    assert_eq!(focus, UiFocus(Some(9)));
}
