use arenic::popout::{popped_out, toggle, window_closed, DockAction, Panel, PopOut, PopOuts};

#[test]
fn a_panel_pops_out_and_docks_back_by_its_key() {
    let mut p = PopOuts::default();
    assert_eq!(toggle(&mut p, Panel::Sheet), DockAction::PopOut(Panel::Sheet));
    let host = PopOut { window: 10, camera: 11, root: 12 };
    popped_out(&mut p, Panel::Sheet, host);
    assert_eq!(p, PopOuts { sheet: Some(host), browser: None });
    assert_eq!(
        toggle(&mut p, Panel::Sheet),
        DockAction::ReDock { panel: Panel::Sheet, host, despawn_window: true }
    );
    assert_eq!(p, PopOuts::default());
}

#[test]
fn closing_a_window_docks_only_its_panel() {
    let sheet = PopOut { window: 1, camera: 2, root: 3 };
    let browser = PopOut { window: 4, camera: 5, root: 6 };
    let mut p = PopOuts { sheet: Some(sheet), browser: Some(browser) };
    assert_eq!(
        window_closed(&mut p, 4),
        vec![DockAction::ReDock { panel: Panel::Browser, host: browser, despawn_window: false }]
    );
    assert_eq!(p, PopOuts { sheet: Some(sheet), browser: None });
    assert!(window_closed(&mut p, 99).is_empty());
    assert_eq!(p.sheet, Some(sheet));
}
