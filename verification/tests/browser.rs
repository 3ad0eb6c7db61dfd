use arenic::browser::{keep_in_view, move_focus, window_range, NavKey, POOL, VISIBLE};

#[test]
fn window_early_outs_inside_and_caps_at_pool() {
    let len = 1_000;
    let first = window_range(0, len, None);
    assert_eq!(first, (0, POOL));
    assert_eq!(window_range(2, len, Some(first)), first);
    let far = window_range(500, len, Some(first));
    assert_eq!(far, (490, 490 + POOL));
    assert!(far.1 - far.0 <= POOL);
    let tail = window_range(995, len, Some(far));
    assert_eq!(tail.1, len);
}

#[test]
fn focus_moves_stop_at_the_ends_and_scroll_follows() {
    assert_eq!(move_focus(0, 5, NavKey::Up), 0);
    assert_eq!(move_focus(4, 5, NavKey::Down), 4);
    assert_eq!(move_focus(2, 5, NavKey::Down), 3);
    assert_eq!(move_focus(2, 5, NavKey::End), 4);
    assert_eq!(move_focus(2, 0, NavKey::End), 0);
    assert_eq!(keep_in_view(3, 10), 3);
    assert_eq!(keep_in_view(10 + VISIBLE, 10), 11);
    assert_eq!(keep_in_view(12, 10), 10);
}

use arenic::browser_tree::{header_line, pool_row, row_line, BrowserAction, BrowserKeys, BrowserRow, BrowserState, RowKind};

fn chars(s: &str) -> Vec<char> {
    s.chars().collect()
}

fn keys() -> BrowserKeys {
    BrowserKeys {
        escape: false,
        down: false,
        up: false,
        home: false,
        end: false,
        right: false,
        left: false,
        enter: false,
        typed: vec![],
        backspace: false,
    }
}

fn paths(state: &BrowserState) -> Vec<String> {
    state.rows.iter().map(|r| r.path.iter().collect()).collect()
}

#[test]
fn the_tree_projects_expanded_directories_only() {
    let mut state = BrowserState::new();
    state.rebuild_projection();
    assert_eq!(paths(&state), ["enemies", "enemies/minions", "tiles", "tiles/choreography-layer"]);
    assert_eq!(state.rows[1].kind, RowKind::Dir { expanded: false });
    assert_eq!(state.rows[3].kind, RowKind::Entry { palette: 1 });
    assert_eq!(state.rows[3].label.iter().collect::<String>(), "Tile Layer");
    // → opens the focused directory; ← on an entry jumps to its parent.
    state.focused = 1;
    assert_eq!(state.browser_keys(&BrowserKeys { right: true, ..keys() }), BrowserAction::Stay);
    assert_eq!(paths(&state), ["enemies", "enemies/minions", "enemies/minions/token", "tiles", "tiles/choreography-layer"]);
    assert_eq!(state.browser_keys(&BrowserKeys { down: true, ..keys() }), BrowserAction::Stay);
    assert_eq!(state.focused, 2);
    assert_eq!(state.browser_keys(&BrowserKeys { enter: true, ..keys() }), BrowserAction::Add(0));
    state.browser_keys(&BrowserKeys { left: true, ..keys() });
    assert_eq!(state.focused, 1);
    state.browser_keys(&BrowserKeys { left: true, ..keys() });
    assert_eq!(paths(&state).len(), 4);
}

#[test]
fn typing_filters_and_clearing_restores_the_expansion() {
    let mut state = BrowserState::new();
    state.rebuild_projection();
    state.browser_keys(&BrowserKeys { typed: vec!['t', 'o', 'k'], ..keys() });
    assert_eq!(paths(&state), ["enemies", "enemies/minions", "enemies/minions/token"]);
    assert_eq!(header_line(&state.filter), "ENTITIES / tok_");
    for _ in 0..3 {
        state.browser_keys(&BrowserKeys { backspace: true, ..keys() });
    }
    assert!(state.filter.is_none());
    assert_eq!(header_line(&state.filter), "ENTITIES");
    assert_eq!(paths(&state).len(), 4);
    state.browser_keys(&BrowserKeys { typed: vec!['x'], ..keys() });
    assert!(state.rows.is_empty());
    assert_eq!(state.browser_keys(&BrowserKeys { escape: true, ..keys() }), BrowserAction::Stay);
    assert_eq!(paths(&state).len(), 4);
    assert_eq!(state.browser_keys(&BrowserKeys { escape: true, ..keys() }), BrowserAction::Close);
}

#[test]
fn clicks_toggle_directories_and_arm_drags() {
    let mut state = BrowserState::new();
    state.rebuild_projection();
    state.row_click(0);
    assert_eq!(paths(&state), ["enemies", "tiles", "tiles/choreography-layer"]);
    state.row_click(2);
    assert_eq!(state.dragging, Some(1));
    assert_eq!(state.focused, 2);
    state.row_click(99);
    assert_eq!(state.focused, 2);
}

#[test]
fn mounted_rows_show_their_disclosure_and_slot() {
    let dir = BrowserRow { path: chars("enemies"), label: chars("enemies"), depth: 0, kind: RowKind::Dir { expanded: true } };
    assert_eq!(row_line(&dir), "\u{25be} enemies");
    let closed = BrowserRow { kind: RowKind::Dir { expanded: false }, ..dir };
    assert_eq!(row_line(&closed), "\u{25b8} enemies");
    let entry = BrowserRow { path: chars("enemies/minions/Token Minion"), label: chars("Token Minion"), depth: 2, kind: RowKind::Entry { palette: 0 } };
    assert_eq!(row_line(&entry), "Token Minion");
    assert_eq!(pool_row(10, 40, 100, 5), Some(15));
    assert_eq!(pool_row(10, 40, 12, 5), None);
    assert_eq!(pool_row(10, 14, 100, 5), None);
}
