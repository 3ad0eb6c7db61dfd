use arenic::arena::Arena;
use arenic::theme::ThemeId;

#[test]
fn index_round_trips_through_all() {
    for (i, &arena) in Arena::ALL.iter().enumerate() {
        assert_eq!(arena.index(), i);
        assert_eq!(Arena::from_index(i), Some(arena));
    }
    assert_eq!(Arena::from_index(9), None);
}

#[test]
fn slugs_match_names_and_are_path_safe() {
    for arena in Arena::ALL {
        let expected = arena.name().to_lowercase().replace(' ', "-");
        assert_eq!(arena.slug(), expected, "slug drifted from name");
        assert!(
            arena.slug().chars().all(|c| c.is_ascii_lowercase() || c == '-'),
            "slug {} is not path-safe",
            arena.slug()
        );
    }
}

#[test]
fn arena_themes_are_exactly_the_game_set() {
    let position = |t: &ThemeId| ThemeId::ALL.iter().position(|x| x == t).unwrap();
    let mut from_arena: Vec<ThemeId> = Arena::ALL.iter().map(|a| a.theme()).collect();
    from_arena.sort_by_key(position);
    let mut game = ThemeId::GAME.to_vec();
    game.sort_by_key(position);
    assert_eq!(from_arena, game, "Arena themes drifted from ThemeId::GAME");
}

#[test]
fn theme_cycle_visits_every_theme_once() {
    let mut t = ThemeId::ALL[0];
    let mut seen = Vec::new();
    for _ in 0..ThemeId::ALL.len() {
        assert!(!seen.contains(&t));
        seen.push(t);
        t = t.next();
    }
    assert_eq!(t, ThemeId::ALL[0]);
    assert!(ThemeId::ALL.iter().all(|t| !t.label().is_empty()));
}
