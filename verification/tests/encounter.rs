use arenic::ability::AbilityId;
use arenic::arena::Arena;
use arenic::encounter::{
    boss_casts, cast_of, loadout, phase_at, resolve_ability, slot_ability, BossScoreFile, Difficulty, EventDto, ScoreHeaderError,
    ABILITY_SLOTS, PHASE_TICKS, SCORE_FORMAT,
};
use arenic::grid::IVec2;
use arenic::timeline::{Action, GhostEvent, Recording, TimelineEvent, CYCLE_TICKS};
use arenic::versions::{max_version, next_version, parse_version, version_file_name};

#[test]
fn phases_are_equal_thirds_of_the_cycle() {
    assert_eq!(phase_at(0), 0);
    assert_eq!(phase_at(PHASE_TICKS - 1), 0);
    assert_eq!(phase_at(PHASE_TICKS), 1);
    assert_eq!(phase_at(2 * PHASE_TICKS - 1), 1);
    assert_eq!(phase_at(2 * PHASE_TICKS), 2);
    assert_eq!(phase_at(CYCLE_TICKS - 1), 2);
    assert_eq!(phase_at(CYCLE_TICKS), 2);
}

#[test]
fn every_slot_of_every_phase_is_holy_nova_for_now() {
    for arena in Arena::ALL {
        for difficulty in Difficulty::ALL {
            for phase in loadout(arena, difficulty) {
                assert_eq!(phase, [AbilityId::HolyNova; ABILITY_SLOTS]);
            }
        }
    }
}

#[test]
fn ability_resolution_distinguishes_boss_and_hero() {
    let (arena, diff) = (Arena::Hunter, Difficulty::Mythic);
    assert_eq!(resolve_ability(false, arena, diff, 1, 0), Some(AbilityId::HolyNova));
    assert_eq!(resolve_ability(false, arena, diff, 3, 0), None);
    for slot in 1..=ABILITY_SLOTS as u8 {
        assert_eq!(
            resolve_ability(true, arena, diff, slot, CYCLE_TICKS - 1),
            Some(AbilityId::HolyNova)
        );
    }
    assert_eq!(resolve_ability(true, arena, diff, 0, 0), None);
    assert_eq!(resolve_ability(true, arena, diff, 5, 0), None);
}

#[test]
fn version_names_round_trip_and_parse_strictly() {
    assert_eq!(version_file_name("boss", 7), "boss.v0007.ron");
    assert_eq!(parse_version("boss.v0007.ron", "boss"), Some(7));
    assert_eq!(parse_version("boss.v12.ron", "boss"), Some(12));
    assert_eq!(parse_version("tiles.v0001.ron", "boss"), None);
    assert_eq!(parse_version("boss.ron", "boss"), None);
    assert_eq!(parse_version("boss.v.ron", "boss"), None);
    assert_eq!(parse_version("boss.v00x7.ron", "boss"), None);
}

#[test]
fn max_version_picks_the_newest_and_skips_strangers() {
    let names = ["boss.v0001.ron", "boss.v0010.ron", "tiles.v9999.ron", "notes.txt"];
    assert_eq!(max_version(&names, "boss"), Some(10));
    assert_eq!(max_version(&names, "tiles"), Some(9999));
    assert_eq!(max_version(&[], "boss"), None);
}

#[test]
fn encounter_readers_reject_foreign_headers() {
    let recording = Recording { start: IVec2::new(1, 1), events: vec![] };
    let file = BossScoreFile::from_recording(Arena::Bard, Difficulty::Normal, &recording);
    assert!(file.validate(Arena::Bard, Difficulty::Normal).is_ok());
    assert!(file.validate(Arena::Hunter, Difficulty::Normal).is_err());
    assert!(file.validate(Arena::Bard, Difficulty::Mythic).is_err());
    let newer = BossScoreFile { format: SCORE_FORMAT + 1, ..file };
    assert!(newer.validate(Arena::Bard, Difficulty::Normal).is_err());
}

#[test]
fn boss_score_round_trips_through_ron() {
    let recording = Recording {
        start: IVec2::new(33, 15),
        events: vec![
            TimelineEvent { tick: 0, action: Action::Move(IVec2::new(1, 0)) },
            TimelineEvent { tick: 90, action: Action::Ability { slot: 3, aim: None } },
        ],
    };
    let file = BossScoreFile::from_recording(Arena::Hunter, Difficulty::Heroic, &recording);
    assert_eq!(file.events, vec![(0, EventDto::Move(1, 0)), (90, EventDto::Ability(3))]);
    let replay = file.recording();
    assert_eq!(replay.start, recording.start);
    assert_eq!(&replay.events[..], &recording.events[..]);
}

#[test]
fn header_errors_name_what_drifted() {
    let recording = Recording { start: IVec2::new(0, 0), events: vec![] };
    let file = BossScoreFile::from_recording(Arena::Bard, Difficulty::Normal, &recording);
    assert_eq!(
        file.validate(Arena::Hunter, Difficulty::Normal),
        Err(ScoreHeaderError::Directory {
            file_arena: Arena::Bard.index() as u8,
            file_difficulty: Difficulty::Normal,
            arena: Arena::Hunter.index() as u8,
            difficulty: Difficulty::Normal,
        })
    );
    let newer = BossScoreFile { format: SCORE_FORMAT + 1, ..file };
    assert_eq!(
        newer.validate(Arena::Bard, Difficulty::Normal),
        Err(ScoreHeaderError::Format { found: SCORE_FORMAT + 1, expected: SCORE_FORMAT })
    );
}

#[test]
fn difficulty_cycles_and_slugs() {
    assert_eq!(Difficulty::Normal.next(), Difficulty::Heroic);
    assert_eq!(Difficulty::Heroic.next(), Difficulty::Mythic);
    assert_eq!(Difficulty::Mythic.next(), Difficulty::Normal);
    assert_eq!(Difficulty::Normal.slug(), "normal");
    assert_eq!(Difficulty::Mythic.slug(), "mythic");
}

#[test]
fn version_names_pad_to_four_digits_and_grow_past() {
    assert_eq!(version_file_name("tiles", 0), "tiles.v0000.ron");
    assert_eq!(version_file_name("layers", 12345), "layers.v12345.ron");
    assert_eq!(parse_version("layers.v12345.ron", "layers"), Some(12345));
    assert_eq!(parse_version("boss.v99999999999.ron", "boss"), None);
}

#[test]
fn playback_casts_resolve_at_the_recorded_tick() {
    let step = GhostEvent { tick: 10, ghost_id: 3, action: Action::Move(IVec2 { x: 1, y: 0 }) };
    assert_eq!(cast_of(&step, true, Arena::Hunter, Difficulty::Normal), None);
    let nova = GhostEvent { tick: 10, ghost_id: 3, action: Action::Ability { slot: 1, aim: None } };
    assert_eq!(cast_of(&nova, false, Arena::Hunter, Difficulty::Normal), Some(AbilityId::HolyNova));
    let hero_slot_two = GhostEvent { tick: 10, ghost_id: 3, action: Action::Ability { slot: 2, aim: None } };
    assert_eq!(cast_of(&hero_slot_two, false, Arena::Hunter, Difficulty::Normal), None);
    assert_eq!(cast_of(&hero_slot_two, true, Arena::Hunter, Difficulty::Mythic), Some(AbilityId::HolyNova));
    let boss_slot_five = GhostEvent { tick: 10, ghost_id: 3, action: Action::Ability { slot: 5, aim: None } };
    assert_eq!(cast_of(&boss_slot_five, true, Arena::Hunter, Difficulty::Normal), None);
}

#[test]
fn hotbar_slots_are_empty_with_nothing_selected() {
    for slot in 0..6u8 {
        assert_eq!(slot_ability(None, Arena::Cardinal, Difficulty::Heroic, slot), None);
    }
    assert_eq!(slot_ability(Some((false, 0)), Arena::Cardinal, Difficulty::Heroic, 1), Some(AbilityId::HolyNova));
    assert_eq!(slot_ability(Some((false, 0)), Arena::Cardinal, Difficulty::Heroic, 2), None);
    assert_eq!(slot_ability(Some((true, 0)), Arena::Cardinal, Difficulty::Heroic, 4), Some(AbilityId::HolyNova));
}

#[test]
fn a_possessed_boss_casts_only_its_pressed_slots() {
    assert_eq!(boss_casts(Arena::Hunter, Difficulty::Normal, 0, [false, false, false]), vec![]);
    assert_eq!(
        boss_casts(Arena::Hunter, Difficulty::Normal, CYCLE_TICKS - 1, [true, false, true]),
        vec![AbilityId::HolyNova, AbilityId::HolyNova]
    );
    assert_eq!(boss_casts(Arena::Hunter, Difficulty::Normal, 0, [true, true, true]).len(), 3);
}

#[test]
fn the_next_version_follows_the_newest() {
    assert_eq!(next_version(None), 1);
    assert_eq!(next_version(Some(1)), 2);
    assert_eq!(next_version(Some(41)), 42);
}
