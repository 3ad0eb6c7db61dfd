use arenic::arena::Arena;
use arenic::encounter::{ActiveDifficulty, Difficulty};
use arenic::hud::{focus_for, Focus};
use arenic::theme::ThemeId;
use arenic::music::{arena_track, intro_music, music_sink_to_start, DesiredMusic, MusicTarget};

#[test]
fn music_starts_silent_and_follows_the_camera() {
    assert_eq!(DesiredMusic::default(), DesiredMusic(MusicTarget::Silence));
    assert_eq!(intro_music(true, Arena::Bard), MusicTarget::Drone);
    assert_eq!(intro_music(false, Arena::Bard), MusicTarget::Track(Arena::Bard));
}

#[test]
fn only_two_arenas_have_soundtracks() {
    assert_eq!(arena_track(Arena::Warrior), Some("music/warrior_bastion.mp3"));
    assert_eq!(arena_track(Arena::Merchant), Some("music/merchant_casino.mp3"));
    assert_eq!(arena_track(Arena::Hunter), None);
    assert_eq!(arena_track(Arena::Bard), None);
}

#[test]
fn a_sink_starts_only_for_an_unplayed_audible_target() {
    assert_eq!(music_sink_to_start(MusicTarget::Theme, &vec![]), Some(MusicTarget::Theme));
    assert_eq!(music_sink_to_start(MusicTarget::Theme, &vec![MusicTarget::Drone, MusicTarget::Theme]), None);
    assert_eq!(music_sink_to_start(MusicTarget::Silence, &vec![]), None);
    assert_eq!(music_sink_to_start(MusicTarget::Track(Arena::Warrior), &vec![MusicTarget::Theme]), Some(MusicTarget::Track(Arena::Warrior)));
    assert_eq!(music_sink_to_start(MusicTarget::Track(Arena::Thief), &vec![]), None);
    assert_eq!(music_sink_to_start(MusicTarget::Drone, &vec![MusicTarget::Track(Arena::Warrior)]), Some(MusicTarget::Drone));
}

#[test]
fn the_game_starts_on_normal() {
    assert_eq!(ActiveDifficulty::default(), ActiveDifficulty(Difficulty::Normal));
}

#[test]
fn the_hud_follows_the_camera() {
    assert_eq!(Focus::default(), Focus::Overworld);
    assert_eq!(focus_for(true, 4), Focus::Overworld);
    assert_eq!(focus_for(false, 4), Focus::Arena(Arena::Warrior));
    assert_eq!(focus_for(false, 9), Focus::Overworld);
    assert_eq!(Focus::Overworld.title(), "Overworld");
    assert_eq!(Focus::Arena(Arena::Guildmaster).title(), "Guild House");
    assert_eq!(Focus::Overworld.theme(), ThemeId::Dark);
    assert_eq!(Focus::Arena(Arena::Bard).theme(), Arena::Bard.theme());
}
