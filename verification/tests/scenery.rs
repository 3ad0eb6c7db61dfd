use arenic::arena::Arena;
use arenic::scenery::{look, BossLook, BossShell, CloudStyle, LightBehavior, Mote, SwarmMotion};

#[test]
fn cloud_style_packs_to_its_discriminant() {
    assert_eq!(CloudStyle::Banded.index() as f32, 0.0);
    assert_eq!(CloudStyle::Hearth.index() as f32, 7.0);
    assert_eq!(CloudStyle::Ripple.index() as f32, 10.0);
}

#[test]
fn each_arena_has_its_own_look() {
    let hunter = look(Arena::Hunter);
    assert_eq!((hunter.sky, hunter.fg), (CloudStyle::Banded, CloudStyle::Streaks));
    assert_eq!((hunter.motion, hunter.mote, hunter.count), (SwarmMotion::Patrol, Mote::Dart, 12));
    assert_eq!(
        hunter.boss,
        BossLook::Hollow { shell: BossShell::Obelisk, behavior: LightBehavior::ObeliskBlade }
    );
    assert_eq!(look(Arena::Guildmaster).boss, BossLook::Home);
    assert_eq!(look(Arena::Thief).count, 10);
    assert_eq!(BossShell::HollowIcosphere.model(), "models/hollow_icosphere.glb#Scene0");
    let mut shells = vec![];
    for i in 0..9 {
        if let BossLook::Hollow { shell, .. } = look(Arena::from_index(i).unwrap()).boss {
            assert!(!shells.contains(&shell));
            shells.push(shell);
        }
    }
    assert_eq!(shells.len(), 8);
}
