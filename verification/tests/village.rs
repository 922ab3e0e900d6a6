use mini_village::village::LivingVillager;
use mini_village::village::Village;
use mini_village::village::VillageError;
use mini_village::village::VillageStatus;
use mini_village::village::Villager;
use mini_village::village::VillagerType;

#[test]
fn correct_villagers_on_creation() {
    let village = Village::new(5, 4, 3, 2);
    (1..=9).for_each(|i| assert!(village.living_villager(i).is_some()));

    let mut normal_villagers = 0;
    let mut strong_villagers = 0;
    let mut afraid_villagers = 0;
    let mut murderers = 0;

    village
        .living_villagers
        .iter()
        .for_each(|villager| match villager.kind() {
            VillagerType::Normal => normal_villagers += 1,
            VillagerType::Strong(_) => strong_villagers += 1,
            VillagerType::Afraid => afraid_villagers += 1,
            VillagerType::Murderer => murderers += 1,
        });

    assert_eq!(normal_villagers, 5);
    assert_eq!(strong_villagers, 4);
    assert_eq!(afraid_villagers, 3);
    assert_eq!(murderers, 2);
}

#[test]
fn gets_correct_villagers() {
    let mut village = Village::new(5, 0, 0, 3);
    village.kill_villager(2).unwrap();
    village.kill_villager(5).unwrap();

    for label in 1..=8 {
        match label {
            2 | 5 => {
                assert!(village.living_villager(label).is_none());
                assert!(village.dead_villager(label).is_some());
            }
            _ => {
                assert!(village.living_villager(label).is_some());
                assert!(village.dead_villager(label).is_none());
            }
        }

        assert!(village.villager_exists(label))
    }

    assert!(!village.villager_exists(9));
    assert!(!village.villager_exists(10));
}

#[test]
fn cannot_kill_villager_twice() {
    let mut village = Village::new(3, 0, 0, 3);
    assert!(village.kill_villager(2).is_ok());
    assert!(village.kill_villager(4).is_ok());
    assert!(village.kill_villager(2).unwrap_err() == VillageError::NoSuchVillager(2))
}

#[test]
fn cannot_kill_nobody() {
    let mut village = Village::new_deterministic(vec![Villager::new(VillagerType::Normal, 1)]);
    assert_eq!(
        village.kill_villager(9).unwrap_err(),
        VillageError::NoSuchVillager(9)
    );
    assert!(village.living_villager(1).is_some());
    assert!(village.dead_villagers.is_empty());
}

#[test]
fn kind_lookup_checks_living_first() {
    let mut village = Village::new_deterministic(vec![
        Villager::new(VillagerType::Afraid, 1),
        Villager::new(VillagerType::Murderer, 2),
    ]);
    assert_eq!(village.villager_type(1).unwrap(), VillagerType::Afraid);
    village.kill_villager(2).unwrap();
    // the kind survives death
    assert_eq!(village.villager_type(2).unwrap(), VillagerType::Murderer);
    assert_eq!(
        village.villager_type(3).unwrap_err(),
        VillageError::NoSuchVillager(3)
    );
}

#[test]
fn strong_villager_resists_once() {
    // a single murderer at 2 with a single strong neighbor above at 3: a
    // strike upward spends the resistance, a second one kills
    let mut village = Village::new_deterministic(vec![
        Villager::new(VillagerType::Murderer, 2),
        Villager::new(VillagerType::Strong(true), 3),
    ]);

    village.murderer_strike(2, true);
    assert_eq!(
        village.living_villager(3).unwrap().kind(),
        VillagerType::Strong(false)
    );
    assert!(village.dead_villager(3).is_none());

    village.murderer_strike(2, true);
    assert!(village.living_villager(3).is_none());
    assert_eq!(
        village.dead_villager(3).unwrap().kind(),
        VillagerType::Strong(false)
    );
}

#[test]
fn strike_in_an_empty_direction_is_wasted() {
    // the only living non-murderer neighbor is above: a strike downward
    // does not fall back to it
    let mut village = Village::new_deterministic(vec![
        Villager::new(VillagerType::Murderer, 2),
        Villager::new(VillagerType::Normal, 4),
    ]);

    village.murderer_strike(2, false);
    assert!(village.living_villager(4).is_some());
    assert!(village.dead_villagers.is_empty());

    village.murderer_strike(2, true);
    assert!(village.living_villager(4).is_none());
    assert!(village.dead_villager(4).is_some());
}

#[test]
fn murderers_never_target_each_other() {
    // the nearest living villager above 1 is the murderer at 2: the search
    // passes it by and takes the normal villager at 3
    let mut village = Village::new_deterministic(vec![
        Villager::new(VillagerType::Murderer, 1),
        Villager::new(VillagerType::Murderer, 2),
        Villager::new(VillagerType::Normal, 3),
    ]);

    village.murderer_strike(1, true);
    assert!(village.living_villager(2).is_some());
    assert!(village.living_villager(3).is_none());
}

#[test]
fn status_follows_the_living() {
    let mut village = Village::new_deterministic(vec![
        Villager::new(VillagerType::Normal, 1),
        Villager::new(VillagerType::Murderer, 2),
    ]);
    village.update_status();
    assert_eq!(village.status(), VillageStatus::Running);

    // no living murderers: the villagers win
    village.kill_villager(2).unwrap();
    village.update_status();
    assert_eq!(village.status(), VillageStatus::VillagersWon);

    let mut village = Village::new_deterministic(vec![
        Villager::new(VillagerType::Normal, 1),
        Villager::new(VillagerType::Murderer, 2),
    ]);
    // only murderers left alive: the murderers win
    village.kill_villager(1).unwrap();
    village.update_status();
    assert_eq!(village.status(), VillageStatus::MurdersWon);
}

#[test]
fn terminal_status_is_permanent() {
    // once the murderers have won, later deaths do not hand the game to
    // the villagers
    let mut village = Village::new_deterministic(vec![Villager::new(VillagerType::Murderer, 1)]);
    village.update_status();
    assert_eq!(village.status(), VillageStatus::MurdersWon);

    village.kill_villager(1).unwrap();
    village.update_status();
    assert_eq!(village.status(), VillageStatus::MurdersWon);
    village.run_night();
    assert_eq!(village.status(), VillageStatus::MurdersWon);
}

#[test]
fn night_ends_a_village_of_murderers() {
    // murderers alone in the village: nobody can be targeted, and the
    // night ends with the murderers having won
    let mut village = Village::new_deterministic(vec![
        Villager::new(VillagerType::Murderer, 1),
        Villager::new(VillagerType::Murderer, 2),
    ]);
    village.run_night();
    assert!(village.living_villager(1).is_some());
    assert!(village.living_villager(2).is_some());
    assert_eq!(village.status(), VillageStatus::MurdersWon);
}

#[test]
fn night_with_one_victim_left() {
    // a lone murderer with a single neighbor: whichever direction the coin
    // picks, at most that neighbor dies, and murderers are never struck
    let mut village = Village::new_deterministic(vec![
        Villager::new(VillagerType::Murderer, 2),
        Villager::new(VillagerType::Normal, 3),
    ]);
    village.run_night();
    assert!(village.living_villager(2).is_some());
    match village.status() {
        VillageStatus::MurdersWon => {
            // the coin chose upward: the neighbor died
            assert!(village.dead_villager(3).is_some());
        }
        VillageStatus::Running => {
            // the coin chose downward, where nobody lives
            assert!(village.living_villager(3).is_some());
        }
        VillageStatus::VillagersWon => panic!("the murderer is alive"),
    }
}

#[test]
fn night_eventually_strikes_the_only_neighbor() {
    // the neighbor sits in one direction only, so roughly every second
    // night targets it; over this many nights it is all but certain to be
    // struck twice, spending the resistance first and then killing
    let mut village = Village::new_deterministic(vec![
        Villager::new(VillagerType::Murderer, 2),
        Villager::new(VillagerType::Strong(true), 3),
    ]);

    let mut nights = 0;
    while village.dead_villager(3).is_none() && nights < 500 {
        village.run_night();
        nights += 1;
    }

    let fallen = village.dead_villager(3).expect("the neighbor is struck eventually");
    // the resistance was spent before death
    assert_eq!(fallen.kind(), VillagerType::Strong(false));
    assert!(village.living_villager(2).is_some());
    assert_eq!(village.status(), VillageStatus::MurdersWon);
}

#[test]
fn layout_remembers_the_original_roster() {
    let mut village = Village::new_deterministic(vec![
        Villager::new(VillagerType::Normal, 1),
        Villager::new(VillagerType::Murderer, 2),
    ]);
    village.kill_villager(1).unwrap();
    let layout = village.layout();
    assert_eq!(layout.len(), 2);
    assert!(layout.iter().any(|v| v.label() == 1 && v.kind() == VillagerType::Normal));
    assert!(layout.iter().any(|v| v.label() == 2 && v.kind() == VillagerType::Murderer));
}

#[test]
fn killed_villager_keeps_its_label() {
    let mut village = Village::new_deterministic(vec![Villager::new(VillagerType::Afraid, 7)]);
    village.kill_villager(7).unwrap();
    let dead = village.dead_villager(7).unwrap();
    assert_eq!(dead.label(), 7);
    assert!(dead.has_label(7));
    assert_eq!(dead.kind(), VillagerType::Afraid);
}

#[test]
fn empty_village_has_nobody() {
    let village = Village::new_deterministic(Vec::new());
    assert!(!village.villager_exists(0));
    assert!(!village.villager_exists(1));
    assert!(village.living_villager(1).is_none());
    assert!(village.dead_villager(1).is_none());
}

#[test]
fn living_villager_mut_updates_in_place() {
    let mut village = Village::new_deterministic(vec![
        Villager::new(VillagerType::Strong(true), 1),
        Villager::new(VillagerType::Normal, 2),
    ]);
    village
        .living_villager_mut(1)
        .unwrap()
        .set_kind(VillagerType::Strong(false));
    assert_eq!(
        village.living_villager(1).unwrap().kind(),
        VillagerType::Strong(false)
    );
    assert!(village.living_villager_mut(3).is_none());
}

#[test]
fn relabeling_a_living_villager() {
    let mut villager: LivingVillager = Villager::new(VillagerType::Normal, 1);
    villager.set_label(9);
    assert_eq!(villager.label(), 9);
    let dead = villager.kill();
    assert_eq!(dead.label(), 9);
    assert_eq!(dead.kind(), VillagerType::Normal);
}
