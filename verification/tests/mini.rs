// Recall in all of these tests that the instruction stack is read back to
// front.

use mini_village::mini::Action;
use mini_village::mini::Condition;
use mini_village::mini::Event;
use mini_village::mini::Instruction;
use mini_village::mini::Mini;
use mini_village::mini::MiniStatus;
use mini_village::mini::Operation;
use mini_village::village::Village;
use mini_village::village::Villager;
use mini_village::village::VillagerType;
use mini_village::village::LivingVillager;

#[test]
fn register_operations() {
    let mut village = Village::new_deterministic(vec![Villager::new(VillagerType::Normal, 1)]);

    let mut mini = Mini::new(
        1,
        vec![
            Instruction::Operation(Operation::Decrement),
            Instruction::Operation(Operation::SetValue(10)),
            Instruction::Operation(Operation::Decrement),
            Instruction::Operation(Operation::Increment),
            Instruction::Operation(Operation::Increment),
        ],
        &village,
    );

    assert_eq!(mini.register, 0);
    mini.run_instruction(&mut village);
    assert_eq!(mini.register, 1);
    mini.run_instruction(&mut village);
    assert_eq!(mini.register, 2);
    mini.run_instruction(&mut village);
    assert_eq!(mini.register, 1);
    mini.run_instruction(&mut village);
    assert_eq!(mini.register, 10);
    mini.run_instruction(&mut village);
    assert_eq!(mini.register, 9);

    assert_eq!(mini.status, MiniStatus::Running);
}

#[test]
fn register_safety() {
    let mut village = Village::new_deterministic(Vec::new());

    let mut mini = Mini::new(
        0,
        vec![Instruction::Operation(Operation::Decrement)],
        &village,
    );

    assert_eq!(mini.register, 0);
    mini.run_instruction(&mut village);
    assert_eq!(mini.status, MiniStatus::Destroyed);
    assert_eq!(mini.register, 0);

    let mut mini = Mini::new(
        0,
        vec![
            Instruction::Operation(Operation::Increment),
            Instruction::Operation(Operation::SetValue(u8::MAX)),
        ],
        &village,
    );

    mini.run_instruction(&mut village);
    assert_eq!(mini.register, u8::MAX);
    mini.run_instruction(&mut village);
    assert_eq!(mini.status, MiniStatus::Destroyed);
    assert_eq!(mini.register, u8::MAX);
}

#[test]
fn visiting() {
    let villagers: Vec<LivingVillager> = (1..=4)
        .map(|i| Villager::new(VillagerType::Normal, i))
        .collect();
    let mut village = Village::new_deterministic(villagers);

    let mut mini = Mini::new(
        4,
        vec![
            Instruction::Action(Action::Visit),
            Instruction::Operation(Operation::Increment),
            Instruction::Action(Action::Visit),
            Instruction::Operation(Operation::SetValue(2)),
        ],
        &village,
    );

    assert_eq!(mini.location, 4);
    mini.run_instruction(&mut village);
    mini.run_instruction(&mut village);
    assert_eq!(mini.location, 2);
    mini.run_instruction(&mut village);
    mini.run_instruction(&mut village);
    assert_eq!(mini.location, 3);

    assert_eq!(mini.status, MiniStatus::Running);
    (1..=4).for_each(|i| assert!(village.living_villager(i).is_some()));
}

#[test]
fn actions() {
    let villagers: Vec<LivingVillager> = (1..=4)
        .map(|i| Villager::new(VillagerType::Normal, i))
        .collect();
    let mut village = Village::new_deterministic(villagers);

    let mut mini = Mini::new(
        1,
        vec![
            Instruction::Action(Action::Detonate),
            Instruction::Action(Action::Visit),
            Instruction::Action(Action::PostRegister),
            Instruction::Action(Action::PostFlare),
            Instruction::Operation(Operation::SetValue(2)),
            Instruction::Action(Action::PostRegister),
        ],
        &village,
    );

    mini.run_instruction(&mut village);
    assert_eq!(mini.log, vec![Event::PostedRegister(0)]);
    mini.run_instruction(&mut village);
    mini.run_instruction(&mut village);
    mini.run_instruction(&mut village);
    assert_eq!(
        mini.log,
        vec![
            Event::PostedRegister(0),
            Event::PostedFlare,
            Event::PostedRegister(2)
        ]
    );

    mini.run_instruction(&mut village);
    assert_eq!(mini.status, MiniStatus::Running);
    mini.run_instruction(&mut village);
    assert_eq!(mini.status, MiniStatus::Destroyed);
    assert!(village.dead_villager(2).is_some());
}

#[test]
fn dies_to_murderer() {
    let mut villagers: Vec<LivingVillager> = (1..=4)
        .map(|i| Villager::new(VillagerType::Normal, i))
        .collect();
    villagers.push(Villager::new(VillagerType::Murderer, 5));
    let mut village = Village::new_deterministic(villagers);

    let mut mini = Mini::new(
        1,
        vec![
            Instruction::Action(Action::Visit),
            Instruction::Operation(Operation::SetValue(5)),
        ],
        &village,
    );

    mini.run_instruction(&mut village);
    mini.run_instruction(&mut village);
    assert_eq!(mini.status, MiniStatus::Destroyed);
}

#[test]
fn completes_correctly() {
    let villagers: Vec<LivingVillager> = (1..=4)
        .map(|i| Villager::new(VillagerType::Normal, i))
        .collect();
    let mut village = Village::new_deterministic(villagers);

    let mut mini = Mini::new(
        1,
        vec![
            Instruction::Operation(Operation::Increment),
            Instruction::Break,
        ],
        &village,
    );

    mini.run_instruction(&mut village);
    assert_eq!(mini.status, MiniStatus::Done);

    let mut mini = Mini::new(
        1,
        vec![
            Instruction::Operation(Operation::Increment),
            Instruction::Operation(Operation::Increment),
        ],
        &village,
    );

    mini.run_instruction(&mut village);
    mini.run_instruction(&mut village);
    mini.run_instruction(&mut village);
    assert_eq!(mini.status, MiniStatus::Done);
}

#[test]
fn conditionals() {
    let villagers: Vec<LivingVillager> = vec![
        Villager::new(VillagerType::Normal, 1),
        Villager::new(VillagerType::Normal, 2),
    ];
    let mut village = Village::new_deterministic(villagers);
    village
        .kill_villager(2)
        .expect("we have a villager with id 2");

    let mut mini = Mini::new(
        1,
        vec![
            Instruction::Condition(
                Condition::VillagerIsDead,
                vec![Instruction::Action(Action::PostRegister)],
            ),
            Instruction::Action(Action::Visit),
            Instruction::Operation(Operation::SetValue(2)),
            Instruction::Condition(
                Condition::VillagerIsAlive,
                vec![Instruction::Action(Action::PostRegister)],
            ),
        ],
        &village,
    );

    mini.run_until_completion(&mut village);
    assert_eq!(
        mini.log,
        vec![
            Event::PostedRegister(0),
            Event::PostedRegister(2),
            Event::Finished
        ]
    );

    let mut mini = Mini::new(
        1,
        vec![
            Instruction::Condition(
                Condition::VillagerIsAlive,
                vec![Instruction::Action(Action::PostRegister)],
            ),
            Instruction::Action(Action::Visit),
            Instruction::Operation(Operation::SetValue(2)),
            Instruction::Condition(
                Condition::VillagerIsDead,
                vec![Instruction::Action(Action::PostRegister)],
            ),
        ],
        &village,
    );

    mini.run_until_completion(&mut village);
    assert_eq!(mini.log, vec![Event::Finished]);
}

#[test]
fn mini_repeat() {
    let mut village = Village::new_deterministic(vec![Villager::new(VillagerType::Normal, 1)]);

    // keep posting the register until it's equal to 10
    let mut mini = Mini::new(
        1,
        vec![Instruction::Repeat(
            u8::MAX,
            vec![
                Instruction::Operation(Operation::Increment),
                Instruction::Action(Action::PostRegister),
                Instruction::Condition(Condition::RegisterEq(10), vec![Instruction::Break]),
            ],
        )],
        &village,
    );

    mini.run_until_completion(&mut village);

    // this also ensures break clears the rest of the active loop; if it
    // didn't, 10 would be posted
    let mut events: Vec<Event> = (0..=9).map(|i| Event::PostedRegister(i)).collect();
    events.push(Event::Finished);
    assert_eq!(mini.log, events);
}

#[test]
fn infinite_loop() {
    let mut village = Village::new_deterministic(vec![Villager::new(VillagerType::Normal, 1)]);

    let mut mini = Mini::new(
        1,
        vec![Instruction::Repeat(
            10, // this should usually be u8::MAX, but this makes the test faster
            vec![],
        )],
        &village,
    );

    mini.run_until_completion(&mut village);

    assert!(mini.register < u8::MAX)
}

#[test]
fn break_exits_innermost_loop() {
    let mut village = Village::new_deterministic(vec![Villager::new(VillagerType::Normal, 1)]);

    // an outer loop of two rounds; each round increments, runs an inner
    // loop that breaks at once, and increments again. the inner break must
    // not touch the outer loop
    let body = vec![
        Instruction::Operation(Operation::Increment),
        Instruction::Repeat(u8::MAX, vec![Instruction::Break]),
        Instruction::Operation(Operation::Increment),
    ];
    let mut mini = Mini::new(1, vec![Instruction::Repeat(2, body)], &village);

    mini.run_until_completion(&mut village);
    assert_eq!(mini.status, MiniStatus::Done);
    assert_eq!(mini.register, 4);
    assert_eq!(mini.log, vec![Event::Finished]);
}

#[test]
fn murderer_wipes_log() {
    let mut village = Village::new_deterministic(vec![
        Villager::new(VillagerType::Normal, 1),
        Villager::new(VillagerType::Murderer, 2),
    ]);

    let mut mini = Mini::new(
        1,
        vec![
            Instruction::Action(Action::Visit),
            Instruction::Operation(Operation::SetValue(2)),
            Instruction::Action(Action::PostFlare),
            Instruction::Action(Action::PostRegister),
        ],
        &village,
    );

    mini.run_instruction(&mut village);
    mini.run_instruction(&mut village);
    assert_eq!(mini.log, vec![Event::PostedRegister(0), Event::PostedFlare]);
    mini.run_instruction(&mut village);
    mini.run_instruction(&mut village);
    assert_eq!(mini.status, MiniStatus::Destroyed);
    assert_eq!(mini.log, Vec::<Event>::new());
}

#[test]
fn afraid_keeps_log() {
    let mut village = Village::new_deterministic(vec![
        Villager::new(VillagerType::Normal, 1),
        Villager::new(VillagerType::Afraid, 2),
    ]);

    let mut mini = Mini::new(
        1,
        vec![
            Instruction::Action(Action::Visit),
            Instruction::Operation(Operation::SetValue(2)),
            Instruction::Action(Action::PostFlare),
        ],
        &village,
    );

    mini.run_instruction(&mut village);
    mini.run_instruction(&mut village);
    mini.run_instruction(&mut village);
    assert_eq!(mini.status, MiniStatus::Destroyed);
    assert_eq!(mini.log, vec![Event::PostedFlare]);
}

#[test]
fn visiting_the_dead_is_safe() {
    let mut village = Village::new_deterministic(vec![
        Villager::new(VillagerType::Normal, 1),
        Villager::new(VillagerType::Murderer, 2),
    ]);
    village.kill_villager(2).expect("villager 2 is alive");

    let mut mini = Mini::new(
        1,
        vec![
            Instruction::Action(Action::Visit),
            Instruction::Operation(Operation::SetValue(2)),
        ],
        &village,
    );

    mini.run_until_completion(&mut village);
    // even a murderer is harmless once dead
    assert_eq!(mini.location, 2);
    assert_eq!(mini.log, vec![Event::Finished]);
}

#[test]
fn starting_on_a_murderer_is_fatal() {
    let mut village = Village::new_deterministic(vec![Villager::new(VillagerType::Murderer, 3)]);

    // the visit happens at construction, before any instruction runs
    let mut mini = Mini::new(3, vec![Instruction::Action(Action::PostFlare)], &village);
    assert_eq!(mini.status, MiniStatus::Destroyed);
    mini.run_until_completion(&mut village);
    assert_eq!(mini.status, MiniStatus::Destroyed);
    assert_eq!(mini.log, Vec::<Event>::new());
}

#[test]
fn lost_on_missing_start() {
    let village = Village::new_deterministic(vec![Villager::new(VillagerType::Normal, 1)]);

    let mini = Mini::new(7, vec![Instruction::Action(Action::PostFlare)], &village);
    assert_eq!(mini.status, MiniStatus::Lost);
    assert_eq!(mini.log, Vec::<Event>::new());
}

#[test]
fn detonate_with_no_target_still_detonates() {
    let mut village = Village::new_deterministic(vec![Villager::new(VillagerType::Normal, 1)]);

    // the register holds 0, which names no villager: the kill is a no-op,
    // the detonation still destroys the mini
    let mut mini = Mini::new(1, vec![Instruction::Action(Action::Detonate)], &village);
    mini.run_until_completion(&mut village);
    assert_eq!(mini.status, MiniStatus::Destroyed);
    assert!(village.living_villager(1).is_some());
    assert_eq!(mini.log, Vec::<Event>::new());
}
