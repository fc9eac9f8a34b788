use combat_sim::sim::{CombatSimulator, DamageRoll, Participant, RosterError, RoundEvent, TerminalState};

fn participant(name: &str, health: usize, shield: usize) -> Participant {
    Participant { name: name.to_string(), health, shield }
}

fn roll(got_damage: bool, shield_roll: usize) -> DamageRoll {
    DamageRoll { got_damage, shield_roll }
}

fn simulator(roster: Vec<Participant>, seed: u64) -> CombatSimulator {
    CombatSimulator::new(roster, seed).unwrap()
}

fn alive_in_roster(sim: &CombatSimulator) -> usize {
    sim.roster.iter().filter(|p| p.health > 0).count()
}

#[test]
fn scenario_single_participant_wins_immediately() {
    let mut sim = simulator(vec![participant("A", 1, 0)], 0);
    assert_eq!(sim.alive_count, 1);
    let out = sim.run_round_with(&vec![]);
    assert_eq!(out.resolution.len(), 0);
    assert_eq!(out.eliminations.len(), 0);
    assert_eq!(out.terminal, TerminalState::WonBy { name: "A".to_string() });
    assert_eq!(sim.roster[0].health, 1);
}

#[test]
fn scenario_full_shield_single_never_loses_health() {
    let mut sim = simulator(vec![participant("A", 1, 10)], 0);
    let out = sim.run_round_with(&vec![roll(true, 10)]);
    assert_eq!(sim.roster[0].health, 1);
    assert_eq!(out.terminal, TerminalState::WonBy { name: "A".to_string() });
}

#[test]
fn full_shield_blocks_max_roll() {
    let mut sim = simulator(
        vec![participant("A", 1, 10), participant("B", 1, 10)],
        0,
    );
    let out = sim.run_round_with(&vec![roll(true, 10), roll(true, 10)]);
    assert_eq!(
        out.resolution,
        vec![
            RoundEvent::NoDamage { name: "A".to_string(), health: 1 },
            RoundEvent::NoDamage { name: "B".to_string(), health: 1 },
        ]
    );
    assert_eq!(out.eliminations.len(), 0);
    assert_eq!(out.terminal, TerminalState::Ongoing);
    assert_eq!(sim.roster[0].health, 1);
    assert_eq!(sim.roster[1].health, 1);
}

#[test]
fn scenario_both_eliminated_same_round() {
    let mut sim = simulator(
        vec![participant("A", 1, 0), participant("B", 1, 0)],
        0,
    );
    let out = sim.run_round_with(&vec![roll(true, 1), roll(true, 1)]);
    assert_eq!(
        out.resolution,
        vec![
            RoundEvent::Damage { name: "A".to_string(), health: 0 },
            RoundEvent::Damage { name: "B".to_string(), health: 0 },
        ]
    );
    assert_eq!(
        out.eliminations,
        vec![
            RoundEvent::Eliminated { name: "A".to_string() },
            RoundEvent::Eliminated { name: "B".to_string() },
        ]
    );
    assert_eq!(out.terminal, TerminalState::AllEliminated);
    assert_eq!(sim.roster.len(), 0);
    assert_eq!(sim.alive_count, 0);
}

#[test]
fn scenario_forced_damage_eliminates_weaker() {
    let mut sim = simulator(
        vec![participant("A", 1, 0), participant("B", 2, 0)],
        0,
    );
    let out = sim.run_round_with(&vec![roll(true, 5), roll(false, 5)]);
    assert_eq!(
        out.resolution,
        vec![
            RoundEvent::Damage { name: "A".to_string(), health: 0 },
            RoundEvent::NoDamage { name: "B".to_string(), health: 2 },
        ]
    );
    assert_eq!(
        out.eliminations,
        vec![RoundEvent::Eliminated { name: "A".to_string() }]
    );
    assert_eq!(sim.alive_count, 1);
    assert_eq!(out.terminal, TerminalState::WonBy { name: "B".to_string() });

    // One more round: the single-survivor guard skips resolution outright.
    let out2 = sim.run_round_with(&vec![roll(true, 1)]);
    assert_eq!(out2.resolution.len(), 0);
    assert_eq!(out2.eliminations.len(), 0);
    assert_eq!(out2.terminal, TerminalState::WonBy { name: "B".to_string() });
    assert_eq!(sim.roster[0].health, 2);
}

#[test]
fn empty_roster_is_immediately_all_eliminated() {
    let mut sim = simulator(vec![], 0);
    assert_eq!(sim.alive_count, 0);
    let out = sim.run_round_with(&vec![]);
    assert_eq!(out.resolution.len(), 0);
    assert_eq!(out.eliminations.len(), 0);
    assert_eq!(out.terminal, TerminalState::AllEliminated);
}

#[test]
fn prune_removes_dead_in_order_and_recounts() {
    let mut sim = simulator(
        vec![
            participant("A", 0, 0),
            participant("B", 2, 1),
            participant("C", 0, 9),
            participant("D", 3, 2),
        ],
        0,
    );
    assert_eq!(sim.alive_count, 2);
    let events = sim.prune_and_recount();
    assert_eq!(
        events,
        vec![
            RoundEvent::Eliminated { name: "A".to_string() },
            RoundEvent::Eliminated { name: "C".to_string() },
        ]
    );
    assert_eq!(sim.roster.len(), 2);
    assert_eq!(sim.roster[0].name, "B");
    assert_eq!(sim.roster[1].name, "D");
    assert_eq!(sim.alive_count, 2);
    assert_eq!(sim.alive_count, alive_in_roster(&sim));
}

#[test]
fn resolution_clamps_health_at_zero() {
    // A is already at zero health but not yet pruned; a landed hit must not
    // drive its health below zero.
    let mut sim = simulator(
        vec![
            participant("A", 0, 0),
            participant("B", 3, 0),
            participant("C", 2, 0),
        ],
        0,
    );
    assert_eq!(sim.alive_count, 2);
    let events = sim.resolve_round_with(&vec![roll(true, 1), roll(true, 1), roll(false, 1)]);
    assert_eq!(
        events,
        vec![
            RoundEvent::Damage { name: "A".to_string(), health: 0 },
            RoundEvent::Damage { name: "B".to_string(), health: 2 },
            RoundEvent::NoDamage { name: "C".to_string(), health: 2 },
        ]
    );
    assert_eq!(sim.roster[0].health, 0);
    assert_eq!(sim.roster[1].health, 2);
    assert_eq!(sim.roster[2].health, 2);
}

#[test]
fn shield_protects_exactly_when_at_least_roll() {
    let mut sim = simulator(
        vec![participant("A", 2, 5), participant("B", 2, 5)],
        0,
    );
    let events = sim.resolve_round_with(&vec![roll(true, 5), roll(true, 6)]);
    assert_eq!(
        events,
        vec![
            RoundEvent::NoDamage { name: "A".to_string(), health: 2 },
            RoundEvent::Damage { name: "B".to_string(), health: 1 },
        ]
    );
}

#[test]
fn seeded_run_reaches_terminal_state() {
    let mut sim = simulator(
        vec![participant("Mad Sheep", 5, 8), participant("Strong Viking", 8, 3)],
        42,
    );
    let mut rounds: usize = 0;
    loop {
        let before = sim.roster.len();
        let out = sim.run_round();
        // The recomputed alive count always matches the pruned roster.
        assert_eq!(sim.alive_count, sim.roster.len());
        assert_eq!(sim.alive_count, alive_in_roster(&sim));
        assert!(sim.roster.len() <= before);
        rounds += 1;
        match out.terminal {
            TerminalState::Ongoing => {
                assert!(sim.roster.len() >= 2);
                assert!(rounds < 100_000, "no terminal state reached");
            }
            TerminalState::WonBy { name } => {
                assert_eq!(sim.roster.len(), 1);
                assert_eq!(sim.roster[0].name, name);
                break;
            }
            TerminalState::AllEliminated => {
                assert_eq!(sim.roster.len(), 0);
                break;
            }
        }
    }
}

#[test]
fn same_seed_gives_same_run() {
    let roster = vec![participant("A", 4, 6), participant("B", 6, 2)];
    let mut first = simulator(roster.clone(), 7);
    let mut second = simulator(roster, 7);
    for _ in 0..50 {
        let a = first.run_round();
        let b = second.run_round();
        assert_eq!(a.resolution, b.resolution);
        assert_eq!(a.eliminations, b.eliminations);
        assert_eq!(a.terminal, b.terminal);
        if a.terminal != TerminalState::Ongoing {
            break;
        }
    }
}

#[test]
fn full_shields_never_lose_health_over_many_rounds() {
    // The shield roll stays inside [1, 10], so a shield of 10 blocks every
    // draw; if the roll could exceed 10 this would eventually fail.
    let mut sim = simulator(
        vec![participant("A", 3, 10), participant("B", 3, 10)],
        99,
    );
    for _ in 0..300 {
        let out = sim.run_round();
        assert_eq!(out.terminal, TerminalState::Ongoing);
        assert_eq!(sim.roster[0].health, 3);
        assert_eq!(sim.roster[1].health, 3);
    }
}

#[test]
fn duplicate_names_are_rejected() {
    let result = CombatSimulator::new(
        vec![
            participant("A", 1, 0),
            participant("B", 1, 0),
            participant("A", 2, 3),
        ],
        0,
    );
    assert!(matches!(
        result,
        Err(RosterError::DuplicateName { ref name }) if name == "A"
    ));
}

#[test]
fn distinct_names_are_accepted() {
    let result = CombatSimulator::new(
        vec![participant("A", 1, 0), participant("B", 1, 0)],
        0,
    );
    assert!(result.is_ok());
}
