use demon_deduce::roles::{Group, Role};
use demon_deduce::statements::{AlchemistStatement, ConfessorStatement, LoverStatement, RoleStatement};
use demon_deduce::{brute_force_solve, validate_candidate};

#[test]
fn solve_is_deterministic_as_a_set() {
    let deck = vec![
        Role::Lover,
        Role::Lover,
        Role::Confessor,
        Role::Confessor,
        Role::Minion,
    ];
    let visible = vec![Some(Role::Lover), Some(Role::Lover), None, None, None];
    let confirmed = vec![None; visible.len()];
    let observed: Vec<RoleStatement> = vec![
        RoleStatement::Lover(LoverStatement { evil_count: 1 }),
        RoleStatement::Lover(LoverStatement { evil_count: 0 }),
        RoleStatement::NoStatement,
        RoleStatement::NoStatement,
        RoleStatement::NoStatement,
    ];

    let mut first = brute_force_solve(&deck, &visible, &confirmed, &observed, 4, 0, 1, 0);
    let mut second = brute_force_solve(&deck, &visible, &confirmed, &observed, 4, 0, 1, 0);
    first.sort();
    second.sort();
    assert_eq!(first, second);
}

#[test]
fn solve_results_validate() {
    let deck = vec![Role::Confessor, Role::Confessor, Role::Minion];
    let visible = vec![
        Some(Role::Confessor),
        Some(Role::Confessor),
        Some(Role::Confessor),
    ];
    let confirmed = vec![None; visible.len()];
    let observed: Vec<RoleStatement> = vec![
        RoleStatement::Confessor(ConfessorStatement::IAmGood),
        RoleStatement::Confessor(ConfessorStatement::IAmGood),
        RoleStatement::Confessor(ConfessorStatement::IAmDizzy),
    ];

    let solutions = brute_force_solve(&deck, &visible, &confirmed, &observed, 2, 0, 1, 0);
    assert!(!solutions.is_empty());
    for w in &solutions {
        let verdict = validate_candidate(w, &deck, &visible, &confirmed, &observed);
        assert!(verdict.is_ok());
    }
}

#[test]
fn empty_deck_zero_quotas_yields_single_empty_world() {
    let deck: Vec<Role> = vec![];
    let visible: Vec<Option<Role>> = vec![];
    let confirmed: Vec<Option<Role>> = vec![];
    let observed: Vec<RoleStatement> = vec![];

    let solutions = brute_force_solve(&deck, &visible, &confirmed, &observed, 0, 0, 0, 0);
    assert_eq!(solutions.len(), 1);
    assert!(solutions[0].is_empty());
}

#[test]
fn over_constrained_input_yields_empty_list() {
    let deck = vec![Role::Knight, Role::Minion];
    let visible = vec![Some(Role::Knight), Some(Role::Knight)];
    // no seating can make both confirmed identities Minion
    let confirmed = vec![Some(Role::Minion), Some(Role::Minion)];
    let observed: Vec<RoleStatement> = vec![RoleStatement::NoStatement, RoleStatement::NoStatement];

    let solutions = brute_force_solve(&deck, &visible, &confirmed, &observed, 1, 0, 1, 0);
    assert!(solutions.is_empty());
}

#[test]
fn incompatible_visible_lock_yields_empty_list() {
    // an Evil-group seat can never show its own Evil face, and no Good deck
    // role is available as a disguise
    let deck = vec![Role::Minion, Role::Witch];
    let visible = vec![Some(Role::Minion), Some(Role::Witch)];
    let confirmed = vec![None, None];
    let observed: Vec<RoleStatement> = vec![RoleStatement::NoStatement, RoleStatement::NoStatement];

    let solutions = brute_force_solve(&deck, &visible, &confirmed, &observed, 0, 0, 2, 0);
    assert!(solutions.is_empty());
}

#[test]
fn validator_reports_confirmed_mismatch() {
    let deck = vec![Role::Knight, Role::Minion];
    let visible = vec![Some(Role::Knight), Some(Role::Knight)];
    let confirmed = vec![Some(Role::Minion), None];
    let observed: Vec<RoleStatement> = vec![RoleStatement::NoStatement, RoleStatement::NoStatement];

    let candidate = vec![Role::Knight, Role::Minion];
    let verdict = validate_candidate(&candidate, &deck, &visible, &confirmed, &observed);
    assert!(verdict.is_err());
    let errors = verdict.unwrap_err();
    assert!(!errors.is_empty());
    assert_eq!(
        errors[0],
        demon_deduce::ValidationError::ConfirmedMismatch { seat: 0 }
    );
}

#[test]
fn validator_accepts_solver_world() {
    let deck = vec![Role::Knight, Role::Minion];
    let visible = vec![Some(Role::Knight), Some(Role::Knight)];
    let confirmed = vec![Some(Role::Knight), None];
    let observed: Vec<RoleStatement> = vec![RoleStatement::NoStatement, RoleStatement::NoStatement];

    let candidate = vec![Role::Knight, Role::Minion];
    let verdict = validate_candidate(&candidate, &deck, &visible, &confirmed, &observed);
    assert!(verdict.is_ok());
}

#[test]
fn validator_reports_no_consistent_assignment() {
    let deck = vec![Role::Confessor, Role::Confessor, Role::Minion];
    let visible = vec![
        Some(Role::Confessor),
        Some(Role::Confessor),
        Some(Role::Confessor),
    ];
    let confirmed = vec![None; visible.len()];
    // a truthful Confessor cannot say "I am Dizzy"
    let observed: Vec<RoleStatement> = vec![
        RoleStatement::Confessor(ConfessorStatement::IAmDizzy),
        RoleStatement::Confessor(ConfessorStatement::IAmGood),
        RoleStatement::Confessor(ConfessorStatement::IAmGood),
    ];

    let candidate = vec![Role::Confessor, Role::Confessor, Role::Minion];
    let verdict = validate_candidate(&candidate, &deck, &visible, &confirmed, &observed);
    assert!(verdict.is_err());
    let errors = verdict.unwrap_err();
    assert!(errors.contains(&demon_deduce::ValidationError::NoConsistentAssignment));
}

#[test]
fn poisoner_corruption_lets_true_confessor_sound_dizzy() {
    // the seated Confessor really is one: only the Poisoner's corruption
    // can flip it to the lying branch where "I am Dizzy" is acceptable
    let deck = vec![Role::Confessor, Role::Poisoner];
    let visible = vec![Some(Role::Confessor), Some(Role::Confessor)];
    let confirmed = vec![Some(Role::Confessor), None];
    let observed: Vec<RoleStatement> = vec![
        RoleStatement::Confessor(ConfessorStatement::IAmDizzy),
        RoleStatement::NoStatement,
    ];

    let solutions = brute_force_solve(&deck, &visible, &confirmed, &observed, 1, 0, 1, 0);
    assert_eq!(solutions.len(), 1);
    assert_eq!(solutions[0], vec![Role::Confessor, Role::Poisoner]);
}

#[test]
fn alchemist_counts_cleared_poison() {
    // the Poisoner must corrupt a neighbour; the Alchemist clears it and
    // truthfully reports one cured corruption
    let deck = vec![Role::Alchemist, Role::Confessor, Role::Poisoner];
    let visible = vec![Some(Role::Alchemist), Some(Role::Confessor), None];
    let confirmed = vec![None; visible.len()];
    let observed: Vec<RoleStatement> = vec![
        RoleStatement::Alchemist(AlchemistStatement { corrupt_count: 1 }),
        RoleStatement::NoStatement,
        RoleStatement::NoStatement,
    ];

    let solutions = brute_force_solve(&deck, &visible, &confirmed, &observed, 2, 0, 1, 0);
    assert!(!solutions.is_empty());
    assert!(solutions.contains(&vec![Role::Alchemist, Role::Confessor, Role::Poisoner]));
}

#[test]
fn alchemist_zero_claim_contradicts_forced_poison() {
    // with a Poisoner in play someone is always corrupted: an uncorrupted
    // Alchemist clears and counts it, a corrupted one must claim non-zero
    let deck = vec![Role::Alchemist, Role::Confessor, Role::Poisoner];
    let visible = vec![Some(Role::Alchemist), Some(Role::Confessor), None];
    let confirmed = vec![None; visible.len()];
    let observed: Vec<RoleStatement> = vec![
        RoleStatement::Alchemist(AlchemistStatement { corrupt_count: 0 }),
        RoleStatement::NoStatement,
        RoleStatement::NoStatement,
    ];

    let solutions = brute_force_solve(&deck, &visible, &confirmed, &observed, 2, 0, 1, 0);
    assert!(solutions.is_empty());
}

#[test]
fn solutions_realise_quotas_by_group() {
    let deck = vec![
        Role::Lover,
        Role::Lover,
        Role::Confessor,
        Role::Wretch,
        Role::Minion,
    ];
    let visible = vec![None, None, None, None];
    let confirmed = vec![None; visible.len()];
    let observed = vec![RoleStatement::NoStatement; visible.len()];

    let solutions = brute_force_solve(&deck, &visible, &confirmed, &observed, 2, 1, 1, 0);
    assert!(!solutions.is_empty());
    for w in &solutions {
        let count = |g: Group| w.iter().filter(|r| r.group() == g).count();
        assert_eq!(count(Group::Villager), 2);
        assert_eq!(count(Group::Outcast), 1);
        assert_eq!(count(Group::Minion), 1);
        assert_eq!(count(Group::Demon), 0);
    }
}

#[test]
fn counsellor_swaps_a_villager_and_sits_by_an_outcast() {
    // a Counsellor pick replaces one Villager with an unused Outcast role,
    // and the Counsellor must end up next to an Outcast-group seat
    let deck = vec![
        Role::Confessor,
        Role::Lover,
        Role::Drunk,
        Role::Wretch,
        Role::Counsellor,
    ];
    let visible = vec![None, None, None, None];
    let confirmed = vec![None; visible.len()];
    let observed = vec![RoleStatement::NoStatement; visible.len()];

    let solutions = brute_force_solve(&deck, &visible, &confirmed, &observed, 2, 1, 1, 0);
    assert!(!solutions.is_empty());
    for w in &solutions {
        assert!(w.contains(&Role::Counsellor));
        // one Villager was traded away for a second Outcast
        let count = |g: Group| w.iter().filter(|r| r.group() == g).count();
        assert_eq!(count(Group::Villager), 1);
        assert_eq!(count(Group::Outcast), 2);
        let n = w.len();
        let pos = w.iter().position(|r| *r == Role::Counsellor).unwrap();
        let left = w[(pos + n - 1) % n];
        let right = w[(pos + 1) % n];
        assert!(
            left.group() == Group::Outcast || right.group() == Group::Outcast,
            "Counsellor without an Outcast neighbour in {:?}",
            w
        );
    }
}

#[test]
fn demon_shows_a_villager_not_in_play() {
    // the Baa must display a deck Villager that is not seated: with the
    // Confessor in play only the Lover face remains
    let deck = vec![Role::Confessor, Role::Lover, Role::Baa];
    let confirmed = vec![Some(Role::Confessor), Some(Role::Baa)];
    let observed = vec![RoleStatement::NoStatement, RoleStatement::NoStatement];

    let visible = vec![Some(Role::Confessor), Some(Role::Lover)];
    let solutions = brute_force_solve(&deck, &visible, &confirmed, &observed, 1, 0, 0, 1);
    assert_eq!(solutions.len(), 1);
    assert_eq!(solutions[0], vec![Role::Confessor, Role::Baa]);

    let visible = vec![Some(Role::Confessor), Some(Role::Confessor)];
    let solutions = brute_force_solve(&deck, &visible, &confirmed, &observed, 1, 0, 0, 1);
    assert!(solutions.is_empty());
}

#[test]
fn doppelganger_shows_a_villager_in_play() {
    // the DoppelGanger copies the face of a Villager that is seated
    let deck = vec![Role::Confessor, Role::Lover, Role::DoppelGanger, Role::Minion];
    let confirmed = vec![None, None, Some(Role::DoppelGanger), None];
    let observed = vec![RoleStatement::NoStatement; 4];

    let visible = vec![None, None, Some(Role::Confessor), None];
    let solutions = brute_force_solve(&deck, &visible, &confirmed, &observed, 2, 1, 1, 0);
    assert!(!solutions.is_empty());

    // the Wretch is not in the deck, so no seat can show that face
    let visible = vec![None, None, Some(Role::Wretch), None];
    let solutions = brute_force_solve(&deck, &visible, &confirmed, &observed, 2, 1, 1, 0);
    assert!(solutions.is_empty());
}
