use demon_deduce::roles::{Alignment, Role};
use demon_deduce::statements::{
    ConfessorStatement, EmpressStatement, EnlightenedStatement, GemcrafterStatement,
    HunterStatement, JesterStatement, JudgeStatement, LoverStatement, MediumStatement,
    RoleStatement, ScoutStatement,
};
use demon_deduce::targets::to_bitvec;
use demon_deduce::brute_force_solve;

fn is_evil(role: &Role) -> bool {
    role.alignment() == Alignment::Evil
}

#[test]
fn finds_minion_with_typed_statements() {
    let deck = vec![Role::Confessor, Role::Confessor, Role::Minion];
    let visible = vec![
        Some(Role::Confessor),
        Some(Role::Confessor),
        Some(Role::Confessor),
    ];
    let confirmed = vec![None; visible.len()];
    let observed: Vec<RoleStatement> = vec![
        RoleStatement::Confessor(ConfessorStatement::IAmGood),
        RoleStatement::Confessor(ConfessorStatement::IAmGood),
        RoleStatement::Confessor(ConfessorStatement::IAmDizzy),
    ];
    let sols = brute_force_solve(&deck, &visible, &confirmed, &observed, 2, 0, 1, 0);
    assert_eq!(sols.len(), 1);
    assert_eq!(sols[0], vec![Role::Confessor, Role::Confessor, Role::Minion]);
}

#[test]
fn solver_tests_finds_minion_with_typed_statements() {
    let deck = vec![Role::Confessor, Role::Confessor, Role::Minion];
    let visible = vec![
        Some(Role::Confessor),
        Some(Role::Confessor),
        Some(Role::Confessor),
    ];
    let confirmed = vec![None; visible.len()];
    let observed: Vec<RoleStatement> = vec![
        RoleStatement::Confessor(ConfessorStatement::IAmGood),
        RoleStatement::Confessor(ConfessorStatement::IAmGood),
        RoleStatement::Confessor(ConfessorStatement::IAmDizzy),
    ];
    let sols = brute_force_solve(&deck, &visible, &confirmed, &observed, 2, 0, 1, 0);
    assert_eq!(sols.len(), 1);
    assert_eq!(sols[0], vec![Role::Confessor, Role::Confessor, Role::Minion]);
}

#[test]
fn example_minion_disguised_as_confessor() {
    let deck = vec![Role::Confessor, Role::Confessor, Role::Minion];
    let visible = vec![
        Some(Role::Confessor),
        Some(Role::Confessor),
        Some(Role::Confessor),
    ];
    let confirmed = vec![None; visible.len()];

    let observed: Vec<RoleStatement> = vec![
        RoleStatement::Confessor(ConfessorStatement::IAmGood),
        RoleStatement::Confessor(ConfessorStatement::IAmGood),
        RoleStatement::Confessor(ConfessorStatement::IAmDizzy),
    ];

    let sols = brute_force_solve(&deck, &visible, &confirmed, &observed, 2, 0, 1, 0);
    assert_eq!(sols.len(), 1);
    let sol = &sols[0];
    assert_eq!(sol[0], Role::Confessor);
    assert_eq!(sol[1], Role::Confessor);
    assert_eq!(sol[2], Role::Minion);
}

#[test]
fn example_with_claim_statement() {
    let deck = vec![Role::Confessor, Role::Minion, Role::Confessor];
    let visible = vec![
        Some(Role::Confessor),
        Some(Role::Confessor),
        Some(Role::Confessor),
    ];
    let confirmed = vec![None; visible.len()];

    let observed: Vec<RoleStatement> = vec![
        RoleStatement::Confessor(ConfessorStatement::IAmGood),
        RoleStatement::Judge(JudgeStatement {
            target_index: 0,
            is_lying: true,
        }),
        RoleStatement::Confessor(ConfessorStatement::IAmDizzy),
    ];

    let _ = brute_force_solve(&deck, &visible, &confirmed, &observed, 2, 0, 1, 0);
}

#[test]
fn test_iam_good_iam_dizzy_unrevealed() {
    let deck = vec![Role::Confessor, Role::Confessor, Role::Minion];

    let visible = vec![Some(Role::Confessor), Some(Role::Confessor), None];
    let confirmed = vec![None; visible.len()];

    let observed: Vec<RoleStatement> = vec![
        RoleStatement::Confessor(ConfessorStatement::IAmGood),
        RoleStatement::Confessor(ConfessorStatement::IAmDizzy),
        RoleStatement::NoStatement,
    ];

    let solutions = brute_force_solve(&deck, &visible, &confirmed, &observed, 2, 0, 1, 0);
    for solution in &solutions {
        assert!(
            is_evil(&solution[1]),
            "No matching solution found. Solutions: {:#?}",
            solutions
        );
    }
    assert!(
        !solutions.is_empty(),
        "No matching solution found. Solutions: {:#?}",
        solutions
    );
}

#[test]
fn test_iam_good_iam_good_unrevealed() {
    let deck = vec![Role::Confessor, Role::Confessor, Role::Minion];

    let visible = vec![Some(Role::Confessor), Some(Role::Confessor), None];
    let confirmed = vec![None; visible.len()];

    let observed: Vec<RoleStatement> = vec![
        RoleStatement::Confessor(ConfessorStatement::IAmGood),
        RoleStatement::Confessor(ConfessorStatement::IAmGood),
        RoleStatement::NoStatement,
    ];

    let solutions = brute_force_solve(&deck, &visible, &confirmed, &observed, 2, 0, 1, 0);
    for solution in &solutions {
        assert!(
            is_evil(&solution[2]),
            "No matching solution found. Solutions: {:#?}",
            solutions
        );
    }
    assert!(
        !solutions.is_empty(),
        "No matching solution found. Solutions: {:#?}",
        solutions
    );
}

#[test]
fn test_iam_good_claim_1_is_good_unrevealed() {
    let deck = vec![Role::Confessor, Role::Gemcrafter, Role::Minion];

    let visible = vec![Some(Role::Confessor), Some(Role::Gemcrafter), None];
    let confirmed = vec![None; visible.len()];

    let observed: Vec<RoleStatement> = vec![
        RoleStatement::Confessor(ConfessorStatement::IAmGood),
        RoleStatement::Gemcrafter(GemcrafterStatement { target_index: 0 }),
        RoleStatement::NoStatement,
    ];

    let solutions = brute_force_solve(&deck, &visible, &confirmed, &observed, 2, 0, 1, 0);
    for solution in &solutions {
        assert!(
            is_evil(&solution[2]),
            "No matching solution found. Solutions: {:#?}",
            solutions
        );
    }

    assert!(
        !solutions.is_empty(),
        "No matching solution found. Solutions: {:#?}",
        solutions
    );
}

#[test]
fn test_lover_lover_unrevealed_minion_unrevealed() {
    let deck = vec![
        Role::Lover,
        Role::Lover,
        Role::Confessor,
        Role::Confessor,
        Role::Minion,
    ];

    let visible = vec![Some(Role::Lover), Some(Role::Lover), None, None, None];
    let confirmed = vec![None; visible.len()];

    let observed: Vec<RoleStatement> = vec![
        RoleStatement::Lover(LoverStatement { evil_count: 0 }),
        RoleStatement::Lover(LoverStatement { evil_count: 0 }),
        RoleStatement::NoStatement,
        RoleStatement::NoStatement,
        RoleStatement::NoStatement,
    ];

    let solutions = brute_force_solve(&deck, &visible, &confirmed, &observed, 4, 0, 1, 0);
    for solution in &solutions {
        assert!(
            is_evil(&solution[3]),
            "Unmatching solution found. Solutions: {:#?}",
            solutions
        );
    }

    assert!(
        !solutions.is_empty(),
        "No matching solution found. Solutions: {:#?}",
        solutions
    );
}

#[test]
fn test_lover_lover_unrevealed_unrevealed_minion() {
    let deck = vec![
        Role::Lover,
        Role::Lover,
        Role::Confessor,
        Role::Confessor,
        Role::Minion,
    ];

    let visible = vec![Some(Role::Lover), Some(Role::Lover), None, None, None];
    let confirmed = vec![None; visible.len()];

    let observed: Vec<RoleStatement> = vec![
        RoleStatement::Lover(LoverStatement { evil_count: 1 }),
        RoleStatement::Lover(LoverStatement { evil_count: 0 }),
        RoleStatement::NoStatement,
        RoleStatement::NoStatement,
        RoleStatement::NoStatement,
    ];

    let solutions = brute_force_solve(&deck, &visible, &confirmed, &observed, 4, 0, 1, 0);
    for solution in &solutions {
        assert!(
            is_evil(&solution[4]),
            "Unmatching solution found. Solutions: {:#?}",
            solutions
        );
    }

    assert!(
        !solutions.is_empty(),
        "No matching solution found. Solutions: {:#?}",
        solutions
    );
}

#[test]
fn test_loverminion_lover_unrevealed_unrevealed() {
    let deck = vec![Role::Lover, Role::Lover, Role::Lover, Role::Minion];

    let visible = vec![
        Some(Role::Lover),
        Some(Role::Lover),
        Some(Role::Lover),
        None,
    ];
    let confirmed = vec![None; visible.len()];

    let observed: Vec<RoleStatement> = vec![
        RoleStatement::Lover(LoverStatement { evil_count: 1 }),
        RoleStatement::Lover(LoverStatement { evil_count: 1 }),
        RoleStatement::Lover(LoverStatement { evil_count: 0 }),
        RoleStatement::NoStatement,
    ];

    let solutions = brute_force_solve(&deck, &visible, &confirmed, &observed, 3, 0, 1, 0);
    for solution in &solutions {
        assert!(
            is_evil(&solution[0]),
            "Unmatching solution found. Solutions: {:#?}",
            solutions
        );
    }

    assert!(
        !solutions.is_empty(),
        "No matching solution found. Solutions: {:#?}",
        solutions
    );
}

#[test]
fn test_empress_empress_empress() {
    let deck = vec![
        Role::Empress,
        Role::Empress,
        Role::Empress,
        Role::Empress,
        Role::Minion,
    ];

    let visible = vec![
        Some(Role::Empress),
        Some(Role::Empress),
        Some(Role::Empress),
        Some(Role::Empress),
        Some(Role::Empress),
    ];
    let confirmed = vec![None; visible.len()];

    let observed: Vec<RoleStatement> = vec![
        RoleStatement::Empress(EmpressStatement {
            target_indexes: to_bitvec(&vec![1, 2, 3]),
        }),
        RoleStatement::Empress(EmpressStatement {
            target_indexes: to_bitvec(&vec![0, 3, 4]),
        }),
        RoleStatement::Empress(EmpressStatement {
            target_indexes: to_bitvec(&vec![0, 3, 4]),
        }),
        RoleStatement::Empress(EmpressStatement {
            target_indexes: to_bitvec(&vec![0, 1, 4]),
        }),
        RoleStatement::Empress(EmpressStatement {
            target_indexes: to_bitvec(&vec![0, 1, 2]),
        }),
    ];

    let solutions = brute_force_solve(&deck, &visible, &confirmed, &observed, 4, 0, 1, 0);
    for solution in &solutions {
        assert!(
            is_evil(&solution[0]),
            "Unmatching solution found. Solutions: {:#?}",
            solutions
        );
    }

    assert!(
        !solutions.is_empty(),
        "No matching solution found. Solutions: {:#?}",
        solutions
    );
}

#[test]
fn test_hunter_lover() {
    let deck = vec![
        Role::Hunter,
        Role::Lover,
        Role::Confessor,
        Role::Confessor,
        Role::Confessor,
        Role::Minion,
    ];

    let visible = vec![
        Some(Role::Hunter),
        Some(Role::Lover),
        None,
        None,
        None,
        None,
    ];
    let confirmed = vec![None; visible.len()];

    let observed: Vec<RoleStatement> = vec![
        RoleStatement::Hunter(HunterStatement { distance: 3 }),
        RoleStatement::Lover(LoverStatement { evil_count: 0 }),
        RoleStatement::NoStatement,
        RoleStatement::NoStatement,
        RoleStatement::NoStatement,
        RoleStatement::NoStatement,
    ];

    let solutions = brute_force_solve(&deck, &visible, &confirmed, &observed, 5, 0, 1, 0);
    for solution in &solutions {
        assert!(
            is_evil(&solution[3]),
            "Unmatching solution found. Solutions: {:#?}",
            solutions
        );
    }

    assert!(
        !solutions.is_empty(),
        "No matching solution found. Solutions: {:#?}",
        solutions
    );
}

#[test]
fn test_enlightened() {
    let deck = vec![
        Role::Judge,
        Role::Hunter,
        Role::Confessor,
        Role::Lover,
        Role::Gemcrafter,
        Role::Enlightened,
        Role::Minion,
    ];
    let visible = vec![
        Some(Role::Gemcrafter),
        Some(Role::Enlightened),
        Some(Role::Lover),
        None,
        None,
        None,
    ];
    let confirmed = vec![None; visible.len()];
    let observed: Vec<RoleStatement> = vec![
        RoleStatement::Gemcrafter(GemcrafterStatement { target_index: 2 }),
        RoleStatement::Enlightened(EnlightenedStatement::Equidistant),
        RoleStatement::Lover(LoverStatement { evil_count: 0 }),
        RoleStatement::NoStatement,
        RoleStatement::NoStatement,
        RoleStatement::NoStatement,
    ];

    let solutions = brute_force_solve(&deck, &visible, &confirmed, &observed, 5, 0, 1, 0);
    for solution in &solutions {
        assert!(
            is_evil(&solution[4]),
            "Unmatching solution found. Solutions: {:#?}",
            solutions
        );
    }

    assert!(
        !solutions.is_empty(),
        "No matching solution found. Solutions: {:#?}",
        solutions
    );
}

#[test]
fn test_wretch() {
    let deck = vec![
        Role::Hunter,
        Role::Empress,
        Role::Lover,
        Role::Gemcrafter,
        Role::Confessor,
        Role::Wretch,
        Role::Minion,
    ];
    let visible = vec![
        Some(Role::Empress),
        Some(Role::Lover),
        Some(Role::Confessor),
        None,
        Some(Role::Lover),
        None,
        Some(Role::Hunter),
    ];
    let confirmed = vec![None; visible.len()];
    let observed: Vec<RoleStatement> = vec![
        RoleStatement::Empress(EmpressStatement {
            target_indexes: to_bitvec(&vec![5, 2, 3]),
        }),
        RoleStatement::Lover(LoverStatement { evil_count: 0 }),
        RoleStatement::Confessor(ConfessorStatement::IAmGood),
        RoleStatement::NoStatement,
        RoleStatement::Lover(LoverStatement { evil_count: 0 }),
        RoleStatement::NoStatement,
        RoleStatement::Hunter(HunterStatement { distance: 2 }),
    ];

    let solutions = brute_force_solve(&deck, &visible, &confirmed, &observed, 5, 1, 1, 0);
    for solution in &solutions {
        assert!(
            is_evil(&solution[4]),
            "Unmatching solution found. Solutions: {:#?}",
            solutions
        );
    }

    assert!(
        !solutions.is_empty(),
        "No matching solution found. Solutions: {:#?}",
        solutions
    );
}

#[test]
fn test_twin_and_medium() {
    let deck = vec![
        Role::Judge,
        Role::Lover,
        Role::Gemcrafter,
        Role::Enlightened,
        Role::Medium,
        Role::Wretch,
        Role::Minion,
        Role::TwinMinion,
    ];
    let visible = vec![
        Some(Role::Medium),
        Some(Role::Judge),
        Some(Role::Gemcrafter),
        Some(Role::Lover),
        Some(Role::Gemcrafter),
        None,
        None,
    ];
    let confirmed = vec![None; visible.len()];
    let observed: Vec<RoleStatement> = vec![
        RoleStatement::Medium(MediumStatement {
            target_index: 2,
            role: Role::Gemcrafter,
        }),
        RoleStatement::Judge(JudgeStatement {
            target_index: 0,
            is_lying: true,
        }),
        RoleStatement::Gemcrafter(GemcrafterStatement { target_index: 0 }),
        RoleStatement::Lover(LoverStatement { evil_count: 1 }),
        RoleStatement::Gemcrafter(GemcrafterStatement { target_index: 3 }),
        RoleStatement::NoStatement,
        RoleStatement::NoStatement,
    ];

    let solutions = brute_force_solve(&deck, &visible, &confirmed, &observed, 4, 1, 2, 0);
    for solution in &solutions {
        assert!(
            is_evil(&solution[0]),
            "Unmatching solution found. Solutions: {:#?}",
            solutions
        );
        assert!(
            is_evil(&solution[2]),
            "Unmatching solution found. Solutions: {:#?}",
            solutions
        );
    }

    assert!(
        !solutions.is_empty(),
        "No matching solution found. Solutions: {:#?}",
        solutions
    );
}

#[test]
fn test_jester() {
    let deck = vec![
        Role::Gemcrafter,
        Role::Jester,
        Role::Empress,
        Role::Hunter,
        Role::Lover,
        Role::Wretch,
        Role::Minion,
        Role::TwinMinion,
    ];
    let visible = vec![
        Some(Role::Jester),
        None,
        Some(Role::Lover),
        None,
        None,
        Some(Role::Hunter),
        Some(Role::Lover),
        None,
    ];
    let confirmed = vec![None; visible.len()];
    let observed: Vec<RoleStatement> = vec![
        RoleStatement::Jester(JesterStatement {
            target_indexes: to_bitvec(&vec![0, 2, 5]),
            evil_count: 1,
        }),
        RoleStatement::NoStatement,
        RoleStatement::Lover(LoverStatement { evil_count: 1 }),
        RoleStatement::NoStatement,
        RoleStatement::NoStatement,
        RoleStatement::Hunter(HunterStatement { distance: 4 }),
        RoleStatement::Lover(LoverStatement { evil_count: 0 }),
        RoleStatement::NoStatement,
    ];

    let solutions = brute_force_solve(&deck, &visible, &confirmed, &observed, 5, 1, 2, 0);
    for solution in &solutions {
        assert!(
            is_evil(&solution[5]),
            "Unmatching solution found. Solutions: {:#?}",
            solutions
        );
        assert!(
            is_evil(&solution[6]),
            "Unmatching solution found. Solutions: {:#?}",
            solutions
        );
    }

    assert!(
        !solutions.is_empty(),
        "No matching solution found. Solutions: {:#?}",
        solutions
    );
}

#[test]
fn test_confirmed() {
    let deck = vec![Role::Knight, Role::Minion];
    let visible = vec![Some(Role::Knight), Some(Role::Knight)];
    let confirmed = vec![Some(Role::Knight), None];
    let observed: Vec<RoleStatement> = vec![RoleStatement::NoStatement, RoleStatement::NoStatement];

    let solutions = brute_force_solve(&deck, &visible, &confirmed, &observed, 1, 0, 1, 0);
    for solution in &solutions {
        assert!(
            is_evil(&solution[1]),
            "Unmatching solution found. Solutions: {:#?}",
            solutions
        );
    }

    assert!(
        !solutions.is_empty(),
        "No matching solution found. Solutions: {:#?}",
        solutions
    );
}

#[test]
fn test_scout() {
    let deck = vec![
        Role::Scout,
        Role::Empress,
        Role::Judge,
        Role::Enlightened,
        Role::Jester,
        Role::Wretch,
        Role::Witch,
    ];
    let visible = vec![
        Some(Role::Wretch),
        Some(Role::Empress),
        None,
        Some(Role::Jester),
        Some(Role::Scout),
        Some(Role::Enlightened),
    ];
    let confirmed = vec![None; visible.len()];
    let observed: Vec<RoleStatement> = vec![
        RoleStatement::NoStatement,
        RoleStatement::Empress(EmpressStatement {
            target_indexes: to_bitvec(&vec![2, 3, 4]),
        }),
        RoleStatement::NoStatement,
        RoleStatement::NoStatement,
        RoleStatement::Scout(ScoutStatement {
            role: Some(Role::Witch),
            distance: 3,
        }),
        RoleStatement::Enlightened(EnlightenedStatement::Clockwise),
    ];

    let solutions = brute_force_solve(&deck, &visible, &confirmed, &observed, 4, 1, 1, 0);
    for solution in &solutions {
        assert!(
            is_evil(&solution[3]),
            "Unmatching solution found. Solutions: {:#?}",
            solutions
        );
    }

    assert!(
        !solutions.is_empty(),
        "No matching solution found. Solutions: {:#?}",
        solutions
    );
}
