use demon_deduce::roles::Role;
use demon_deduce::semantics::can_produce_statement;
use demon_deduce::statements::{
    ArchitectStatement, BardStatement, BishopStatement, DreamerStatement, DruidStatement,
    EmpressStatement, FortuneTellerStatement, JesterStatement, JudgeStatement, KnitterStatement,
    LoverStatement, MediumStatement, OracleStatement, PlagueDoctorStatement, RoleStatement,
    ScoutStatement,
};
use demon_deduce::targets::to_bitvec;

fn no_corruption(n: usize) -> (Vec<bool>, Vec<usize>) {
    (vec![false; n], vec![0; n])
}

#[test]
fn bishop_truthful_composition() {
    let roles = vec![Role::Confessor, Role::Minion, Role::Drunk];
    let disguises = roles.clone();
    let (corr, cleared) = no_corruption(3);
    let s = RoleStatement::Bishop(BishopStatement {
        target_indexes: to_bitvec(&vec![0, 1, 2]),
    });
    assert!(can_produce_statement(
        Role::Bishop,
        false,
        &roles,
        &disguises,
        &corr,
        &cleared,
        0,
        &s
    ));
    // the lying Bishop names only Villagers; this set holds a Minion
    assert!(!can_produce_statement(
        Role::Bishop,
        true,
        &roles,
        &disguises,
        &corr,
        &cleared,
        0,
        &s
    ));
}

#[test]
fn empress_exactly_one_evil_of_three() {
    let roles = vec![Role::Confessor, Role::Confessor, Role::Minion];
    let disguises = roles.clone();
    let (corr, cleared) = no_corruption(3);
    let s = RoleStatement::Empress(EmpressStatement {
        target_indexes: to_bitvec(&vec![0, 1, 2]),
    });
    assert!(can_produce_statement(
        Role::Empress,
        false,
        &roles,
        &disguises,
        &corr,
        &cleared,
        0,
        &s
    ));
    assert!(!can_produce_statement(
        Role::Empress,
        true,
        &roles,
        &disguises,
        &corr,
        &cleared,
        0,
        &s
    ));
}

#[test]
fn jester_counts_evil_in_targets() {
    let roles = vec![Role::Jester, Role::Minion, Role::Witch, Role::Confessor];
    let disguises = roles.clone();
    let (corr, cleared) = no_corruption(4);
    let two = RoleStatement::Jester(JesterStatement {
        target_indexes: to_bitvec(&vec![1, 2, 3]),
        evil_count: 2,
    });
    let one = RoleStatement::Jester(JesterStatement {
        target_indexes: to_bitvec(&vec![1, 2, 3]),
        evil_count: 1,
    });
    assert!(can_produce_statement(
        Role::Jester,
        false,
        &roles,
        &disguises,
        &corr,
        &cleared,
        0,
        &two
    ));
    assert!(can_produce_statement(
        Role::Jester,
        true,
        &roles,
        &disguises,
        &corr,
        &cleared,
        0,
        &one
    ));
    assert!(!can_produce_statement(
        Role::Jester,
        true,
        &roles,
        &disguises,
        &corr,
        &cleared,
        0,
        &two
    ));
}

#[test]
fn knitter_counts_circular_pairs() {
    let roles = vec![Role::Minion, Role::Knitter, Role::Witch, Role::Poisoner];
    let disguises = roles.clone();
    let (corr, cleared) = no_corruption(4);
    // pairs (2,3) and the wrap-around (3,0)
    let s = RoleStatement::Knitter(KnitterStatement { adjacent_count: 2 });
    assert!(can_produce_statement(
        Role::Knitter,
        false,
        &roles,
        &disguises,
        &corr,
        &cleared,
        1,
        &s
    ));
}

#[test]
fn architect_compares_table_sides() {
    let roles = vec![Role::Confessor, Role::Minion, Role::Confessor, Role::Confessor];
    let disguises = roles.clone();
    let (corr, cleared) = no_corruption(4);
    let right = RoleStatement::Architect(ArchitectStatement::Right);
    let left = RoleStatement::Architect(ArchitectStatement::Left);
    assert!(can_produce_statement(
        Role::Architect,
        false,
        &roles,
        &disguises,
        &corr,
        &cleared,
        0,
        &right
    ));
    assert!(can_produce_statement(
        Role::Architect,
        true,
        &roles,
        &disguises,
        &corr,
        &cleared,
        0,
        &left
    ));
}

#[test]
fn bard_distance_to_corruption() {
    let roles = vec![Role::Bard, Role::Confessor, Role::Confessor];
    let disguises = roles.clone();
    let corr = vec![false, true, false];
    let cleared = vec![0, 0, 0];
    let one = RoleStatement::Bard(BardStatement { distance: Some(1) });
    let two = RoleStatement::Bard(BardStatement { distance: Some(2) });
    let three = RoleStatement::Bard(BardStatement { distance: Some(3) });
    let none = RoleStatement::Bard(BardStatement { distance: None });
    assert!(can_produce_statement(
        Role::Bard, false, &roles, &disguises, &corr, &cleared, 0, &one
    ));
    assert!(!can_produce_statement(
        Role::Bard, false, &roles, &disguises, &corr, &cleared, 0, &none
    ));
    assert!(can_produce_statement(
        Role::Bard, true, &roles, &disguises, &corr, &cleared, 0, &two
    ));
    // a lying distance must still lie within half the table
    assert!(!can_produce_statement(
        Role::Bard, true, &roles, &disguises, &corr, &cleared, 0, &three
    ));
    assert!(can_produce_statement(
        Role::Bard, true, &roles, &disguises, &corr, &cleared, 0, &none
    ));
}

#[test]
fn judge_spares_confessor_faces() {
    // the accused Minion lies, but shows a Confessor face, so the Judge's
    // rule does not call it a liar
    let roles = vec![Role::Judge, Role::Minion];
    let disguises = vec![Role::Judge, Role::Confessor];
    let (corr, cleared) = no_corruption(2);
    let truthy = RoleStatement::Judge(JudgeStatement {
        target_index: 1,
        is_lying: false,
    });
    let lying = RoleStatement::Judge(JudgeStatement {
        target_index: 1,
        is_lying: true,
    });
    assert!(can_produce_statement(
        Role::Judge, false, &roles, &disguises, &corr, &cleared, 0, &truthy
    ));
    assert!(!can_produce_statement(
        Role::Judge, false, &roles, &disguises, &corr, &cleared, 0, &lying
    ));
}

#[test]
fn medium_reads_truth_or_mirrors_disguise() {
    let roles = vec![Role::Medium, Role::Confessor, Role::Minion];
    let disguises = vec![Role::Medium, Role::Confessor, Role::Lover];
    let (corr, cleared) = no_corruption(3);
    let truth = RoleStatement::Medium(MediumStatement {
        target_index: 1,
        role: Role::Confessor,
    });
    assert!(can_produce_statement(
        Role::Medium, false, &roles, &disguises, &corr, &cleared, 0, &truth
    ));
    // the lying Medium names the disguise of a disguised seat
    let mirror = RoleStatement::Medium(MediumStatement {
        target_index: 2,
        role: Role::Lover,
    });
    assert!(can_produce_statement(
        Role::Medium, true, &roles, &disguises, &corr, &cleared, 0, &mirror
    ));
    let wrong = RoleStatement::Medium(MediumStatement {
        target_index: 2,
        role: Role::Minion,
    });
    assert!(!can_produce_statement(
        Role::Medium, true, &roles, &disguises, &corr, &cleared, 0, &wrong
    ));
}

#[test]
fn dreamer_names_good_or_exact_role() {
    let roles = vec![Role::Dreamer, Role::Minion];
    let disguises = roles.clone();
    let (corr, cleared) = no_corruption(2);
    let exact = RoleStatement::Dreamer(DreamerStatement {
        target_index: 1,
        role: Role::Minion,
    });
    let wrong = RoleStatement::Dreamer(DreamerStatement {
        target_index: 1,
        role: Role::Witch,
    });
    assert!(can_produce_statement(
        Role::Dreamer, false, &roles, &disguises, &corr, &cleared, 0, &exact
    ));
    assert!(!can_produce_statement(
        Role::Dreamer, false, &roles, &disguises, &corr, &cleared, 0, &wrong
    ));
    assert!(can_produce_statement(
        Role::Dreamer, true, &roles, &disguises, &corr, &cleared, 0, &wrong
    ));
}

#[test]
fn druid_spots_outcasts() {
    let roles = vec![Role::Druid, Role::Confessor, Role::Drunk];
    let disguises = roles.clone();
    let (corr, cleared) = no_corruption(3);
    let no_outcasts = RoleStatement::Druid(DruidStatement {
        target_indexes: to_bitvec(&vec![1, 2]),
        role: None,
    });
    // the Drunk is an Outcast, so "no Outcasts among them" is the lie
    assert!(!can_produce_statement(
        Role::Druid, false, &roles, &disguises, &corr, &cleared, 0, &no_outcasts
    ));
    assert!(can_produce_statement(
        Role::Druid, true, &roles, &disguises, &corr, &cleared, 0, &no_outcasts
    ));
    let named = RoleStatement::Druid(DruidStatement {
        target_indexes: to_bitvec(&vec![1, 2]),
        role: Some(Role::Drunk),
    });
    assert!(can_produce_statement(
        Role::Druid, false, &roles, &disguises, &corr, &cleared, 0, &named
    ));
}

#[test]
fn oracle_pairs_a_good_seat_with_a_role() {
    let roles = vec![Role::Confessor, Role::Minion];
    let disguises = roles.clone();
    let (corr, cleared) = no_corruption(2);
    let s = RoleStatement::Oracle(OracleStatement {
        target_indexes: to_bitvec(&vec![0, 1]),
        role: Role::Minion,
    });
    assert!(can_produce_statement(
        Role::Oracle, false, &roles, &disguises, &corr, &cleared, 0, &s
    ));
    // the lying Oracle only names all-Good pairs
    assert!(!can_produce_statement(
        Role::Oracle, true, &roles, &disguises, &corr, &cleared, 0, &s
    ));
}

#[test]
fn fortune_teller_detects_evil_in_pair() {
    let roles = vec![Role::FortuneTeller, Role::Minion, Role::Confessor];
    let disguises = roles.clone();
    let (corr, cleared) = no_corruption(3);
    let yes = RoleStatement::FortuneTeller(FortuneTellerStatement {
        target_indexes: to_bitvec(&vec![1, 2]),
        is_evil: true,
    });
    let no = RoleStatement::FortuneTeller(FortuneTellerStatement {
        target_indexes: to_bitvec(&vec![1, 2]),
        is_evil: false,
    });
    assert!(can_produce_statement(
        Role::FortuneTeller, false, &roles, &disguises, &corr, &cleared, 0, &yes
    ));
    assert!(can_produce_statement(
        Role::FortuneTeller, true, &roles, &disguises, &corr, &cleared, 0, &no
    ));
}

#[test]
fn scout_sole_evil_branch() {
    let roles = vec![Role::Scout, Role::Minion];
    let disguises = roles.clone();
    let (corr, cleared) = no_corruption(2);
    let sole = RoleStatement::Scout(ScoutStatement {
        role: None,
        distance: 0,
    });
    assert!(can_produce_statement(
        Role::Scout, false, &roles, &disguises, &corr, &cleared, 0, &sole
    ));
    assert!(!can_produce_statement(
        Role::Scout, true, &roles, &disguises, &corr, &cleared, 0, &sole
    ));
}

#[test]
fn plague_doctor_reads_corruption() {
    let roles = vec![Role::PlagueDoctor, Role::Minion];
    let disguises = roles.clone();
    let corr = vec![true, false];
    let cleared = vec![0, 0];
    let clean_claim = RoleStatement::PlagueDoctor(PlagueDoctorStatement {
        corruption_index: 0,
        evil_index: None,
    });
    assert!(!can_produce_statement(
        Role::PlagueDoctor, false, &roles, &disguises, &corr, &cleared, 1, &clean_claim
    ));
    assert!(can_produce_statement(
        Role::PlagueDoctor, true, &roles, &disguises, &corr, &cleared, 1, &clean_claim
    ));
    let full_claim = RoleStatement::PlagueDoctor(PlagueDoctorStatement {
        corruption_index: 0,
        evil_index: Some(1),
    });
    assert!(can_produce_statement(
        Role::PlagueDoctor, false, &roles, &disguises, &corr, &cleared, 1, &full_claim
    ));
}

#[test]
fn lover_lie_stays_plausible() {
    let roles = vec![Role::Lover, Role::Minion, Role::Confessor];
    let disguises = roles.clone();
    let (corr, cleared) = no_corruption(3);
    let zero = RoleStatement::Lover(LoverStatement { evil_count: 0 });
    let one = RoleStatement::Lover(LoverStatement { evil_count: 1 });
    let three = RoleStatement::Lover(LoverStatement { evil_count: 3 });
    assert!(can_produce_statement(
        Role::Lover, false, &roles, &disguises, &corr, &cleared, 0, &one
    ));
    assert!(can_produce_statement(
        Role::Lover, true, &roles, &disguises, &corr, &cleared, 0, &zero
    ));
    // a lying count above two neighbours is never claimed
    assert!(!can_produce_statement(
        Role::Lover, true, &roles, &disguises, &corr, &cleared, 0, &three
    ));
}
