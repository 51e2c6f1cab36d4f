use demon_deduce::geometry::{
    closest_corrupt_distance, closest_evil_direction, closest_evil_distance, count_evil_pairs,
    neighbor_indexes,
};
use demon_deduce::roles::{Alignment, Group, Role};
use demon_deduce::semantics::can_produce_statement;
use demon_deduce::statements::{
    statement_wf, ConfessorStatement, EnlightenedStatement, GemcrafterStatement, HunterStatement,
    LoverStatement, OracleStatement, RoleStatement, SlayerStatement,
};
use demon_deduce::targets::{to_bitvec, TargetIndexes};

#[test]
fn role_catalog_groups() {
    assert_eq!(Role::Confessor.group(), Group::Villager);
    assert_eq!(Role::Wretch.group(), Group::Outcast);
    assert_eq!(Role::Minion.group(), Group::Minion);
    assert_eq!(Role::Pooka.group(), Group::Demon);
}

#[test]
fn role_catalog_alignment() {
    assert_eq!(Role::Confessor.alignment(), Alignment::Good);
    assert_eq!(Role::Drunk.alignment(), Alignment::Good);
    assert_eq!(Role::Puppet.alignment(), Alignment::Evil);
    assert_eq!(Role::Baa.alignment(), Alignment::Evil);
}

#[test]
fn role_catalog_lying_exceptions() {
    // the Puppet is Evil but speaks truthfully; the Drunk is Good but lies
    assert!(!Role::Puppet.lying());
    assert!(Role::Drunk.lying());
    assert!(Role::Minion.lying());
    assert!(!Role::Confessor.lying());
}

#[test]
fn neighbor_indexes_wrap_around() {
    let n = neighbor_indexes(5, 0, 1);
    assert_eq!(n, vec![4, 1]);
    let n = neighbor_indexes(5, 4, 2);
    assert_eq!(n, vec![2, 1]);
    let n = neighbor_indexes(2, 1, 1);
    assert_eq!(n, vec![0, 0]);
}

#[test]
fn closest_evil_distance_finds_nearest_side() {
    let roles = vec![
        Role::Confessor,
        Role::Confessor,
        Role::Minion,
        Role::Confessor,
        Role::Confessor,
    ];
    assert_eq!(closest_evil_distance(&roles, 0), 2);
    assert_eq!(closest_evil_distance(&roles, 1), 1);
    assert_eq!(closest_evil_distance(&roles, 3), 1);
    assert_eq!(closest_evil_distance(&roles, 4), 2);
}

#[test]
fn closest_evil_distance_no_evil_returns_table_size() {
    let roles = vec![Role::Confessor, Role::Lover, Role::Knight];
    assert_eq!(closest_evil_distance(&roles, 0), 3);
    assert_eq!(closest_evil_distance(&roles, 1), 3);
}

#[test]
fn closest_evil_direction_no_evil_is_equidistant() {
    let roles = vec![Role::Confessor, Role::Lover, Role::Knight];
    assert_eq!(
        closest_evil_direction(&roles, 1),
        EnlightenedStatement::Equidistant
    );
}

#[test]
fn closest_evil_direction_picks_side() {
    let roles = vec![
        Role::Confessor,
        Role::Minion,
        Role::Confessor,
        Role::Confessor,
        Role::Confessor,
    ];
    assert_eq!(
        closest_evil_direction(&roles, 0),
        EnlightenedStatement::Clockwise
    );
    assert_eq!(
        closest_evil_direction(&roles, 2),
        EnlightenedStatement::CounterClockwise
    );
}

#[test]
fn count_evil_pairs_is_circular() {
    let roles = vec![Role::Minion, Role::Confessor, Role::Witch, Role::Minion];
    // adjacent pairs: (2,3) and the wrap-around pair (3,0)
    assert_eq!(count_evil_pairs(&roles), 2);
    let all_evil = vec![Role::Minion, Role::Witch, Role::Poisoner];
    assert_eq!(count_evil_pairs(&all_evil), 3);
    let two = vec![Role::Minion, Role::Witch];
    assert_eq!(count_evil_pairs(&two), 1);
}

#[test]
fn closest_corrupt_distance_cases() {
    let corr = vec![false, true, false, false];
    assert_eq!(closest_corrupt_distance(&corr, 0), Some(1));
    assert_eq!(closest_corrupt_distance(&corr, 3), Some(2));
    let clean = vec![false, false, false];
    assert_eq!(closest_corrupt_distance(&clean, 1), None);
}

#[test]
fn target_set_membership_and_count() {
    let t = to_bitvec(&vec![0, 2, 5]);
    assert!(t.has(0));
    assert!(!t.has(1));
    assert!(t.has(2));
    assert!(t.has(5));
    assert_eq!(t.count(), 3);
    // set equality is a single word compare, order of insertion irrelevant
    let u = to_bitvec(&vec![5, 0, 2]);
    assert_eq!(t, u);
    assert_eq!(TargetIndexes::empty().count(), 0);
}

#[test]
fn statement_wf_rejects_out_of_range_targets() {
    let s = RoleStatement::Gemcrafter(GemcrafterStatement { target_index: 7 });
    assert!(statement_wf(&s, 3));
    let s = RoleStatement::Judge(demon_deduce::statements::JudgeStatement {
        target_index: 7,
        is_lying: false,
    });
    assert!(!statement_wf(&s, 3));
    let s = RoleStatement::Oracle(OracleStatement {
        target_indexes: to_bitvec(&vec![1]),
        role: Role::Confessor,
    });
    // an Oracle statement must name two seats
    assert!(!statement_wf(&s, 3));
    let s = RoleStatement::Oracle(OracleStatement {
        target_indexes: to_bitvec(&vec![0, 1]),
        role: Role::Confessor,
    });
    assert!(statement_wf(&s, 3));
}

#[test]
fn confessor_branches() {
    let roles = vec![Role::Confessor, Role::Minion];
    let disguises = vec![Role::Confessor, Role::Confessor];
    let corr = vec![false, false];
    let cleared = vec![0, 0];
    let good = RoleStatement::Confessor(ConfessorStatement::IAmGood);
    let dizzy = RoleStatement::Confessor(ConfessorStatement::IAmDizzy);
    assert!(can_produce_statement(
        Role::Confessor,
        false,
        &roles,
        &disguises,
        &corr,
        &cleared,
        0,
        &good
    ));
    assert!(!can_produce_statement(
        Role::Confessor,
        false,
        &roles,
        &disguises,
        &corr,
        &cleared,
        0,
        &dizzy
    ));
    assert!(can_produce_statement(
        Role::Confessor,
        true,
        &roles,
        &disguises,
        &corr,
        &cleared,
        1,
        &dizzy
    ));
    assert!(!can_produce_statement(
        Role::Confessor,
        true,
        &roles,
        &disguises,
        &corr,
        &cleared,
        1,
        &good
    ));
}

#[test]
fn slayer_always_lies_good() {
    let roles = vec![Role::Slayer, Role::Minion];
    let disguises = vec![Role::Slayer, Role::Slayer];
    let corr = vec![false, false];
    let cleared = vec![0, 0];
    let says_evil = RoleStatement::Slayer(SlayerStatement {
        target_index: 1,
        alignment: Alignment::Evil,
    });
    let says_good = RoleStatement::Slayer(SlayerStatement {
        target_index: 1,
        alignment: Alignment::Good,
    });
    assert!(can_produce_statement(
        Role::Slayer,
        false,
        &roles,
        &disguises,
        &corr,
        &cleared,
        0,
        &says_evil
    ));
    // the Slayer's lie is always "Good", even of an Evil seat
    assert!(can_produce_statement(
        Role::Slayer,
        true,
        &roles,
        &disguises,
        &corr,
        &cleared,
        0,
        &says_good
    ));
    assert!(!can_produce_statement(
        Role::Slayer,
        true,
        &roles,
        &disguises,
        &corr,
        &cleared,
        0,
        &says_evil
    ));
}

#[test]
fn hunter_distance_exact() {
    let roles = vec![
        Role::Hunter,
        Role::Confessor,
        Role::Minion,
        Role::Confessor,
    ];
    let disguises = roles.clone();
    let corr = vec![false; 4];
    let cleared = vec![0; 4];
    let right = RoleStatement::Hunter(HunterStatement { distance: 2 });
    let wrong = RoleStatement::Hunter(HunterStatement { distance: 1 });
    assert!(can_produce_statement(
        Role::Hunter,
        false,
        &roles,
        &disguises,
        &corr,
        &cleared,
        0,
        &right
    ));
    assert!(!can_produce_statement(
        Role::Hunter,
        false,
        &roles,
        &disguises,
        &corr,
        &cleared,
        0,
        &wrong
    ));
    assert!(can_produce_statement(
        Role::Hunter,
        true,
        &roles,
        &disguises,
        &corr,
        &cleared,
        0,
        &wrong
    ));
}

#[test]
fn silent_roles_accept_only_no_statement() {
    let roles = vec![Role::Knight, Role::Minion];
    let disguises = vec![Role::Knight, Role::Knight];
    let corr = vec![false, false];
    let cleared = vec![0, 0];
    assert!(can_produce_statement(
        Role::Knight,
        false,
        &roles,
        &disguises,
        &corr,
        &cleared,
        0,
        &RoleStatement::NoStatement
    ));
    assert!(!can_produce_statement(
        Role::Knight,
        false,
        &roles,
        &disguises,
        &corr,
        &cleared,
        0,
        &RoleStatement::Confessor(ConfessorStatement::IAmGood)
    ));
    assert!(can_produce_statement(
        Role::Baker,
        true,
        &roles,
        &disguises,
        &corr,
        &cleared,
        0,
        &RoleStatement::NoStatement
    ));
}

#[test]
fn lover_counts_coinciding_neighbour_once() {
    // on a two-seat table both offset-1 neighbours are the same seat: the
    // neighbours form a set, so the lone Evil neighbour counts once
    let roles = vec![Role::Lover, Role::Minion];
    let disguises = vec![Role::Lover, Role::Lover];
    let corr = vec![false, false];
    let cleared = vec![0, 0];
    let one = RoleStatement::Lover(LoverStatement { evil_count: 1 });
    let two = RoleStatement::Lover(LoverStatement { evil_count: 2 });
    assert!(can_produce_statement(
        Role::Lover, false, &roles, &disguises, &corr, &cleared, 0, &one
    ));
    assert!(!can_produce_statement(
        Role::Lover, false, &roles, &disguises, &corr, &cleared, 0, &two
    ));
}
