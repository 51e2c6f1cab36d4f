//! The statement semantics: for a fully resolved world, whether a seat
//! speaking as its visible role could produce an observed statement, on its
//! truthful branch or on its role-specific lying branch.

use vstd::prelude::*;

use crate::geometry::{
    closest_corrupt_distance, closest_evil_distance, closest_evil_direction, count_evil,
    count_evil_pairs, count_neighbor_evil, count_side_evils, spec_closest_corrupt_distance,
    spec_closest_evil_direction, spec_closest_evil_distance, spec_count_evil,
    spec_count_evil_pairs, spec_neighbor_evil_count, spec_side_evils,
};
use crate::roles::{Alignment, Group, Role};
use crate::statements::{
    spec_stmt_wf, AlchemistStatement, BardStatement, BishopStatement, ConfessorStatement,
    DreamerStatement, DruidStatement, EmpressStatement, EnlightenedStatement,
    FortuneTellerStatement, GemcrafterStatement, HunterStatement, JesterStatement, JudgeStatement,
    KnitterStatement, LoverStatement, MediumStatement, OracleStatement, PlagueDoctorStatement,
    RoleStatement, ScoutStatement, SlayerStatement,
};
use crate::targets::TargetIndexes;

verus! {

/// The number of targeted seats below index `k` whose true role is Evil.
pub open spec fn spec_targets_evil_upto(s: Seq<Role>, t: TargetIndexes, k: int) -> int
    decreases k,
{
    if k <= 0 {
        0
    } else {
        spec_targets_evil_upto(s, t, k - 1) + if t.spec_has(k - 1) && s[k - 1].spec_is_evil() {
            1int
        } else {
            0int
        }
    }
}

/// The number of targeted seats whose true role is Evil.
pub open spec fn spec_targets_evil(s: Seq<Role>, t: TargetIndexes) -> int {
    spec_targets_evil_upto(s, t, 16)
}

/// The number of targeted seats below index `k` whose true role belongs to
/// group `g`.
pub open spec fn spec_targets_group_upto(s: Seq<Role>, t: TargetIndexes, g: Group, k: int) -> int
    decreases k,
{
    if k <= 0 {
        0
    } else {
        spec_targets_group_upto(s, t, g, k - 1) + if t.spec_has(k - 1) && s[k - 1].spec_group()
            == g {
            1int
        } else {
            0int
        }
    }
}

/// The number of targeted seats whose true role belongs to group `g`.
pub open spec fn spec_targets_group(s: Seq<Role>, t: TargetIndexes, g: Group) -> int {
    spec_targets_group_upto(s, t, g, 16)
}

/// The number of targeted seats below index `k` whose true role is `r0`.
pub open spec fn spec_targets_role_upto(s: Seq<Role>, t: TargetIndexes, r0: Role, k: int) -> int
    decreases k,
{
    if k <= 0 {
        0
    } else {
        spec_targets_role_upto(s, t, r0, k - 1) + if t.spec_has(k - 1) && s[k - 1] == r0 {
            1int
        } else {
            0int
        }
    }
}

/// The number of targeted seats whose true role is `r0`.
pub open spec fn spec_targets_role(s: Seq<Role>, t: TargetIndexes, r0: Role) -> int {
    spec_targets_role_upto(s, t, r0, 16)
}

/// The smallest member of the target set at or after `k`; 16 when there is
/// none.
pub open spec fn spec_min_member_from(t: TargetIndexes, k: int) -> int
    decreases 16 - k,
{
    if k >= 16 {
        16
    } else if t.spec_has(k) {
        k
    } else {
        spec_min_member_from(t, k + 1)
    }
}

/// Counts the targeted seats whose true role is Evil.
pub fn count_targets_evil(roles: &Vec<Role>, t: &TargetIndexes) -> (r: usize)
    requires
        t.wf(roles@.len() as int),
    ensures
        r == spec_targets_evil(roles@, *t),
{
    let mut r: usize = 0;
    let mut i: usize = 0;
    while i < 16
        invariant
            i <= 16,
            t.wf(roles@.len() as int),
            r == spec_targets_evil_upto(roles@, *t, i as int),
            r <= i,
        decreases 16 - i,
    {
        if t.has(i) {
            proof {
                assert(t.spec_has(i as int));
            }
            if roles[i].is_evil() {
                r = r + 1;
            }
        }
        i = i + 1;
    }
    r
}

/// Counts the targeted seats whose true role belongs to group `g`.
pub fn count_targets_group(roles: &Vec<Role>, t: &TargetIndexes, g: Group) -> (r: usize)
    requires
        t.wf(roles@.len() as int),
    ensures
        r == spec_targets_group(roles@, *t, g),
{
    let mut r: usize = 0;
    let mut i: usize = 0;
    while i < 16
        invariant
            i <= 16,
            t.wf(roles@.len() as int),
            r == spec_targets_group_upto(roles@, *t, g, i as int),
            r <= i,
        decreases 16 - i,
    {
        if t.has(i) {
            proof {
                assert(t.spec_has(i as int));
            }
            if roles[i].group() == g {
                r = r + 1;
            }
        }
        i = i + 1;
    }
    r
}

/// Counts the targeted seats whose true role is `r0`.
pub fn count_targets_role(roles: &Vec<Role>, t: &TargetIndexes, r0: Role) -> (r: usize)
    requires
        t.wf(roles@.len() as int),
    ensures
        r == spec_targets_role(roles@, *t, r0),
{
    let mut r: usize = 0;
    let mut i: usize = 0;
    while i < 16
        invariant
            i <= 16,
            t.wf(roles@.len() as int),
            r == spec_targets_role_upto(roles@, *t, r0, i as int),
            r <= i,
        decreases 16 - i,
    {
        if t.has(i) {
            proof {
                assert(t.spec_has(i as int));
            }
            if roles[i] == r0 {
                r = r + 1;
            }
        }
        i = i + 1;
    }
    r
}

/// A set with no member below `k` has a zero partial count up to `k`.
proof fn lemma_count_upto_zero(t: TargetIndexes, k: int)
    requires
        forall|j: int| 0 <= j < k ==> !t.spec_has(j),
    ensures
        t.spec_count_upto(k) == 0,
    decreases k,
{
    if k > 0 {
        lemma_count_upto_zero(t, k - 1);
    }
}

/// A set with no member at or after `k` gains nothing past `k`.
proof fn lemma_count_tail_none(t: TargetIndexes, k: int)
    requires
        0 <= k <= 16,
        forall|j: int| k <= j < 16 ==> !t.spec_has(j),
    ensures
        t.spec_count_upto(16) == t.spec_count_upto(k),
    decreases 16 - k,
{
    if k < 16 {
        lemma_count_tail_none(t, k + 1);
    }
}

/// Finds the two smallest members of a target set.
fn first_two_targets(t: &TargetIndexes) -> (r: (usize, usize))
    requires
        t.spec_count() >= 2,
    ensures
        r.0 < 16,
        r.1 < 16,
        r.0 as int == spec_min_member_from(*t, 0),
        r.1 as int == spec_min_member_from(*t, r.0 as int + 1),
        t.spec_has(r.0 as int),
        t.spec_has(r.1 as int),
{
    let mut a: usize = 0;
    while a < 16 && !t.has(a)
        invariant
            a <= 16,
            spec_min_member_from(*t, 0) == spec_min_member_from(*t, a as int),
            forall|j: int| 0 <= j < a ==> !t.spec_has(j),
        decreases 16 - a,
    {
        a = a + 1;
    }
    if a == 16 {
        // unreachable: the set has at least two members
        proof {
            lemma_count_upto_zero(*t, 16);
            assert(false);
        }
    }
    let mut b: usize = a + 1;
    while b < 16 && !t.has(b)
        invariant
            a < 16,
            a < b <= 16,
            t.spec_has(a as int),
            spec_min_member_from(*t, a as int + 1) == spec_min_member_from(*t, b as int),
            forall|j: int| 0 <= j < a ==> !t.spec_has(j),
            forall|j: int| a < j < b ==> !t.spec_has(j),
        decreases 16 - b,
    {
        b = b + 1;
    }
    if b == 16 {
        // unreachable: a second member must exist
        proof {
            lemma_count_upto_zero(*t, a as int);
            assert(t.spec_count_upto(a as int + 1) == 1);
            lemma_count_tail_none(*t, a as int + 1);
            assert(false);
        }
    }
    (a, b)
}

/// Whether some seat holds the Evil role `r0` at exactly distance `d` from
/// its own closest Evil.
pub open spec fn spec_scout_witness(s: Seq<Role>, r0: Role, d: int) -> bool {
    exists|j: int|
        0 <= j < s.len() && s[j] == r0 && s[j].spec_is_evil() && spec_closest_evil_distance(s, j)
            == d
}

/// Searches for a seat holding the Evil role `r0` at exactly distance `d`
/// from its own closest Evil.
fn scout_witness(roles: &Vec<Role>, r0: Role, d: usize) -> (r: bool)
    requires
        0 < roles@.len() < usize::MAX,
    ensures
        r == spec_scout_witness(roles@, r0, d as int),
{
    let mut j: usize = 0;
    while j < roles.len()
        invariant
            j <= roles@.len(),
            0 < roles@.len() < usize::MAX,
            forall|j2: int|
                0 <= j2 < j ==> !(roles@[j2] == r0 && roles@[j2].spec_is_evil()
                    && spec_closest_evil_distance(roles@, j2) == d as int),
        decreases roles@.len() - j,
    {
        if roles[j] == r0 && roles[j].is_evil() {
            let cd = closest_evil_distance(roles, j);
            if cd == d {
                return true;
            }
        }
        j = j + 1;
    }
    false
}

/// Whether a seat showing `visible_role` could produce `statement` in the
/// world described by the other arguments: `is_lying` selects the truthful
/// or the role-specific lying branch, `true_roles` are the dealt roles,
/// `disguised_roles` the shown faces, `corruptions` the per-seat corruption
/// flags after Alchemist clearing, `cleared_counts` the number of
/// corruptions each seat's Alchemist cleared, and `position` the speaker's
/// seat. Roles with no statement of their own accept exactly `NoStatement`
/// on either branch.
pub open spec fn spec_produce_alchemist(
    is_lying: bool,
    cleared: Seq<usize>,
    position: int,
    statement: RoleStatement,
) -> bool {
    statement matches RoleStatement::Alchemist(a) && (if is_lying {
        a.corrupt_count != 0
    } else {
        a.corrupt_count == cleared[position]
    })
}

pub open spec fn spec_produce_architect(is_lying: bool, s: Seq<Role>, statement: RoleStatement) -> bool {
    if is_lying {
        !(statement == RoleStatement::Architect(spec_side_evils(s)))
    } else {
        statement == RoleStatement::Architect(spec_side_evils(s))
    }
}

pub open spec fn spec_produce_bard(
    is_lying: bool,
    n: int,
    corr: Seq<bool>,
    position: int,
    statement: RoleStatement,
) -> bool {
    statement matches RoleStatement::Bard(b) && (match b.distance {
        Some(sd) => if is_lying {
            !(spec_closest_corrupt_distance(corr, position) == Some(sd as int)) && sd as int <= (n
                + 1) / 2
        } else {
            spec_closest_corrupt_distance(corr, position) == Some(sd as int)
        },
        None => if is_lying {
            spec_closest_corrupt_distance(corr, position) is Some
        } else {
            spec_closest_corrupt_distance(corr, position) is None
        },
    })
}

pub open spec fn spec_produce_bishop(is_lying: bool, s: Seq<Role>, statement: RoleStatement) -> bool {
    statement matches RoleStatement::Bishop(b) && (if is_lying {
        spec_targets_group(s, b.target_indexes, Group::Villager) == b.target_indexes.spec_count()
    } else {
        spec_targets_group(s, b.target_indexes, Group::Villager) == 1 && spec_targets_group(
            s,
            b.target_indexes,
            Group::Minion,
        ) == 1 && spec_targets_group(s, b.target_indexes, Group::Outcast) <= 1
            && spec_targets_group(s, b.target_indexes, Group::Demon) == 0
    })
}

pub open spec fn spec_produce_confessor(is_lying: bool, statement: RoleStatement) -> bool {
    if is_lying {
        statement matches RoleStatement::Confessor(c) && c is IAmDizzy
    } else {
        statement matches RoleStatement::Confessor(c) && c is IAmGood
    }
}

pub open spec fn spec_produce_dreamer(is_lying: bool, s: Seq<Role>, statement: RoleStatement) -> bool {
    statement matches RoleStatement::Dreamer(d) && {
        let found = s[d.target_index as int];
        if is_lying {
            !found.spec_is_evil() || found != d.role
        } else {
            !found.spec_is_evil() || found == d.role
        }
    }
}

pub open spec fn spec_produce_druid(is_lying: bool, s: Seq<Role>, statement: RoleStatement) -> bool {
    statement matches RoleStatement::Druid(d) && (match d.role {
        Some(r0) => if is_lying {
            spec_targets_role(s, d.target_indexes, r0) == 0
        } else {
            spec_targets_role(s, d.target_indexes, r0) > 0
        },
        None => if is_lying {
            spec_targets_group(s, d.target_indexes, Group::Outcast) > 0
        } else {
            spec_targets_group(s, d.target_indexes, Group::Outcast) == 0
        },
    })
}

pub open spec fn spec_produce_empress(is_lying: bool, s: Seq<Role>, statement: RoleStatement) -> bool {
    statement matches RoleStatement::Empress(e) && (if is_lying {
        spec_targets_evil(s, e.target_indexes) == 0
    } else {
        spec_targets_evil(s, e.target_indexes) == 1 && e.target_indexes.spec_count() == 3
    })
}

pub open spec fn spec_produce_enlightened(
    is_lying: bool,
    s: Seq<Role>,
    position: int,
    statement: RoleStatement,
) -> bool {
    statement matches RoleStatement::Enlightened(e) && (if is_lying {
        e != spec_closest_evil_direction(s, position)
    } else {
        e == spec_closest_evil_direction(s, position)
    })
}

pub open spec fn spec_produce_fortune_teller(
    is_lying: bool,
    s: Seq<Role>,
    statement: RoleStatement,
) -> bool {
    statement matches RoleStatement::FortuneTeller(f) && (if is_lying {
        (spec_targets_evil(s, f.target_indexes) > 0) != f.is_evil
    } else {
        (spec_targets_evil(s, f.target_indexes) > 0) == f.is_evil
    })
}

pub open spec fn spec_produce_gemcrafter(is_lying: bool, s: Seq<Role>, statement: RoleStatement) -> bool {
    statement matches RoleStatement::Gemcrafter(g) && (g.target_index as int) < s.len() && (
    if is_lying {
        s[g.target_index as int].spec_is_evil()
    } else {
        !s[g.target_index as int].spec_is_evil()
    })
}

pub open spec fn spec_produce_hunter(
    is_lying: bool,
    s: Seq<Role>,
    position: int,
    statement: RoleStatement,
) -> bool {
    statement matches RoleStatement::Hunter(h) && (if is_lying {
        h.distance as int != spec_closest_evil_distance(s, position)
    } else {
        h.distance as int == spec_closest_evil_distance(s, position)
    })
}

pub open spec fn spec_produce_jester(is_lying: bool, s: Seq<Role>, statement: RoleStatement) -> bool {
    statement matches RoleStatement::Jester(j) && (if is_lying {
        j.evil_count as int != spec_targets_evil(s, j.target_indexes)
    } else {
        j.evil_count as int == spec_targets_evil(s, j.target_indexes)
    })
}

pub open spec fn spec_produce_judge(
    is_lying: bool,
    s: Seq<Role>,
    dis: Seq<Role>,
    corr: Seq<bool>,
    statement: RoleStatement,
) -> bool {
    statement matches RoleStatement::Judge(j) && {
        let accused_lies = (s[j.target_index as int].spec_lying() || corr[j.target_index as int])
            && dis[j.target_index as int] != Role::Confessor;
        if is_lying {
            j.is_lying != accused_lies
        } else {
            j.is_lying == accused_lies
        }
    }
}

pub open spec fn spec_produce_knitter(is_lying: bool, s: Seq<Role>, statement: RoleStatement) -> bool {
    statement matches RoleStatement::Knitter(k) && (if is_lying {
        k.adjacent_count as int != spec_count_evil_pairs(s)
    } else {
        k.adjacent_count as int == spec_count_evil_pairs(s)
    })
}

pub open spec fn spec_produce_lover(
    is_lying: bool,
    s: Seq<Role>,
    position: int,
    statement: RoleStatement,
) -> bool {
    statement matches RoleStatement::Lover(l) && (if is_lying {
        l.evil_count as int != spec_neighbor_evil_count(s, position, 1) && l.evil_count <= 2
    } else {
        l.evil_count as int == spec_neighbor_evil_count(s, position, 1)
    })
}

pub open spec fn spec_produce_medium(
    is_lying: bool,
    s: Seq<Role>,
    dis: Seq<Role>,
    position: int,
    statement: RoleStatement,
) -> bool {
    statement matches RoleStatement::Medium(m) && (if is_lying {
        s[m.target_index as int] != dis[m.target_index as int] && m.role == dis[
            m.target_index as int
        ]
    } else {
        m.target_index as int != position && !s[m.target_index as int].spec_is_evil() && m.role
            == s[m.target_index as int]
    })
}

pub open spec fn spec_produce_oracle(is_lying: bool, s: Seq<Role>, statement: RoleStatement) -> bool {
    statement matches RoleStatement::Oracle(o) && (if is_lying {
        spec_targets_evil(s, o.target_indexes) == 0
    } else {
        let a = spec_min_member_from(o.target_indexes, 0);
        let b = spec_min_member_from(o.target_indexes, a + 1);
        (!s[a].spec_is_evil() && s[b] == o.role) || (!s[b].spec_is_evil() && s[a] == o.role)
    })
}

pub open spec fn spec_produce_scout(is_lying: bool, s: Seq<Role>, statement: RoleStatement) -> bool {
    statement matches RoleStatement::Scout(sc) && (match sc.role {
        Some(r0) => if is_lying {
            spec_count_evil(s) == 1 || !spec_scout_witness(s, r0, sc.distance as int)
        } else {
            spec_count_evil(s) != 1 && spec_scout_witness(s, r0, sc.distance as int)
        },
        None => if is_lying {
            spec_count_evil(s) != 1
        } else {
            spec_count_evil(s) == 1
        },
    })
}

pub open spec fn spec_produce_slayer(is_lying: bool, s: Seq<Role>, statement: RoleStatement) -> bool {
    statement matches RoleStatement::Slayer(sl) && (sl.target_index as int) < s.len() && (
    if is_lying {
        sl.alignment == Alignment::Good
    } else {
        sl.alignment == s[sl.target_index as int].spec_alignment()
    })
}

pub open spec fn spec_produce_plague_doctor(
    is_lying: bool,
    s: Seq<Role>,
    corr: Seq<bool>,
    position: int,
    statement: RoleStatement,
) -> bool {
    statement matches RoleStatement::PlagueDoctor(p) && (match p.evil_index {
        Some(e) => if is_lying {
            !corr[p.corruption_index as int] && !s[e as int].spec_is_evil()
        } else {
            corr[p.corruption_index as int] && s[e as int].spec_is_evil()
        },
        None => if is_lying {
            corr[p.corruption_index as int] || p.corruption_index as int == position
        } else {
            !corr[p.corruption_index as int]
        },
    })
}

pub open spec fn spec_can_produce(
    visible_role: Role,
    is_lying: bool,
    s: Seq<Role>,
    dis: Seq<Role>,
    corr: Seq<bool>,
    cleared: Seq<usize>,
    position: int,
    statement: RoleStatement,
) -> bool {
    match visible_role {
        Role::Alchemist => spec_produce_alchemist(is_lying, cleared, position, statement),
        Role::Architect => spec_produce_architect(is_lying, s, statement),
        Role::Bard => spec_produce_bard(is_lying, s.len() as int, corr, position, statement),
        Role::Bishop => spec_produce_bishop(is_lying, s, statement),
        Role::Confessor => spec_produce_confessor(is_lying, statement),
        Role::Dreamer => spec_produce_dreamer(is_lying, s, statement),
        Role::Druid => spec_produce_druid(is_lying, s, statement),
        Role::Empress => spec_produce_empress(is_lying, s, statement),
        Role::Enlightened => spec_produce_enlightened(is_lying, s, position, statement),
        Role::FortuneTeller => spec_produce_fortune_teller(is_lying, s, statement),
        Role::Gemcrafter => spec_produce_gemcrafter(is_lying, s, statement),
        Role::Hunter => spec_produce_hunter(is_lying, s, position, statement),
        Role::Jester => spec_produce_jester(is_lying, s, statement),
        Role::Judge => spec_produce_judge(is_lying, s, dis, corr, statement),
        Role::Knitter => spec_produce_knitter(is_lying, s, statement),
        Role::Lover => spec_produce_lover(is_lying, s, position, statement),
        Role::Medium => spec_produce_medium(is_lying, s, dis, position, statement),
        Role::Oracle => spec_produce_oracle(is_lying, s, statement),
        Role::Scout => spec_produce_scout(is_lying, s, statement),
        Role::Slayer => spec_produce_slayer(is_lying, s, statement),
        Role::PlagueDoctor => spec_produce_plague_doctor(is_lying, s, corr, position, statement),
        _ => statement is NoStatement,
    }
}

fn produce_alchemist(
    is_lying: bool,
    drunk_uncorruptions: &Vec<usize>,
    position: usize,
    a: &AlchemistStatement,
) -> (r: bool)
    requires
        position < drunk_uncorruptions@.len(),
    ensures
        r == spec_produce_alchemist(
            is_lying,
            drunk_uncorruptions@,
            position as int,
            RoleStatement::Alchemist(*a),
        ),
{
    if is_lying {
        a.corrupt_count != 0
    } else {
        a.corrupt_count == drunk_uncorruptions[position]
    }
}

fn produce_architect(is_lying: bool, true_roles: &Vec<Role>, statement: &RoleStatement) -> (r: bool)
    requires
        statement matches RoleStatement::Architect(_) ==> true_roles@.len() >= 2,
    ensures
        r == spec_produce_architect(is_lying, true_roles@, *statement),
{
    match statement {
        RoleStatement::Architect(x) => {
            let truth = count_side_evils(true_roles);
            if is_lying {
                !(*x == truth)
            } else {
                *x == truth
            }
        },
        _ => is_lying,
    }
}

fn produce_bard(
    is_lying: bool,
    corruptions: &Vec<bool>,
    position: usize,
    b: &BardStatement,
) -> (r: bool)
    requires
        0 < corruptions@.len() < usize::MAX,
        position < corruptions@.len(),
    ensures
        r == spec_produce_bard(
            is_lying,
            corruptions@.len() as int,
            corruptions@,
            position as int,
            RoleStatement::Bard(*b),
        ),
{
    let n = corruptions.len();
    let closest = closest_corrupt_distance(corruptions, position);
    match b.distance {
        Some(sd) => {
            let hit = match closest {
                Some(cd) => cd == sd,
                None => false,
            };
            if is_lying {
                !hit && sd <= (n + 1) / 2
            } else {
                hit
            }
        },
        None => {
            let some = match closest {
                Some(_) => true,
                None => false,
            };
            if is_lying {
                some
            } else {
                !some
            }
        },
    }
}

fn produce_bishop(is_lying: bool, true_roles: &Vec<Role>, b: &BishopStatement) -> (r: bool)
    requires
        b.target_indexes.wf(true_roles@.len() as int),
    ensures
        r == spec_produce_bishop(is_lying, true_roles@, RoleStatement::Bishop(*b)),
{
    if is_lying {
        count_targets_group(true_roles, &b.target_indexes, Group::Villager)
            == b.target_indexes.count()
    } else {
        let v = count_targets_group(true_roles, &b.target_indexes, Group::Villager);
        let m = count_targets_group(true_roles, &b.target_indexes, Group::Minion);
        let o = count_targets_group(true_roles, &b.target_indexes, Group::Outcast);
        let d = count_targets_group(true_roles, &b.target_indexes, Group::Demon);
        v == 1 && m == 1 && o <= 1 && d == 0
    }
}

fn produce_confessor(is_lying: bool, c: &ConfessorStatement) -> (r: bool)
    ensures
        r == spec_produce_confessor(is_lying, RoleStatement::Confessor(*c)),
{
    match c {
        ConfessorStatement::IAmGood => !is_lying,
        ConfessorStatement::IAmDizzy => is_lying,
    }
}

fn produce_dreamer(is_lying: bool, true_roles: &Vec<Role>, d: &DreamerStatement) -> (r: bool)
    requires
        d.target_index < true_roles@.len(),
    ensures
        r == spec_produce_dreamer(is_lying, true_roles@, RoleStatement::Dreamer(*d)),
{
    let found = true_roles[d.target_index];
    if is_lying {
        !found.is_evil() || !(found == d.role)
    } else {
        !found.is_evil() || found == d.role
    }
}

fn produce_druid(is_lying: bool, true_roles: &Vec<Role>, d: &DruidStatement) -> (r: bool)
    requires
        d.target_indexes.wf(true_roles@.len() as int),
    ensures
        r == spec_produce_druid(is_lying, true_roles@, RoleStatement::Druid(*d)),
{
    match d.role {
        Some(r0) => {
            let c = count_targets_role(true_roles, &d.target_indexes, r0);
            if is_lying {
                c == 0
            } else {
                c > 0
            }
        },
        None => {
            let c = count_targets_group(true_roles, &d.target_indexes, Group::Outcast);
            if is_lying {
                c > 0
            } else {
                c == 0
            }
        },
    }
}

fn produce_empress(is_lying: bool, true_roles: &Vec<Role>, e: &EmpressStatement) -> (r: bool)
    requires
        e.target_indexes.wf(true_roles@.len() as int),
    ensures
        r == spec_produce_empress(is_lying, true_roles@, RoleStatement::Empress(*e)),
{
    let evil = count_targets_evil(true_roles, &e.target_indexes);
    if is_lying {
        evil == 0
    } else {
        evil == 1 && e.target_indexes.count() == 3
    }
}

fn produce_enlightened(
    is_lying: bool,
    true_roles: &Vec<Role>,
    position: usize,
    e: &EnlightenedStatement,
) -> (r: bool)
    requires
        0 < true_roles@.len() < usize::MAX,
        position < true_roles@.len(),
    ensures
        r == spec_produce_enlightened(
            is_lying,
            true_roles@,
            position as int,
            RoleStatement::Enlightened(*e),
        ),
{
    let truth = closest_evil_direction(true_roles, position);
    if is_lying {
        !(*e == truth)
    } else {
        *e == truth
    }
}

fn produce_fortune_teller(
    is_lying: bool,
    true_roles: &Vec<Role>,
    f: &FortuneTellerStatement,
) -> (r: bool)
    requires
        f.target_indexes.wf(true_roles@.len() as int),
    ensures
        r == spec_produce_fortune_teller(is_lying, true_roles@, RoleStatement::FortuneTeller(*f)),
{
    let any_evil = count_targets_evil(true_roles, &f.target_indexes) > 0;
    if is_lying {
        any_evil != f.is_evil
    } else {
        any_evil == f.is_evil
    }
}

fn produce_gemcrafter(is_lying: bool, true_roles: &Vec<Role>, g: &GemcrafterStatement) -> (r: bool)
    ensures
        r == spec_produce_gemcrafter(is_lying, true_roles@, RoleStatement::Gemcrafter(*g)),
{
    g.target_index < true_roles.len() && (if is_lying {
        true_roles[g.target_index].is_evil()
    } else {
        !true_roles[g.target_index].is_evil()
    })
}

fn produce_hunter(
    is_lying: bool,
    true_roles: &Vec<Role>,
    position: usize,
    h: &HunterStatement,
) -> (r: bool)
    requires
        0 < true_roles@.len() < usize::MAX,
        position < true_roles@.len(),
    ensures
        r == spec_produce_hunter(is_lying, true_roles@, position as int, RoleStatement::Hunter(*h)),
{
    let truth = closest_evil_distance(true_roles, position);
    if is_lying {
        h.distance != truth
    } else {
        h.distance == truth
    }
}

fn produce_jester(is_lying: bool, true_roles: &Vec<Role>, j: &JesterStatement) -> (r: bool)
    requires
        j.target_indexes.wf(true_roles@.len() as int),
    ensures
        r == spec_produce_jester(is_lying, true_roles@, RoleStatement::Jester(*j)),
{
    let evil = count_targets_evil(true_roles, &j.target_indexes);
    if is_lying {
        j.evil_count != evil
    } else {
        j.evil_count == evil
    }
}

fn produce_judge(
    is_lying: bool,
    true_roles: &Vec<Role>,
    disguised_roles: &Vec<Role>,
    corruptions: &Vec<bool>,
    j: &JudgeStatement,
) -> (r: bool)
    requires
        j.target_index < true_roles@.len(),
        disguised_roles@.len() == true_roles@.len(),
        corruptions@.len() == true_roles@.len(),
    ensures
        r == spec_produce_judge(
            is_lying,
            true_roles@,
            disguised_roles@,
            corruptions@,
            RoleStatement::Judge(*j),
        ),
{
    let accused_lies = (true_roles[j.target_index].lying() || corruptions[j.target_index]) && !(
    disguised_roles[j.target_index] == Role::Confessor);
    if is_lying {
        j.is_lying != accused_lies
    } else {
        j.is_lying == accused_lies
    }
}

fn produce_knitter(is_lying: bool, true_roles: &Vec<Role>, k: &KnitterStatement) -> (r: bool)
    ensures
        r == spec_produce_knitter(is_lying, true_roles@, RoleStatement::Knitter(*k)),
{
    let truth = count_evil_pairs(true_roles);
    if is_lying {
        k.adjacent_count != truth
    } else {
        k.adjacent_count == truth
    }
}

fn produce_lover(
    is_lying: bool,
    true_roles: &Vec<Role>,
    position: usize,
    l: &LoverStatement,
) -> (r: bool)
    requires
        0 < true_roles@.len(),
        position < true_roles@.len(),
    ensures
        r == spec_produce_lover(is_lying, true_roles@, position as int, RoleStatement::Lover(*l)),
{
    let truth = count_neighbor_evil(true_roles, position, 1);
    if is_lying {
        l.evil_count != truth && l.evil_count <= 2
    } else {
        l.evil_count == truth
    }
}

fn produce_medium(
    is_lying: bool,
    true_roles: &Vec<Role>,
    disguised_roles: &Vec<Role>,
    position: usize,
    m: &MediumStatement,
) -> (r: bool)
    requires
        m.target_index < true_roles@.len(),
        disguised_roles@.len() == true_roles@.len(),
    ensures
        r == spec_produce_medium(
            is_lying,
            true_roles@,
            disguised_roles@,
            position as int,
            RoleStatement::Medium(*m),
        ),
{
    if is_lying {
        !(true_roles[m.target_index] == disguised_roles[m.target_index]) && m.role
            == disguised_roles[m.target_index]
    } else {
        m.target_index != position && !true_roles[m.target_index].is_evil() && m.role
            == true_roles[m.target_index]
    }
}

fn produce_oracle(is_lying: bool, true_roles: &Vec<Role>, o: &OracleStatement) -> (r: bool)
    requires
        o.target_indexes.wf(true_roles@.len() as int),
        o.target_indexes.spec_count() >= 2,
    ensures
        r == spec_produce_oracle(is_lying, true_roles@, RoleStatement::Oracle(*o)),
{
    if is_lying {
        count_targets_evil(true_roles, &o.target_indexes) == 0
    } else {
        let (a, b) = first_two_targets(&o.target_indexes);
        proof {
            assert(o.target_indexes.spec_has(a as int));
            assert(o.target_indexes.spec_has(b as int));
        }
        (!true_roles[a].is_evil() && true_roles[b] == o.role) || (!true_roles[b].is_evil()
            && true_roles[a] == o.role)
    }
}

fn produce_scout(is_lying: bool, true_roles: &Vec<Role>, sc: &ScoutStatement) -> (r: bool)
    requires
        0 < true_roles@.len() < usize::MAX,
    ensures
        r == spec_produce_scout(is_lying, true_roles@, RoleStatement::Scout(*sc)),
{
    let evil_count = count_evil(true_roles);
    match sc.role {
        Some(r0) => {
            let witness = scout_witness(true_roles, r0, sc.distance);
            if is_lying {
                evil_count == 1 || !witness
            } else {
                evil_count != 1 && witness
            }
        },
        None => if is_lying {
            evil_count != 1
        } else {
            evil_count == 1
        },
    }
}

fn produce_slayer(is_lying: bool, true_roles: &Vec<Role>, sl: &SlayerStatement) -> (r: bool)
    ensures
        r == spec_produce_slayer(is_lying, true_roles@, RoleStatement::Slayer(*sl)),
{
    sl.target_index < true_roles.len() && (if is_lying {
        sl.alignment == Alignment::Good
    } else {
        sl.alignment == true_roles[sl.target_index].alignment()
    })
}

fn produce_plague_doctor(
    is_lying: bool,
    true_roles: &Vec<Role>,
    corruptions: &Vec<bool>,
    position: usize,
    p: &PlagueDoctorStatement,
) -> (r: bool)
    requires
        p.corruption_index < true_roles@.len(),
        (p.evil_index matches Some(e) ==> e < true_roles@.len()),
        corruptions@.len() == true_roles@.len(),
    ensures
        r == spec_produce_plague_doctor(
            is_lying,
            true_roles@,
            corruptions@,
            position as int,
            RoleStatement::PlagueDoctor(*p),
        ),
{
    let is_corrupt = corruptions[p.corruption_index];
    match p.evil_index {
        Some(e) => if is_lying {
            !is_corrupt && !true_roles[e].is_evil()
        } else {
            is_corrupt && true_roles[e].is_evil()
        },
        None => if is_lying {
            is_corrupt || p.corruption_index == position
        } else {
            !is_corrupt
        },
    }
}

/// Decides whether a seat could produce a statement: the executable form of
/// [`spec_can_produce`].
#[verifier::rlimit(60)]
pub fn can_produce_statement(
    visible_role: Role,
    is_lying: bool,
    true_roles: &Vec<Role>,
    disguised_roles: &Vec<Role>,
    corruptions: &Vec<bool>,
    drunk_uncorruptions: &Vec<usize>,
    position: usize,
    statement: &RoleStatement,
) -> (r: bool)
    requires
        0 < true_roles@.len() < usize::MAX,
        disguised_roles@.len() == true_roles@.len(),
        corruptions@.len() == true_roles@.len(),
        drunk_uncorruptions@.len() == true_roles@.len(),
        position < true_roles@.len(),
        spec_stmt_wf(*statement, true_roles@.len() as int),
    ensures
        r == spec_can_produce(
            visible_role,
            is_lying,
            true_roles@,
            disguised_roles@,
            corruptions@,
            drunk_uncorruptions@,
            position as int,
            *statement,
        ),
{
    match visible_role {
        Role::Alchemist => match statement {
            RoleStatement::Alchemist(a) => produce_alchemist(
                is_lying,
                drunk_uncorruptions,
                position,
                a,
            ),
            _ => false,
        },
        Role::Architect => produce_architect(is_lying, true_roles, statement),
        Role::Bard => match statement {
            RoleStatement::Bard(b) => produce_bard(is_lying, corruptions, position, b),
            _ => false,
        },
        Role::Bishop => match statement {
            RoleStatement::Bishop(b) => produce_bishop(is_lying, true_roles, b),
            _ => false,
        },
        Role::Confessor => match statement {
            RoleStatement::Confessor(c) => produce_confessor(is_lying, c),
            _ => false,
        },
        Role::Dreamer => match statement {
            RoleStatement::Dreamer(d) => produce_dreamer(is_lying, true_roles, d),
            _ => false,
        },
        Role::Druid => match statement {
            RoleStatement::Druid(d) => produce_druid(is_lying, true_roles, d),
            _ => false,
        },
        Role::Empress => match statement {
            RoleStatement::Empress(e) => produce_empress(is_lying, true_roles, e),
            _ => false,
        },
        Role::Enlightened => match statement {
            RoleStatement::Enlightened(e) => produce_enlightened(is_lying, true_roles, position, e),
            _ => false,
        },
        Role::FortuneTeller => match statement {
            RoleStatement::FortuneTeller(f) => produce_fortune_teller(is_lying, true_roles, f),
            _ => false,
        },
        Role::Gemcrafter => match statement {
            RoleStatement::Gemcrafter(g) => produce_gemcrafter(is_lying, true_roles, g),
            _ => false,
        },
        Role::Hunter => match statement {
            RoleStatement::Hunter(h) => produce_hunter(is_lying, true_roles, position, h),
            _ => false,
        },
        Role::Jester => match statement {
            RoleStatement::Jester(j) => produce_jester(is_lying, true_roles, j),
            _ => false,
        },
        Role::Judge => match statement {
            RoleStatement::Judge(j) => produce_judge(
                is_lying,
                true_roles,
                disguised_roles,
                corruptions,
                j,
            ),
            _ => false,
        },
        Role::Knitter => match statement {
            RoleStatement::Knitter(k) => produce_knitter(is_lying, true_roles, k),
            _ => false,
        },
        Role::Lover => match statement {
            RoleStatement::Lover(l) => produce_lover(is_lying, true_roles, position, l),
            _ => false,
        },
        Role::Medium => match statement {
            RoleStatement::Medium(m) => produce_medium(
                is_lying,
                true_roles,
                disguised_roles,
                position,
                m,
            ),
            _ => false,
        },
        Role::Oracle => match statement {
            RoleStatement::Oracle(o) => produce_oracle(is_lying, true_roles, o),
            _ => false,
        },
        Role::Scout => match statement {
            RoleStatement::Scout(sc) => produce_scout(is_lying, true_roles, sc),
            _ => false,
        },
        Role::Slayer => match statement {
            RoleStatement::Slayer(sl) => produce_slayer(is_lying, true_roles, sl),
            _ => false,
        },
        Role::PlagueDoctor => match statement {
            RoleStatement::PlagueDoctor(p) => produce_plague_doctor(
                is_lying,
                true_roles,
                corruptions,
                position,
                p,
            ),
            _ => false,
        },
        _ => match statement {
            RoleStatement::NoStatement => true,
            _ => false,
        },
    }
}

} // verus!
