//! The statement algebra: one tagged variant per speaking role, plus a
//! distinguished `NoStatement` for seats whose statement is absent or
//! unrevealed.

use vstd::prelude::*;

use crate::roles::{Alignment, Role};
use crate::targets::TargetIndexes;

verus! {

/// "I cured this many corruptions."
#[derive(Clone, Copy, Debug, PartialEq, Eq, Structural)]
pub struct AlchemistStatement {
    pub corrupt_count: usize,
}

/// Which side of the table holds more Evil.
#[derive(Clone, Copy, Debug, PartialEq, Eq, Structural)]
pub enum ArchitectStatement {
    Right,
    Left,
    Equal,
}

/// Distance to the closest corrupted seat, or `None` for "no corruption".
#[derive(Clone, Copy, Debug, PartialEq, Eq, Structural)]
pub struct BardStatement {
    pub distance: Option<usize>,
}

/// "Among these seats there is one Villager, one Minion and at most one
/// Outcast."
#[derive(Clone, Copy, Debug, PartialEq, Eq, Structural)]
pub struct BishopStatement {
    pub target_indexes: TargetIndexes,
}

/// "I am Good" or "I am Dizzy".
#[derive(Clone, Copy, Debug, PartialEq, Eq, Structural)]
pub enum ConfessorStatement {
    IAmGood,
    IAmDizzy,
}

/// "That seat could be this role."
#[derive(Clone, Copy, Debug, PartialEq, Eq, Structural)]
pub struct DreamerStatement {
    pub target_index: usize,
    pub role: Role,
}

/// "Among these seats there is this role", or with no role, "among these
/// seats there are no Outcasts".
#[derive(Clone, Copy, Debug, PartialEq, Eq, Structural)]
pub struct DruidStatement {
    pub target_indexes: TargetIndexes,
    pub role: Option<Role>,
}

/// "Among these three seats exactly one is Evil."
#[derive(Clone, Copy, Debug, PartialEq, Eq, Structural)]
pub struct EmpressStatement {
    pub target_indexes: TargetIndexes,
}

/// The direction of the closest Evil seat.
#[derive(Clone, Copy, Debug, PartialEq, Eq, Structural)]
pub enum EnlightenedStatement {
    Clockwise,
    CounterClockwise,
    Equidistant,
}

/// "Is there an Evil among these seats?"
#[derive(Clone, Copy, Debug, PartialEq, Eq, Structural)]
pub struct FortuneTellerStatement {
    pub target_indexes: TargetIndexes,
    pub is_evil: bool,
}

/// "That seat is Good."
#[derive(Clone, Copy, Debug, PartialEq, Eq, Structural)]
pub struct GemcrafterStatement {
    pub target_index: usize,
}

/// "I am this many cards away from the closest Evil."
#[derive(Clone, Copy, Debug, PartialEq, Eq, Structural)]
pub struct HunterStatement {
    pub distance: usize,
}

/// "Among these seats there are this many Evil."
#[derive(Clone, Copy, Debug, PartialEq, Eq, Structural)]
pub struct JesterStatement {
    pub target_indexes: TargetIndexes,
    pub evil_count: usize,
}

/// "That seat is truthful" or "that seat is lying".
#[derive(Clone, Copy, Debug, PartialEq, Eq, Structural)]
pub struct JudgeStatement {
    pub target_index: usize,
    pub is_lying: bool,
}

/// "There are this many adjacent Evil pairs."
#[derive(Clone, Copy, Debug, PartialEq, Eq, Structural)]
pub struct KnitterStatement {
    pub adjacent_count: usize,
}

/// "This many of my direct neighbours are Evil."
#[derive(Clone, Copy, Debug, PartialEq, Eq, Structural)]
pub struct LoverStatement {
    pub evil_count: usize,
}

/// "That seat truly is this role."
#[derive(Clone, Copy, Debug, PartialEq, Eq, Structural)]
pub struct MediumStatement {
    pub target_index: usize,
    pub role: Role,
}

/// "Of these two seats, one is Good and the other is this role."
#[derive(Clone, Copy, Debug, PartialEq, Eq, Structural)]
pub struct OracleStatement {
    pub target_indexes: TargetIndexes,
    pub role: Role,
}

/// "This Evil role is this far from the closest Evil", or with no role,
/// "there is only one Evil in play".
#[derive(Clone, Copy, Debug, PartialEq, Eq, Structural)]
pub struct ScoutStatement {
    pub role: Option<Role>,
    pub distance: usize,
}

/// "That seat is of this alignment."
#[derive(Clone, Copy, Debug, PartialEq, Eq, Structural)]
pub struct SlayerStatement {
    pub target_index: usize,
    pub alignment: Alignment,
}

/// "That seat is not corrupt", or "that seat is Evil and that other seat is
/// corrupt".
#[derive(Clone, Copy, Debug, PartialEq, Eq, Structural)]
pub struct PlagueDoctorStatement {
    pub corruption_index: usize,
    pub evil_index: Option<usize>,
}

/// A statement attributed to a seat, or `NoStatement` when the seat's
/// statement was never made or never revealed.
#[derive(Clone, Copy, Debug, PartialEq, Eq, Structural)]
pub enum RoleStatement {
    NoStatement,
    Alchemist(AlchemistStatement),
    Architect(ArchitectStatement),
    Bard(BardStatement),
    Bishop(BishopStatement),
    Confessor(ConfessorStatement),
    Dreamer(DreamerStatement),
    Druid(DruidStatement),
    Empress(EmpressStatement),
    Enlightened(EnlightenedStatement),
    FortuneTeller(FortuneTellerStatement),
    Gemcrafter(GemcrafterStatement),
    Hunter(HunterStatement),
    Jester(JesterStatement),
    Judge(JudgeStatement),
    Knitter(KnitterStatement),
    Lover(LoverStatement),
    Medium(MediumStatement),
    Oracle(OracleStatement),
    Scout(ScoutStatement),
    Slayer(SlayerStatement),
    PlagueDoctor(PlagueDoctorStatement),
}

/// Well-formedness of a statement for a table of `n` seats: every seat a
/// statement names must exist, and an Oracle statement must name at least two
/// seats. The solver only accepts well-formed statements; malformed input is
/// rejected at the parsing edge and never reaches it.
pub open spec fn spec_stmt_wf(s: RoleStatement, n: int) -> bool {
    match s {
        RoleStatement::NoStatement => true,
        RoleStatement::Alchemist(_) => true,
        RoleStatement::Architect(_) => n >= 2,
        RoleStatement::Bard(_) => true,
        RoleStatement::Bishop(b) => b.target_indexes.wf(n),
        RoleStatement::Confessor(_) => true,
        RoleStatement::Dreamer(d) => (d.target_index as int) < n,
        RoleStatement::Druid(d) => d.target_indexes.wf(n),
        RoleStatement::Empress(e) => e.target_indexes.wf(n),
        RoleStatement::Enlightened(_) => true,
        RoleStatement::FortuneTeller(f) => f.target_indexes.wf(n),
        RoleStatement::Gemcrafter(_) => true,
        RoleStatement::Hunter(_) => true,
        RoleStatement::Jester(j) => j.target_indexes.wf(n),
        RoleStatement::Judge(j) => (j.target_index as int) < n,
        RoleStatement::Knitter(_) => true,
        RoleStatement::Lover(_) => true,
        RoleStatement::Medium(m) => (m.target_index as int) < n,
        RoleStatement::Oracle(o) => o.target_indexes.wf(n) && o.target_indexes.spec_count() >= 2,
        RoleStatement::Scout(_) => true,
        RoleStatement::Slayer(_) => true,
        RoleStatement::PlagueDoctor(p) => (p.corruption_index as int) < n && (match p.evil_index {
            Some(e) => (e as int) < n,
            None => true,
        }),
    }
}

/// Runtime check of [`spec_stmt_wf`], for callers that take statements from
/// an unchecked source.
pub fn statement_wf(s: &RoleStatement, n: usize) -> (r: bool)
    requires
        n <= 16,
    ensures
        r == spec_stmt_wf(*s, n as int),
{
    match s {
        RoleStatement::NoStatement => true,
        RoleStatement::Alchemist(_) => true,
        RoleStatement::Architect(_) => n >= 2,
        RoleStatement::Bard(_) => true,
        RoleStatement::Bishop(b) => targets_below(&b.target_indexes, n),
        RoleStatement::Confessor(_) => true,
        RoleStatement::Dreamer(d) => d.target_index < n,
        RoleStatement::Druid(d) => targets_below(&d.target_indexes, n),
        RoleStatement::Empress(e) => targets_below(&e.target_indexes, n),
        RoleStatement::Enlightened(_) => true,
        RoleStatement::FortuneTeller(f) => targets_below(&f.target_indexes, n),
        RoleStatement::Gemcrafter(_) => true,
        RoleStatement::Hunter(_) => true,
        RoleStatement::Jester(j) => targets_below(&j.target_indexes, n),
        RoleStatement::Judge(j) => j.target_index < n,
        RoleStatement::Knitter(_) => true,
        RoleStatement::Lover(_) => true,
        RoleStatement::Medium(m) => m.target_index < n,
        RoleStatement::Oracle(o) => targets_below(&o.target_indexes, n) && o.target_indexes.count()
            >= 2,
        RoleStatement::Scout(_) => true,
        RoleStatement::Slayer(_) => true,
        RoleStatement::PlagueDoctor(p) => p.corruption_index < n && (match p.evil_index {
            Some(e) => e < n,
            None => true,
        }),
    }
}

/// Whether every member of a target set lies below `n`.
fn targets_below(t: &TargetIndexes, n: usize) -> (r: bool)
    requires
        n <= 16,
    ensures
        r == t.wf(n as int),
{
    let mut i: usize = n;
    let mut ok = true;
    while i < 16
        invariant
            n <= i <= 16,
            ok == forall|j: int| n <= j < i ==> !t.spec_has(j),
        decreases 16 - i,
    {
        if t.has(i) {
            ok = false;
        }
        i = i + 1;
    }
    ok
}

} // verus!
