//! The role catalog: the closed set of roles, and each role's static
//! attributes (its group, its alignment and whether its speaker lies by
//! default).

use vstd::prelude::*;

verus! {

/// A role card. The variant order is the total order used for deterministic
/// output.
#[derive(Clone, Copy, Debug, PartialEq, Eq, PartialOrd, Ord, Hash, Structural)]
pub enum Role {
    // Villagers
    Alchemist,
    Architect,
    Baker,
    Bard,
    Bishop,
    Confessor,
    Dreamer,
    Druid,
    Empress,
    Enlightened,
    FortuneTeller,
    Gemcrafter,
    Hunter,
    Jester,
    Judge,
    Knight,
    Knitter,
    Lover,
    Medium,
    Oracle,
    Poet,
    Scout,
    Slayer,
    Witness,
    // Outcasts
    Bombardier,
    DoppelGanger,
    Drunk,
    PlagueDoctor,
    Wretch,
    // Minions
    Counsellor,
    Minion,
    Poisoner,
    Puppet,
    Puppeteer,
    TwinMinion,
    Witch,
    // Demons
    Baa,
    Lilis,
    Pooka,
}

/// The four composition groups a role can belong to.
#[derive(Clone, Copy, Debug, PartialEq, Eq, Hash, Structural)]
pub enum Group {
    Villager,
    Outcast,
    Minion,
    Demon,
}

/// Good or Evil; Evil seats are the target of the deduction.
#[derive(Clone, Copy, Debug, PartialEq, Eq, Hash, Structural)]
pub enum Alignment {
    Good,
    Evil,
}

impl Role {
    /// The group a role belongs to.
    pub open spec fn spec_group(self) -> Group {
        match self {
            Role::Alchemist | Role::Architect | Role::Baker | Role::Bard | Role::Bishop
            | Role::Confessor | Role::Dreamer | Role::Druid | Role::Empress
            | Role::Enlightened | Role::FortuneTeller | Role::Gemcrafter | Role::Hunter
            | Role::Jester | Role::Judge | Role::Knight | Role::Knitter | Role::Lover
            | Role::Medium | Role::Oracle | Role::Poet | Role::Scout | Role::Slayer
            | Role::Witness => Group::Villager,
            Role::Bombardier | Role::DoppelGanger | Role::Drunk | Role::PlagueDoctor
            | Role::Wretch => Group::Outcast,
            Role::Counsellor | Role::Minion | Role::Poisoner | Role::Puppet
            | Role::Puppeteer | Role::TwinMinion | Role::Witch => Group::Minion,
            Role::Baa | Role::Lilis | Role::Pooka => Group::Demon,
        }
    }

    /// Villagers and Outcasts are Good; Minions and Demons are Evil.
    pub open spec fn spec_alignment(self) -> Alignment {
        match self.spec_group() {
            Group::Villager | Group::Outcast => Alignment::Good,
            Group::Minion | Group::Demon => Alignment::Evil,
        }
    }

    /// Whether the role's speaker produces a falsehood when it would
    /// otherwise speak. Equal to being Evil-aligned, except that the Puppet
    /// (a Minion) speaks truthfully while the Drunk (an Outcast) lies.
    pub open spec fn spec_lying(self) -> bool {
        match self {
            Role::Puppet => false,
            Role::Drunk => true,
            _ => self.spec_alignment() == Alignment::Evil,
        }
    }

    /// Whether the role is Evil-aligned.
    pub open spec fn spec_is_evil(self) -> bool {
        self.spec_alignment() == Alignment::Evil
    }

    #[verifier::when_used_as_spec(spec_group)]
    pub fn group(self) -> (g: Group)
        ensures
            g == self.spec_group(),
    {
        match self {
            Role::Alchemist | Role::Architect | Role::Baker | Role::Bard | Role::Bishop
            | Role::Confessor | Role::Dreamer | Role::Druid | Role::Empress
            | Role::Enlightened | Role::FortuneTeller | Role::Gemcrafter | Role::Hunter
            | Role::Jester | Role::Judge | Role::Knight | Role::Knitter | Role::Lover
            | Role::Medium | Role::Oracle | Role::Poet | Role::Scout | Role::Slayer
            | Role::Witness => Group::Villager,
            Role::Bombardier | Role::DoppelGanger | Role::Drunk | Role::PlagueDoctor
            | Role::Wretch => Group::Outcast,
            Role::Counsellor | Role::Minion | Role::Poisoner | Role::Puppet
            | Role::Puppeteer | Role::TwinMinion | Role::Witch => Group::Minion,
            Role::Baa | Role::Lilis | Role::Pooka => Group::Demon,
        }
    }

    #[verifier::when_used_as_spec(spec_alignment)]
    pub fn alignment(self) -> (a: Alignment)
        ensures
            a == self.spec_alignment(),
    {
        match self.group() {
            Group::Villager | Group::Outcast => Alignment::Good,
            Group::Minion | Group::Demon => Alignment::Evil,
        }
    }

    #[verifier::when_used_as_spec(spec_lying)]
    pub fn lying(self) -> (l: bool)
        ensures
            l == self.spec_lying(),
    {
        match self {
            Role::Puppet => false,
            Role::Drunk => true,
            _ => self.alignment() == Alignment::Evil,
        }
    }

    #[verifier::when_used_as_spec(spec_is_evil)]
    pub fn is_evil(self) -> (e: bool)
        ensures
            e == self.spec_is_evil(),
    {
        self.alignment() == Alignment::Evil
    }
}

} // verus!
