//! What the bot knows of its town.
use vstd::prelude::*;

use crate::names::NameSet;

verus! {

/// The town lists that hold several names.
#[derive(Debug, Clone, Copy, PartialEq, Eq, Structural)]
pub enum TownRank {
    Residents,
    Comayors,
    Assistants,
    Builders,
    Helpers,
    Recruiters,
    Sheriffs,
    Vips,
    Trusteds,
}

/// The bot's knowledge of its town, and whether it has asked to leave.
pub struct State {
    pub town_residents: NameSet,
    pub town_mayor: String,
    pub town_assistants: NameSet,
    pub town_builders: NameSet,
    pub town_comayors: NameSet,
    pub town_helpers: NameSet,
    pub town_recruiters: NameSet,
    pub town_sheriffs: NameSet,
    pub town_vips: NameSet,
    pub town_trusteds: NameSet,
    pub on_towny: bool,
    pub shutdown_signal_sent: bool,
}

impl State {
    /// The names on the list `r`.
    pub open spec fn rank(&self, r: TownRank) -> Set<Seq<char>> {
        match r {
            TownRank::Residents => self.town_residents@,
            TownRank::Comayors => self.town_comayors@,
            TownRank::Assistants => self.town_assistants@,
            TownRank::Builders => self.town_builders@,
            TownRank::Helpers => self.town_helpers@,
            TownRank::Recruiters => self.town_recruiters@,
            TownRank::Sheriffs => self.town_sheriffs@,
            TownRank::Vips => self.town_vips@,
            TownRank::Trusteds => self.town_trusteds@,
        }
    }

    /// `self` and `other` know the same town: the same lists and mayor.
    pub open spec fn same_town(&self, other: &State) -> bool {
        &&& forall|r: TownRank| #[trigger] self.rank(r) == other.rank(r)
        &&& self.town_mayor@ == other.town_mayor@
    }

    /// `self` and `other` agree on all but the list `r`.
    pub open spec fn same_town_except(&self, other: &State, r: TownRank) -> bool {
        &&& forall|j: TownRank| j != r ==> #[trigger] self.rank(j) == other.rank(j)
        &&& self.town_mayor@ == other.town_mayor@
    }

    /// Every list of `self` holds what the same list of `other` holds.
    pub open spec fn knows_at_least(&self, other: &State) -> bool {
        forall|r: TownRank| #[trigger] other.rank(r).subset_of(self.rank(r))
    }

    /// A bot that knows nothing of its town yet.
    pub fn new() -> (s: State)
        ensures
            forall|r: TownRank| #[trigger] s.rank(r) == Set::<Seq<char>>::empty(),
            s.town_mayor@ == Seq::<char>::empty(),
            !s.on_towny,
            !s.shutdown_signal_sent,
    {
        State {
            town_residents: NameSet::new(),
            town_mayor: String::new(),
            town_assistants: NameSet::new(),
            town_builders: NameSet::new(),
            town_comayors: NameSet::new(),
            town_helpers: NameSet::new(),
            town_recruiters: NameSet::new(),
            town_sheriffs: NameSet::new(),
            town_vips: NameSet::new(),
            town_trusteds: NameSet::new(),
            on_towny: false,
            shutdown_signal_sent: false,
        }
    }

    /// Adds `names` to the list `r`.
    pub fn extend_rank(&mut self, r: TownRank, names: &NameSet)
        ensures
            final(self).rank(r) == old(self).rank(r).union(names@),
            final(self).same_town_except(old(self), r),
            final(self).on_towny == old(self).on_towny,
            final(self).shutdown_signal_sent == old(self).shutdown_signal_sent,
    {
        match r {
            TownRank::Residents => self.town_residents.extend(names),
            TownRank::Comayors => self.town_comayors.extend(names),
            TownRank::Assistants => self.town_assistants.extend(names),
            TownRank::Builders => self.town_builders.extend(names),
            TownRank::Helpers => self.town_helpers.extend(names),
            TownRank::Recruiters => self.town_recruiters.extend(names),
            TownRank::Sheriffs => self.town_sheriffs.extend(names),
            TownRank::Vips => self.town_vips.extend(names),
            TownRank::Trusteds => self.town_trusteds.extend(names),
        }
    }
}

} // verus!
