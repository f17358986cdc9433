//! The mathematical model of a circuit.
//!
//! A circuit is two lists in creation order: its parts and its chains. Which
//! chain holds which level of a part, and where a part sits on the grid, both
//! follow from these lists.

use vstd::prelude::*;
use crate::circuit::{ChainLevel, Component};
use crate::layout::{grid_position, MAX_PARTS};

verus! {

/// A part as the model sees it.
pub struct PartView {
    pub kind: Component,
    pub value: Option<u32>,
}

/// A chain as the model sees it.
pub struct ChainView {
    pub level: ChainLevel,
    pub members: Seq<nat>,
}

/// A circuit as the model sees it.
pub struct CircuitView {
    pub parts: Seq<PartView>,
    pub chains: Seq<ChainView>,
}

impl CircuitView {
    /// Chain `chain` holds `level` on `part`.
    pub open spec fn occupies(self, chain: int, part: nat, level: ChainLevel) -> bool {
        &&& 0 <= chain < self.chains.len()
        &&& self.chains[chain].level == level
        &&& self.chains[chain].members.contains(part)
    }

    /// No chain holds `level` on `part`.
    pub open spec fn level_free(self, part: nat, level: ChainLevel) -> bool {
        forall|chain: int| !self.occupies(chain, part, level)
    }

    /// `level` is free on every one of `members`.
    pub open spec fn level_free_on_all(self, members: Seq<nat>, level: ChainLevel) -> bool {
        forall|k: int| 0 <= k < members.len() ==> self.level_free(#[trigger] members[k], level)
    }

    /// The lowest level that is free on every one of `members`.
    pub open spec fn first_free_level(self, members: Seq<nat>) -> Option<ChainLevel> {
        if self.level_free_on_all(members, ChainLevel::Bottom) {
            Some(ChainLevel::Bottom)
        } else if self.level_free_on_all(members, ChainLevel::Middle) {
            Some(ChainLevel::Middle)
        } else if self.level_free_on_all(members, ChainLevel::Top) {
            Some(ChainLevel::Top)
        } else {
            None
        }
    }

    /// The chain that holds `level` on `part`, if any.
    pub open spec fn occupant(self, part: nat, level: ChainLevel) -> Option<nat> {
        if self.level_free(part, level) {
            None
        } else {
            Some((choose|chain: int| self.occupies(chain, part, level)) as nat)
        }
    }

    /// Where part `part` sits on the grid.
    pub open spec fn position(self, part: nat) -> (int, int) {
        grid_position(part, self.parts.len())
    }

    /// The circuit with one more part.
    pub open spec fn with_part(self, kind: Component, value: Option<u32>) -> CircuitView {
        CircuitView { parts: self.parts.push(PartView { kind, value }), chains: self.chains }
    }

    /// The circuit with one more chain.
    pub open spec fn with_chain(self, level: ChainLevel, members: Seq<nat>) -> CircuitView {
        CircuitView { parts: self.parts, chains: self.chains.push(ChainView { level, members }) }
    }

    /// What holds of every circuit: it is within the size limit, exactly the
    /// resistors carry a value, chains join existing parts, and no level of a
    /// part is held by two chains.
    pub open spec fn valid(self) -> bool {
        &&& self.parts.len() <= MAX_PARTS
        &&& forall|i: int|
            0 <= i < self.parts.len() ==> ((#[trigger] self.parts[i]).value.is_some()
                <==> self.parts[i].kind == Component::Resistor)
        &&& forall|c: int, k: int|
            0 <= c < self.chains.len() && 0 <= k < self.chains[c].members.len()
                ==> #[trigger] self.chains[c].members[k] < self.parts.len()
        &&& forall|a: int, b: int, part: nat, level: ChainLevel|
            #![trigger self.occupies(a, part, level), self.occupies(b, part, level)]
            self.occupies(a, part, level) && self.occupies(b, part, level) ==> a == b
    }

    /// The level that a new chain gets is free on all its members, and no
    /// level below it is. There is none exactly when no level is free on all
    /// of them.
    pub proof fn lemma_first_free_level_is_lowest(self, members: Seq<nat>, level: ChainLevel)
        ensures
            self.first_free_level(members) == Some(level) <==> self.level_free_on_all(
                members,
                level,
            ) && forall|lower: ChainLevel|
                lower.spec_ordinal() < level.spec_ordinal() ==> !#[trigger] self.level_free_on_all(
                    members,
                    lower,
                ),
            self.first_free_level(members) is None <==> forall|any: ChainLevel|
                !#[trigger] self.level_free_on_all(members, any),
    {
        assert(ChainLevel::Bottom.spec_ordinal() < ChainLevel::Middle.spec_ordinal());
        assert(ChainLevel::Middle.spec_ordinal() < ChainLevel::Top.spec_ordinal());
        if self.first_free_level(members) is None {
            assert forall|any: ChainLevel| !#[trigger] self.level_free_on_all(members, any) by {
                match any {
                    ChainLevel::Bottom => {},
                    ChainLevel::Middle => {},
                    ChainLevel::Top => {},
                }
            }
        }
        if self.first_free_level(members) == Some(level) {
            assert forall|lower: ChainLevel|
                lower.spec_ordinal() < level.spec_ordinal() implies !#[trigger] self.level_free_on_all(
                members,
                lower,
            ) by {
                match lower {
                    ChainLevel::Bottom => {},
                    ChainLevel::Middle => {},
                    ChainLevel::Top => {},
                }
            }
        }
    }

    /// A part whose three levels are all taken cannot join another chain.
    pub proof fn lemma_full_part_blocks(self, members: Seq<nat>, part: nat)
        requires
            members.contains(part),
            forall|level: ChainLevel| !#[trigger] self.level_free(part, level),
        ensures
            self.first_free_level(members) is None,
    {
        let k = choose|k: int| 0 <= k < members.len() && members[k] == part;
        assert(!self.level_free(members[k], ChainLevel::Bottom));
        assert(!self.level_free(members[k], ChainLevel::Middle));
        assert(!self.level_free(members[k], ChainLevel::Top));
    }

    /// A part that three chains run through has no level left, so a fourth
    /// chain through it cannot be made.
    pub proof fn lemma_three_chains_fill_part(
        self,
        part: nat,
        a: int,
        b: int,
        c: int,
        members: Seq<nat>,
    )
        requires
            self.valid(),
            a != b && a != c && b != c,
            self.occupies(a, part, self.chains[a].level),
            self.occupies(b, part, self.chains[b].level),
            self.occupies(c, part, self.chains[c].level),
            members.contains(part),
        ensures
            forall|level: ChainLevel| !#[trigger] self.level_free(part, level),
            self.first_free_level(members) is None,
    {
        let la = self.chains[a].level;
        let lb = self.chains[b].level;
        let lc = self.chains[c].level;
        assert(la != lb) by {
            if la == lb {
                assert(self.occupies(a, part, la) && self.occupies(b, part, la));
            }
        }
        assert(la != lc) by {
            if la == lc {
                assert(self.occupies(a, part, la) && self.occupies(c, part, la));
            }
        }
        assert(lb != lc) by {
            if lb == lc {
                assert(self.occupies(b, part, lb) && self.occupies(c, part, lb));
            }
        }
        assert forall|level: ChainLevel| !#[trigger] self.level_free(part, level) by {
            assert(level == la || level == lb || level == lc);
        }
        self.lemma_full_part_blocks(members, part);
    }

    /// In a valid circuit the chain that holds a level is the occupant of
    /// that level.
    pub proof fn lemma_occupant(self, chain: nat, part: nat, level: ChainLevel)
        requires
            self.valid(),
            self.occupies(chain as int, part, level),
        ensures
            self.occupant(part, level) == Some(chain),
    {
        let chosen = choose|c: int| self.occupies(c, part, level);
        assert(self.occupies(chosen, part, level));
    }

    /// A new part changes nothing on the parts that were there, and has all
    /// three levels free.
    pub proof fn lemma_with_part_occupancy(
        self,
        kind: Component,
        value: Option<u32>,
        part: nat,
        level: ChainLevel,
    )
        requires
            self.valid(),
        ensures
            forall|chain: int| #[trigger]
                self.with_part(kind, value).occupies(chain, part, level) <==> self.occupies(
                    chain,
                    part,
                    level,
                ),
            self.with_part(kind, value).level_free(part, level) <==> self.level_free(part, level),
            part >= self.parts.len() ==> self.level_free(part, level),
    {
        let after = self.with_part(kind, value);
        if self.level_free(part, level) {
            assert forall|chain: int| !#[trigger] after.occupies(chain, part, level) by {
                assert(!self.occupies(chain, part, level));
            }
        }
        if after.level_free(part, level) {
            assert forall|chain: int| !#[trigger] self.occupies(chain, part, level) by {
                assert(!after.occupies(chain, part, level));
            }
        }
        if part >= self.parts.len() {
            assert forall|chain: int| !#[trigger] self.occupies(chain, part, level) by {
                if self.occupies(chain, part, level) {
                    let members = self.chains[chain].members;
                    let k = choose|k: int| 0 <= k < members.len() && members[k] == part;
                    assert(self.chains[chain].members[k] < self.parts.len());
                }
            }
        }
    }

    /// Adding a part keeps a circuit valid.
    pub proof fn lemma_with_part_valid(self, kind: Component, value: Option<u32>)
        requires
            self.valid(),
            self.parts.len() < MAX_PARTS,
            value.is_some() <==> kind == Component::Resistor,
        ensures
            self.with_part(kind, value).valid(),
    {
        let after = self.with_part(kind, value);
        assert forall|a: int, b: int, part: nat, level: ChainLevel|
            #![trigger after.occupies(a, part, level), after.occupies(b, part, level)]
            after.occupies(a, part, level) && after.occupies(b, part, level) implies a == b by {
            assert(self.occupies(a, part, level) && self.occupies(b, part, level));
        }
    }

    /// What a new chain changes: it holds its level on its members, and
    /// nothing else moves.
    pub proof fn lemma_with_chain_occupancy(
        self,
        level: ChainLevel,
        members: Seq<nat>,
        part: nat,
        at: ChainLevel,
    )
        ensures
            forall|chain: int| #[trigger]
                self.with_chain(level, members).occupies(chain, part, at) <==> self.occupies(
                    chain,
                    part,
                    at,
                ) || (chain == self.chains.len() && at == level && members.contains(part)),
            self.with_chain(level, members).level_free(part, at) <==> self.level_free(part, at)
                && !(at == level && members.contains(part)),
    {
        let after = self.with_chain(level, members);
        let added = self.chains.len() as int;
        if after.level_free(part, at) {
            assert forall|chain: int| !#[trigger] self.occupies(chain, part, at) by {
                assert(!after.occupies(chain, part, at));
            }
            assert(!after.occupies(added, part, at));
        }
        if self.level_free(part, at) && !(at == level && members.contains(part)) {
            assert forall|chain: int| !#[trigger] after.occupies(chain, part, at) by {
                assert(!self.occupies(chain, part, at));
            }
        }
    }

    /// Adding a chain on a level that is free on all its members keeps a
    /// circuit valid.
    pub proof fn lemma_with_chain_valid(self, level: ChainLevel, members: Seq<nat>)
        requires
            self.valid(),
            forall|k: int| 0 <= k < members.len() ==> #[trigger] members[k] < self.parts.len(),
            self.level_free_on_all(members, level),
        ensures
            self.with_chain(level, members).valid(),
    {
        let after = self.with_chain(level, members);
        let added = self.chains.len() as int;
        assert forall|a: int, b: int, part: nat, at: ChainLevel|
            #![trigger after.occupies(a, part, at), after.occupies(b, part, at)]
            after.occupies(a, part, at) && after.occupies(b, part, at) implies a == b by {
            if a == added && b != added {
                let k = choose|k: int| 0 <= k < members.len() && members[k] == part;
                assert(self.level_free(members[k], level));
                assert(self.occupies(b, part, at));
            } else if b == added && a != added {
                let k = choose|k: int| 0 <= k < members.len() && members[k] == part;
                assert(self.level_free(members[k], level));
                assert(self.occupies(a, part, at));
            } else if a != added {
                assert(self.occupies(a, part, at) && self.occupies(b, part, at));
            }
        }
        assert forall|c: int, k: int|
            0 <= c < after.chains.len() && 0 <= k < after.chains[c].members.len()
                implies #[trigger] after.chains[c].members[k] < after.parts.len() by {
            if c < added {
                assert(self.chains[c].members[k] < self.parts.len());
            }
        }
    }
}

} // verus!
