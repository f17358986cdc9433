//! The circuit model: parts, their grid slots, and the chains that join them.

use vstd::prelude::*;
use vstd::slice::slice_to_vec;
use crate::layout::{grid_position, grid_side, grid_side_of, position_on_grid, MAX_PARTS};
use crate::model::{ChainView, CircuitView, PartView};
use crate::save_file::{
    connections_of, part_record, save_file_of, Chain, Dimensions, SaveFile, DEFAULT_VIEW_SIZE,
    DEFAULT_ZOOM, FORMAT_VERSION,
};

verus! {

/// The kind of a part.
#[derive(Debug, Clone, Copy, PartialEq, Eq, Structural)]
pub enum Component {
    Motor,
    Resistor,
    Junction,
}

/// One of the three terminal tiers of a part.
#[derive(Debug, Clone, Copy, PartialEq, Eq, Structural)]
pub enum ChainLevel {
    Bottom,
    Middle,
    Top,
}

/// The direction in which a chain turns.
#[derive(Debug, Clone, Copy, PartialEq, Eq, Structural)]
pub enum Rotation {
    CounterClockwise,
    Clockwise,
}

/// Why a connection could not be made.
#[derive(Debug, Clone, Copy, PartialEq, Eq, Structural)]
pub enum ConnectError {
    /// No level is free on every requested part.
    NoFreeLevel,
}

/// The identity of a part: its place in creation order.
#[derive(Debug, Copy, Clone, PartialEq, Eq, Hash, Structural)]
pub struct PartIndex(usize);

/// The identity of a chain: its place in creation order.
#[derive(Debug, Copy, Clone, PartialEq, Eq, Hash, Structural)]
pub struct ChainIndex(usize);

impl ChainLevel {
    /// The level's place in the search order, which is also its slot in a
    /// part's occupancy table.
    pub open spec fn spec_ordinal(self) -> u8 {
        match self {
            ChainLevel::Bottom => 0,
            ChainLevel::Middle => 1,
            ChainLevel::Top => 2,
        }
    }

    #[verifier::when_used_as_spec(spec_ordinal)]
    pub fn ordinal(self) -> (n: u8)
        ensures
            n == self.spec_ordinal(),
    {
        match self {
            ChainLevel::Bottom => 0,
            ChainLevel::Middle => 1,
            ChainLevel::Top => 2,
        }
    }
}

impl View for PartIndex {
    type V = nat;

    closed spec fn view(&self) -> nat {
        self.0 as nat
    }
}

impl View for ChainIndex {
    type V = nat;

    closed spec fn view(&self) -> nat {
        self.0 as nat
    }
}

impl PartIndex {
    /// The part's place in creation order.
    pub fn index(&self) -> (i: usize)
        ensures
            i == self@,
    {
        self.0
    }
}

impl ChainIndex {
    /// The chain's place in creation order.
    pub fn index(&self) -> (i: usize)
        ensures
            i == self@,
    {
        self.0
    }
}

impl From<PartIndex> for u32 {
    /// The identity as a connection record holds it. Identities that a
    /// circuit hands out always fit.
    fn from(val: PartIndex) -> u32 {
        val.0 as u32
    }
}

impl vstd::std_specs::convert::FromSpecImpl<PartIndex> for u32 {
    open spec fn obeys_from_spec() -> bool {
        true
    }

    open spec fn from_spec(val: PartIndex) -> u32 {
        val@ as u32
    }
}

/// A part as the save file lists it.
#[derive(Debug, Clone, Copy, PartialEq, Eq, Structural)]
pub struct Part {
    /// The kind of this part.
    pub name: Component,
    /// Horizontal coordinate.
    pub x: i32,
    /// Vertical coordinate.
    pub y: i32,
    /// The resistance, for a resistor.
    pub value: Option<u32>,
}

impl Part {
    pub fn new(name: Component, x: i32, y: i32, value: Option<u32>) -> (part: Self)
        ensures
            part == (Part { name, x, y, value }),
    {
        Self { name, x, y, value }
    }
}

/// The identities that a list of part handles stands for.
pub open spec fn identities(parts: Seq<PartIndex>) -> Seq<nat> {
    parts.map_values(|part: PartIndex| part@)
}

/// The first `upto` slots hold the grid positions of their parts.
spec fn placed(positions: Seq<(i32, i32)>, upto: nat) -> bool {
    forall|i: int|
        0 <= i < upto ==> (#[trigger] positions[i]).0 == grid_position(i as nat, positions.len()).0
            && positions[i].1 == grid_position(i as nat, positions.len()).1
}

/// The entry of the occupancy table for `level` on `part`.
spec fn slot(table: Seq<[Option<ChainIndex>; 3]>, part: int, level: ChainLevel) -> Option<
    ChainIndex,
> {
    table[part][level.spec_ordinal() as int]
}

/// The occupancy table says of every part and level what the chains say.
spec fn table_matches(table: Seq<[Option<ChainIndex>; 3]>, model: CircuitView) -> bool {
    forall|part: int, level: ChainLevel|
        0 <= part < table.len() ==> match #[trigger] slot(table, part, level) {
            Some(chain) => model.occupies(chain@ as int, part as nat, level),
            None => model.level_free(part as nat, level),
        }
}

/// The entry for `level` on `part` once `chain` has been entered on `taken`
/// for every part in `done`.
spec fn entered(
    table: Seq<[Option<ChainIndex>; 3]>,
    done: Seq<nat>,
    taken: ChainLevel,
    chain: ChainIndex,
    part: int,
    level: ChainLevel,
) -> Option<ChainIndex> {
    if level == taken && done.contains(part as nat) {
        Some(chain)
    } else {
        slot(table, part, level)
    }
}

/// A circuit: parts in creation order and the chains that connect them.
#[derive(Debug, Clone, PartialEq)]
pub struct Circuit {
    /// Kind and value of every part.
    parts: Vec<(Component, Option<u32>)>,
    /// For every part and level, the chain that holds the level.
    level_occupied: Vec<[Option<ChainIndex>; 3]>,
    /// Grid slot of every part.
    positions: Vec<(i32, i32)>,
    /// Level and members of every chain.
    chains: Vec<(ChainLevel, Vec<PartIndex>)>,
}

impl View for Circuit {
    type V = CircuitView;

    closed spec fn view(&self) -> CircuitView {
        CircuitView {
            parts: Seq::new(
                self.parts@.len(),
                |i: int| PartView { kind: self.parts@[i].0, value: self.parts@[i].1 },
            ),
            chains: Seq::new(
                self.chains@.len(),
                |c: int|
                    ChainView { level: self.chains@[c].0, members: identities(self.chains@[c].1@) },
            ),
        }
    }
}

impl Default for Circuit {
    /// An empty circuit.
    fn default() -> (circuit: Self)
        ensures
            circuit.wf(),
            circuit@.parts.len() == 0,
            circuit@.chains.len() == 0,
    {
        Circuit {
            parts: Vec::new(),
            level_occupied: Vec::new(),
            positions: Vec::new(),
            chains: Vec::new(),
        }
    }
}

impl Circuit {
    /// The stored tables agree with the model.
    pub closed spec fn consistent(&self) -> bool {
        &&& self.level_occupied@.len() == self.parts@.len()
        &&& self.positions@.len() == self.parts@.len()
        &&& placed(self.positions@, self.positions@.len())
        &&& table_matches(self.level_occupied@, self@)
    }

    /// The circuit is one that the operations below can build.
    pub open spec fn wf(&self) -> bool {
        self@.valid() && self.consistent()
    }

    /// An empty circuit.
    pub fn new() -> (circuit: Self)
        ensures
            circuit.wf(),
            circuit@.parts.len() == 0,
            circuit@.chains.len() == 0,
    {
        Self::default()
    }

    fn _adjust_positions(&mut self)
        requires
            old(self).parts@.len() <= MAX_PARTS,
            old(self).positions@.len() == old(self).parts@.len(),
        ensures
            final(self).parts == old(self).parts,
            final(self).level_occupied == old(self).level_occupied,
            final(self).chains == old(self).chains,
            final(self).positions@.len() == old(self).parts@.len(),
            placed(final(self).positions@, final(self).positions@.len()),
    {
        let count = self.parts.len();
        let grid_size = grid_side_of(count);
        let mut index: usize = 0;
        while index < count
            invariant
                index <= count,
                count == self.parts@.len(),
                count <= MAX_PARTS,
                grid_size == grid_side(count as nat),
                self.parts == old(self).parts,
                self.level_occupied == old(self).level_occupied,
                self.chains == old(self).chains,
                self.positions@.len() == count,
                placed(self.positions@, index as nat),
            decreases count - index,
        {
            self.positions[index] = position_on_grid(index, count, grid_size);
            index = index + 1;
        }
    }

    fn _add_part(&mut self, part: Component, value: Option<u32>) -> (index: PartIndex)
        requires
            old(self).wf(),
            old(self)@.parts.len() < MAX_PARTS,
            value.is_some() <==> part == Component::Resistor,
        ensures
            final(self).wf(),
            index@ == old(self)@.parts.len(),
            final(self)@ == old(self)@.with_part(part, value),
            forall|level: ChainLevel| #[trigger] final(self)@.level_free(index@, level),
    {
        let index = self.parts.len();
        self.parts.push((part, value));
        let all_free: [Option<ChainIndex>; 3] = [None; 3];
        self.level_occupied.push(all_free);
        self.positions.push((0, 0));
        self._adjust_positions();
        proof {
            let before = old(self)@;
            let after = self@;
            assert(after.parts =~= before.parts.push(PartView { kind: part, value }));
            assert(after.chains =~= before.chains);
            before.lemma_with_part_valid(part, value);
            assert forall|p: int, level: ChainLevel|
                0 <= p < self.level_occupied@.len() implies match #[trigger] slot(
                self.level_occupied@,
                p,
                level,
            ) {
                Some(chain) => after.occupies(chain@ as int, p as nat, level),
                None => after.level_free(p as nat, level),
            } by {
                before.lemma_with_part_occupancy(part, value, p as nat, level);
                if p < index {
                    assert(slot(self.level_occupied@, p, level) == slot(
                        old(self).level_occupied@,
                        p,
                        level,
                    ));
                } else {
                    assert(self.level_occupied@[p] == all_free);
                }
            }
            assert forall|level: ChainLevel| #[trigger] after.level_free(index as nat, level) by {
                before.lemma_with_part_occupancy(part, value, index as nat, level);
            }
        }
        PartIndex(index)
    }

    /// Adds a resistor of the given resistance.
    pub fn resistor(&mut self, value: u32) -> (index: PartIndex)
        requires
            old(self).wf(),
            old(self)@.parts.len() < MAX_PARTS,
        ensures
            final(self).wf(),
            index@ == old(self)@.parts.len(),
            final(self)@ == old(self)@.with_part(Component::Resistor, Some(value)),
            forall|level: ChainLevel| #[trigger] final(self)@.level_free(index@, level),
    {
        self._add_part(Component::Resistor, Some(value))
    }

    /// Adds a motor.
    pub fn motor(&mut self) -> (index: PartIndex)
        requires
            old(self).wf(),
            old(self)@.parts.len() < MAX_PARTS,
        ensures
            final(self).wf(),
            index@ == old(self)@.parts.len(),
            final(self)@ == old(self)@.with_part(Component::Motor, None),
            forall|level: ChainLevel| #[trigger] final(self)@.level_free(index@, level),
    {
        self._add_part(Component::Motor, None)
    }

    /// Adds a junction.
    pub fn junction(&mut self) -> (index: PartIndex)
        requires
            old(self).wf(),
            old(self)@.parts.len() < MAX_PARTS,
        ensures
            final(self).wf(),
            index@ == old(self)@.parts.len(),
            final(self)@ == old(self)@.with_part(Component::Junction, None),
            forall|level: ChainLevel| #[trigger] final(self)@.level_free(index@, level),
    {
        self._add_part(Component::Junction, None)
    }

    /// Whether `level` is free on every one of `parts`.
    fn _level_free(&self, parts: &[PartIndex], level: ChainLevel) -> (free: bool)
        requires
            self.wf(),
            forall|k: int| 0 <= k < parts@.len() ==> (#[trigger] parts@[k])@ < self@.parts.len(),
        ensures
            free == self@.level_free_on_all(identities(parts@), level),
    {
        let ghost members = identities(parts@);
        let at: usize = level.ordinal() as usize;
        let mut k: usize = 0;
        while k < parts.len()
            invariant
                k <= parts@.len(),
                self.wf(),
                members == identities(parts@),
                at == level.spec_ordinal(),
                forall|j: int| 0 <= j < parts@.len() ==> (#[trigger] parts@[j])@ < self@.parts.len(),
                forall|j: int| 0 <= j < k ==> self@.level_free(#[trigger] members[j], level),
            decreases parts@.len() - k,
        {
            let part = parts[k];
            assert(part@ < self@.parts.len());
            assert(members[k as int] == part@);
            assert(slot(self.level_occupied@, part.0 as int, level)
                == self.level_occupied@[part.0 as int][at as int]);
            if self.level_occupied[part.0][at].is_some() {
                proof {
                    let chain = slot(self.level_occupied@, part.0 as int, level).unwrap();
                    assert(self@.occupies(chain@ as int, part@, level));
                    assert(!self@.level_free(members[k as int], level));
                }
                return false;
            }
            k = k + 1;
        }
        true
    }

    /// The lowest level that is free on every one of `parts`.
    fn _find_level(&self, parts: &[PartIndex]) -> (found: Option<ChainLevel>)
        requires
            self.wf(),
            forall|k: int| 0 <= k < parts@.len() ==> (#[trigger] parts@[k])@ < self@.parts.len(),
        ensures
            found == self@.first_free_level(identities(parts@)),
    {
        if self._level_free(parts, ChainLevel::Bottom) {
            Some(ChainLevel::Bottom)
        } else if self._level_free(parts, ChainLevel::Middle) {
            Some(ChainLevel::Middle)
        } else if self._level_free(parts, ChainLevel::Top) {
            Some(ChainLevel::Top)
        } else {
            None
        }
    }

    fn _add_chain(&mut self, level: ChainLevel, parts: &[PartIndex]) -> (index: ChainIndex)
        ensures
            index@ == old(self)@.chains.len(),
            final(self)@ == old(self)@.with_chain(level, identities(parts@)),
            final(self).parts == old(self).parts,
            final(self).level_occupied == old(self).level_occupied,
            final(self).positions == old(self).positions,
    {
        let index = self.chains.len();
        let parts = slice_to_vec(parts);
        self.chains.push((level, parts));
        proof {
            assert(self@.parts =~= old(self)@.parts);
            assert(self@.chains =~= old(self)@.chains.push(
                ChainView { level, members: identities(parts@) },
            ));
        }
        ChainIndex(index)
    }

    /// Joins `parts`, in the order given, by a new chain on the lowest level
    /// that is free on all of them. Where no level is free on all of them the
    /// circuit stays as it was.
    ///
    /// A part may be named more than once: the chain then lists it as often,
    /// and takes the level on it once.
    pub fn connect(&mut self, parts: &[PartIndex]) -> (made: Result<ChainIndex, ConnectError>)
        requires
            old(self).wf(),
            forall|k: int|
                0 <= k < parts@.len() ==> (#[trigger] parts@[k])@ < old(self)@.parts.len(),
        ensures
            final(self).wf(),
            match old(self)@.first_free_level(identities(parts@)) {
                Some(level) => {
                    &&& made is Ok
                    &&& made->Ok_0@ == old(self)@.chains.len()
                    &&& final(self)@ == old(self)@.with_chain(level, identities(parts@))
                },
                None => made == Err::<ChainIndex, ConnectError>(ConnectError::NoFreeLevel)
                    && *final(self) == *old(self),
            },
    {
        let ghost members = identities(parts@);
        let ghost before = self@;
        let level = match self._find_level(parts) {
            Some(level) => level,
            None => {
                return Err(ConnectError::NoFreeLevel);
            },
        };
        let chain = self._add_chain(level, parts);
        let ghost after = self@;
        proof {
            before.lemma_with_chain_valid(level, members);
        }
        let at: usize = level.ordinal() as usize;
        let mut k: usize = 0;
        while k < parts.len()
            invariant
                k <= parts@.len(),
                at == level.spec_ordinal(),
                members == identities(parts@),
                self@ == after,
                self.parts == old(self).parts,
                self.positions == old(self).positions,
                self.level_occupied@.len() == old(self).level_occupied@.len(),
                old(self).wf(),
                forall|j: int|
                    0 <= j < parts@.len() ==> (#[trigger] parts@[j])@ < old(self)@.parts.len(),
                forall|part: int, l: ChainLevel|
                    0 <= part < self.level_occupied@.len() ==> #[trigger] slot(
                        self.level_occupied@,
                        part,
                        l,
                    ) == entered(
                        old(self).level_occupied@,
                        members.take(k as int),
                        level,
                        chain,
                        part,
                        l,
                    ),
            decreases parts@.len() - k,
        {
            let part = parts[k];
            assert(part@ < old(self)@.parts.len());
            let ghost table = self.level_occupied@;
            self.level_occupied[part.0][at] = Some(chain);
            proof {
                let done = members.take(k as int);
                assert(members.take(k + 1) =~= done.push(part@));
                assert forall|q: int, l: ChainLevel|
                    0 <= q < self.level_occupied@.len() implies #[trigger] slot(
                    self.level_occupied@,
                    q,
                    l,
                ) == entered(old(self).level_occupied@, done.push(part@), level, chain, q, l) by {
                    assert(slot(table, q, l) == entered(
                        old(self).level_occupied@,
                        done,
                        level,
                        chain,
                        q,
                        l,
                    ));
                    if q == part.0 && l == level {
                        assert(done.push(part@).last() == part@);
                    } else {
                        assert(slot(self.level_occupied@, q, l) == slot(table, q, l));
                    }
                }
            }
            k = k + 1;
        }
        proof {
            assert(members.take(k as int) =~= members);
            assert forall|q: int, l: ChainLevel|
                0 <= q < self.level_occupied@.len() implies match #[trigger] slot(
                self.level_occupied@,
                q,
                l,
            ) {
                Some(c) => after.occupies(c@ as int, q as nat, l),
                None => after.level_free(q as nat, l),
            } by {
                before.lemma_with_chain_occupancy(level, members, q as nat, l);
                assert(slot(old(self).level_occupied@, q, l) is Some ==> before.occupies(
                    slot(old(self).level_occupied@, q, l).unwrap()@ as int,
                    q as nat,
                    l,
                ));
            }
        }
        Ok(chain)
    }

    /// The save file of this circuit: every part with its grid slot, every
    /// chain as the list of its connections, and the fixed camera settings.
    pub fn to_save_file(&self) -> (file: SaveFile)
        requires
            self.wf(),
        ensures
            file@ == save_file_of(self@),
    {
        let mut parts: Vec<Part> = Vec::new();
        let mut index: usize = 0;
        while index < self.positions.len()
            invariant
                self.wf(),
                index <= self.positions@.len(),
                parts@.len() == index,
                forall|i: int| 0 <= i < index ==> #[trigger] parts@[i] == part_record(self@, i),
            decreases self.positions@.len() - index,
        {
            let (x, y) = self.positions[index];
            let (part, value) = self.parts[index];
            parts.push(Part::new(part, x, y, value));
            index = index + 1;
        }
        let mut chains: Vec<Chain> = Vec::new();
        let mut made: usize = 0;
        while made < self.chains.len()
            invariant
                made <= self.chains@.len(),
                chains@.len() == made,
                forall|c: int|
                    0 <= c < made ==> (#[trigger] chains@[c])@ == connections_of(
                        self@.chains[c].members,
                        self@.chains[c].level,
                        Rotation::Clockwise,
                    ),
            decreases self.chains@.len() - made,
        {
            let level = self.chains[made].0;
            let chain = Chain::new(self.chains[made].1.as_slice(), level, Rotation::Clockwise);
            chains.push(chain);
            made = made + 1;
        }
        let file = SaveFile {
            version: FORMAT_VERSION,
            zoom: DEFAULT_ZOOM,
            view_dimensions: Dimensions { width: DEFAULT_VIEW_SIZE, height: DEFAULT_VIEW_SIZE },
            parts,
            chains,
        };
        proof {
            assert(file@.parts =~= save_file_of(self@).parts);
            assert(file@.chains =~= save_file_of(self@).chains);
        }
        file
    }

    /// The number of parts.
    pub fn part_count(&self) -> (count: usize)
        ensures
            count == self@.parts.len(),
    {
        self.parts.len()
    }

    /// Whether `part` is a part of this circuit.
    pub fn contains(&self, part: PartIndex) -> (known: bool)
        ensures
            known == (part@ < self@.parts.len()),
    {
        part.0 < self.parts.len()
    }

    /// The grid slot of `part`.
    pub fn position(&self, part: PartIndex) -> (at: (i32, i32))
        requires
            self.wf(),
            part@ < self@.parts.len(),
        ensures
            at.0 == self@.position(part@).0,
            at.1 == self@.position(part@).1,
    {
        self.positions[part.0]
    }

    /// The chain that holds `level` on `part`, if any.
    pub fn level_occupant(&self, part: PartIndex, level: ChainLevel) -> (chain: Option<ChainIndex>)
        requires
            self.wf(),
            part@ < self@.parts.len(),
        ensures
            match chain {
                Some(chain) => self@.occupant(part@, level) == Some(chain@),
                None => self@.occupant(part@, level) is None,
            },
    {
        let at: usize = level.ordinal() as usize;
        let chain = self.level_occupied[part.0][at];
        proof {
            assert(chain == slot(self.level_occupied@, part.0 as int, level));
            if let Some(holder) = chain {
                self@.lemma_occupant(holder@, part@, level);
            }
        }
        chain
    }
}

} // verus!
