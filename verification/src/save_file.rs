//! The save file: what a circuit looks like to the simulator.
//!
//! A save file lists every part with its kind, grid slot and value, and every
//! chain as a flat list of connections, each of which repeats the chain's
//! level and rotation next to the part it touches.

use vstd::prelude::*;
use crate::layout::lemma_position_fits;
use crate::circuit::{identities, ChainLevel, Component, Part, PartIndex, Rotation};
use crate::model::{CircuitView, PartView};

verus! {

/// Version of the file format.
pub const FORMAT_VERSION: u32 = 1;

/// Camera zoom that every save file starts with.
pub const DEFAULT_ZOOM: u32 = 1;

/// Width and height of the view that every save file starts with.
pub const DEFAULT_VIEW_SIZE: u32 = 2000;

/// Size of the camera view, in whole units.
#[derive(Debug, Clone, Copy, PartialEq, Eq, Structural)]
pub struct Dimensions {
    pub width: u32,
    pub height: u32,
}

/// The place on a part where a chain connects.
#[derive(Debug, Clone, Copy, PartialEq, Eq, Structural)]
pub struct Connection {
    /// The identity of the part.
    pub part_index: u32,
    /// The level of the part that the chain runs on.
    pub level: ChainLevel,
    /// The direction in which the chain turns.
    pub cw: Rotation,
}

/// A series of parts that are connected by a chain.
#[derive(Debug, Clone, PartialEq, Eq)]
pub struct Chain {
    pub connections: Vec<Connection>,
}

/// A whole save file.
#[derive(Debug, Clone, PartialEq, Eq)]
pub struct SaveFile {
    /// Version of the file format.
    pub version: u32,
    /// Camera zoom, in whole units.
    pub zoom: u32,
    /// Camera view dimensions.
    pub view_dimensions: Dimensions,
    /// The parts, in creation order.
    pub parts: Vec<Part>,
    /// The chains, in creation order.
    pub chains: Vec<Chain>,
}

/// A save file as the model sees it.
pub struct SaveFileView {
    pub version: u32,
    pub zoom: u32,
    pub view_dimensions: Dimensions,
    pub parts: Seq<Part>,
    pub chains: Seq<Seq<Connection>>,
}

impl View for Chain {
    type V = Seq<Connection>;

    open spec fn view(&self) -> Seq<Connection> {
        self.connections@
    }
}

impl View for SaveFile {
    type V = SaveFileView;

    open spec fn view(&self) -> SaveFileView {
        SaveFileView {
            version: self.version,
            zoom: self.zoom,
            view_dimensions: self.view_dimensions,
            parts: self.parts@,
            chains: Seq::new(self.chains@.len(), |c: int| self.chains@[c]@),
        }
    }
}

/// The connections of a chain on `level`, turning `cw`, through `members`.
pub open spec fn connections_of(members: Seq<nat>, level: ChainLevel, cw: Rotation) -> Seq<
    Connection,
> {
    Seq::new(
        members.len(),
        |k: int| Connection { part_index: members[k] as u32, level, cw },
    )
}

/// The record of part `i` of a circuit.
pub open spec fn part_record(model: CircuitView, i: int) -> Part {
    Part {
        name: model.parts[i].kind,
        x: model.position(i as nat).0 as i32,
        y: model.position(i as nat).1 as i32,
        value: model.parts[i].value,
    }
}

/// The save file of a circuit.
pub open spec fn save_file_of(model: CircuitView) -> SaveFileView {
    SaveFileView {
        version: FORMAT_VERSION,
        zoom: DEFAULT_ZOOM,
        view_dimensions: Dimensions { width: DEFAULT_VIEW_SIZE, height: DEFAULT_VIEW_SIZE },
        parts: Seq::new(model.parts.len(), |i: int| part_record(model, i)),
        chains: Seq::new(
            model.chains.len(),
            |c: int|
                connections_of(model.chains[c].members, model.chains[c].level, Rotation::Clockwise),
        ),
    }
}

impl SaveFileView {
    /// Kind and value of every part that the file lists.
    pub open spec fn listed_parts(self) -> Seq<PartView> {
        Seq::new(
            self.parts.len(),
            |i: int| PartView { kind: self.parts[i].name, value: self.parts[i].value },
        )
    }

    /// The identities that chain `c` of the file runs through, in order.
    pub open spec fn listed_members(self, c: int) -> Seq<nat> {
        Seq::new(self.chains[c].len(), |k: int| self.chains[c][k].part_index as nat)
    }
}

/// In the save file of a circuit exactly the resistors carry a value.
pub proof fn lemma_only_resistors_carry_values(model: CircuitView)
    requires
        model.valid(),
    ensures
        forall|i: int|
            0 <= i < model.parts.len() ==> ((#[trigger] save_file_of(model).parts[i]).value.is_some()
                <==> save_file_of(model).parts[i].name == Component::Resistor),
{
    assert forall|i: int| 0 <= i < model.parts.len() implies ((#[trigger] save_file_of(
        model,
    ).parts[i]).value.is_some() <==> save_file_of(model).parts[i].name
        == Component::Resistor) by {
        assert(model.parts[i].value.is_some() <==> model.parts[i].kind == Component::Resistor);
    }
}

/// The save file of a circuit loses nothing: read back, it gives every
/// part's kind, value and grid slot, and every chain's members in order, each
/// with the chain's level and the rotation it was written with.
pub proof fn lemma_save_file_keeps_circuit(model: CircuitView)
    requires
        model.valid(),
    ensures
        save_file_of(model).listed_parts() == model.parts,
        forall|i: int|
            0 <= i < model.parts.len() ==> (#[trigger] save_file_of(model).parts[i]).x
                == model.position(i as nat).0 && save_file_of(model).parts[i].y == model.position(
                i as nat,
            ).1,
        save_file_of(model).chains.len() == model.chains.len(),
        forall|c: int|
            0 <= c < model.chains.len() ==> #[trigger] save_file_of(model).listed_members(c)
                == model.chains[c].members,
        forall|c: int, k: int|
            0 <= c < model.chains.len() && 0 <= k < model.chains[c].members.len() ==> (
            #[trigger] save_file_of(model).chains[c][k]).level == model.chains[c].level
                && save_file_of(model).chains[c][k].cw == Rotation::Clockwise,
{
    let file = save_file_of(model);
    assert(file.listed_parts() =~= model.parts);
    assert forall|i: int| 0 <= i < model.parts.len() implies (#[trigger] file.parts[i]).x
        == model.position(i as nat).0 && file.parts[i].y == model.position(i as nat).1 by {
        lemma_position_fits(i as nat, model.parts.len());
    }
    assert forall|c: int| 0 <= c < model.chains.len() implies #[trigger] file.listed_members(c)
        == model.chains[c].members by {
        let members = model.chains[c].members;
        assert forall|k: int| 0 <= k < members.len() implies file.listed_members(c)[k]
            == members[k] by {
            assert(members[k] < model.parts.len());
        }
        assert(file.listed_members(c) =~= members);
    }
}

impl Chain {
    /// The chain on `level`, turning `cw`, through `parts` in the order given.
    pub fn new(parts: &[PartIndex], level: ChainLevel, cw: Rotation) -> (chain: Self)
        ensures
            chain@ == connections_of(identities(parts@), level, cw),
    {
        let mut connections: Vec<Connection> = Vec::new();
        let mut k: usize = 0;
        while k < parts.len()
            invariant
                k <= parts@.len(),
                connections@ == connections_of(identities(parts@).take(k as int), level, cw),
            decreases parts@.len() - k,
        {
            let part_index: u32 = parts[k].into();
            connections.push(Connection { part_index, level, cw });
            proof {
                let members = identities(parts@);
                assert(members.take(k + 1) =~= members.take(k as int).push(parts@[k as int]@));
                assert(connections@ =~= connections_of(members.take(k + 1), level, cw));
            }
            k = k + 1;
        }
        proof {
            assert(identities(parts@).take(k as int) =~= identities(parts@));
        }
        Chain { connections }
    }
}

impl Default for Chain {
    /// A chain through no part.
    fn default() -> (chain: Self)
        ensures
            chain@.len() == 0,
    {
        Chain { connections: Vec::new() }
    }
}

impl Component {
    /// The word that the file uses for this kind of part.
    pub open spec fn spec_tag(self) -> Seq<char> {
        match self {
            Component::Motor => "motor"@,
            Component::Resistor => "resistor"@,
            Component::Junction => "junction"@,
        }
    }

    /// The kind of part that a word of the file stands for.
    pub open spec fn spec_from_tag(name: Seq<char>) -> Option<Component> {
        if name == "motor"@ {
            Some(Component::Motor)
        } else if name == "resistor"@ {
            Some(Component::Resistor)
        } else if name == "junction"@ {
            Some(Component::Junction)
        } else {
            None
        }
    }

    /// The word that the file uses for this kind of part.
    pub fn tag(self) -> (name: &'static str)
        ensures
            name@ == self.spec_tag(),
    {
        match self {
            Component::Motor => "motor",
            Component::Resistor => "resistor",
            Component::Junction => "junction",
        }
    }

    /// The kind of part that a word of the file stands for, if it is one of
    /// the three words.
    pub fn from_tag(name: &str) -> (kind: Option<Component>)
        ensures
            kind == Self::spec_from_tag(name@),
    {
        let word = name.to_owned();
        if word == "motor".to_owned() {
            Some(Component::Motor)
        } else if word == "resistor".to_owned() {
            Some(Component::Resistor)
        } else if word == "junction".to_owned() {
            Some(Component::Junction)
        } else {
            None
        }
    }

    /// Reading back the word written for a kind gives that kind.
    pub proof fn lemma_tag_round_trip(self)
        ensures
            Self::spec_from_tag(self.spec_tag()) == Some(self),
    {
        reveal_strlit("motor");
        reveal_strlit("resistor");
        reveal_strlit("junction");
        assert("motor"@.len() == 5);
        assert("resistor"@.len() == 8);
        assert("resistor"@[0] == 'r');
        assert("junction"@[0] == 'j');
    }
}

impl ChainLevel {
    /// The level that the file writes as `n`.
    pub open spec fn spec_from_ordinal(n: u8) -> Option<ChainLevel> {
        if n == 0 {
            Some(ChainLevel::Bottom)
        } else if n == 1 {
            Some(ChainLevel::Middle)
        } else if n == 2 {
            Some(ChainLevel::Top)
        } else {
            None
        }
    }

    /// The level that the file writes as `n`, if `n` is 0, 1 or 2.
    pub fn from_ordinal(n: u8) -> (level: Option<ChainLevel>)
        ensures
            level == Self::spec_from_ordinal(n),
    {
        if n == 0 {
            Some(ChainLevel::Bottom)
        } else if n == 1 {
            Some(ChainLevel::Middle)
        } else if n == 2 {
            Some(ChainLevel::Top)
        } else {
            None
        }
    }

    /// Reading back the number written for a level gives that level.
    pub proof fn lemma_ordinal_round_trip(self)
        ensures
            Self::spec_from_ordinal(self.spec_ordinal()) == Some(self),
    {
    }
}

impl Rotation {
    /// Whether the file writes this rotation as `true`.
    pub open spec fn spec_is_clockwise(self) -> bool {
        self == Rotation::Clockwise
    }

    /// The rotation that the file writes as `cw`.
    pub open spec fn spec_from_clockwise(cw: bool) -> Rotation {
        if cw {
            Rotation::Clockwise
        } else {
            Rotation::CounterClockwise
        }
    }

    /// Whether the file writes this rotation as `true`.
    pub fn is_clockwise(self) -> (cw: bool)
        ensures
            cw == self.spec_is_clockwise(),
    {
        match self {
            Rotation::Clockwise => true,
            Rotation::CounterClockwise => false,
        }
    }

    /// The rotation that the file writes as `cw`.
    pub fn from_clockwise(cw: bool) -> (rotation: Rotation)
        ensures
            rotation == Self::spec_from_clockwise(cw),
    {
        if cw {
            Rotation::Clockwise
        } else {
            Rotation::CounterClockwise
        }
    }

    /// Reading back the flag written for a rotation gives that rotation, and
    /// writing the rotation read from a flag gives that flag.
    pub proof fn lemma_clockwise_round_trip(self, cw: bool)
        ensures
            Self::spec_from_clockwise(self.spec_is_clockwise()) == self,
            Self::spec_from_clockwise(cw).spec_is_clockwise() == cw,
    {
    }
}

} // verus!
