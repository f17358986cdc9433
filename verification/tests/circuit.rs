use spintronics::circuit::{ChainLevel, Circuit, Component, ConnectError, Part, PartIndex, Rotation};
use spintronics::save_file::{Chain, Connection};

fn levels_of(circuit: &Circuit) -> Vec<ChainLevel> {
    circuit
        .to_save_file()
        .chains
        .iter()
        .map(|chain| chain.connections[0].level)
        .collect()
}

fn members_of(chain: &Chain) -> Vec<u32> {
    chain.connections.iter().map(|c| c.part_index).collect()
}

#[test]
fn new_circuit_is_empty() {
    let circuit = Circuit::new();
    assert_eq!(circuit.part_count(), 0);
    let file = circuit.to_save_file();
    assert!(file.parts.is_empty());
    assert!(file.chains.is_empty());
    assert_eq!(circuit, Circuit::default());
}

#[test]
fn identities_follow_creation_order() {
    let mut circuit = Circuit::new();
    let a = circuit.junction();
    let b = circuit.resistor(10);
    let c = circuit.motor();
    let d = circuit.motor();
    let e = circuit.resistor(20);
    let f = circuit.junction();
    let got: Vec<usize> = [a, b, c, d, e, f].iter().map(|p| p.index()).collect();
    assert_eq!(got, vec![0, 1, 2, 3, 4, 5]);
    assert_eq!(circuit.part_count(), 6);
}

#[test]
fn identity_converts_to_u32() {
    let mut circuit = Circuit::new();
    circuit.motor();
    circuit.motor();
    let third = circuit.resistor(5);
    assert_eq!(u32::from(third), 2);
    assert_eq!(third.index(), 2);
}

#[test]
fn contains_tells_known_parts() {
    let mut small = Circuit::new();
    let s0 = small.motor();
    let mut large = Circuit::new();
    large.motor();
    let l1 = large.motor();
    assert!(small.contains(s0));
    assert!(large.contains(l1));
    assert!(!small.contains(l1));
}

#[test]
fn parts_keep_kind_and_value() {
    let mut circuit = Circuit::new();
    circuit.motor();
    circuit.resistor(1000);
    circuit.junction();
    let file = circuit.to_save_file();
    assert_eq!(file.parts[0], Part::new(Component::Motor, 0, 0, None));
    assert_eq!(file.parts[1], Part::new(Component::Resistor, 300, 0, Some(1000)));
    assert_eq!(file.parts[2], Part::new(Component::Junction, 0, -300, None));
}

#[test]
fn only_resistors_carry_a_value() {
    let mut circuit = Circuit::new();
    circuit.resistor(0);
    circuit.motor();
    circuit.junction();
    circuit.resistor(4_000_000_000);
    let file = circuit.to_save_file();
    for part in file.parts.iter() {
        assert_eq!(part.value.is_some(), part.name == Component::Resistor);
    }
    assert_eq!(file.parts[0].value, Some(0));
    assert_eq!(file.parts[3].value, Some(4_000_000_000));
}

#[test]
fn first_connect_takes_bottom() {
    let mut circuit = Circuit::new();
    let a = circuit.motor();
    let b = circuit.resistor(1);
    let made = circuit.connect(&[a, b]);
    assert_eq!(made.map(|c| c.index()), Ok(0));
    assert_eq!(levels_of(&circuit), vec![ChainLevel::Bottom]);
}

#[test]
fn connect_picks_lowest_level_free_on_all_members() {
    let mut circuit = Circuit::new();
    let a = circuit.junction();
    let b = circuit.junction();
    let c = circuit.junction();
    let d = circuit.junction();
    // a-b on Bottom, c-d on Bottom (disjoint), b-c on Middle, a-d on Middle.
    assert_eq!(circuit.connect(&[a, b]).map(|x| x.index()), Ok(0));
    assert_eq!(circuit.connect(&[c, d]).map(|x| x.index()), Ok(1));
    assert_eq!(circuit.connect(&[b, c]).map(|x| x.index()), Ok(2));
    assert_eq!(circuit.connect(&[a, d]).map(|x| x.index()), Ok(3));
    // a has Bottom and Middle taken; with c (Bottom, Middle taken) only Top is left.
    assert_eq!(circuit.connect(&[a, c]).map(|x| x.index()), Ok(4));
    assert_eq!(
        levels_of(&circuit),
        vec![
            ChainLevel::Bottom,
            ChainLevel::Bottom,
            ChainLevel::Middle,
            ChainLevel::Middle,
            ChainLevel::Top
        ]
    );
}

#[test]
fn connect_skips_a_level_taken_on_one_member_only() {
    let mut circuit = Circuit::new();
    let a = circuit.motor();
    let b = circuit.resistor(1);
    let c = circuit.resistor(2);
    let d = circuit.resistor(3);
    circuit.connect(&[a, b]).unwrap();
    circuit.connect(&[a, c]).unwrap();
    // Bottom and Middle are free on d but taken on a.
    circuit.connect(&[d, a]).unwrap();
    assert_eq!(
        levels_of(&circuit),
        vec![ChainLevel::Bottom, ChainLevel::Middle, ChainLevel::Top]
    );
    assert_eq!(circuit.level_occupant(d, ChainLevel::Bottom), None);
    assert_eq!(circuit.level_occupant(d, ChainLevel::Middle), None);
    assert_eq!(circuit.level_occupant(d, ChainLevel::Top).map(|x| x.index()), Some(2));
}

#[test]
fn occupancy_records_the_chain_on_every_member() {
    let mut circuit = Circuit::new();
    let a = circuit.motor();
    let b = circuit.resistor(1);
    let c = circuit.resistor(2);
    let first = circuit.connect(&[a, b]).unwrap();
    let second = circuit.connect(&[c, a]).unwrap();
    assert_eq!(circuit.level_occupant(a, ChainLevel::Bottom), Some(first));
    assert_eq!(circuit.level_occupant(b, ChainLevel::Bottom), Some(first));
    assert_eq!(circuit.level_occupant(c, ChainLevel::Bottom), None);
    assert_eq!(circuit.level_occupant(a, ChainLevel::Middle), Some(second));
    assert_eq!(circuit.level_occupant(c, ChainLevel::Middle), Some(second));
    assert_eq!(circuit.level_occupant(b, ChainLevel::Middle), None);
    assert_eq!(circuit.level_occupant(a, ChainLevel::Top), None);
}

#[test]
fn fourth_connect_on_a_full_part_fails_and_changes_nothing() {
    let mut circuit = Circuit::new();
    let hub = circuit.motor();
    let a = circuit.resistor(1);
    let b = circuit.resistor(2);
    let c = circuit.resistor(3);
    let d = circuit.resistor(4);
    circuit.connect(&[hub, a]).unwrap();
    circuit.connect(&[hub, b]).unwrap();
    circuit.connect(&[hub, c]).unwrap();
    let before = circuit.clone();
    assert_eq!(circuit.connect(&[hub, d]), Err(ConnectError::NoFreeLevel));
    assert_eq!(circuit, before);
    assert_eq!(circuit.to_save_file(), before.to_save_file());
    for level in [ChainLevel::Bottom, ChainLevel::Middle, ChainLevel::Top] {
        assert_eq!(circuit.level_occupant(d, level), None);
        assert_eq!(
            circuit.level_occupant(hub, level),
            before.level_occupant(hub, level)
        );
    }
    // The same request fails the same way again.
    assert_eq!(circuit.connect(&[hub, d]), Err(ConnectError::NoFreeLevel));
    assert_eq!(circuit, before);
    // Parts that are not full can still be joined.
    assert_eq!(circuit.connect(&[d, a]).map(|x| x.index()), Ok(3));
}

#[test]
fn connect_fails_when_members_block_every_level_between_them() {
    let mut circuit = Circuit::new();
    let a = circuit.junction();
    let b = circuit.junction();
    let x = circuit.junction();
    let y = circuit.junction();
    let z = circuit.junction();
    circuit.connect(&[a, x]).unwrap(); // Bottom on a
    circuit.connect(&[b, x]).unwrap(); // Middle on b (Bottom taken on x)
    circuit.connect(&[b, y]).unwrap(); // Bottom on b
    circuit.connect(&[a, y, z]).unwrap(); // Middle on a
    circuit.connect(&[b, z]).unwrap(); // Top on b
    // a: Bottom, Middle taken. b: all taken. Together nothing is free.
    let before = circuit.clone();
    assert_eq!(circuit.connect(&[a, b]), Err(ConnectError::NoFreeLevel));
    assert_eq!(circuit, before);
}

#[test]
fn motor_and_three_resistors() {
    let mut circuit = Circuit::new();
    let motor = circuit.motor();
    let r1 = circuit.resistor(1000);
    let r2 = circuit.resistor(500);
    let r3 = circuit.resistor(200);
    circuit.connect(&[motor, r1]).unwrap();
    circuit.connect(&[motor, r2, r3]).unwrap();

    assert_eq!(circuit.level_occupant(motor, ChainLevel::Bottom).map(|c| c.index()), Some(0));
    assert_eq!(circuit.level_occupant(r1, ChainLevel::Bottom).map(|c| c.index()), Some(0));
    assert_eq!(circuit.level_occupant(motor, ChainLevel::Middle).map(|c| c.index()), Some(1));
    assert_eq!(circuit.level_occupant(r2, ChainLevel::Middle).map(|c| c.index()), Some(1));
    assert_eq!(circuit.level_occupant(r3, ChainLevel::Middle).map(|c| c.index()), Some(1));
    assert_eq!(circuit.level_occupant(r2, ChainLevel::Bottom), None);
    assert_eq!(circuit.level_occupant(r3, ChainLevel::Bottom), None);

    let file = circuit.to_save_file();
    assert_eq!(file.chains.len(), 2);
    assert_eq!(
        file.chains[0].connections,
        vec![
            Connection { part_index: 0, level: ChainLevel::Bottom, cw: Rotation::Clockwise },
            Connection { part_index: 1, level: ChainLevel::Bottom, cw: Rotation::Clockwise },
        ]
    );
    assert_eq!(
        file.chains[1].connections,
        vec![
            Connection { part_index: 0, level: ChainLevel::Middle, cw: Rotation::Clockwise },
            Connection { part_index: 2, level: ChainLevel::Middle, cw: Rotation::Clockwise },
            Connection { part_index: 3, level: ChainLevel::Middle, cw: Rotation::Clockwise },
        ]
    );
    assert_eq!(file.chains[0].connections[0].level.ordinal(), 0);
    assert_eq!(file.chains[1].connections[0].level.ordinal(), 1);
    assert_eq!(
        file.parts,
        vec![
            Part::new(Component::Motor, 0, 0, None),
            Part::new(Component::Resistor, 300, 0, Some(1000)),
            Part::new(Component::Resistor, 0, -300, Some(500)),
            Part::new(Component::Resistor, 300, -300, Some(200)),
        ]
    );
}

#[test]
fn one_chain_through_all_parts_keeps_the_order_given() {
    let mut circuit = Circuit::new();
    let motor = circuit.motor();
    let r1 = circuit.resistor(1000);
    let r2 = circuit.resistor(200);
    let r3 = circuit.resistor(500);
    circuit.connect(&[motor, r3, r2, r1]).unwrap();
    let file = circuit.to_save_file();
    assert_eq!(file.chains.len(), 1);
    assert_eq!(members_of(&file.chains[0]), vec![0, 3, 2, 1]);
    assert!(file.chains[0]
        .connections
        .iter()
        .all(|c| c.level == ChainLevel::Bottom && c.cw == Rotation::Clockwise));
}

#[test]
fn a_part_named_twice_takes_the_level_once() {
    let mut circuit = Circuit::new();
    let a = circuit.junction();
    let b = circuit.junction();
    let made = circuit.connect(&[a, b, a]).unwrap();
    assert_eq!(made.index(), 0);
    assert_eq!(circuit.level_occupant(a, ChainLevel::Bottom), Some(made));
    assert_eq!(circuit.level_occupant(a, ChainLevel::Middle), None);
    assert_eq!(circuit.level_occupant(a, ChainLevel::Top), None);
    let file = circuit.to_save_file();
    assert_eq!(members_of(&file.chains[0]), vec![0, 1, 0]);
    // Two levels are still left on a.
    assert!(circuit.connect(&[a]).is_ok());
    assert!(circuit.connect(&[a, a]).is_ok());
    assert_eq!(circuit.connect(&[a]), Err(ConnectError::NoFreeLevel));
}

#[test]
fn a_chain_through_no_part_takes_bottom() {
    let mut circuit = Circuit::new();
    let a = circuit.motor();
    circuit.connect(&[a]).unwrap();
    let none: [PartIndex; 0] = [];
    let made = circuit.connect(&none).unwrap();
    assert_eq!(made.index(), 1);
    let file = circuit.to_save_file();
    assert_eq!(file.chains.len(), 2);
    assert!(file.chains[1].connections.is_empty());
    assert_eq!(circuit.level_occupant(a, ChainLevel::Middle), None);
}

#[test]
fn saving_twice_gives_the_same_file() {
    let mut circuit = Circuit::new();
    let a = circuit.motor();
    let b = circuit.resistor(7);
    circuit.connect(&[a, b]).unwrap();
    let before = circuit.clone();
    let first = circuit.to_save_file();
    let second = circuit.to_save_file();
    assert_eq!(first, second);
    assert_eq!(circuit, before);
}
