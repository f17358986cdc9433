use spintronics::{
    Chain, ChainLevel, Circuit, Component, Connection, Dimensions, Part, Rotation,
};

#[test]
fn envelope_is_fixed() {
    let empty = Circuit::new().to_save_file();
    assert_eq!(empty.version, 1);
    assert_eq!(empty.zoom, 1);
    assert_eq!(empty.view_dimensions, Dimensions { width: 2000, height: 2000 });

    let mut circuit = Circuit::new();
    let a = circuit.motor();
    circuit.connect(&[a]).unwrap();
    let file = circuit.to_save_file();
    assert_eq!(file.version, 1);
    assert_eq!(file.zoom, 1);
    assert_eq!(file.view_dimensions, Dimensions { width: 2000, height: 2000 });
}

#[test]
fn chain_new_repeats_level_and_rotation_for_each_member() {
    let mut circuit = Circuit::new();
    let a = circuit.motor();
    let b = circuit.resistor(1);
    let c = circuit.junction();
    let chain = Chain::new(&[c, a, b], ChainLevel::Top, Rotation::CounterClockwise);
    assert_eq!(
        chain.connections,
        vec![
            Connection { part_index: 2, level: ChainLevel::Top, cw: Rotation::CounterClockwise },
            Connection { part_index: 0, level: ChainLevel::Top, cw: Rotation::CounterClockwise },
            Connection { part_index: 1, level: ChainLevel::Top, cw: Rotation::CounterClockwise },
        ]
    );
}

#[test]
fn chain_new_of_no_part_is_the_default_chain() {
    let chain = Chain::new(&[], ChainLevel::Bottom, Rotation::Clockwise);
    assert!(chain.connections.is_empty());
    assert_eq!(chain, Chain::default());
}

#[test]
fn part_new_keeps_its_arguments() {
    let part = Part::new(Component::Resistor, -5, 7, Some(42));
    assert_eq!(part.name, Component::Resistor);
    assert_eq!(part.x, -5);
    assert_eq!(part.y, 7);
    assert_eq!(part.value, Some(42));
}

#[test]
fn levels_are_written_as_0_1_2() {
    assert_eq!(ChainLevel::Bottom.ordinal(), 0);
    assert_eq!(ChainLevel::Middle.ordinal(), 1);
    assert_eq!(ChainLevel::Top.ordinal(), 2);
}

#[test]
fn levels_read_back() {
    for level in [ChainLevel::Bottom, ChainLevel::Middle, ChainLevel::Top] {
        assert_eq!(ChainLevel::from_ordinal(level.ordinal()), Some(level));
    }
    assert_eq!(ChainLevel::from_ordinal(0), Some(ChainLevel::Bottom));
    assert_eq!(ChainLevel::from_ordinal(2), Some(ChainLevel::Top));
    assert_eq!(ChainLevel::from_ordinal(3), None);
    assert_eq!(ChainLevel::from_ordinal(255), None);
}

#[test]
fn rotation_is_written_as_a_flag() {
    assert!(Rotation::Clockwise.is_clockwise());
    assert!(!Rotation::CounterClockwise.is_clockwise());
    assert_eq!(Rotation::from_clockwise(true), Rotation::Clockwise);
    assert_eq!(Rotation::from_clockwise(false), Rotation::CounterClockwise);
    for rotation in [Rotation::Clockwise, Rotation::CounterClockwise] {
        assert_eq!(Rotation::from_clockwise(rotation.is_clockwise()), rotation);
    }
}

#[test]
fn kinds_are_written_in_lower_case() {
    assert_eq!(Component::Motor.tag(), "motor");
    assert_eq!(Component::Resistor.tag(), "resistor");
    assert_eq!(Component::Junction.tag(), "junction");
}

#[test]
fn kinds_read_back() {
    for kind in [Component::Motor, Component::Resistor, Component::Junction] {
        assert_eq!(Component::from_tag(kind.tag()), Some(kind));
    }
    assert_eq!(Component::from_tag("Motor"), None);
    assert_eq!(Component::from_tag(""), None);
    assert_eq!(Component::from_tag("capacitor"), None);
}

#[test]
fn save_file_reads_back_to_the_circuit() {
    let mut circuit = Circuit::new();
    let kinds = [
        (Component::Junction, None),
        (Component::Resistor, Some(330)),
        (Component::Motor, None),
        (Component::Resistor, Some(47)),
        (Component::Junction, None),
    ];
    let mut parts = Vec::new();
    for (kind, value) in kinds {
        parts.push(match kind {
            Component::Motor => circuit.motor(),
            Component::Junction => circuit.junction(),
            Component::Resistor => circuit.resistor(value.unwrap()),
        });
    }
    let requests: Vec<Vec<usize>> = vec![vec![4, 0], vec![1, 2, 3], vec![0, 1], vec![3, 4, 2]];
    let mut levels = Vec::new();
    for request in requests.iter() {
        let members: Vec<_> = request.iter().map(|i| parts[*i]).collect();
        let chain = circuit.connect(&members).unwrap();
        let first = members[0];
        let level = [ChainLevel::Bottom, ChainLevel::Middle, ChainLevel::Top]
            .into_iter()
            .find(|l| circuit.level_occupant(first, *l) == Some(chain))
            .unwrap();
        levels.push(level);
    }

    let file = circuit.to_save_file();

    assert_eq!(file.parts.len(), kinds.len());
    for (i, part) in file.parts.iter().enumerate() {
        assert_eq!((part.name, part.value), kinds[i]);
        assert_eq!((part.x, part.y), circuit.position(parts[i]));
    }
    assert_eq!(file.chains.len(), requests.len());
    for (c, chain) in file.chains.iter().enumerate() {
        let members: Vec<usize> = chain.connections.iter().map(|x| x.part_index as usize).collect();
        assert_eq!(members, requests[c]);
        for connection in chain.connections.iter() {
            assert_eq!(connection.level, levels[c]);
            assert_eq!(connection.cw, Rotation::Clockwise);
        }
    }
    assert_eq!(
        levels,
        vec![ChainLevel::Bottom, ChainLevel::Bottom, ChainLevel::Middle, ChainLevel::Middle]
    );
}
