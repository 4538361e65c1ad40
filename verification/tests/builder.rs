use enigma::BuildError;
use enigma::EnigmaBuilder;
use enigma::PlugboardConnection;
use enigma::Reflector;
use enigma::Rotor;
use enigma::RotorPlacement;

#[test]
fn builder_reports_missing_right_rotor_and_allows_retry() {
    let mut builder = EnigmaBuilder::init()
        .reflector(Reflector::b())
        .rotor_left(Rotor::enigma_i_wehrmacht_i())
        .rotor_middle(Rotor::enigma_i_wehrmacht_ii());
    match builder.build() {
        Err(BuildError::RotorError(placement, message)) => {
            assert_eq!(placement, RotorPlacement::Right);
            assert_eq!(message, "Right rotor is required");
        },
        _ => panic!("expected the missing right rotor to be reported"),
    }
    builder = builder.rotor_right(Rotor::enigma_i_wehrmacht_iii());
    assert!(builder.build().is_ok());
}

#[test]
fn builder_reports_each_missing_part_in_order() {
    let mut empty = EnigmaBuilder::init();
    match empty.build() {
        Err(BuildError::RotorError(placement, message)) => {
            assert_eq!(placement, RotorPlacement::Left);
            assert_eq!(message, "Left rotor is required");
        },
        _ => panic!("expected the missing left rotor to be reported"),
    }
    let mut no_reflector = EnigmaBuilder::init()
        .rotor_left(Rotor::enigma_i_wehrmacht_i())
        .rotor_middle(Rotor::enigma_i_wehrmacht_ii())
        .rotor_right(Rotor::enigma_i_wehrmacht_iii());
    match no_reflector.build() {
        Err(BuildError::ReflectorError(message)) => {
            assert_eq!(message, "Reflector is required");
        },
        _ => panic!("expected the missing reflector to be reported"),
    }
}

#[test]
fn builder_reports_missing_entry_disk_after_a_build_consumed_it() {
    let mut builder = EnigmaBuilder::init()
        .reflector(Reflector::b())
        .rotor_left(Rotor::enigma_i_wehrmacht_i())
        .rotor_middle(Rotor::enigma_i_wehrmacht_ii())
        .rotor_right(Rotor::enigma_i_wehrmacht_iii());
    assert!(builder.build().is_ok());
    builder = builder
        .reflector(Reflector::b())
        .rotor_left(Rotor::enigma_i_wehrmacht_i())
        .rotor_middle(Rotor::enigma_i_wehrmacht_ii())
        .rotor_right(Rotor::enigma_i_wehrmacht_iii());
    match builder.build() {
        Err(BuildError::EntryDiskError(message)) => {
            assert_eq!(message, "Entry disk is required");
        },
        _ => panic!("expected the missing entry disk to be reported"),
    }
}

#[test]
fn built_engine_encodes_with_its_plugboard() {
    let connections = vec![
        PlugboardConnection::create("AB").unwrap(),
        PlugboardConnection::create("EF").unwrap(),
        PlugboardConnection::create("HI").unwrap(),
        PlugboardConnection::create("NO").unwrap(),
        PlugboardConnection::create("TU").unwrap(),
        PlugboardConnection::create("XY").unwrap(),
    ];
    let mut builder = EnigmaBuilder::init()
        .reflector(Reflector::b())
        .rotor_left(Rotor::enigma_i_wehrmacht_i())
        .rotor_middle(Rotor::enigma_i_wehrmacht_ii())
        .rotor_right(Rotor::enigma_i_wehrmacht_iii())
        .plugboard_connections(connections);
    let mut engine = builder.build().unwrap();
    let result = engine
        .encode(
            String::from("AAA"),
            String::from("AAA"),
            String::from("ABCDEFGHIJKLMNOPQRSTUWXYZZYXWUTSRQPONMLKJIHGFEDCBAABCDEFGHIJKLMNOPQRST"),
        )
        .unwrap();
    // with the rotors at AAA the message key encodes like the first three
    // characters of the all-'A' vector under the same plugboard
    assert_eq!(
        result.encoded_message,
        "BDFLGOZAUWBRYCNAYNRYTJGEIFFAAJFEFOSPVKCMNLRYVGKFFKUYQGKYJYBPZXCZYAGLYF"
    );
}
