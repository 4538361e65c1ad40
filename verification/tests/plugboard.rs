use enigma::Plugboard;
use enigma::PlugboardConnection;

/// Reads the full 26-entry mapping out through the public lookups.
fn mapping_of(plugboard: &Plugboard) -> Vec<char> {
    (0u8..26).map(|i| plugboard.encode_from_left(i)).collect()
}

/// An expected mapping, updated entry by entry as the original test did.
fn set(expected: &mut Vec<char>, from: char, to: char) {
    let i = (from as u8 - b'A') as usize;
    expected[i] = to;
}

#[test]
fn test_plugboard() {
    let mut plugboard = Plugboard::identity();
    let mut expected_mapping: Vec<char> = ('A'..='Z').collect();
    assert_eq!(expected_mapping, mapping_of(&plugboard));

    assert!(plugboard.connect('A', 'B').is_ok());
    set(&mut expected_mapping, 'A', 'B');
    set(&mut expected_mapping, 'B', 'A');
    assert_eq!(expected_mapping, mapping_of(&plugboard));

    assert!(plugboard.connect('C', 'D').is_ok());
    set(&mut expected_mapping, 'C', 'D');
    set(&mut expected_mapping, 'D', 'C');
    assert_eq!(expected_mapping, mapping_of(&plugboard));

    assert!(plugboard.connect('B', 'C').is_ok());
    set(&mut expected_mapping, 'A', 'A');
    set(&mut expected_mapping, 'B', 'C');
    set(&mut expected_mapping, 'C', 'B');
    set(&mut expected_mapping, 'D', 'D');
    assert_eq!(expected_mapping, mapping_of(&plugboard));

    assert!(plugboard.disconnect('B').is_ok());
    set(&mut expected_mapping, 'B', 'B');
    set(&mut expected_mapping, 'C', 'C');
    assert_eq!(expected_mapping, mapping_of(&plugboard));
}

#[test]
fn expect_disconnect_executed_by_connecting_same_character() {
    let mut plugboard = Plugboard::identity();
    let mut expected_mapping: Vec<char> = ('A'..='Z').collect();

    assert!(plugboard.connect('A', 'B').is_ok());
    set(&mut expected_mapping, 'A', 'B');
    set(&mut expected_mapping, 'B', 'A');
    assert_eq!(expected_mapping, mapping_of(&plugboard));

    assert!(plugboard.connect('B', 'B').is_ok());
    set(&mut expected_mapping, 'A', 'A');
    set(&mut expected_mapping, 'B', 'B');
    assert_eq!(expected_mapping, mapping_of(&plugboard));
}

#[test]
fn error_on_connect_for_unsupported_from_character() {
    let mut plugboard = Plugboard::identity();
    assert_eq!(
        plugboard.connect('1', 'A').unwrap_err().message(),
        "Character '1' is not in supported alphabet: ABCDEFGHIJKLMNOPQRSTUVWXYZ"
    );
}

#[test]
fn error_on_connect_for_unsupported_to_character() {
    let mut plugboard = Plugboard::identity();
    assert_eq!(
        plugboard.connect('A', '2').unwrap_err().message(),
        "Character '2' is not in supported alphabet: ABCDEFGHIJKLMNOPQRSTUVWXYZ"
    );
}

#[test]
fn error_on_disconnect_for_unsupported_character() {
    let mut plugboard = Plugboard::identity();
    assert_eq!(
        plugboard.disconnect('3').unwrap_err().message(),
        "Character '3' is not in supported alphabet: ABCDEFGHIJKLMNOPQRSTUVWXYZ"
    );
}

#[test]
fn plugboard_round_trip_after_rewiring() {
    let mut plugboard = Plugboard::identity();
    assert!(plugboard.connect('A', 'E').is_ok());
    assert!(plugboard.connect('G', 'L').is_ok());
    assert!(plugboard.connect('A', 'G').is_ok());
    assert!(plugboard.disconnect('E').is_ok());
    for c in 'A'..='Z' {
        let i = plugboard.encode_from_right(c);
        assert_eq!(plugboard.encode_from_left(i), c);
    }
}

#[test]
fn connection_list_parsing() {
    let list = enigma::plugboard::parse_connections("AE,BG,GH").unwrap();
    assert_eq!(list.len(), 3);
    assert_eq!(list[0].left(), 'A');
    assert_eq!(list[0].right(), 'E');
    assert_eq!(list[2].left(), 'G');
    assert_eq!(list[2].right(), 'H');

    // the empty prompt answer and stray commas mean no cables
    assert_eq!(enigma::plugboard::parse_connections("").unwrap().len(), 0);
    assert_eq!(enigma::plugboard::parse_connections("AE,,BG").unwrap().len(), 2);

    // every bad piece is reported, joined in order
    assert_eq!(
        enigma::plugboard::parse_connections("AEX,B1").unwrap_err(),
        "Expected only pairs (2 values) split by comma character (,), but found: AEX, \
         Value '1' is not allowed as part of plugboard. Allowed: ABCDEFGHIJKLMNOPQRSTUVWXYZ"
    );
}

#[test]
fn connection_pair_parsing() {
    let ok = PlugboardConnection::create("AE").unwrap();
    let mut plugboard = Plugboard::identity();
    assert!(plugboard.connect(ok.left(), ok.right()).is_ok());
    assert_eq!(plugboard.encode_from_right('A'), 4);

    assert_eq!(
        PlugboardConnection::create("AEX").unwrap_err().message(),
        "Expected only pairs (2 values) split by comma character (,), but found: AEX"
    );
    assert_eq!(
        PlugboardConnection::create("A1").unwrap_err().message(),
        "Value '1' is not allowed as part of plugboard. Allowed: ABCDEFGHIJKLMNOPQRSTUVWXYZ"
    );
}
