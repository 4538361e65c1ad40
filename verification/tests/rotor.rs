use enigma::Rotor;
use enigma::SUPPORTED_ALPHABET;

#[test]
fn test_rotation() {
    let mut r = Rotor::new(SUPPORTED_ALPHABET, "Q").unwrap();
    assert_eq!(r.rotate(), false);
    assert_eq!(r.rotate(), false);
    assert_eq!(r.rotate(), false);
    assert_eq!(r.rotate(), false);
    assert_eq!(r.rotate(), false);
    assert_eq!(r.rotate(), false);
    assert_eq!(r.rotate(), false);
    assert_eq!(r.rotate(), false);
    assert_eq!(r.rotate(), false);
    assert_eq!(r.rotate(), false);
    assert_eq!(r.rotate(), false);
    assert_eq!(r.rotate(), false);
    assert_eq!(r.rotate(), false);
    assert_eq!(r.rotate(), false);
    assert_eq!(r.rotate(), false);
    assert_eq!(r.rotate(), false);
    assert_eq!(r.rotate(), true);
    assert_eq!(r.rotate(), false);
    assert_eq!(r.rotate(), false);
    assert_eq!(r.rotate(), false);
    assert_eq!(r.rotate(), false);
}

#[test]
fn rotor_will_cause_turnover_on_expected_points() {
    let mut r = Rotor::new(SUPPORTED_ALPHABET, "DGIKW").unwrap();

    for _ in 1..=5 {
        assert_eq!(r.rotate(), false); // A
        assert_eq!(r.rotate(), false); // B
        assert_eq!(r.rotate(), false); // C
        assert_eq!(r.rotate(), true); // -> D
        assert_eq!(r.rotate(), false); // E
        assert_eq!(r.rotate(), false); // F
        assert_eq!(r.rotate(), true); // -> G
        assert_eq!(r.rotate(), false); // H
        assert_eq!(r.rotate(), true); // -> I
        assert_eq!(r.rotate(), false); // J
        assert_eq!(r.rotate(), true); // -> K
        assert_eq!(r.rotate(), false); // L
        assert_eq!(r.rotate(), false); // M
        assert_eq!(r.rotate(), false); // N
        assert_eq!(r.rotate(), false); // O
        assert_eq!(r.rotate(), false); // P
        assert_eq!(r.rotate(), false); // Q
        assert_eq!(r.rotate(), false); // R
        assert_eq!(r.rotate(), false); // S
        assert_eq!(r.rotate(), false); // T
        assert_eq!(r.rotate(), false); // U
        assert_eq!(r.rotate(), false); // V
        assert_eq!(r.rotate(), true); // -> W
        assert_eq!(r.rotate(), false); // X
        assert_eq!(r.rotate(), false); // Y
        assert_eq!(r.rotate(), false); // Z
    }
}

#[test]
fn positive_offset_works_correctly() {
    assert_eq!(Rotor::offset_positively(0, 10), 10);
    assert_eq!(Rotor::offset_positively(25, 1), 0);
    assert_eq!(Rotor::offset_positively(5, 10), 15);
    assert_eq!(Rotor::offset_positively(10, 10), 20);
    assert_eq!(Rotor::offset_positively(15, 10), 25);
    assert_eq!(Rotor::offset_positively(20, 10), 4);
    assert_eq!(Rotor::offset_positively(10, 100), 6);
    assert_eq!(Rotor::offset_positively(3, 78), 3);
}

#[test]
fn negative_offset_works_correctly() {
    assert_eq!(Rotor::offset_negatively(25, 1), 24);
    assert_eq!(Rotor::offset_negatively(25, 5), 20);
    assert_eq!(Rotor::offset_negatively(25, 10), 15);
    assert_eq!(Rotor::offset_negatively(25, 15), 10);
    assert_eq!(Rotor::offset_negatively(25, 20), 5);
    assert_eq!(Rotor::offset_negatively(25, 25), 0);
    assert_eq!(Rotor::offset_negatively(25, 30), 21);
    assert_eq!(Rotor::offset_negatively(10, 100), 14);
    assert_eq!(Rotor::offset_negatively(3, 78), 3);
}

#[test]
fn rotor_test_1() {
    let mut r = Rotor::enigma_i_wehrmacht_i();
    assert_eq!(r.current_offset(), 0);
    r.offset_by(10);
    assert_eq!(r.current_offset(), 10);
}

#[test]
fn rotor_test_2() {
    let mut r = Rotor::enigma_i_wehrmacht_i();
    assert_eq!(r.current_offset(), 0);
    r.offset_by(26);
    assert_eq!(r.current_offset(), 0);
}

#[test]
fn test_3() {
    let mut r = Rotor::enigma_i_wehrmacht_i();
    assert_eq!(r.current_offset(), 0);
    r.offset_by(30);
    assert_eq!(r.current_offset(), 4);
}

#[test]
fn test_4() {
    let mut r = Rotor::enigma_i_wehrmacht_i();
    assert_eq!(r.current_offset(), 0);
    r.offset_by(-6);
    assert_eq!(r.current_offset(), 20);
}

#[test]
fn turn_to_character_rejects_lowercase() {
    let mut r = Rotor::enigma_i_wehrmacht_i();
    let e = r.turn_to_character('a').unwrap_err();
    assert_eq!(
        e.message(),
        "Character 'a' is not in supported alphabet: ABCDEFGHIJKLMNOPQRSTUVWXYZ"
    );
}

#[test]
fn rotor_construction_rejects_bad_wiring() {
    // a wiring character outside the alphabet
    assert_eq!(
        Rotor::new("EKMFLGDQVZNTOWYHXUSPAIBRC?", "Q").unwrap_err().message(),
        "Alphabet error: '?' must be a letter from set 'ABCDEFGHIJKLMNOPQRSTUVWXYZ'"
    );
    // too short
    assert_eq!(
        Rotor::new("ABCDEF", "E").unwrap_err().message(),
        "Wiring error: expected 26 letters, got 6"
    );
    // a repeated letter
    assert_eq!(
        Rotor::new("AACDEFGHIJKLMNOPQRSTUVWXYZ", "Q").unwrap_err().message(),
        "Wiring error: every letter must be used exactly once"
    );
    // a turnover character outside the alphabet
    assert_eq!(
        Rotor::new(SUPPORTED_ALPHABET, "q").unwrap_err().message(),
        "Turnover error: 'q' must be a letter from set 'ABCDEFGHIJKLMNOPQRSTUVWXYZ'"
    );
}

#[test]
fn rotor_from_name_selects_the_five_wheels() {
    assert!(Rotor::from_name("I").is_some());
    assert!(Rotor::from_name("II").is_some());
    assert!(Rotor::from_name("III").is_some());
    assert!(Rotor::from_name("IV").is_some());
    assert!(Rotor::from_name("V").is_some());
    assert!(Rotor::from_name("VI").is_none());
    assert!(Rotor::from_name("").is_none());
}
