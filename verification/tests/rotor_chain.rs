use enigma::Rotor;
use enigma::RotorChain;

fn get_offsets_string_for_chain(chain: &RotorChain) -> String {
    format!(
        "{}{}{}",
        chain.left().get_offset_character(),
        chain.middle().get_offset_character(),
        chain.right().get_offset_character()
    )
}

#[test]
fn error_on_too_short_new_setting() {
    let r1 = Rotor::enigma_i_wehrmacht_i();
    let r2 = Rotor::enigma_i_wehrmacht_ii();
    let r3 = Rotor::enigma_i_wehrmacht_iii();

    let mut chain = RotorChain::new(r1, r2, r3);
    assert_eq!(
        chain.change_setting("X").unwrap_err().message(),
        "New setting for rotor chain is unsupported. Required 3 characters, got 1."
    );
}

#[test]
fn error_on_too_long_new_setting() {
    let r1 = Rotor::enigma_i_wehrmacht_i();
    let r2 = Rotor::enigma_i_wehrmacht_ii();
    let r3 = Rotor::enigma_i_wehrmacht_iii();

    let mut chain = RotorChain::new(r1, r2, r3);
    assert_eq!(
        chain.change_setting("XXXXXX").unwrap_err().message(),
        "New setting for rotor chain is unsupported. Required 3 characters, got 6."
    );
}

#[test]
fn error_on_unknown_character() {
    let r1 = Rotor::enigma_i_wehrmacht_i();
    let r2 = Rotor::enigma_i_wehrmacht_ii();
    let r3 = Rotor::enigma_i_wehrmacht_iii();

    let mut chain = RotorChain::new(r1, r2, r3);
    assert_eq!(
        chain.change_setting("XX1").unwrap_err().message(),
        "Character '1' is not in supported alphabet: ABCDEFGHIJKLMNOPQRSTUVWXYZ."
    );
}

#[test]
fn sets_new_setting_for_rotors_in_chain() {
    let mut r1 = Rotor::enigma_i_wehrmacht_i();
    r1.turn_to_character('A').unwrap();
    let mut r2 = Rotor::enigma_i_wehrmacht_ii();
    r2.turn_to_character('A').unwrap();
    let mut r3 = Rotor::enigma_i_wehrmacht_iii();
    r3.turn_to_character('A').unwrap();

    let mut chain = RotorChain::new(r1, r2, r3);

    assert!(chain.change_setting("XYZ").is_ok());

    assert_eq!('X', chain.left().get_offset_character());
    assert_eq!('Y', chain.middle().get_offset_character());
    assert_eq!('Z', chain.right().get_offset_character());
}

#[test]
fn test_normal_sequence() {
    let r1 = Rotor::enigma_i_wehrmacht_i();
    let r2 = Rotor::enigma_i_wehrmacht_ii();
    let r3 = Rotor::enigma_i_wehrmacht_iii();
    let mut chain = RotorChain::new(r1, r2, r3);

    assert!(chain.change_setting("AAA").is_ok());

    assert_eq!("AAA", get_offsets_string_for_chain(&chain));
    chain.rotate();
    assert_eq!("AAB", get_offsets_string_for_chain(&chain));
    chain.rotate();
    assert_eq!("AAC", get_offsets_string_for_chain(&chain));
    chain.rotate();
    assert_eq!("AAD", get_offsets_string_for_chain(&chain));
}

#[test]
fn test_double_step_sequence() {
    let r1 = Rotor::enigma_i_wehrmacht_i();
    let r2 = Rotor::enigma_i_wehrmacht_ii();
    let r3 = Rotor::enigma_i_wehrmacht_iii();

    let mut chain = RotorChain::new(r1, r2, r3);
    assert!(chain.change_setting("ADU").is_ok());

    assert_eq!("ADU", get_offsets_string_for_chain(&chain));
    chain.rotate();
    assert_eq!("ADV", get_offsets_string_for_chain(&chain));
    chain.rotate();
    assert_eq!("AEW", get_offsets_string_for_chain(&chain));
    chain.rotate();
    assert_eq!("BFX", get_offsets_string_for_chain(&chain));
    chain.rotate();
    assert_eq!("BFY", get_offsets_string_for_chain(&chain));
}

#[test]
fn stepping_is_deterministic() {
    let mut a = RotorChain::new(
        Rotor::enigma_i_wehrmacht_i(),
        Rotor::enigma_i_wehrmacht_ii(),
        Rotor::enigma_i_wehrmacht_iii(),
    );
    let mut b = RotorChain::new(
        Rotor::enigma_i_wehrmacht_i(),
        Rotor::enigma_i_wehrmacht_ii(),
        Rotor::enigma_i_wehrmacht_iii(),
    );
    assert!(a.change_setting("QEV").is_ok());
    assert!(b.change_setting("QEV").is_ok());
    for _ in 0..100 {
        a.rotate();
        b.rotate();
        assert_eq!(
            get_offsets_string_for_chain(&a),
            get_offsets_string_for_chain(&b)
        );
    }
}
