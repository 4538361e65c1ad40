use enigma::Enigma;
use enigma::EntryDisk;
use enigma::Plugboard;
use enigma::Reflector;
use enigma::Rotor;
use enigma::RotorChain;

fn test_enigma_i(initial_rotor_settings: &str, decoded: &str, encoded: &str) {
    let plugboard = Plugboard::identity();
    test_enigma_i_with_custom_plugboard(initial_rotor_settings, plugboard, decoded, encoded);
}

fn test_enigma_i_with_custom_plugboard(
    initial_rotor_settings: &str,
    plugboard: Plugboard,
    decoded: &str,
    encoded: &str,
) {
    let entry_disk = EntryDisk::identity();

    let mut r1 = Rotor::enigma_i_wehrmacht_i();
    r1.turn_to_character(initial_rotor_settings.chars().nth(0).unwrap())
        .unwrap();
    let mut r2 = Rotor::enigma_i_wehrmacht_ii();
    r2.turn_to_character(initial_rotor_settings.chars().nth(1).unwrap())
        .unwrap();
    let mut r3 = Rotor::enigma_i_wehrmacht_iii();
    r3.turn_to_character(initial_rotor_settings.chars().nth(2).unwrap())
        .unwrap();

    let rotor_chain = RotorChain::new(r1, r2, r3);

    let reflector = Reflector::b();

    let mut enigma = Enigma::new(plugboard, entry_disk, rotor_chain, reflector);

    assert_eq!(enigma.encode_for_current_rotor_setting(decoded), encoded);
}

#[test]
fn test_encoding_for_same_character_sequence() {
    let initial_rotor_settings = "AAA";
    let decoded = "AAAAAAAAAAAAAAAAAAAAAAAAAAAAAAAAAAAAAAAAAAAAAAAAAAAAAAAAAAAAAAAAAAAAAA";
    let encoded = "BDZGOWCXLTKSBTMCDLPBMUQOFXYHCXTGYJFLINHNXSHIUNTHEORXPQPKOVHCBUBTZSZSOO";

    test_enigma_i(initial_rotor_settings, decoded, encoded);
    test_enigma_i(initial_rotor_settings, encoded, decoded);
}

#[test]
fn test_encoding_for_alphabet_sequence() {
    let initial_rotor_settings = "AAA";
    let decoded = "ABCDEFGHIJKLMNOPQRSTUWXYZZYXWUTSRQPONMLKJIHGFEDCBAABCDEFGHIJKLMNOPQRST";
    let encoded = "BJELRQZVJWARXSNBXORSTJPKHEARBCAFENSBJKCMOXAXQTKEQORPQGYJJKUPZYCXFBGLXZ";

    test_enigma_i(initial_rotor_settings, decoded, encoded);
    test_enigma_i(initial_rotor_settings, encoded, decoded);
}

#[test]
fn test_encoding_for_double_set_sequence_rotations_1() {
    let initial_rotor_settings = "AAA";
    let decoded = "LOREMIPSUMISSIMPLYDUMMYTEXTOFTHEPRINTINGANDTYPESETTINGINDUSTRYLOREMIPSUMHASBEEN\
        THEINDUSTRYSSTANDARDDUMMYTEXTEVERSINCETHEFIFTEENHUNDREDSWHENANUNKNOWNPRINTERTOOKAGALLEYO\
        FTYPEANDSCRAMBLEDITTOMAKEATYPESPECIMENBOOK";
    let encoded = "PIXWHLIFPVBAJQABBCIXAZGWCAGLSJQYXBWPZCEPXTWMBSNFAGBQJDMYXPXRLLIZH\
        TXQQDVLJOXYBXXXFBYQUCBCBRMCVWCAZDXCCJAXLLSIOZZNICFKSKGLDGVQTOAIQPVHBBZ\
        BVKPPKGTGPYSBBSFBVJVPSBZQWVNJVQJNZWFPTRCZNMCQQIGVXVDGYGGMBJQJLLKSRYGAANGCS";

    test_enigma_i(initial_rotor_settings, decoded, encoded);
    test_enigma_i(initial_rotor_settings, encoded, decoded);
}

#[test]
fn test_encoding_for_double_set_sequence_rotations_2() {
    let initial_rotor_settings = "GDU";
    let decoded = "LOREMIPSUMISSIMPLYDUMMYTEXTOFTHEPRINTINGANDTYPESETTINGINDUSTRYLOREMIPSUMHASBEEN\
        THEINDUSTRYSSTANDARDDUMMYTEXTEVERSINCETHEFIFTEENHUNDREDSWHENANUNKNOWNPRINTERTOOKAGALLEYO\
        FTYPEANDSCRAMBLEDITTOMAKEATYPESPECIMENBOOK";
    let encoded = "FXJZGYKDITUGTBWEYJWKUAQEFQPIOUPXVSSJDBLMYGKVSXLLRQIYJDGYGZFWZXWGF\
        GUTVEJQEWXDDOCRDGPRWEUCUSQRIICJPTVTKBQUHAZDXTKBARGQQQPBDWTBMDTMIMGPPUI\
        DNWCRLJJTTLZLFBJRSWJBDIDILNMBXEBEUHXUPJHZBZPLXKLGRBCYSEZWMASMPRTKWOJVCHHJO";

    test_enigma_i(initial_rotor_settings, decoded, encoded);
    test_enigma_i(initial_rotor_settings, encoded, decoded);
}

#[test]
fn enigma_test_1() {
    let mut plugboard = Plugboard::identity();
    let _ = plugboard.connect('A', 'B');
    let _ = plugboard.connect('E', 'F');
    let _ = plugboard.connect('H', 'I');
    let _ = plugboard.connect('N', 'O');
    let _ = plugboard.connect('T', 'U');
    let _ = plugboard.connect('X', 'Y');

    test_enigma_i_with_custom_plugboard(
        "AAA",
        plugboard,
        "ABCDEFGHIJKLMNOPQRSTUWXYZZYXWUTSRQPONMLKJIHGFEDCBAABCDEFGHIJKLMNOPQRST",
        "BDFLGOZAUWBRYCNAYNRYTJGEIFFAAJFEFOSPVKCMNLRYVGKFFKUYQGKYJYBPZXCZYAGLYF",
    );
}

#[test]
fn enigma_test_2() {
    let mut plugboard = Plugboard::identity();
    let _ = plugboard.connect('A', 'E');
    let _ = plugboard.connect('G', 'L');
    let _ = plugboard.connect('Q', 'X');

    test_enigma_i_with_custom_plugboard(
        "EJO",
        plugboard,
        "ABCDEFGHIJKLMNOPQRSTUWXYZZYXWUTSRQPONMLKJIHGFEDCBAABCDEFGHIJKLMNOPQRST",
        "SQBZSUPLCQJPOXVIBYKHHFRZGHKTAGVZPWIMVEESBHRLRGQFCGPPRLXJCBTNQMBQKEETFX",
    );
}

#[test]
fn reflector_wiring_must_be_self_inverse() {
    // a permutation of the alphabet, but not an involution
    assert_eq!(
        Reflector::new("EKMFLGDQVZNTOWYHXUSPAIBRCJ").unwrap_err().message(),
        "Wiring error: the wiring must be self-inverse"
    );
    assert!(Reflector::new("YRUHQSLDPXNGOKMIEBFZCWVJAT").is_ok());
    assert!(Reflector::from_name("B").is_some());
    assert!(Reflector::from_name("D").is_none());
}

fn sample_enigma() -> Enigma {
    let rotor_chain = RotorChain::new(
        Rotor::enigma_i_wehrmacht_i(),
        Rotor::enigma_i_wehrmacht_ii(),
        Rotor::enigma_i_wehrmacht_iii(),
    );
    Enigma::new(
        Plugboard::identity(),
        EntryDisk::identity(),
        rotor_chain,
        Reflector::b(),
    )
}

#[test]
fn encode_runs_the_two_pass_protocol() {
    let mut enigma = sample_enigma();
    let result = enigma
        .encode(
            String::from("AAA"),
            String::from("AAA"),
            String::from("AAAAAAAAAAAAAAAAAAAAAAAAAAAAAAAAAAAAAAAAAAAAAAAAAAAAAAAAAAAAAAAAAAAAAA"),
        )
        .unwrap();
    assert_eq!(result.message_length, 70);
    assert_eq!(result.basic_position, "AAA");
    assert_eq!(result.encoded_message_key, "BDZ");
    assert_eq!(
        result.encoded_message,
        "BDZGOWCXLTKSBTMCDLPBMUQOFXYHCXTGYJFLINHNXSHIUNTHEORXPQPKOVHCBUBTZSZSOO"
    );
}

#[test]
fn encode_substitutes_whitespace_with_filler() {
    let mut enigma = sample_enigma();
    let with_spaces = enigma
        .encode(String::from("AAA"), String::from("AAA"), String::from("AB CD"))
        .unwrap();
    let mut enigma = sample_enigma();
    let masked = enigma
        .encode(String::from("AAA"), String::from("AAA"), String::from("ABXCD"))
        .unwrap();
    assert_eq!(with_spaces.encoded_message, masked.encoded_message);
    assert_eq!(with_spaces.message_length, 5);
}

#[test]
fn encode_reports_all_unsupported_characters() {
    let mut enigma = sample_enigma();
    let e = enigma
        .encode(String::from("AAA"), String::from("AAA"), String::from("123"))
        .unwrap_err();
    assert_eq!(
        e.message(),
        "Unsupported character '1', Unsupported character '2', Unsupported character '3'"
    );
}

#[test]
fn encode_reports_excessive_length() {
    let mut enigma = sample_enigma();
    let e = enigma
        .encode(String::from("AAA"), String::from("AAA"), "A".repeat(501))
        .unwrap_err();
    assert_eq!(
        e.message(),
        "Input length exceeded allowed limit of 500, as it contains 501 characters"
    );
}

#[test]
fn encode_rejects_bad_settings() {
    let mut enigma = sample_enigma();
    let e = enigma
        .encode(String::from("AB"), String::from("AAA"), String::from("HELLO"))
        .unwrap_err();
    assert_eq!(
        e.message(),
        "New setting for rotor chain is unsupported. Required 3 characters, got 2."
    );
    let e = enigma
        .encode(String::from("AAA"), String::from("A2C"), String::from("HELLO"))
        .unwrap_err();
    assert_eq!(
        e.message(),
        "Character '2' is not in supported alphabet: ABCDEFGHIJKLMNOPQRSTUVWXYZ."
    );
}

#[test]
fn encoding_is_an_involution_under_the_same_key() {
    let mut enigma = sample_enigma();
    let first = enigma
        .encode(
            String::from("QEV"),
            String::from("KEY"),
            String::from("ATTACKATDAWN"),
        )
        .unwrap();
    let mut enigma = sample_enigma();
    let second = enigma
        .encode(String::from("QEV"), String::from("KEY"), first.encoded_message)
        .unwrap();
    assert_eq!(second.encoded_message, "ATTACKATDAWN");
}
