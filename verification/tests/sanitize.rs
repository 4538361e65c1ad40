use enigma::sanitize::{sanitize_message, sanitize_message_masking_spaces};

#[test]
fn enigma_valid_message() {
    let result = sanitize_message("Lorem Ipsum is simply dummy text");
    assert_eq!(result.unwrap(), String::from("LOREM IPSUM IS SIMPLY DUMMY TEXT"));
}

#[test]
fn enigma_characters_out_of_supported_alphabet() {
    let result = sanitize_message("123");
    assert_eq!(
        result.unwrap_err().message(),
        "Unsupported character '1', \
         Unsupported character '2', \
         Unsupported character '3'"
    )
}

#[test]
fn too_long_message_to_process() {
    let result = sanitize_message(&"a".repeat(501));
    assert_eq!(
        result.unwrap_err().message(),
        "Input length exceeded allowed limit of 500, as it contains 501 characters"
    )
}

#[test]
fn main_valid_message() {
    let result = sanitize_message_masking_spaces("Lorem Ipsum is simply dummy text");
    assert_eq!(result.unwrap(), String::from("LOREMXIPSUMXISXSIMPLYXDUMMYXTEXT"));
}

#[test]
fn main_characters_out_of_supported_alphabet() {
    let result = sanitize_message_masking_spaces("123");
    assert_eq!(
        result.unwrap_err().message(),
        "Unsupported character '1', \
         Unsupported character '2', \
         Unsupported character '3'"
    )
}

#[test]
fn length_and_character_errors_are_reported_together() {
    let mut input = "a".repeat(500);
    input.push('!');
    let result = sanitize_message(&input);
    assert_eq!(
        result.unwrap_err().message(),
        "Input length exceeded allowed limit of 500, as it contains 501 characters, \
         Unsupported character '!'"
    )
}
