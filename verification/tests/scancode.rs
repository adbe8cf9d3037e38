use wwwvm::scancode::string_to_scancodes;


#[test]
fn lowercase_letter_is_make_then_break() {
    assert_eq!(string_to_scancodes("a"), vec![0x1E, 0x9E]);
}

#[test]
fn uppercase_letter_wraps_in_shift() {
    // Shift make, A make, A break, Shift break.
    assert_eq!(string_to_scancodes("A"), vec![0x2A, 0x1E, 0x9E, 0xAA]);
}

#[test]
fn digit_and_shifted_symbol() {
    assert_eq!(string_to_scancodes("1"), vec![0x02, 0x82]);
    // '!' is Shift + '1'.
    assert_eq!(string_to_scancodes("!"), vec![0x2A, 0x02, 0x82, 0xAA]);
}

#[test]
fn whitespace_and_enter() {
    assert_eq!(string_to_scancodes(" "), vec![0x39, 0xB9]);
    assert_eq!(string_to_scancodes("\n"), vec![0x1C, 0x9C]);
    assert_eq!(string_to_scancodes("\t"), vec![0x0F, 0x8F]);
}

#[test]
fn word_concatenates_in_order() {
    // "Hi" = Shift+h, i.
    assert_eq!(
        string_to_scancodes("Hi"),
        vec![0x2A, 0x23, 0xA3, 0xAA, 0x17, 0x97]
    );
}

#[test]
fn unmapped_characters_are_skipped() {
    // A non-US-QWERTY char (e.g. 'é') produces nothing; surrounding
    // mapped chars still translate.
    assert_eq!(string_to_scancodes("é"), Vec::<u8>::new());
    assert_eq!(string_to_scancodes("aéb"), vec![0x1E, 0x9E, 0x30, 0xB0]);
}

#[test]
fn shifted_punctuation_maps_to_base_key_with_shift() {
    // ':' is Shift + ';' (0x27).
    assert_eq!(string_to_scancodes(":"), vec![0x2A, 0x27, 0xA7, 0xAA]);
    // '?' is Shift + '/' (0x35).
    assert_eq!(string_to_scancodes("?"), vec![0x2A, 0x35, 0xB5, 0xAA]);
}
