use endecode::cipher::{decode_text, decode_text_impl, encode_text, encode_text_impl, shift_char};

#[test]
fn encode_shifts_letters_and_digits_by_seven() {
    assert_eq!(encode_text("Hello123"), "Olssv890");
    assert_eq!(encode_text_impl("xyz XYZ 789"), "efg EFG 456");
}

#[test]
fn decode_shifts_back() {
    assert_eq!(decode_text("Olssv890"), "Hello123");
    assert_eq!(decode_text_impl("efg EFG 456"), "xyz XYZ 789");
}

#[test]
fn round_trip_keeps_every_text() {
    let samples = ["", "Order 005", "Grüße, Welt! 9z", "日本語 abc", "<<==x==>>", "*/ZZ 00"];
    for s in samples.iter() {
        assert_eq!(decode_text(&encode_text(s)), *s);
    }
}

#[test]
fn non_ascii_and_punctuation_pass_through() {
    assert_eq!(encode_text("ü-é!"), "ü-é!");
    assert_eq!(shift_char('!', 5), '!');
    assert_eq!(shift_char('ß', 3), 'ß');
}

#[test]
fn shift_wraps_within_each_class() {
    assert_eq!(shift_char('Z', 1), 'A');
    assert_eq!(shift_char('a', -1), 'z');
    assert_eq!(shift_char('0', -7), '3');
    assert_eq!(shift_char('9', 1), '0');
    assert_eq!(shift_char('A', i32::MIN), 'C');
    assert_eq!(shift_char('z', i32::MAX), 'w');
}

#[test]
fn shift_then_unshift_gives_the_character() {
    let chars = ['A', 'M', 'Z', 'a', 'q', 'z', '0', '5', '9', ' ', '<', 'é'];
    let amounts = [0, 1, 7, 13, 25, 26, 100, -3, -1000, i32::MAX, i32::MIN + 1];
    for c in chars.iter() {
        for k in amounts.iter() {
            assert_eq!(shift_char(shift_char(*c, *k), -*k), *c);
        }
    }
}
