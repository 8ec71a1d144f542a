use serial_humidity::decoder::{decode, decode_text, is_space_char, record_value, trim_text};

fn values(v: &[&str]) -> Vec<String> {
    v.iter().map(|s| s.to_string()).collect()
}

#[test]
fn chunk_without_delimiter_joins_residual() {
    let (rest, out) = decode("12", b"ab:c");
    assert_eq!(rest, "12ab:c");
    assert!(out.is_empty());
}

#[test]
fn empty_chunk_keeps_residual() {
    let (rest, out) = decode("hum:4", b"");
    assert_eq!(rest, "hum:4");
    assert!(out.is_empty());
}

#[test]
fn labelled_reading_from_empty_residual() {
    let (rest, out) = decode("", b"label:42%");
    assert_eq!(rest, "");
    assert_eq!(out, values(&["42"]));
}

#[test]
fn labelled_reading_after_pending_text() {
    let (rest, out) = decode("ab", b"label:42%");
    assert_eq!(rest, "");
    assert_eq!(out, values(&["42"]));
}

#[test]
fn two_records_in_one_chunk() {
    let (rest, out) = decode("", b"a:1%b:2%");
    assert_eq!(out, values(&["1", "2"]));
    assert_eq!(rest, "");
}

#[test]
fn record_without_separator_is_empty() {
    let (rest, out) = decode("", b"noop%");
    assert_eq!(out, values(&[""]));
    assert_eq!(rest, "");
}

#[test]
fn value_is_trimmed() {
    let (_, out) = decode("", b"x: 7 %");
    assert_eq!(out, values(&["7"]));
}

#[test]
fn value_trimmed_of_tabs_and_line_ends() {
    let (_, out) = decode("", b"x:\t9\r\n%");
    assert_eq!(out, values(&["9"]));
}

#[test]
fn value_trimmed_of_unicode_spaces() {
    let (_, out) = decode_text("", "x:\u{3000}5\u{a0}%");
    assert_eq!(out, values(&["5"]));
}

#[test]
fn value_keeps_text_after_first_separator() {
    let (_, out) = decode("", b"a:1:2%");
    assert_eq!(out, values(&["1:2"]));
}

#[test]
fn record_split_over_two_chunks() {
    let (rest, out) = decode("", b"Humidity: 4");
    assert!(out.is_empty());
    assert_eq!(rest, "Humidity: 4");
    let (rest, out) = decode(&rest, b"8%Humid");
    assert_eq!(out, values(&["48"]));
    assert_eq!(rest, "Humid");
}

#[test]
fn every_split_point_yields_the_same_values() {
    let bytes: &[u8] = b"h:1%t: 22 %noop%x:3";
    let (whole_rest, whole) = decode("", bytes);
    assert_eq!(whole, values(&["1", "22", "", ]));
    assert_eq!(whole_rest, "x:3");
    for k in 0..=bytes.len() {
        let (r1, mut v1) = decode("", &bytes[..k]);
        let (r2, v2) = decode(&r1, &bytes[k..]);
        v1.extend(v2);
        assert_eq!(v1, whole);
        assert_eq!(r2, whole_rest);
    }
}

#[test]
fn invalid_bytes_become_replacement_characters() {
    let (rest, out) = decode("", &[b'v', b':', 0xff, b'%', 0xfe]);
    assert_eq!(out, values(&["\u{fffd}"]));
    assert_eq!(rest, "\u{fffd}");
}

#[test]
fn multibyte_text_is_decoded() {
    let (_, out) = decode("", "t:é%".as_bytes());
    assert_eq!(out, values(&["é"]));
}

#[test]
fn split_inside_a_character_replaces_each_half() {
    let (rest, _) = decode("", &[b't', b':', 0xc3]);
    let (rest, out) = decode(&rest, &[0xa9, b'%']);
    assert_eq!(out, values(&["\u{fffd}\u{fffd}"]));
    assert_eq!(rest, "");
}

#[test]
fn residual_with_delimiter_is_framed() {
    let (rest, out) = decode_text("a:1%b", ":2");
    assert_eq!(out, values(&["1"]));
    assert_eq!(rest, "b:2");
}

#[test]
fn trim_text_strips_both_ends() {
    assert_eq!(trim_text("  a b \n"), "a b");
    assert_eq!(trim_text(" \t "), "");
    assert_eq!(trim_text(""), "");
}

#[test]
fn record_value_takes_text_after_separator() {
    assert_eq!(record_value("hum: 55 "), "55");
    assert_eq!(record_value("hum"), "");
    assert_eq!(record_value(":"), "");
}

#[test]
fn space_characters() {
    assert!(is_space_char(' '));
    assert!(is_space_char('\n'));
    assert!(is_space_char('\u{2028}'));
    assert!(!is_space_char('a'));
    assert!(!is_space_char('%'));
    for c in (0..=0x10ffffu32).filter_map(char::from_u32) {
        assert_eq!(is_space_char(c), c.is_whitespace());
    }
}
