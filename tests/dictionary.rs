use ramwiz::dictionary::{parse, DictionaryErrorKind};

fn records(names: &[&[u8]]) -> Vec<u8> {
    let mut b = vec![0xaa; 4];
    for n in names {
        b.push(n.len() as u8);
        b.extend_from_slice(n);
    }
    b
}

#[test]
fn names_are_assigned_ids_in_order() {
    let data = records(&[b"ACT", b"PRE", b"", b"RD"]);
    let d = parse(&data, 4, 4).unwrap();
    assert_eq!(d.commands.len(), 4);
    assert_eq!(d.commands[&0], "ACT");
    assert_eq!(d.commands[&1], "PRE");
    assert_eq!(d.commands[&2], "");
    assert_eq!(d.commands[&3], "RD");
}

#[test]
fn fewer_commands_than_records_reads_a_prefix() {
    let data = records(&[b"ACT", b"PRE"]);
    let d = parse(&data, 4, 1).unwrap();
    assert_eq!(d.commands.len(), 1);
    assert_eq!(d.commands[&0], "ACT");
}

#[test]
fn zero_commands_gives_empty_dictionary() {
    let data = records(&[b"ACT"]);
    assert!(parse(&data, 4, 0).unwrap().commands.is_empty());
}

#[test]
fn offset_past_end_is_out_of_bounds() {
    let data = records(&[b"ACT"]);
    let len = data.len() as u64;
    assert_eq!(parse(&data, len, 0).unwrap_err().kind(), DictionaryErrorKind::OffsetOutOfBounds);
    assert_eq!(parse(&data, u64::MAX, 1).unwrap_err().kind(), DictionaryErrorKind::OffsetOutOfBounds);
}

#[test]
fn record_past_end_is_out_of_bounds() {
    let mut data = records(&[b"ACT"]);
    data.push(9);
    data.extend_from_slice(b"RE");
    let e = parse(&data, 4, 2).unwrap_err();
    assert_eq!(e.kind(), DictionaryErrorKind::OffsetOutOfBounds);
    assert_eq!(e.message(), "dictionary offset out of bounds");
}

#[test]
fn missing_length_byte_is_out_of_bounds() {
    let data = records(&[b"ACT"]);
    assert_eq!(parse(&data, 4, 2).unwrap_err().kind(), DictionaryErrorKind::OffsetOutOfBounds);
}

#[test]
fn invalid_utf8_name_is_reported() {
    let data = records(&[b"ACT", &[0xff, 0xfe]]);
    assert_eq!(parse(&data, 4, 2).unwrap_err().kind(), DictionaryErrorKind::Utf8);
}

#[test]
fn utf8_error_comes_before_later_bounds_error() {
    let mut data = records(&[&[0xc3]]);
    data.push(200);
    assert_eq!(parse(&data, 4, 2).unwrap_err().kind(), DictionaryErrorKind::Utf8);
}

#[test]
fn multibyte_names_decode() {
    let data = records(&["Zürich".as_bytes()]);
    assert_eq!(parse(&data, 4, 1).unwrap().commands[&0], "Zürich");
}

#[test]
fn parsing_twice_gives_the_same_mapping() {
    let data = records(&[b"ACT", b"PRE", b"RD", b"WR"]);
    let a = parse(&data, 4, 4).unwrap();
    let b = parse(&data, 4, 4).unwrap();
    assert_eq!(a.commands, b.commands);
}
