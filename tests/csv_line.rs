use ramwiz::config::MemoryLayout;
use ramwiz::csv::CSVLine;

#[test]
fn fields_split_at_commas() {
    let line = CSVLine::new(b"12, ACT ,0,,7");
    assert_eq!(line.get_field_bytes(0), Some(&b"12"[..]));
    assert_eq!(line.get_field_bytes(1), Some(&b" ACT "[..]));
    assert_eq!(line.get_field_bytes(3), Some(&b""[..]));
    assert_eq!(line.get_field_bytes(4), Some(&b"7"[..]));
    assert_eq!(line.get_field_bytes(5), None);
}

#[test]
fn empty_line_has_one_empty_field() {
    let line = CSVLine::new(b"");
    assert_eq!(line.get_field_bytes(0), Some(&b""[..]));
    assert_eq!(line.get_field_bytes(1), None);
    let commas = CSVLine::new(b",");
    assert_eq!(commas.get_field_bytes(1), Some(&b""[..]));
}

#[test]
fn field_text_is_trimmed() {
    let line = CSVLine::new(b"12, ACT ,\xff");
    assert_eq!(line.get_field_str(1), Some("ACT"));
    assert_eq!(line.get_field_str(2), None);
    assert_eq!(line.get_field_str(3), None);
}

#[test]
fn fields_parse_into_values() {
    let line = CSVLine::new(b" 42 ,-7,x");
    assert_eq!(line.get_field::<u64>(0), Some(42));
    assert_eq!(line.get_field::<i32>(1), Some(-7));
    assert_eq!(line.get_field::<i32>(2), None);
    assert_eq!(line.get_field::<i32>(3), None);
}

#[test]
fn memory_layout_is_plain_data() {
    let a = MemoryLayout { num_channels: 2, num_bankgroups: 4, num_banks: 4 };
    let b = a;
    assert_eq!(a, b);
}
