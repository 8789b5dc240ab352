use ramwiz::entry::{EntryError, EntrySlice};
use ramwiz::header::{parse, HeaderError};
use ramwiz::loader::TraceLoader;

fn entry_bytes(clk: i64, cmd_id: u8) -> Vec<u8> {
    let mut b = Vec::new();
    b.extend_from_slice(&clk.to_le_bytes());
    b.extend_from_slice(&3i16.to_le_bytes());
    b.extend_from_slice(&(-1i16).to_le_bytes());
    b.extend_from_slice(&2i32.to_le_bytes());
    b.extend_from_slice(&5i32.to_le_bytes());
    b.extend_from_slice(&1234i32.to_le_bytes());
    b.extend_from_slice(&(-1i32).to_le_bytes());
    b.push(cmd_id);
    b.extend_from_slice(&[0, 0, 0]);
    b
}

fn trace(clks: &[i64], cmd_ids: &[u8], names: &[&str]) -> Vec<u8> {
    let mut b = Vec::new();
    b.extend_from_slice(b"RAM2\0");
    b.push(1);
    b.push(names.len() as u8);
    b.push(0);
    b.extend_from_slice(&(clks.len() as u64).to_le_bytes());
    let dict_offset = 24 + 32 * clks.len() as u64;
    b.extend_from_slice(&dict_offset.to_le_bytes());
    for (clk, cmd) in clks.iter().zip(cmd_ids) {
        b.extend_from_slice(&entry_bytes(*clk, *cmd));
    }
    for name in names {
        b.push(name.len() as u8);
        b.extend_from_slice(name.as_bytes());
    }
    b
}

#[test]
fn header_fields_are_read() {
    let data = trace(&[10, 20, 30], &[0, 1, 0], &["ACT", "RD"]);
    let h = parse(&data).unwrap();
    assert_eq!(h.num_entries(), 3);
    assert_eq!(h.num_commands(), 2);
    assert_eq!(h.dict_offset(), 24 + 96);
    assert!(h.is_valid_magic());
    assert!(h.is_supported_version());
}

#[test]
fn short_file_is_too_short_before_magic() {
    assert_eq!(parse(&[0u8; 23]), Err(HeaderError::FileTooShort));
    assert_eq!(parse(b"RAM2\0\x01"), Err(HeaderError::FileTooShort));
    assert_eq!(parse(&[]), Err(HeaderError::FileTooShort));
}

#[test]
fn bad_magic_is_rejected_whatever_follows() {
    let mut data = trace(&[10, 20, 30], &[0, 1, 0], &["ACT", "RD"]);
    data[3] = b'3';
    assert_eq!(parse(&data), Err(HeaderError::InvalidMagic));
    let mut other = vec![0xffu8; 64];
    other[..5].copy_from_slice(b"RAM1\0");
    assert_eq!(parse(&other), Err(HeaderError::InvalidMagic));
    assert!(matches!(TraceLoader::new(&other), Err(HeaderError::InvalidMagic)));
}

#[test]
fn unsupported_version_is_rejected() {
    let mut data = trace(&[10], &[0], &["ACT"]);
    data[5] = 2;
    assert_eq!(parse(&data), Err(HeaderError::UnsupportedVersion));
    assert_eq!(HeaderError::UnsupportedVersion.message(), "unsupported version");
}

#[test]
fn find_index_for_time_scenario() {
    let data = trace(&[10, 20, 30], &[0, 1, 0], &["ACT", "RD"]);
    let loader = TraceLoader::new(&data).unwrap();
    assert_eq!(loader.find_index_for_time(15), Ok(1));
    assert_eq!(loader.find_index_for_time(5), Ok(0));
    assert_eq!(loader.find_index_for_time(35), Ok(3));
    assert_eq!(loader.find_index_for_time(20), Ok(1));
    assert_eq!(loader.find_index_for_time(10), Ok(0));
    assert_eq!(loader.find_index_for_time(30), Ok(2));
}

#[test]
fn find_index_returns_first_of_equal_clocks() {
    let data = trace(&[1, 4, 4, 4, 9], &[0; 5], &["ACT"]);
    let loader = TraceLoader::new(&data).unwrap();
    assert_eq!(loader.find_index_for_time(4), Ok(1));
    assert_eq!(loader.find_index_for_time(5), Ok(4));
    assert_eq!(loader.find_index_for_time(i64::MIN), Ok(0));
    assert_eq!(loader.find_index_for_time(i64::MAX), Ok(5));
}

#[test]
fn find_index_on_empty_trace_is_zero() {
    let data = trace(&[], &[], &["ACT"]);
    let loader = TraceLoader::new(&data).unwrap();
    assert_eq!(loader.find_index_for_time(42), Ok(0));
}

#[test]
fn find_index_fails_on_truncated_entries() {
    let mut data = trace(&[10, 20, 30], &[0, 1, 0], &[]);
    data.truncate(24 + 64);
    let loader = TraceLoader::new(&data).unwrap();
    assert_eq!(loader.find_index_for_time(15), Err(EntryError::OutOfBounds));
}

#[test]
fn load_entry_reads_every_field() {
    let data = trace(&[10, -20, 30], &[0, 1, 0], &["ACT", "RD"]);
    let loader = TraceLoader::new(&data).unwrap();
    let e = loader.load_entry(1).unwrap();
    assert_eq!(e.clk, -20);
    assert_eq!(e.channel, 3);
    assert_eq!(e.rank, -1);
    assert_eq!(e.bankgroup, 2);
    assert_eq!(e.bank, 5);
    assert_eq!(e.row, 1234);
    assert_eq!(e.column, -1);
    assert_eq!(e.cmd_id(), 1);
}

#[test]
fn load_entry_errors() {
    let data = trace(&[10, 20, 30], &[0, 2, 0], &["ACT", "RD"]);
    let loader = TraceLoader::new(&data).unwrap();
    assert_eq!(loader.load_entry(3), Err(EntryError::InvalidIndex));
    assert_eq!(loader.load_entry(u64::MAX), Err(EntryError::InvalidIndex));
    assert_eq!(loader.load_entry(1), Err(EntryError::InvalidCmdId));
    assert!(loader.load_entry(2).is_ok());
}

#[test]
fn load_entry_slice_bounds() {
    let data = trace(&[10, 20, 30], &[0, 1, 0], &["ACT", "RD"]);
    let total = data.len() as u64;
    let loader = TraceLoader::new(&data).unwrap();
    for start in 0..6u64 {
        for count in 0..6usize {
            let fits = 24 + 32 * start + 32 * count as u64 <= total;
            let r = loader.load_entry_slice(start, count);
            assert_eq!(r.is_ok(), fits, "start {} count {}", start, count);
            match r {
                Ok(slice) => assert_eq!(slice.len(), count),
                Err(e) => assert_eq!(e, EntryError::OutOfBounds),
            }
        }
    }
    assert!(loader.load_entry_slice(u64::MAX, usize::MAX).is_err());
}

#[test]
fn load_entry_slice_matches_point_reads() {
    let data = trace(&[10, 20, 30, 40], &[0, 1, 0, 1], &["ACT", "RD"]);
    let loader = TraceLoader::new(&data).unwrap();
    let slice = loader.load_entry_slice(1, 3).unwrap();
    assert_eq!(slice.len(), 3);
    assert!(!slice.is_empty());
    for i in 0..3 {
        assert_eq!(slice.get(i), loader.load_entry(1 + i as u64).unwrap());
    }
    let v = slice.to_vec();
    assert_eq!(v.iter().map(|e| e.clk).collect::<Vec<_>>(), vec![20, 30, 40]);
    assert!(EntrySlice::new(&data[..31]).is_none());
}

#[test]
fn loader_dictionary_and_data() {
    let data = trace(&[10, 20, 30], &[0, 1, 0], &["ACT", "RD"]);
    let loader = TraceLoader::new(&data).unwrap();
    assert_eq!(loader.data().len(), data.len());
    assert_eq!(loader.header().num_entries(), 3);
    let dict = loader.parse_dictionary().unwrap();
    assert_eq!(dict.commands.len(), 2);
    assert_eq!(dict.commands[&0], "ACT");
    assert_eq!(dict.commands[&1], "RD");
}
