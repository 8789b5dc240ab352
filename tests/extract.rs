use ramwiz::binary32::{int_to_bits, ratio_bits};
use ramwiz::color::{parse_color, parse_hex_color};
use ramwiz::config::CommandConfig;
use ramwiz::entry::Entry;
use ramwiz::extract::get_entry_range_bytes;

fn entry(clk: i64, cmd_id: u8) -> Entry {
    Entry {
        clk,
        channel: 0,
        rank: 0,
        bankgroup: -1,
        bank: -1,
        row: 7,
        column: -1,
        cmd_id,
        reserved: [0; 3],
    }
}

fn float_at(buf: &[u8], off: usize) -> f32 {
    f32::from_le_bytes([buf[off], buf[off + 1], buf[off + 2], buf[off + 3]])
}

fn rgb(bits: (u32, u32, u32)) -> (f32, f32, f32) {
    (f32::from_bits(bits.0), f32::from_bits(bits.1), f32::from_bits(bits.2))
}

#[test]
fn hex_colors_parse() {
    assert_eq!(rgb(parse_color("#FF0000")), (1.0, 0.0, 0.0));
    assert_eq!(rgb(parse_color("00FF00")), (0.0, 1.0, 0.0));
    assert_eq!(rgb(parse_color("12345")), (0.5, 0.5, 0.5));
}

#[test]
fn malformed_hex_colors_are_gray() {
    for s in ["", "#", "#12345", "1234567", "##FF0000", "#GG0000", "+F0000", "ÿÿÿÿÿÿ", "#ff00 0"] {
        assert_eq!(rgb(parse_color(s)), (0.5, 0.5, 0.5), "{:?}", s);
    }
}

#[test]
fn hex_channels_are_read() {
    assert_eq!(parse_hex_color("#0a7FfF"), Some((10, 127, 255)));
    assert_eq!(parse_hex_color("abcdef"), Some((0xab, 0xcd, 0xef)));
    assert_eq!(parse_hex_color("abcde"), None);
    let (r, g, b) = rgb(parse_color("#0a7FfF"));
    assert_eq!(r, 10u8 as f32 / 255.0);
    assert_eq!(g, 127u8 as f32 / 255.0);
    assert_eq!(b, 1.0);
}

#[test]
fn every_channel_value_matches_float_division() {
    for c in 0..=255u8 {
        assert_eq!(ratio_bits(c as u64, 255), (c as f32 / 255.0).to_bits(), "{}", c);
    }
}

#[test]
fn integer_conversion_matches_cast() {
    let samples: [i64; 16] = [
        0,
        1,
        -1,
        10,
        16_777_216,
        16_777_217,
        16_777_219,
        -16_777_217,
        123_456_789,
        1 << 40,
        (1 << 40) + 12345,
        i64::MAX,
        i64::MIN,
        i64::MIN + 1,
        9_007_199_254_740_993,
        -987_654_321_012,
    ];
    for x in samples {
        assert_eq!(int_to_bits(x), (x as f32).to_bits(), "{}", x);
    }
}

#[test]
fn buffer_length_is_24_per_entry() {
    let config = CommandConfig::new();
    for n in [0usize, 1, 2, 7] {
        let entries: Vec<Entry> = (0..n).map(|i| entry(i as i64, 0)).collect();
        assert_eq!(get_entry_range_bytes(&entries, &config).len(), 24 * n);
    }
}

#[test]
fn unconfigured_commands_take_defaults() {
    let config = CommandConfig::new();
    let entries = vec![entry(100, 3), entry(250, 9)];
    let buf = get_entry_range_bytes(&entries, &config);
    let n = 2;
    for i in 0..n {
        assert_eq!(float_at(&buf, 4 * n + 4 * i), 10.0);
        assert_eq!(float_at(&buf, 8 * n + 4 * i), 0.0);
        for k in 0..3 {
            assert_eq!(float_at(&buf, 12 * n + 12 * i + 4 * k), 0.5);
        }
    }
    assert_eq!(float_at(&buf, 0), 100.0);
    assert_eq!(float_at(&buf, 4), 250.0);
}

#[test]
fn configured_commands_use_their_settings() {
    let mut config = CommandConfig::new();
    config.colors.insert(1, "#FF0000".to_string());
    config.colors.insert(2, "bad".to_string());
    config.clock_periods.insert(1, 2.5f32.to_bits());
    let entries = vec![entry(-5, 1), entry(7, 2), entry(16_777_217, 1)];
    let buf = get_entry_range_bytes(&entries, &config);
    let n = 3;
    assert_eq!(buf.len(), 72);
    assert_eq!(float_at(&buf, 0), -5.0);
    assert_eq!(float_at(&buf, 4), 7.0);
    assert_eq!(float_at(&buf, 8), 16_777_217i64 as f32);
    assert_eq!(float_at(&buf, 4 * n), 2.5);
    assert_eq!(float_at(&buf, 4 * n + 4), 10.0);
    assert_eq!(float_at(&buf, 4 * n + 8), 2.5);
    let color = |i: usize| {
        (
            float_at(&buf, 12 * n + 12 * i),
            float_at(&buf, 12 * n + 12 * i + 4),
            float_at(&buf, 12 * n + 12 * i + 8),
        )
    };
    assert_eq!(color(0), (1.0, 0.0, 0.0));
    assert_eq!(color(1), (0.5, 0.5, 0.5));
    assert_eq!(color(2), (1.0, 0.0, 0.0));
    for i in 0..n {
        assert_eq!(float_at(&buf, 8 * n + 4 * i), 0.0);
    }
}
