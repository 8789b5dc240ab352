//! Repacking a range of entries into the flat buffer that the renderer
//! consumes.
//!
//! For `n` entries the buffer holds `24 * n` bytes: four arrays, back to
//! back, of little-endian single-precision values. Start times at byte 0
//! (one per entry), durations at `4 * n`, rows at `8 * n`, and colours at
//! `12 * n` (red, green and blue per entry).
use std::collections::HashMap;
use vstd::prelude::*;

use crate::binary32::{int_bits, int_to_bits, HALF_BITS, TEN_BITS, ZERO_BITS};
use crate::bytes::{le_u32, lemma_le_u32_prefix, push_u32_le};
use crate::color::{color_bits, parse_color};
use crate::config::CommandConfig;
use crate::entry::Entry;

verus! {

broadcast use vstd::std_specs::hash::group_hash_axioms;

/// Duration of a command: the configured one, else `10.0`.
pub open spec fn duration_bits(periods: Map<u8, u32>, cmd: u8) -> u32 {
    if periods.contains_key(cmd) {
        periods[cmd]
    } else {
        TEN_BITS
    }
}

/// Colour of a command: the configured one, else mid-gray.
pub open spec fn command_color(colors: Map<u8, String>, cmd: u8) -> (u32, u32, u32) {
    if colors.contains_key(cmd) {
        color_bits(colors[cmd]@)
    } else {
        (HALF_BITS, HALF_BITS, HALF_BITS)
    }
}

/// `buf` is the transfer buffer for `entries` under the given colours and
/// durations.
pub open spec fn is_range_buffer(
    buf: Seq<u8>,
    entries: Seq<Entry>,
    colors: Map<u8, String>,
    periods: Map<u8, u32>,
) -> bool {
    let n = entries.len() as int;
    &&& buf.len() == 24 * n
    &&& forall|i: int|
        0 <= i < n ==> {
            let cmd = #[trigger] entries[i].cmd_id;
            let c = command_color(colors, cmd);
            &&& le_u32(buf, 4 * i) == int_bits(entries[i].clk as int)
            &&& le_u32(buf, 4 * n + 4 * i) == duration_bits(periods, cmd)
            &&& le_u32(buf, 8 * n + 4 * i) == ZERO_BITS
            &&& le_u32(buf, 12 * n + 12 * i) == c.0
            &&& le_u32(buf, 12 * n + 12 * i + 4) == c.1
            &&& le_u32(buf, 12 * n + 12 * i + 8) == c.2
        }
}

/// The colour of every command id, indexed by id.
fn color_table(colors: &HashMap<u8, String>) -> (t: Vec<(u32, u32, u32)>)
    ensures
        t@.len() == 256,
        forall|c: u8| #[trigger] t@[c as int] == command_color(colors@, c),
{
    let mut t: Vec<(u32, u32, u32)> = Vec::new();
    let mut c: usize = 0;
    while c < 256
        invariant
            c <= 256,
            t@.len() == c,
            forall|k: u8| k < c ==> #[trigger] t@[k as int] == command_color(colors@, k),
        decreases 256 - c,
    {
        let rgb = match colors.get(&(c as u8)) {
            Some(hex) => parse_color(hex.as_str()),
            None => (HALF_BITS, HALF_BITS, HALF_BITS),
        };
        t.push(rgb);
        c = c + 1;
    }
    t
}

/// Keeps what a four-byte field of `a` reads when `b` extends `a`.
proof fn lemma_fields_kept(a: Seq<u8>, b: Seq<u8>)
    requires
        a.len() <= b.len(),
        b.subrange(0, a.len() as int) == a,
    ensures
        forall|off: int| 0 <= off && off + 4 <= a.len() ==> #[trigger] le_u32(b, off) == le_u32(a, off),
{
    assert forall|off: int| 0 <= off && off + 4 <= a.len() implies #[trigger] le_u32(b, off) == le_u32(a, off) by {
        lemma_le_u32_prefix(a, b, off);
    }
}

/// Builds the transfer buffer for `entries`: start times, durations, rows
/// (all `0.0`) and colours. Commands without a configured duration take
/// `10.0`; those without a colour, or with a malformed one, mid-gray.
pub fn get_entry_range_bytes(entries: &[Entry], config: &CommandConfig) -> (r: Vec<u8>)
    requires
        24 * entries@.len() <= usize::MAX,
    ensures
        is_range_buffer(r@, entries@, config.colors@, config.clock_periods@),
{
    let n = entries.len();
    let lut = color_table(&config.colors);
    let mut bytes: Vec<u8> = Vec::new();

    let mut i: usize = 0;
    while i < n
        invariant
            n == entries@.len(),
            24 * n <= usize::MAX,
            i <= n,
            bytes@.len() == 4 * i,
            forall|k: int| 0 <= k < i ==> le_u32(bytes@, 4 * k) == int_bits(#[trigger] entries@[k].clk as int),
        decreases n - i,
    {
        let ghost before = bytes@;
        push_u32_le(&mut bytes, int_to_bits(entries[i].clk));
        proof {
            assert(bytes@.subrange(0, before.len() as int) =~= before);
            lemma_fields_kept(before, bytes@);
        }
        i = i + 1;
    }
    let ghost starts = bytes@;

    i = 0;
    while i < n
        invariant
            n == entries@.len(),
            24 * n <= usize::MAX,
            i <= n,
            starts.len() == 4 * n,
            bytes@.len() == 4 * n + 4 * i,
            bytes@.subrange(0, 4 * n) == starts,
            forall|k: int| 0 <= k < i ==> le_u32(bytes@, 4 * n + 4 * k) == duration_bits(config.clock_periods@, #[trigger] entries@[k].cmd_id),
        decreases n - i,
    {
        let ghost before = bytes@;
        let cmd = entries[i].cmd_id();
        let duration = match config.clock_periods.get(&cmd) {
            Some(d) => *d,
            None => TEN_BITS,
        };
        push_u32_le(&mut bytes, duration);
        proof {
            assert(bytes@.subrange(0, before.len() as int) =~= before);
            assert(bytes@.subrange(0, 4 * n) =~= before.subrange(0, 4 * n));
            lemma_fields_kept(before, bytes@);
        }
        i = i + 1;
    }
    let ghost durations = bytes@;

    i = 0;
    while i < n
        invariant
            n == entries@.len(),
            24 * n <= usize::MAX,
            i <= n,
            durations.len() == 8 * n,
            bytes@.len() == 8 * n + 4 * i,
            bytes@.subrange(0, 8 * n) == durations,
            forall|k: int| 0 <= k < i ==> #[trigger] le_u32(bytes@, 8 * n + 4 * k) == ZERO_BITS,
        decreases n - i,
    {
        let ghost before = bytes@;
        push_u32_le(&mut bytes, ZERO_BITS);
        proof {
            assert(bytes@.subrange(0, before.len() as int) =~= before);
            assert(bytes@.subrange(0, 8 * n) =~= before.subrange(0, 8 * n));
            lemma_fields_kept(before, bytes@);
        }
        i = i + 1;
    }
    let ghost rows = bytes@;

    i = 0;
    while i < n
        invariant
            n == entries@.len(),
            24 * n <= usize::MAX,
            i <= n,
            lut@.len() == 256,
            forall|c: u8| #[trigger] lut@[c as int] == command_color(config.colors@, c),
            rows.len() == 12 * n,
            bytes@.len() == 12 * n + 12 * i,
            bytes@.subrange(0, 12 * n) == rows,
            forall|k: int|
                0 <= k < i ==> {
                    let c = command_color(config.colors@, #[trigger] entries@[k].cmd_id);
                    &&& le_u32(bytes@, 12 * n + 12 * k) == c.0
                    &&& le_u32(bytes@, 12 * n + 12 * k + 4) == c.1
                    &&& le_u32(bytes@, 12 * n + 12 * k + 8) == c.2
                },
        decreases n - i,
    {
        let ghost before = bytes@;
        let (red, green, blue) = lut[entries[i].cmd_id() as usize];
        push_u32_le(&mut bytes, red);
        push_u32_le(&mut bytes, green);
        push_u32_le(&mut bytes, blue);
        proof {
            assert(bytes@.subrange(0, before.len() as int) =~= before);
            assert(bytes@.subrange(0, 12 * n) =~= before.subrange(0, 12 * n));
            lemma_fields_kept(before, bytes@);
            let b1 = before + crate::bytes::le_bytes_u32(red);
            let b2 = b1 + crate::bytes::le_bytes_u32(green);
            assert(bytes@.subrange(0, b1.len() as int) =~= b1);
            assert(bytes@.subrange(0, b2.len() as int) =~= b2);
            lemma_fields_kept(b1, bytes@);
            lemma_fields_kept(b2, bytes@);
        }
        i = i + 1;
    }
    proof {
        assert forall|k: int| 0 <= k < n implies {
            &&& le_u32(bytes@, 4 * k) == int_bits(#[trigger] entries@[k].clk as int)
            &&& le_u32(bytes@, 4 * n + 4 * k) == duration_bits(config.clock_periods@, entries@[k].cmd_id)
            &&& le_u32(bytes@, 8 * n + 4 * k) == ZERO_BITS
        } by {
            lemma_le_u32_prefix(starts, durations, 4 * k);
            lemma_le_u32_prefix(durations, rows, 4 * k);
            lemma_le_u32_prefix(rows, bytes@, 4 * k);
            lemma_le_u32_prefix(durations, rows, 4 * n + 4 * k);
            lemma_le_u32_prefix(rows, bytes@, 4 * n + 4 * k);
            lemma_le_u32_prefix(rows, bytes@, 8 * n + 4 * k);
        }
    }
    bytes
}

/// Law of the transfer buffer: it holds 24 bytes per entry, and an entry
/// whose command has neither a duration nor a colour configured gets the
/// duration `10.0` and the colour `(0.5, 0.5, 0.5)`.
pub proof fn lemma_unconfigured_defaults(
    buf: Seq<u8>,
    entries: Seq<Entry>,
    colors: Map<u8, String>,
    periods: Map<u8, u32>,
    i: int,
)
    requires
        is_range_buffer(buf, entries, colors, periods),
        0 <= i < entries.len(),
        !colors.contains_key(entries[i].cmd_id),
        !periods.contains_key(entries[i].cmd_id),
    ensures
        buf.len() == 24 * entries.len(),
        le_u32(buf, 4 * entries.len() + 4 * i) == TEN_BITS,
        le_u32(buf, 12 * entries.len() + 12 * i) == HALF_BITS,
        le_u32(buf, 12 * entries.len() + 12 * i + 4) == HALF_BITS,
        le_u32(buf, 12 * entries.len() + 12 * i + 8) == HALF_BITS,
{
    assert(le_u32(buf, 4 * i) == int_bits(entries[i].clk as int));
}

} // verus!
