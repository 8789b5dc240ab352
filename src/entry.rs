//! Fixed-width 32-byte trace entries.
use vstd::prelude::*;

use crate::bytes::{le_u16, le_u32, le_u64, read_u16_le, read_u32_le, read_u64_le};
use crate::header::{Header, HEADER_SIZE};

verus! {

/// Size in bytes of one entry.
pub const ENTRY_SIZE: usize = 32;

/// One traced command. Layout, all little-endian: clock cycle (8 bytes),
/// channel (2), rank (2), bank group (4), bank (4), row (4), column (4),
/// command id (1), three reserved bytes. Address fields hold `-1` where
/// they do not apply.
#[derive(Debug, Clone, Copy, PartialEq, Eq)]
pub struct Entry {
    pub clk: i64,
    pub channel: i16,
    pub rank: i16,
    pub bankgroup: i32,
    pub bank: i32,
    pub row: i32,
    pub column: i32,
    pub cmd_id: u8,
    pub reserved: [u8; 3],
}

#[derive(Debug, Clone, Copy, PartialEq, Eq, Structural)]
pub enum EntryError {
    InvalidCmdId,
    InvalidIndex,
    OutOfBounds,
}

impl EntryError {
    pub fn message(&self) -> (r: String)
        ensures
            *self is InvalidCmdId ==> r@ == "invalid command id"@,
            *self is InvalidIndex ==> r@ == "invalid index"@,
            *self is OutOfBounds ==> r@ == "entry range out of bounds"@,
    {
        match self {
            EntryError::InvalidCmdId => "invalid command id".to_owned(),
            EntryError::InvalidIndex => "invalid index".to_owned(),
            EntryError::OutOfBounds => "entry range out of bounds".to_owned(),
        }
    }
}

impl Entry {
    pub fn cmd_id(&self) -> (r: u8)
        ensures
            r == self.cmd_id,
    {
        self.cmd_id
    }
}

/// Byte offset of entry `index` in a trace file.
pub open spec fn entry_offset(index: int) -> int {
    HEADER_SIZE + index * ENTRY_SIZE
}

/// The clock cycle stored in the entry that starts at `off`.
pub open spec fn clk_at(s: Seq<u8>, off: int) -> i64 {
    le_u64(s, off) as i64
}

/// `e` holds the fields of the 32-byte entry that starts at `off` in `s`.
pub open spec fn decodes_entry(s: Seq<u8>, off: int, e: Entry) -> bool {
    &&& 0 <= off
    &&& off + ENTRY_SIZE <= s.len()
    &&& e.clk == clk_at(s, off)
    &&& e.channel == le_u16(s, off + 8) as i16
    &&& e.rank == le_u16(s, off + 10) as i16
    &&& e.bankgroup == le_u32(s, off + 12) as i32
    &&& e.bank == le_u32(s, off + 16) as i32
    &&& e.row == le_u32(s, off + 20) as i32
    &&& e.column == le_u32(s, off + 24) as i32
    &&& e.cmd_id == s[off + 28]
    &&& e.reserved@ == s.subrange(off + 29, off + 32)
}

/// Which error, if any, reading entry `index` of `data` under `h` gives:
/// an index past the declared count, or one whose offset lies past the
/// buffer, is invalid; an entry cut short by the end of the buffer, or
/// one whose command id is not below the declared command count, has an
/// invalid command id.
pub open spec fn entry_check(data: Seq<u8>, h: Header, index: int) -> Result<(), EntryError> {
    let off = entry_offset(index);
    if index >= h.num_entries {
        Err(EntryError::InvalidIndex)
    } else if off > data.len() {
        Err(EntryError::InvalidIndex)
    } else if off + ENTRY_SIZE > data.len() {
        Err(EntryError::InvalidCmdId)
    } else if data[off + 28] >= h.num_commands {
        Err(EntryError::InvalidCmdId)
    } else {
        Ok(())
    }
}

/// Reads the entry that starts at byte `off` of `s`.
pub fn read_entry(s: &[u8], off: usize) -> (e: Entry)
    requires
        off + ENTRY_SIZE <= s@.len(),
    ensures
        decodes_entry(s@, off as int, e),
{
    assert(off + ENTRY_SIZE <= s.len());
    let e = Entry {
        clk: read_u64_le(s, off) as i64,
        channel: read_u16_le(s, off + 8) as i16,
        rank: read_u16_le(s, off + 10) as i16,
        bankgroup: read_u32_le(s, off + 12) as i32,
        bank: read_u32_le(s, off + 16) as i32,
        row: read_u32_le(s, off + 20) as i32,
        column: read_u32_le(s, off + 24) as i32,
        cmd_id: s[off + 28],
        reserved: [s[off + 29], s[off + 30], s[off + 31]],
    };
    assert(e.reserved@ =~= s@.subrange(off + 29, off + 32));
    e
}

/// Reads entry `index` of the trace in `data`, checking it against the
/// header's entry and command counts.
pub fn parse(data: &[u8], header: &Header, index: u64) -> (r: Result<Entry, EntryError>)
    ensures
        match entry_check(data@, *header, index as int) {
            Ok(()) => r is Ok && decodes_entry(data@, entry_offset(index as int), r->Ok_0),
            Err(e) => r == Err::<Entry, EntryError>(e),
        },
{
    if index >= header.num_entries() {
        return Err(EntryError::InvalidIndex);
    }
    let wide: u128 = HEADER_SIZE as u128 + (index as u128) * (ENTRY_SIZE as u128);
    if wide > data.len() as u128 {
        return Err(EntryError::InvalidIndex);
    }
    let offset = wide as usize;
    if data.len() - offset < ENTRY_SIZE {
        return Err(EntryError::InvalidCmdId);
    }
    let entry = read_entry(data, offset);
    if entry.cmd_id() >= header.num_commands() {
        return Err(EntryError::InvalidCmdId);
    }
    Ok(entry)
}

/// A read-only view of consecutive entries over borrowed bytes. Entries are
/// decoded when they are read.
pub struct EntrySlice<'a> {
    bytes: &'a [u8],
}

impl<'a> EntrySlice<'a> {
    /// The bytes under the view.
    pub closed spec fn bytes(&self) -> Seq<u8> {
        self.bytes@
    }

    /// Number of whole entries in the view.
    pub open spec fn count(&self) -> nat {
        self.bytes().len() / (ENTRY_SIZE as nat)
    }

    /// A view over `bytes`, which holds whole entries only.
    pub fn new(bytes: &'a [u8]) -> (r: Option<EntrySlice<'a>>)
        ensures
            bytes@.len() % (ENTRY_SIZE as nat) == 0 <==> r is Some,
            r is Some ==> r->Some_0.bytes() == bytes@,
    {
        if bytes.len() % ENTRY_SIZE == 0 {
            Some(EntrySlice { bytes })
        } else {
            None
        }
    }

    pub fn len(&self) -> (r: usize)
        ensures
            r == self.count(),
    {
        self.bytes.len() / ENTRY_SIZE
    }

    pub fn is_empty(&self) -> (r: bool)
        ensures
            r == (self.count() == 0),
    {
        self.bytes.len() < ENTRY_SIZE
    }

    /// Entry `i` of the view.
    pub fn get(&self, i: usize) -> (e: Entry)
        requires
            i < self.count(),
        ensures
            decodes_entry(self.bytes(), i * ENTRY_SIZE, e),
    {
        assert(self.bytes@.len() == self.bytes.len());
        proof {
            assert(i * 32 + 32 <= self.bytes@.len()) by (nonlinear_arith)
                requires
                    i < self.bytes@.len() / 32,
            ;
        }
        read_entry(self.bytes, i * ENTRY_SIZE)
    }

    /// The entries of the view, decoded into a vector.
    pub fn to_vec(&self) -> (v: Vec<Entry>)
        ensures
            v@.len() == self.count(),
            forall|i: int| 0 <= i < v@.len() ==> decodes_entry(self.bytes(), i * ENTRY_SIZE, #[trigger] v@[i]),
    {
        let n = self.len();
        let mut v: Vec<Entry> = Vec::new();
        let mut i: usize = 0;
        while i < n
            invariant
                n == self.count(),
                i <= n,
                v@.len() == i,
                forall|k: int| 0 <= k < i ==> decodes_entry(self.bytes(), k * ENTRY_SIZE, #[trigger] v@[k]),
            decreases n - i,
        {
            v.push(self.get(i));
            i = i + 1;
        }
        v
    }
}

} // verus!
