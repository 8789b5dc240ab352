//! A trace file held in memory: its bytes and validated header, with
//! point and range access to the entries and search by clock cycle.
use vstd::prelude::*;

use crate::bytes::read_u64_le;
use crate::dictionary::{parse as parse_dictionary_at, parse_outcome, Dictionary, DictionaryError};
use crate::entry::{
    clk_at,
    decodes_entry,
    entry_check,
    entry_offset,
    parse as parse_entry,
    Entry,
    EntryError,
    EntrySlice,
    ENTRY_SIZE,
};
use crate::header::{decodes_header, header_check, parse as parse_header, Header, HeaderError, HEADER_SIZE};

verus! {

/// The clock cycle of entry `i` of the trace in `data`.
pub open spec fn clk_of(data: Seq<u8>, i: int) -> i64 {
    clk_at(data, entry_offset(i))
}

/// All `n` entries lie inside `data`.
pub open spec fn entries_fit(data: Seq<u8>, n: int) -> bool {
    entry_offset(n) <= data.len()
}

/// The first `n` entries are in non-decreasing clock order.
pub open spec fn clk_sorted(data: Seq<u8>, n: int) -> bool {
    forall|i: int, j: int| 0 <= i <= j < n ==> clk_of(data, i) <= clk_of(data, j)
}

/// `i` is the first of the `n` entries whose clock is at least `t`, or `n`
/// when there is none.
pub open spec fn is_lower_bound(data: Seq<u8>, n: int, t: i64, i: int) -> bool {
    &&& 0 <= i <= n
    &&& forall|k: int| 0 <= k < i ==> clk_of(data, k) < t
    &&& forall|k: int| i <= k < n ==> clk_of(data, k) >= t
}

/// The half-open byte range of entries `start .. start + count` lies inside
/// `data`.
pub open spec fn range_fits(data: Seq<u8>, start: int, count: int) -> bool {
    entry_offset(start + count) <= data.len()
}

/// A trace file's bytes, whose header has been validated.
pub struct TraceLoader<'a> {
    data: &'a [u8],
    header: Header,
}

impl<'a> TraceLoader<'a> {
    /// The bytes of the trace file.
    pub closed spec fn bytes(&self) -> Seq<u8> {
        self.data@
    }

    /// The header read from the bytes.
    pub closed spec fn head(&self) -> Header {
        self.header
    }

    /// The header is valid and is the one that the bytes hold.
    pub open spec fn wf(&self) -> bool {
        &&& header_check(self.bytes()) == Ok::<(), HeaderError>(())
        &&& decodes_header(self.bytes(), self.head())
    }

    /// Validates the header of the trace in `data`.
    pub fn new(data: &'a [u8]) -> (r: Result<TraceLoader<'a>, HeaderError>)
        ensures
            match header_check(data@) {
                Ok(()) => r is Ok && r->Ok_0.wf() && r->Ok_0.bytes() == data@,
                Err(e) => r is Err && r->Err_0 == e,
            },
    {
        match parse_header(data) {
            Ok(header) => Ok(TraceLoader { data, header }),
            Err(e) => Err(e),
        }
    }

    pub fn header(&self) -> (r: &Header)
        ensures
            *r == self.head(),
    {
        &self.header
    }

    pub fn data(&self) -> (r: &'a [u8])
        ensures
            r@ == self.bytes(),
    {
        self.data
    }

    /// Reads the command dictionary that the header points at.
    pub fn parse_dictionary(&self) -> (r: Result<Dictionary, DictionaryError>)
        ensures
            parse_outcome(
                self.bytes(),
                self.head().dict_offset as int,
                self.head().num_commands as nat,
                r,
            ),
    {
        parse_dictionary_at(self.data, self.header.dict_offset(), self.header.num_commands())
    }

    /// Reads entry `index`, checking it against the header's counts.
    pub fn load_entry(&self, index: u64) -> (r: Result<Entry, EntryError>)
        ensures
            match entry_check(self.bytes(), self.head(), index as int) {
                Ok(()) => r is Ok && decodes_entry(
                    self.bytes(),
                    entry_offset(index as int),
                    r->Ok_0,
                ),
                Err(e) => r == Err::<Entry, EntryError>(e),
            },
    {
        parse_entry(self.data, &self.header, index)
    }

    /// A view of entries `start .. start + count`, without copying them and
    /// without checking their command ids.
    pub fn load_entry_slice(&self, start: u64, count: usize) -> (r: Result<EntrySlice<'a>, EntryError>)
        ensures
            range_fits(self.bytes(), start as int, count as int) <==> r is Ok,
            r is Err ==> r->Err_0 == EntryError::OutOfBounds,
            r is Ok ==> r->Ok_0.count() == count && r->Ok_0.bytes() == self.bytes().subrange(
                entry_offset(start as int),
                entry_offset(start + count),
            ),
    {
        let len = self.data.len();
        let begin: u128 = HEADER_SIZE as u128 + (start as u128) * (ENTRY_SIZE as u128);
        let end: u128 = begin + (count as u128) * (ENTRY_SIZE as u128);
        if end > len as u128 {
            return Err(EntryError::OutOfBounds);
        }
        let window = vstd::slice::slice_subrange(self.data, begin as usize, end as usize);
        assert((count * 32) as int % 32 == 0) by (nonlinear_arith);
        assert(window@.len() / 32 == count as int) by (nonlinear_arith)
            requires
                window@.len() == end - begin,
                end - begin == count * 32,
        ;
        match EntrySlice::new(window) {
            Some(s) => Ok(s),
            None => Err(EntryError::OutOfBounds),
        }
    }

    /// The index of the first entry whose clock is at least `target_clk`, or
    /// the number of entries when there is none, by binary search: exact
    /// when the entries are in clock order. Each probe reads one entry's
    /// clock in place. Fails when the entries declared by the header do not
    /// all lie inside the bytes.
    pub fn find_index_for_time(&self, target_clk: i64) -> (r: Result<u64, EntryError>)
        ensures
            entries_fit(self.bytes(), self.head().num_entries as int) <==> r is Ok,
            r is Err ==> r->Err_0 == EntryError::OutOfBounds,
            r is Ok ==> r->Ok_0 <= self.head().num_entries,
            r is Ok && clk_sorted(self.bytes(), self.head().num_entries as int) ==> is_lower_bound(
                self.bytes(),
                self.head().num_entries as int,
                target_clk,
                r->Ok_0 as int,
            ),
    {
        let n = self.header.num_entries();
        let len = self.data.len();
        if HEADER_SIZE as u128 + (n as u128) * (ENTRY_SIZE as u128) > len as u128 {
            return Err(EntryError::OutOfBounds);
        }
        let ghost data = self.bytes();
        let ghost sorted = clk_sorted(data, n as int);
        let mut lo: u64 = 0;
        let mut hi: u64 = n;
        while lo < hi
            invariant
                data == self.data@,
                len == data.len(),
                entry_offset(n as int) <= len,
                0 <= lo <= hi <= n,
                sorted == clk_sorted(data, n as int),
                sorted ==> forall|k: int| 0 <= k < lo ==> clk_of(data, k) < target_clk,
                sorted ==> forall|k: int| hi <= k < n ==> clk_of(data, k) >= target_clk,
            decreases hi - lo,
        {
            let mid = lo + (hi - lo) / 2;
            let offset = HEADER_SIZE + (mid as usize) * ENTRY_SIZE;
            let clk = read_u64_le(self.data, offset) as i64;
            assert(clk == clk_of(data, mid as int));
            if clk < target_clk {
                lo = mid + 1;
            } else {
                hi = mid;
            }
        }
        Ok(lo)
    }
}

/// Law of the range view: a successful range read holds exactly `count`
/// entries, and each of them is the entry that a point read of the same
/// index returns, wherever the point read succeeds.
pub proof fn lemma_slice_agrees_with_point_reads(
    loader: TraceLoader,
    start: u64,
    count: usize,
    slice: EntrySlice,
    i: int,
    from_slice: Entry,
    from_point: Entry,
)
    requires
        loader.wf(),
        range_fits(loader.bytes(), start as int, count as int),
        slice.bytes() == loader.bytes().subrange(
            entry_offset(start as int),
            entry_offset(start + count),
        ),
        0 <= i < count,
        decodes_entry(slice.bytes(), i * ENTRY_SIZE, from_slice),
        entry_check(loader.bytes(), loader.head(), start + i) == Ok::<(), EntryError>(()),
        decodes_entry(loader.bytes(), entry_offset(start + i), from_point),
    ensures
        slice.count() == count,
        from_slice == from_point,
{
    let s = slice.bytes();
    let b = loader.bytes();
    let base = entry_offset(start as int);
    assert(s.len() == count * 32);
    assert((count * 32) / 32 == count) by (nonlinear_arith);
    assert(entry_offset(start + i) == base + i * 32);
    assert forall|k: int| 0 <= k < 32 implies #[trigger] s[i * 32 + k] == b[base + i * 32 + k] by {
        assert(i * 32 + k < count * 32) by (nonlinear_arith)
            requires
                0 <= k < 32,
                0 <= i < count,
        ;
    }
    assert(from_slice.reserved@ =~= from_point.reserved@);
    assert(from_slice.reserved == from_point.reserved);
}

/// Law of the time search: the first entry whose clock is at least `t` is
/// a single index, whatever the search found it by.
pub proof fn lemma_lower_bound_unique(data: Seq<u8>, n: int, t: i64, i: int, j: int)
    requires
        is_lower_bound(data, n, t, i),
        is_lower_bound(data, n, t, j),
    ensures
        i == j,
{
    if i < j {
        assert(clk_of(data, i) < t);
    } else if j < i {
        assert(clk_of(data, j) < t);
    }
}

/// Law of the time search: a time at or below the first entry's clock
/// gives index 0, and one above every entry's clock gives the entry count.
pub proof fn lemma_lower_bound_ends(data: Seq<u8>, n: int, t: i64, i: int)
    requires
        is_lower_bound(data, n, t, i),
    ensures
        n > 0 && t <= clk_of(data, 0) ==> i == 0,
        (forall|k: int| 0 <= k < n ==> clk_of(data, k) < t) ==> i == n,
{
    if n > 0 && t <= clk_of(data, 0) && i > 0 {
        assert(clk_of(data, 0) < t);
    }
    if (forall|k: int| 0 <= k < n ==> clk_of(data, k) < t) && i < n {
        assert(clk_of(data, i) >= t);
    }
}

} // verus!
