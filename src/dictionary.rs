//! The dictionary section: the names of the commands that entries refer
//! to by id.
//!
//! At the dictionary offset stand one record per command, in id order
//! starting at 0: a length byte, then that many bytes of UTF-8 name.
use std::collections::HashMap;
use vstd::prelude::*;
use vstd::utf8::{decode_utf8, valid_utf8};

use crate::text::decode;

verus! {

broadcast use vstd::std_specs::hash::group_hash_axioms;

/// Command names by command id.
#[derive(Debug)]
pub struct Dictionary {
    pub commands: HashMap<u8, String>,
}

#[derive(Debug)]
pub enum DictionaryError {
    OffsetOutOfBounds,
    InvalidFormat,
    Utf8Error(std::str::Utf8Error),
}

/// The kind of a dictionary error, without its detail.
#[derive(Debug, Clone, Copy, PartialEq, Eq, Structural)]
pub enum DictionaryErrorKind {
    OffsetOutOfBounds,
    InvalidFormat,
    Utf8,
}

/// The kind of `e`.
pub open spec fn kind_of(e: DictionaryError) -> DictionaryErrorKind {
    match e {
        DictionaryError::OffsetOutOfBounds => DictionaryErrorKind::OffsetOutOfBounds,
        DictionaryError::InvalidFormat => DictionaryErrorKind::InvalidFormat,
        DictionaryError::Utf8Error(_) => DictionaryErrorKind::Utf8,
    }
}

impl DictionaryError {
    pub fn kind(&self) -> (r: DictionaryErrorKind)
        ensures
            r == kind_of(*self),
    {
        match self {
            DictionaryError::OffsetOutOfBounds => DictionaryErrorKind::OffsetOutOfBounds,
            DictionaryError::InvalidFormat => DictionaryErrorKind::InvalidFormat,
            DictionaryError::Utf8Error(_) => DictionaryErrorKind::Utf8,
        }
    }

    pub fn message(&self) -> (r: String)
        ensures
            *self is OffsetOutOfBounds ==> r@ == "dictionary offset out of bounds"@,
            *self is InvalidFormat ==> r@ == "invalid dictionary format"@,
            *self is Utf8Error ==> r@ == "UTF-8 error in a command name"@,
    {
        match self {
            DictionaryError::OffsetOutOfBounds => "dictionary offset out of bounds".to_owned(),
            DictionaryError::InvalidFormat => "invalid dictionary format".to_owned(),
            DictionaryError::Utf8Error(_) => "UTF-8 error in a command name".to_owned(),
        }
    }
}

/// The names of `count` consecutive records starting at `pos`, or the
/// first failure: a length byte or a name past the end of `data`, or a
/// name that is not valid UTF-8.
pub open spec fn record_names(data: Seq<u8>, pos: int, count: nat) -> Result<
    Seq<Seq<char>>,
    DictionaryErrorKind,
>
    decreases count,
{
    if count == 0 {
        Ok(Seq::empty())
    } else if pos < 0 || pos >= data.len() {
        Err(DictionaryErrorKind::OffsetOutOfBounds)
    } else {
        let start = pos + 1;
        let end = start + data[pos];
        if end > data.len() {
            Err(DictionaryErrorKind::OffsetOutOfBounds)
        } else if !valid_utf8(data.subrange(start, end)) {
            Err(DictionaryErrorKind::Utf8)
        } else {
            match record_names(data, end, (count - 1) as nat) {
                Ok(rest) => Ok(seq![decode_utf8(data.subrange(start, end))] + rest),
                Err(e) => Err(e),
            }
        }
    }
}

/// The command names of the dictionary at `offset` with `num_commands`
/// records; an offset that is not inside `data` is out of bounds.
pub open spec fn dictionary_names(data: Seq<u8>, offset: int, num_commands: nat) -> Result<
    Seq<Seq<char>>,
    DictionaryErrorKind,
> {
    if offset >= data.len() {
        Err(DictionaryErrorKind::OffsetOutOfBounds)
    } else {
        record_names(data, offset, num_commands)
    }
}

/// `commands` maps each id below `names.len()`, and no other, to its name.
pub open spec fn holds_names(commands: Map<u8, String>, names: Seq<Seq<char>>) -> bool {
    forall|id: u8|
        #![trigger commands.contains_key(id)]
        #![trigger commands[id]]
        (commands.contains_key(id) <==> id < names.len()) && (id < names.len()
            ==> commands[id]@ == names[id as int])
}

/// `r` is what parsing the dictionary at `offset` of `data` gives.
pub open spec fn parse_outcome(
    data: Seq<u8>,
    offset: int,
    num_commands: nat,
    r: Result<Dictionary, DictionaryError>,
) -> bool {
    match dictionary_names(data, offset, num_commands) {
        Ok(names) => r is Ok && holds_names(r->Ok_0.commands@, names),
        Err(k) => r is Err && kind_of(r->Err_0) == k,
    }
}

/// Joins the names read so far with the outcome of reading the rest.
pub open spec fn prepend(
    done: Seq<Seq<char>>,
    rest: Result<Seq<Seq<char>>, DictionaryErrorKind>,
) -> Result<Seq<Seq<char>>, DictionaryErrorKind> {
    match rest {
        Ok(names) => Ok(done + names),
        Err(e) => Err(e),
    }
}

/// Reads the dictionary at `dict_offset` of `data`, with `num_commands`
/// records.
pub fn parse(data: &[u8], dict_offset: u64, num_commands: u8) -> (r: Result<
    Dictionary,
    DictionaryError,
>)
    ensures
        parse_outcome(data@, dict_offset as int, num_commands as nat, r),
{
    let len = data.len();
    if dict_offset >= len as u64 {
        return Err(DictionaryError::OffsetOutOfBounds);
    }
    let mut commands: HashMap<u8, String> = HashMap::new();
    let mut pos: usize = dict_offset as usize;
    let mut id: u8 = 0;
    let ghost mut done: Seq<Seq<char>> = Seq::empty();
    while id < num_commands
        invariant
            len == data@.len(),
            pos <= len,
            id <= num_commands,
            done.len() == id,
            dictionary_names(data@, dict_offset as int, num_commands as nat) == prepend(
                done,
                record_names(data@, pos as int, (num_commands - id) as nat),
            ),
            holds_names(commands@, done),
        decreases num_commands - id,
    {
        proof {
            assert(seq![] + done =~= done);
        }
        if pos >= len {
            return Err(DictionaryError::OffsetOutOfBounds);
        }
        let name_len = data[pos] as usize;
        let start = pos + 1;
        if name_len > len - start {
            return Err(DictionaryError::OffsetOutOfBounds);
        }
        let bytes = vstd::slice::slice_subrange(data, start, start + name_len);
        let name = match decode(bytes) {
            Ok(s) => s,
            Err(e) => {
                return Err(DictionaryError::Utf8Error(e));
            },
        };
        proof {
            let rest = record_names(data@, (start + name_len) as int, (num_commands - id - 1) as nat);
            let one = seq![name@];
            assert(bytes@ == data@.subrange(start as int, start + name_len));
            assert(record_names(data@, pos as int, (num_commands - id) as nat) == prepend(one, rest));
            assert(done.push(name@) =~= done + one);
            match rest {
                Ok(names) => {
                    assert(done + (one + names) =~= (done + one) + names);
                },
                Err(_) => {},
            }
        }
        commands.insert(id, name.to_owned());
        proof {
            done = done.push(name@);
        }
        pos = start + name_len;
        id = id + 1;
    }
    proof {
        assert(done + Seq::<Seq<char>>::empty() =~= done);
    }
    Ok(Dictionary { commands })
}

/// Law: parsing is deterministic. Two parses of the same bytes either both
/// fail with the same kind of error, or both give every id the same name.
pub proof fn lemma_parse_deterministic(
    data: Seq<u8>,
    offset: int,
    num_commands: nat,
    first: Result<Dictionary, DictionaryError>,
    second: Result<Dictionary, DictionaryError>,
)
    requires
        parse_outcome(data, offset, num_commands, first),
        parse_outcome(data, offset, num_commands, second),
    ensures
        first is Ok <==> second is Ok,
        first is Err ==> kind_of(first->Err_0) == kind_of(second->Err_0),
        first is Ok ==> forall|id: u8|
            #![trigger first->Ok_0.commands@.contains_key(id)]
            (first->Ok_0.commands@.contains_key(id) <==> second->Ok_0.commands@.contains_key(id))
                && (first->Ok_0.commands@.contains_key(id) ==> first->Ok_0.commands@[id]@
                == second->Ok_0.commands@[id]@),
{
}

/// Law: a record whose length byte announces a name that reaches past the
/// end of the bytes makes the parse fail out of bounds.
pub proof fn lemma_record_past_end(data: Seq<u8>, pos: int, count: nat)
    requires
        count > 0,
        0 <= pos < data.len(),
        pos + 1 + data[pos] > data.len(),
    ensures
        record_names(data, pos, count) == Err::<Seq<Seq<char>>, DictionaryErrorKind>(
            DictionaryErrorKind::OffsetOutOfBounds,
        ),
{
}

} // verus!
