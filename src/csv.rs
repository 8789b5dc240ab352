//! Fields of one comma-separated line, read in place.
use vstd::prelude::*;
use vstd::utf8::{decode_utf8, valid_utf8};

use crate::text::{decode, trim_std, trimmed};

verus! {

/// The fields of `s`, split at every comma. A line without commas is one
/// field; an empty line is one empty field.
pub open spec fn split_fields(s: Seq<u8>) -> Seq<Seq<u8>>
    decreases s.len(),
{
    if s.len() == 0 {
        seq![Seq::empty()]
    } else {
        let prev = split_fields(s.drop_last());
        if s.last() == 0x2c {
            prev.push(Seq::empty())
        } else {
            prev.update(prev.len() - 1, prev.last().push(s.last()))
        }
    }
}

/// The text of field `index` of `s` with surrounding white space trimmed,
/// when that field exists and is valid UTF-8.
pub open spec fn field_text(s: Seq<u8>, index: int) -> Option<Seq<char>> {
    let fields = split_fields(s);
    if 0 <= index < fields.len() && valid_utf8(fields[index]) {
        Some(trimmed(decode_utf8(fields[index])))
    } else {
        None
    }
}

proof fn lemma_split_nonempty(s: Seq<u8>)
    ensures
        split_fields(s).len() >= 1,
    decreases s.len(),
{
    if s.len() > 0 {
        lemma_split_nonempty(s.drop_last());
    }
}

/// Fields that a prefix has closed with a comma stay as they are.
proof fn lemma_split_stable(s: Seq<u8>, i: int, j: int)
    requires
        0 <= i <= j <= s.len(),
    ensures
        split_fields(s.take(j)).len() >= split_fields(s.take(i)).len(),
        forall|k: int|
            0 <= k < split_fields(s.take(i)).len() - 1 ==> #[trigger] split_fields(s.take(j))[k]
                == split_fields(s.take(i))[k],
    decreases j - i,
{
    if i < j {
        lemma_split_stable(s, i, j - 1);
        assert(s.take(j).drop_last() =~= s.take(j - 1));
        lemma_split_nonempty(s.take(j - 1));
    }
}

/// One line of comma-separated text, without its line break.
pub struct CSVLine<'a> {
    data: &'a [u8],
}

impl<'a> CSVLine<'a> {
    /// The bytes of the line.
    pub closed spec fn bytes(&self) -> Seq<u8> {
        self.data@
    }

    pub fn new(data: &'a [u8]) -> (r: Self)
        ensures
            r.bytes() == data@,
    {
        Self { data }
    }

    /// The raw bytes of field `index`.
    pub fn get_field_bytes(&self, index: usize) -> (r: Option<&'a [u8]>)
        ensures
            index < split_fields(self.bytes()).len() <==> r is Some,
            r is Some ==> r->Some_0@ == split_fields(self.bytes())[index as int],
    {
        let s = self.data;
        let n = s.len();
        let mut field: usize = 0;
        let mut start: usize = 0;
        let mut i: usize = 0;
        proof {
            assert(s@.take(0) =~= Seq::<u8>::empty());
        }
        while i < n
            invariant
                n == s@.len(),
                s@ == self.bytes(),
                start <= i <= n,
                field <= index,
                field <= i,
                split_fields(s@.take(i as int)).len() == field + 1,
                split_fields(s@.take(i as int)).last() == s@.subrange(start as int, i as int),
            decreases n - i,
        {
            let ghost prev = split_fields(s@.take(i as int));
            proof {
                assert(s@.take(i + 1).drop_last() =~= s@.take(i as int));
            }
            if s[i] == 0x2c {
                if field == index {
                    proof {
                        lemma_split_stable(s@, i + 1, n as int);
                        assert(s@.take(n as int) =~= s@);
                        assert(split_fields(s@.take(i + 1))[field as int] == prev[field as int]);
                    }
                    return Some(vstd::slice::slice_subrange(s, start, i));
                }
                field = field + 1;
                start = i + 1;
                proof {
                    assert(s@.subrange(start as int, i + 1) =~= Seq::<u8>::empty());
                }
            } else {
                proof {
                    assert(s@.subrange(start as int, i + 1) =~= s@.subrange(start as int, i as int).push(s@[i as int]));
                }
            }
            i = i + 1;
        }
        proof {
            assert(s@.take(n as int) =~= s@);
        }
        if field == index {
            Some(vstd::slice::slice_subrange(s, start, n))
        } else {
            None
        }
    }

    /// Field `index` as text, with surrounding white space trimmed; `None`
    /// when there is no such field or it is not valid UTF-8.
    pub fn get_field_str(&self, index: usize) -> (r: Option<&'a str>)
        ensures
            field_text(self.bytes(), index as int) is Some <==> r is Some,
            r is Some ==> r->Some_0@ == field_text(self.bytes(), index as int)->Some_0,
    {
        match self.get_field_bytes(index) {
            Some(b) => match decode(b) {
                Ok(text) => Some(trim_std(text)),
                Err(_) => None,
            },
            None => None,
        }
    }

    /// Field `index` parsed as a `T`; `None` when the field is missing, not
    /// valid UTF-8, or does not parse.
    pub fn get_field<T: std::str::FromStr>(&self, index: usize) -> (r: Option<T>)
        ensures
            field_text(self.bytes(), index as int) is None ==> r is None,
    {
        match self.get_field_str(index) {
            Some(text) => parse_std(text),
            None => None,
        }
    }
}

/// Relies on `str::parse`: the value that `T`'s `FromStr` reads from the
/// text, if any.
#[verifier::external_body]
fn parse_std<T: std::str::FromStr>(s: &str) -> (r: Option<T>) {
    s.parse().ok()
}

} // verus!
