use vstd::prelude::*;
use vstd::string::StringSliceAdditionalSpecFns;
use vstd::utf8::{decode_utf8, valid_utf8};

use crate::text::{decimal, decimal_string};

verus! {

/// A value that a compile-time evaluation produced, as read back from its
/// result artifact.
#[derive(Debug)]
pub enum ComptimeValue {
    Void,
    Bool(bool),
    Number(String),
    String(String),
    Char(u32),
    Struct { name: String, fields: Vec<(String, ComptimeValue)> },
    Enum { name: String, variant: String, payload: Option<Box<ComptimeValue>> },
    Closure { name: String, captures: Vec<(String, ComptimeValue)> },
    Unsupported(String),
}

pub open spec fn pow256(n: nat) -> nat
    decreases n,
{
    if n == 0 {
        1
    } else {
        256 * pow256((n - 1) as nat)
    }
}

/// The little-endian number that the first `n` bytes of `bytes` spell.
pub open spec fn le_value(bytes: Seq<u8>, n: nat) -> nat
    decreases n,
{
    if n == 0 {
        0
    } else {
        le_value(bytes, (n - 1) as nat) + (bytes[n - 1] as nat) * pow256((n - 1) as nat)
    }
}

/// The string stored at `pos`: a little-endian 64-bit byte length, then that
/// many bytes of UTF-8. Returns the characters and the position after them.
pub open spec fn spec_string_at(bytes: Seq<u8>, pos: int) -> Option<(Seq<char>, int)> {
    if pos + 8 > bytes.len() {
        None
    } else {
        let len = (le_value(bytes.subrange(pos, pos + 8), 8) as u64) as usize;
        let start = pos + 8;
        let end = if start + len > usize::MAX { usize::MAX as int } else { start + len };
        if end > bytes.len() {
            None
        } else if !valid_utf8(bytes.subrange(start, end)) {
            None
        } else {
            Some((decode_utf8(bytes.subrange(start, end)), end))
        }
    }
}

/// The tags that begin an encoded value.
pub open spec fn known_tag(tag: u8) -> bool {
    tag == 0 || tag == 1 || tag == 2 || tag == 3 || tag == 4 || tag == 6 || tag == 7 || tag == 9
        || tag == 255
}

/// What reading one value at `pos` gives: an error past the end or on an
/// unknown tag, and for each tag the value that its encoding describes.
pub open spec fn value_read_at(bytes: Seq<u8>, pos: int, value: Result<ComptimeValue, String>) -> bool {
    &&& pos >= bytes.len() ==> value is Err
    &&& pos < bytes.len() ==> {
                let tag = bytes[pos];
                &&& !known_tag(tag) ==> value is Err
                &&& tag == 0 ==> (value matches Ok(ComptimeValue::Void))
                &&& tag == 1 ==> (value is Ok <==> pos + 1 < bytes.len())
                &&& tag == 1 ==> (value matches Ok(v) ==> v == ComptimeValue::Bool(bytes[pos + 1] != 0))
                &&& tag == 4 ==> (value is Ok <==> pos + 5 <= bytes.len())
                &&& tag == 4 ==> (value matches Ok(v) ==> v == ComptimeValue::Char(
                    le_value(bytes.subrange(pos + 1, pos + 5), 4) as u32,
                ))
                &&& tag == 3 ==> (value is Ok <==> spec_string_at(bytes, pos + 1) is Some)
                &&& tag == 3 ==> (value matches Ok(v) ==> (v matches ComptimeValue::String(s)
                    && s@ == spec_string_at(bytes, pos + 1).unwrap().0))
                &&& tag == 255 ==> (value is Ok <==> spec_string_at(bytes, pos + 1) is Some)
                &&& tag == 255 ==> (value matches Ok(v) ==> (v matches ComptimeValue::Unsupported(s)
                    && s@ == spec_string_at(bytes, pos + 1).unwrap().0))
                &&& tag == 2 ==> (value matches Ok(v) ==> v is Number)
                &&& tag == 6 ==> (value matches Ok(v) ==> v is Struct)
                &&& tag == 7 ==> (value matches Ok(v) ==> v is Enum)
                &&& tag == 9 ==> (value matches Ok(v) ==> v is Closure)
                }
}

/// Where the encoding of `value` that starts at `pos` ends, if `bytes` hold
/// one there: the tag byte, then the value's parts in order (strings with
/// their length first, the entries of a struct or closure after their count).
pub open spec fn encoded_at(bytes: Seq<u8>, pos: int, value: ComptimeValue) -> Option<int>
    decreases value, 0nat,
{
    if pos < 0 || pos >= bytes.len() {
        None
    } else {
        let tag = bytes[pos];
        match value {
            ComptimeValue::Void => if tag == 0 { Some(pos + 1) } else { None },
            ComptimeValue::Bool(b) => if tag == 1 && pos + 1 < bytes.len() && b == (bytes[pos + 1] != 0) {
                Some(pos + 2)
            } else {
                None
            },
            ComptimeValue::Number(n) => if tag != 2 {
                None
            } else {
                match spec_string_at(bytes, pos + 1) {
                    Some((_, after_type)) => match spec_string_at(bytes, after_type) {
                        Some((text, end)) => if text == n@ { Some(end) } else { None },
                        None => None,
                    },
                    None => None,
                }
            },
            ComptimeValue::String(text) => if tag != 3 {
                None
            } else {
                match spec_string_at(bytes, pos + 1) {
                    Some((t, end)) => if t == text@ { Some(end) } else { None },
                    None => None,
                }
            },
            ComptimeValue::Char(c) => if tag == 4 && pos + 5 <= bytes.len() && c == le_value(
                bytes.subrange(pos + 1, pos + 5),
                4,
            ) as u32 {
                Some(pos + 5)
            } else {
                None
            },
            ComptimeValue::Struct { name, fields } => if tag != 6 {
                None
            } else {
                match spec_string_at(bytes, pos + 1) {
                    Some((n, after)) => if n != name@ || after + 8 > bytes.len() || (le_value(
                        bytes.subrange(after, after + 8),
                        8,
                    ) as u64) as usize != fields@.len() {
                        None
                    } else {
                        entries_encoded_at(bytes, after + 8, fields@)
                    },
                    None => None,
                }
            },
            ComptimeValue::Enum { name, variant, payload } => if tag != 7 {
                None
            } else {
                match spec_string_at(bytes, pos + 1) {
                    Some((n, after_name)) => if n != name@ {
                        None
                    } else {
                        match spec_string_at(bytes, after_name) {
                            Some((v, flag)) => if v != variant@ || flag >= bytes.len() {
                                None
                            } else {
                                match payload {
                                    Some(p) => if bytes[flag] != 0 {
                                        encoded_at(bytes, flag + 1, *p)
                                    } else {
                                        None
                                    },
                                    None => if bytes[flag] == 0 { Some(flag + 1) } else { None },
                                }
                            },
                            None => None,
                        }
                    },
                    None => None,
                }
            },
            ComptimeValue::Closure { name, captures } => if tag != 9 {
                None
            } else {
                match spec_string_at(bytes, pos + 1) {
                    Some((n, after)) => if n != name@ || after + 8 > bytes.len() || (le_value(
                        bytes.subrange(after, after + 8),
                        8,
                    ) as u64) as usize != captures@.len() {
                        None
                    } else {
                        entries_encoded_at(bytes, after + 8, captures@)
                    },
                    None => None,
                }
            },
            ComptimeValue::Unsupported(text) => if tag != 255 {
                None
            } else {
                match spec_string_at(bytes, pos + 1) {
                    Some((t, end)) => if t == text@ { Some(end) } else { None },
                    None => None,
                }
            },
        }
    }
}

/// Where the encodings of `entries` (each a string, then a value), laid one
/// after another from `pos`, end.
pub open spec fn entries_encoded_at(bytes: Seq<u8>, pos: int, entries: Seq<(String, ComptimeValue)>) -> Option<int>
    decreases entries, 1nat,
{
    if entries.len() == 0 {
        Some(pos)
    } else {
        match spec_string_at(bytes, pos) {
            Some((n, after)) => if n != entries[0].0@ {
                None
            } else {
                match encoded_at(bytes, after, entries[0].1) {
                    Some(end) => entries_encoded_at(bytes, end, entries.subrange(1, entries.len() as int)),
                    None => None,
                }
            },
            None => None,
        }
    }
}

proof fn lemma_entries_push(
    bytes: Seq<u8>,
    start: int,
    entries: Seq<(String, ComptimeValue)>,
    entry: (String, ComptimeValue),
    mid: int,
    after: int,
    end: int,
)
    requires
        entries_encoded_at(bytes, start, entries) == Some(mid),
        spec_string_at(bytes, mid) == Some((entry.0@, after)),
        encoded_at(bytes, after, entry.1) == Some(end),
    ensures
        entries_encoded_at(bytes, start, entries.push(entry)) == Some(end),
    decreases entries.len(),
{
    let pushed = entries.push(entry);
    if entries.len() == 0 {
        assert(mid == start);
        assert(pushed[0] == entry);
        assert(pushed.subrange(1, pushed.len() as int) =~= Seq::<(String, ComptimeValue)>::empty());
        assert(entries_encoded_at(bytes, end, Seq::<(String, ComptimeValue)>::empty()) == Some(end));
    } else {
        let (n, a) = spec_string_at(bytes, start).unwrap();
        assert(n == entries[0].0@);
        let e = encoded_at(bytes, a, entries[0].1).unwrap();
        let rest = entries.subrange(1, entries.len() as int);
        assert(entries_encoded_at(bytes, e, rest) == Some(mid));
        lemma_entries_push(bytes, e, rest, entry, mid, after, end);
        assert(pushed.subrange(1, pushed.len() as int) =~= rest.push(entry));
        assert(pushed[0] == entries[0]);
    }
}


pub open spec fn truncated_artifact() -> Seq<char> {
    "truncated comptime result artifact"@
}

pub open spec fn truncated_string() -> Seq<char> {
    "truncated comptime result string"@
}

pub open spec fn invalid_utf8_string() -> Seq<char> {
    "comptime result string is not valid UTF-8"@
}

/// What reading a string at `pos` gives: the position after it, or why it
/// cannot be read (its length missing, its bytes missing, or not UTF-8).
pub open spec fn string_outcome(bytes: Seq<u8>, pos: int) -> Result<int, Seq<char>> {
    if pos + 8 > bytes.len() {
        Err(truncated_artifact())
    } else {
        let len = (le_value(bytes.subrange(pos, pos + 8), 8) as u64) as usize;
        let start = pos + 8;
        let end = if start + len > usize::MAX { usize::MAX as int } else { start + len };
        if end > bytes.len() {
            Err(truncated_string())
        } else if !valid_utf8(bytes.subrange(start, end)) {
            Err(invalid_utf8_string())
        } else {
            Ok(end)
        }
    }
}

/// The count stored at `pos`, as a `usize`.
pub open spec fn count_at(bytes: Seq<u8>, pos: int) -> usize {
    (le_value(bytes.subrange(pos, pos + 8), 8) as u64) as usize
}

pub open spec fn remaining(bytes: Seq<u8>, pos: int) -> int {
    if 0 <= pos <= bytes.len() {
        bytes.len() - pos
    } else {
        0
    }
}

/// What reading one value at `pos` gives: the position after it, or the
/// message for the first part that is missing or malformed.
pub open spec fn read_outcome(bytes: Seq<u8>, pos: int) -> Result<int, Seq<char>>
    decreases remaining(bytes, pos), 0nat when bytes.len() <= usize::MAX
{
    if pos < 0 || pos >= bytes.len() {
        Err(truncated_artifact())
    } else {
        let tag = bytes[pos];
        if tag == 0 {
            Ok(pos + 1)
        } else if tag == 1 {
            if pos + 1 < bytes.len() {
                Ok(pos + 2)
            } else {
                Err(truncated_artifact())
            }
        } else if tag == 2 {
            match string_outcome(bytes, pos + 1) {
                Ok(after) => string_outcome(bytes, after),
                Err(m) => Err(m),
            }
        } else if tag == 3 || tag == 255 {
            string_outcome(bytes, pos + 1)
        } else if tag == 4 {
            if pos + 5 <= bytes.len() {
                Ok(pos + 5)
            } else {
                Err(truncated_artifact())
            }
        } else if tag == 6 || tag == 9 {
            proof {
                lemma_string_end(bytes, pos + 1);
            }
            match string_outcome(bytes, pos + 1) {
                Ok(after) => if after + 8 > bytes.len() {
                    Err(truncated_artifact())
                } else {
                    entries_outcome(bytes, after + 8, count_at(bytes, after) as nat)
                },
                Err(m) => Err(m),
            }
        } else if tag == 7 {
            proof {
                lemma_string_end(bytes, pos + 1);
            }
            match string_outcome(bytes, pos + 1) {
                Ok(after_name) => match string_outcome(bytes, after_name) {
                    Ok(flag) => if flag >= bytes.len() {
                        proof {
                            lemma_string_end(bytes, after_name);
                        }
                        Err(truncated_artifact())
                    } else if bytes[flag] != 0 {
                        read_outcome(bytes, flag + 1)
                    } else {
                        Ok(flag + 1)
                    },
                    Err(m) => Err(m),
                },
                Err(m) => Err(m),
            }
        } else {
            Err("unknown comptime result tag "@ + decimal(tag as nat))
        }
    }
}

/// What reading `count` pairs of a name and a value from `pos` gives. (A
/// value that is read always ends after where it starts and within the
/// bytes; the last branch is never taken.)
pub open spec fn entries_outcome(bytes: Seq<u8>, pos: int, count: nat) -> Result<int, Seq<char>>
    decreases remaining(bytes, pos), count when bytes.len() <= usize::MAX
{
    if count == 0 {
        Ok(pos)
    } else if pos < 0 || pos > bytes.len() {
        Err(truncated_artifact())
    } else {
        proof {
            lemma_string_end(bytes, pos);
        }
        match string_outcome(bytes, pos) {
            Ok(after) => match read_outcome(bytes, after) {
                Ok(end) => if pos < end <= bytes.len() {
                    entries_outcome(bytes, end, (count - 1) as nat)
                } else {
                    Err(seq![])
                },
                Err(m) => Err(m),
            },
            Err(m) => Err(m),
        }
    }
}

/// A string that is read ends after its length and within the bytes.
pub proof fn lemma_string_end(bytes: Seq<u8>, pos: int)
    ensures
        bytes.len() <= usize::MAX && 0 <= pos ==> (string_outcome(bytes, pos) matches Ok(a) ==> pos + 8 <= a
            <= bytes.len()),
{
}

proof fn lemma_string_outcome(bytes: Seq<u8>, pos: int)
    requires
        bytes.len() <= usize::MAX,
        0 <= pos,
    ensures
        string_outcome(bytes, pos) is Ok <==> spec_string_at(bytes, pos) is Some,
        string_outcome(bytes, pos) is Ok ==> string_outcome(bytes, pos) == Ok::<int, Seq<char>>(
            spec_string_at(bytes, pos).unwrap().1,
        ),
        string_outcome(bytes, pos) is Ok ==> pos + 8 <= spec_string_at(bytes, pos).unwrap().1 <= bytes.len(),
{
}

/// Every value that the bytes encode at `pos` is read there, to the same end.
pub proof fn lemma_encoded_reads(bytes: Seq<u8>, pos: int, value: ComptimeValue)
    requires
        bytes.len() <= usize::MAX,
        encoded_at(bytes, pos, value) is Some,
    ensures
        read_outcome(bytes, pos) == Ok::<int, Seq<char>>(encoded_at(bytes, pos, value).unwrap()),
        pos < encoded_at(bytes, pos, value).unwrap() <= bytes.len(),
    decreases value, 0nat,
{
    lemma_string_outcome(bytes, pos + 1);
    match value {
        ComptimeValue::Number(_) => {
            let after = spec_string_at(bytes, pos + 1).unwrap().1;
            lemma_string_outcome(bytes, after);
        },
        ComptimeValue::Struct { name, fields } => {
            let after = spec_string_at(bytes, pos + 1).unwrap().1;
            lemma_entries_read(bytes, after + 8, fields@);
        },
        ComptimeValue::Closure { name, captures } => {
            let after = spec_string_at(bytes, pos + 1).unwrap().1;
            lemma_entries_read(bytes, after + 8, captures@);
        },
        ComptimeValue::Enum { name, variant, payload } => {
            let after_name = spec_string_at(bytes, pos + 1).unwrap().1;
            lemma_string_outcome(bytes, after_name);
            let flag = spec_string_at(bytes, after_name).unwrap().1;
            if let Some(p) = payload {
                lemma_encoded_reads(bytes, flag + 1, *p);
            }
        },
        _ => {},
    }
}

proof fn lemma_entries_read(bytes: Seq<u8>, pos: int, entries: Seq<(String, ComptimeValue)>)
    requires
        bytes.len() <= usize::MAX,
        0 <= pos <= bytes.len(),
        entries_encoded_at(bytes, pos, entries) is Some,
    ensures
        entries_outcome(bytes, pos, entries.len()) == Ok::<int, Seq<char>>(
            entries_encoded_at(bytes, pos, entries).unwrap(),
        ),
        pos <= entries_encoded_at(bytes, pos, entries).unwrap() <= bytes.len(),
    decreases entries, 1nat,
{
    if entries.len() > 0 {
        lemma_string_outcome(bytes, pos);
        let after = spec_string_at(bytes, pos).unwrap().1;
        lemma_encoded_reads(bytes, after, entries[0].1);
        let end = encoded_at(bytes, after, entries[0].1).unwrap();
        let rest = entries.subrange(1, entries.len() as int);
        lemma_entries_read(bytes, end, rest);
    }
}

/// `std::str::from_utf8`: the text that `bytes` encode, when they are valid
/// UTF-8. The contract claims that the standard library accepts exactly the
/// byte sequences that `valid_utf8` describes and decodes them as `decode_utf8` does.
#[verifier::external_body]
fn utf8_text(bytes: &[u8]) -> (text: Option<&str>)
    ensures
        text is Some <==> valid_utf8(bytes@),
        text matches Some(t) ==> t@ == decode_utf8(bytes@),
{
    std::str::from_utf8(bytes).ok()
}

/// Reads a compile-time result artifact: the magic `GCT1`, then one value.
pub fn decode_comptime_value(bytes: &[u8]) -> (value: Result<ComptimeValue, String>)
    ensures
        (bytes@.len() < 4 || bytes@.subrange(0, 4) != seq![71u8, 67u8, 84u8, 49u8]) ==> (value matches Err(m)
            && m@ == "comptime runner wrote an invalid result artifact"@),
        bytes@.len() >= 4 && bytes@.subrange(0, 4) == seq![71u8, 67u8, 84u8, 49u8] ==> {
            &&& value_read_at(bytes@, 4, value)
            &&& (value is Ok <==> read_outcome(bytes@, 4) is Ok)
            &&& (value is Ok <==> exists|v: ComptimeValue| #[trigger] encoded_at(bytes@, 4, v) is Some)
            &&& (value matches Err(m) ==> read_outcome(bytes@, 4) == Err::<int, Seq<char>>(m@))
        },
        value matches Ok(v) ==> encoded_at(bytes@, 4, v) is Some,
{
    let magic = bytes.len() >= 4 && bytes[0] == 71u8 && bytes[1] == 67u8 && bytes[2] == 84u8
        && bytes[3] == 49u8;
    if !magic {
        proof {
            if bytes@.len() >= 4 {
                assert(bytes@.subrange(0, 4)[0] == bytes@[0]);
                assert(bytes@.subrange(0, 4)[1] == bytes@[1]);
                assert(bytes@.subrange(0, 4)[2] == bytes@[2]);
                assert(bytes@.subrange(0, 4)[3] == bytes@[3]);
            }
        }
        return Err(String::from_str("comptime runner wrote an invalid result artifact"));
    }
    assert(bytes@.subrange(0, 4) =~= seq![71u8, 67u8, 84u8, 49u8]);
    let mut reader = ComptimeReader { bytes, position: 4 };
    let value = reader.read_value();
    proof {
        if exists|v: ComptimeValue| #[trigger] encoded_at(bytes@, 4, v) is Some {
            let v = choose|v: ComptimeValue| #[trigger] encoded_at(bytes@, 4, v) is Some;
            lemma_encoded_reads(bytes@, 4, v);
        }
        if value is Ok {
            assert(encoded_at(bytes@, 4, value->Ok_0) is Some);
        }
    }
    value
}

/// A cursor over the bytes of a result artifact.
pub struct ComptimeReader<'bytes> {
    pub bytes: &'bytes [u8],
    pub position: usize,
}

impl<'bytes> ComptimeReader<'bytes> {
    pub open spec fn valid(&self) -> bool {
        self.position <= self.bytes@.len() <= usize::MAX
    }

    /// Reads one tagged value.
    pub fn read_value(&mut self) -> (value: Result<ComptimeValue, String>)
        requires
            old(self).valid(),
        ensures
            final(self).valid(),
            final(self).bytes == old(self).bytes,
            value is Ok ==> old(self).position < final(self).position,
            value_read_at(old(self).bytes@, old(self).position as int, value),
            value matches Ok(v) ==> encoded_at(old(self).bytes@, old(self).position as int, v) == Some(
                final(self).position as int,
            ),
            value is Ok ==> read_outcome(old(self).bytes@, old(self).position as int) == Ok::<int, Seq<char>>(
                final(self).position as int,
            ),
            value matches Err(m) ==> read_outcome(old(self).bytes@, old(self).position as int) == Err::<
                int,
                Seq<char>,
            >(m@),
        decreases old(self).bytes@.len() - old(self).position,
    {
        proof {
            lemma_string_outcome(self.bytes@, self.position + 1);
        }
        let tag = self.read_byte()?;
        if tag == 0 {
            Ok(ComptimeValue::Void)
        } else if tag == 1 {
            let flag = self.read_byte()?;
            Ok(ComptimeValue::Bool(flag != 0))
        } else if tag == 2 {
            let _type_name = self.read_string()?;
            Ok(ComptimeValue::Number(self.read_string()?))
        } else if tag == 3 {
            Ok(ComptimeValue::String(self.read_string()?))
        } else if tag == 4 {
            let value = self.read_u32()?;
            Ok(ComptimeValue::Char(value))
        } else if tag == 6 {
            let name = self.read_string()?;
            let fields = self.read_named_values()?;
            Ok(ComptimeValue::Struct { name, fields })
        } else if tag == 7 {
            let name = self.read_string()?;
            let variant = self.read_string()?;
            let has_payload = self.read_byte()? != 0;
            let payload = if has_payload {
                Some(Box::new(self.read_value()?))
            } else {
                None
            };
            Ok(ComptimeValue::Enum { name, variant, payload })
        } else if tag == 9 {
            let name = self.read_string()?;
            let captures = self.read_named_values()?;
            Ok(ComptimeValue::Closure { name, captures })
        } else if tag == 255 {
            Ok(ComptimeValue::Unsupported(self.read_string()?))
        } else {
            let message = String::from_str("unknown comptime result tag ").concat(
                decimal_string(tag as u64).as_str(),
            );
            Err(message)
        }
    }

    /// Reads a count, then that many pairs of a name and a value.
    pub fn read_named_values(&mut self) -> (entries: Result<Vec<(String, ComptimeValue)>, String>)
        requires
            old(self).valid(),
        ensures
            final(self).valid(),
            final(self).bytes == old(self).bytes,
            entries is Ok ==> old(self).position + 8 <= final(self).position,
            old(self).position + 8 > old(self).bytes@.len() ==> entries is Err,
            entries matches Ok(v) ==> v@.len() == (le_value(
                old(self).bytes@.subrange(old(self).position as int, old(self).position + 8),
                8,
            ) as u64) as usize,
            entries matches Ok(v) ==> entries_encoded_at(old(self).bytes@, old(self).position + 8, v@)
                == Some(final(self).position as int),
            entries is Ok ==> entries_outcome(
                old(self).bytes@,
                old(self).position + 8,
                count_at(old(self).bytes@, old(self).position as int) as nat,
            ) == Ok::<int, Seq<char>>(final(self).position as int),
            entries matches Err(m) ==> if old(self).position + 8 > old(self).bytes@.len() {
                m@ == truncated_artifact()
            } else {
                entries_outcome(
                    old(self).bytes@,
                    old(self).position + 8,
                    count_at(old(self).bytes@, old(self).position as int) as nat,
                ) == Err::<int, Seq<char>>(m@)
            },
        decreases old(self).bytes@.len() - old(self).position,
    {
        let count64 = self.read_u64()?;
        let count = count64 as usize;
        let ghost counted = *self;
        let mut entries: Vec<(String, ComptimeValue)> = Vec::new();
        let mut i: usize = 0;
        while i < count
            invariant
                self.valid(),
                self.bytes == old(self).bytes,
                counted.position <= self.position,
                old(self).position + 8 == counted.position,
                entries@.len() == i,
                i <= count,
                entries_encoded_at(self.bytes@, counted.position as int, entries@) == Some(
                    self.position as int,
                ),
                count == count_at(old(self).bytes@, old(self).position as int),
                entries_outcome(self.bytes@, counted.position as int, count as nat) == entries_outcome(
                    self.bytes@,
                    self.position as int,
                    (count - i) as nat,
                ),
            decreases count - i,
        {
            let ghost mid = self.position;
            proof {
                lemma_string_outcome(self.bytes@, self.position as int);
            }
            let name = self.read_string()?;
            let ghost after = self.position;
            let value = self.read_value()?;
            proof {
                lemma_entries_push(
                    self.bytes@,
                    counted.position as int,
                    entries@,
                    (name, value),
                    mid as int,
                    after as int,
                    self.position as int,
                );
            }
            entries.push((name, value));
            i = i + 1;
        }
        Ok(entries)
    }

    /// Reads one byte.
    pub fn read_byte(&mut self) -> (byte: Result<u8, String>)
        requires
            old(self).valid(),
        ensures
            final(self).valid(),
            final(self).bytes == old(self).bytes,
            old(self).position < old(self).bytes@.len() ==> byte == Ok::<u8, String>(
                old(self).bytes@[old(self).position as int],
            ) && final(self).position == old(self).position + 1,
            old(self).position >= old(self).bytes@.len() ==> byte is Err && final(self).position
                == old(self).position,
            byte matches Err(m) ==> m@ == truncated_artifact(),
    {
        if self.position >= self.bytes.len() {
            return Err(String::from_str("truncated comptime result artifact"));
        }
        let value = self.bytes[self.position];
        self.position = self.position + 1;
        Ok(value)
    }

    /// Reads a little-endian number of `width` bytes.
    pub fn read_le(&mut self, width: usize) -> (value: Result<u64, String>)
        requires
            old(self).valid(),
            width <= 8,
        ensures
            final(self).valid(),
            final(self).bytes == old(self).bytes,
            old(self).position <= final(self).position,
            old(self).position + width <= old(self).bytes@.len() ==> value == Ok::<u64, String>(
                le_value(
                    old(self).bytes@.subrange(
                        old(self).position as int,
                        old(self).position + width,
                    ),
                    width as nat,
                ) as u64,
            ) && final(self).position == old(self).position + width,
            old(self).position + width > old(self).bytes@.len() ==> value is Err,
            value matches Ok(v) ==> v < pow256(width as nat),
            value matches Err(m) ==> m@ == truncated_artifact(),
    {
        let start = self.position;
        let ghost window = self.bytes@.subrange(start as int, start + width);
        let mut value: u64 = 0;
        let mut factor: u64 = 1;
        let mut shift: usize = 0;
        while shift < width
            invariant
                self.valid(),
                self.bytes == old(self).bytes,
                start == old(self).position,
                shift <= width <= 8,
                self.position == start + shift,
                start + width <= self.bytes@.len() ==> window == self.bytes@.subrange(
                    start as int,
                    start + width,
                ),
                shift < 8 ==> factor == pow256(shift as nat),
                value == le_value(self.bytes@.subrange(start as int, start + shift), shift as nat),
                value < pow256(shift as nat),
            decreases width - shift,
        {
            proof {
                reveal_with_fuel(pow256, 9);
            }
            let byte = self.read_byte()?;
            let ghost prefix = self.bytes@.subrange(start as int, start + shift + 1);
            proof {
                assert(prefix.subrange(0, shift as int) =~= self.bytes@.subrange(
                    start as int,
                    start + shift,
                ));
                lemma_le_value_prefix(prefix, shift as nat);
                assert(prefix[shift as int] == byte);
                lemma_le_step(value as nat, byte, pow256(shift as nat));
            }
            value = value + (byte as u64) * factor;
            if shift < 7 {
                factor = factor * 256;
            }
            shift = shift + 1;
        }
        proof {
            assert(window =~= self.bytes@.subrange(start as int, start + width));
        }
        Ok(value)
    }

    pub fn read_u32(&mut self) -> (value: Result<u32, String>)
        requires
            old(self).valid(),
        ensures
            final(self).valid(),
            final(self).bytes == old(self).bytes,
            old(self).position + 4 <= old(self).bytes@.len() ==> value == Ok::<u32, String>(
                le_value(
                    old(self).bytes@.subrange(old(self).position as int, old(self).position + 4),
                    4,
                ) as u32,
            ) && final(self).position == old(self).position + 4,
            old(self).position + 4 > old(self).bytes@.len() ==> value is Err,
            value matches Err(m) ==> m@ == truncated_artifact(),
    {
        let value = self.read_le(4)?;
        proof {
            reveal_with_fuel(pow256, 5);
            assert(pow256(4) == 4294967296);
            if self.position == old(self).position + 4 {
                let le = le_value(
                    old(self).bytes@.subrange(old(self).position as int, old(self).position + 4),
                    4,
                );
                lemma_le_value_bound(
                    old(self).bytes@.subrange(old(self).position as int, old(self).position + 4),
                    4,
                );
                assert(value as int == le);
                assert((value as u32) as int == le);
            }
        }
        Ok(value as u32)
    }

    pub fn read_u64(&mut self) -> (value: Result<u64, String>)
        requires
            old(self).valid(),
        ensures
            final(self).valid(),
            final(self).bytes == old(self).bytes,
            old(self).position <= final(self).position,
            old(self).position + 8 <= old(self).bytes@.len() ==> value == Ok::<u64, String>(
                le_value(
                    old(self).bytes@.subrange(old(self).position as int, old(self).position + 8),
                    8,
                ) as u64,
            ) && final(self).position == old(self).position + 8,
            old(self).position + 8 > old(self).bytes@.len() ==> value is Err,
            value matches Err(m) ==> m@ == truncated_artifact(),
    {
        self.read_le(8)
    }

    /// Reads a length-prefixed UTF-8 string.
    pub fn read_string(&mut self) -> (text: Result<String, String>)
        requires
            old(self).valid(),
        ensures
            final(self).valid(),
            final(self).bytes == old(self).bytes,
            old(self).position <= final(self).position,
            text is Ok <==> spec_string_at(old(self).bytes@, old(self).position as int) is Some,
            text matches Ok(t) ==> t@ == spec_string_at(
                old(self).bytes@,
                old(self).position as int,
            ).unwrap().0 && final(self).position == spec_string_at(
                old(self).bytes@,
                old(self).position as int,
            ).unwrap().1,
            text matches Err(m) ==> string_outcome(old(self).bytes@, old(self).position as int) == Err::<
                int,
                Seq<char>,
            >(m@),
    {
        let len64 = self.read_u64()?;
        let len = len64 as usize;
        let end = self.position.saturating_add(len);
        if end > self.bytes.len() {
            return Err(String::from_str("truncated comptime result string"));
        }
        let slice = &self.bytes[self.position..end];
        let text = match utf8_text(slice) {
            Some(text) => String::from_str(text),
            None => return Err(String::from_str("comptime result string is not valid UTF-8")),
        };
        self.position = end;
        Ok(text)
    }
}


proof fn lemma_le_value_prefix(bytes: Seq<u8>, n: nat)
    requires
        n < bytes.len(),
    ensures
        le_value(bytes, n + 1) == le_value(bytes.subrange(0, n as int), n) + bytes[n as int] * pow256(n),
{
    lemma_le_value_depends_on_prefix(bytes, bytes.subrange(0, n as int), n);
}

proof fn lemma_le_value_depends_on_prefix(a: Seq<u8>, b: Seq<u8>, n: nat)
    requires
        n <= a.len(),
        n <= b.len(),
        forall|i: int| 0 <= i < n ==> a[i] == b[i],
    ensures
        le_value(a, n) == le_value(b, n),
    decreases n,
{
    if n > 0 {
        lemma_le_value_depends_on_prefix(a, b, (n - 1) as nat);
    }
}

proof fn lemma_le_value_bound(bytes: Seq<u8>, n: nat)
    requires
        n <= bytes.len(),
    ensures
        le_value(bytes, n) < pow256(n),
    decreases n,
{
    if n > 0 {
        lemma_le_value_bound(bytes, (n - 1) as nat);
        lemma_le_step(le_value(bytes, (n - 1) as nat), bytes[n - 1], pow256((n - 1) as nat));
    }
}

proof fn lemma_le_step(value: nat, byte: u8, factor: nat)
    requires
        value < factor,
    ensures
        value + byte * factor < 256 * factor,
{
    assert(value + byte * factor < 256 * factor) by (nonlinear_arith)
        requires
            value < factor,
            byte <= 255,
    ;
}

/// Glob matching on bytes: `**` matches any bytes, `*` any bytes but `/`,
/// and every other byte matches itself.
pub open spec fn spec_glob_matches(pattern: Seq<u8>, value: Seq<u8>) -> bool
    decreases pattern.len() + value.len(),
{
    if pattern.len() == 0 {
        value.len() == 0
    } else if pattern.len() >= 2 && pattern[0] == 42 && pattern[1] == 42 {
        spec_glob_matches(pattern.skip(2), value) || (value.len() > 0 && spec_glob_matches(
            pattern,
            value.skip(1),
        ))
    } else if pattern[0] == 42 {
        spec_glob_matches(pattern.skip(1), value) || (value.len() > 0 && value[0] != 47
            && spec_glob_matches(pattern, value.skip(1)))
    } else {
        value.len() > 0 && pattern[0] == value[0] && spec_glob_matches(pattern.skip(1), value.skip(1))
    }
}

pub fn glob_matches(pattern: &[u8], value: &[u8]) -> (matched: bool)
    ensures
        matched == spec_glob_matches(pattern@, value@),
    decreases pattern@.len() + value@.len(),
{
    if pattern.len() == 0 {
        return value.len() == 0;
    }
    if pattern.len() >= 2 && pattern[0] == 42u8 && pattern[1] == 42u8 {
        let rest = &pattern[2..pattern.len()];
        assert(rest@ =~= pattern@.skip(2));
        if glob_matches(rest, value) {
            return true;
        }
        if value.len() == 0 {
            return false;
        }
        let tail = &value[1..value.len()];
        assert(tail@ =~= value@.skip(1));
        return glob_matches(pattern, tail);
    }
    if pattern[0] == 42u8 {
        let rest = &pattern[1..pattern.len()];
        assert(rest@ =~= pattern@.skip(1));
        if glob_matches(rest, value) {
            return true;
        }
        if value.len() == 0 || value[0] == 47u8 {
            return false;
        }
        let tail = &value[1..value.len()];
        assert(tail@ =~= value@.skip(1));
        return glob_matches(pattern, tail);
    }
    if value.len() == 0 || pattern[0] != value[0] {
        return false;
    }
    let rest = &pattern[1..pattern.len()];
    let tail = &value[1..value.len()];
    assert(rest@ =~= pattern@.skip(1));
    assert(tail@ =~= value@.skip(1));
    glob_matches(rest, tail)
}

/// The pattern `**` matches every value.
pub proof fn law_double_star_matches_everything(value: Seq<u8>)
    ensures
        spec_glob_matches(seq![42u8, 42u8], value),
    decreases value.len(),
{
    let pattern = seq![42u8, 42u8];
    assert(pattern.len() == 2 && pattern[0] == 42 && pattern[1] == 42);
    if value.len() == 0 {
        assert(pattern.skip(2) =~= Seq::<u8>::empty());
        assert(spec_glob_matches(pattern.skip(2), value));
    } else {
        law_double_star_matches_everything(value.skip(1));
        assert(spec_glob_matches(pattern, value.skip(1)));
    }
}

/// A pattern without `*` matches exactly the value that it spells.
pub proof fn law_plain_pattern_matches_itself(pattern: Seq<u8>, value: Seq<u8>)
    requires
        forall|i: int| 0 <= i < pattern.len() ==> pattern[i] != 42,
    ensures
        spec_glob_matches(pattern, value) <==> pattern == value,
    decreases pattern.len(),
{
    if pattern.len() > 0 && value.len() > 0 {
        assert forall|i: int| 0 <= i < pattern.skip(1).len() implies pattern.skip(1)[i] != 42 by {
            assert(pattern.skip(1)[i] == pattern[i + 1]);
        }
        law_plain_pattern_matches_itself(pattern.skip(1), value.skip(1));
        if pattern[0] == value[0] && pattern.skip(1) == value.skip(1) {
            assert(pattern =~= seq![pattern[0]] + pattern.skip(1));
            assert(value =~= seq![value[0]] + value.skip(1));
        }
        if pattern == value {
            assert(pattern.skip(1) =~= value.skip(1));
        }
    } else if pattern.len() > 0 {
        assert(pattern != value);
    } else if value.len() > 0 {
        assert(pattern != value);
    } else {
        assert(pattern =~= value);
    }
}

/// Whether `path` matches the glob `pattern`, byte for byte.
pub fn path_pattern_matches(pattern: &str, path: &str) -> (matched: bool)
    ensures
        matched == spec_glob_matches(pattern.spec_bytes(), path.spec_bytes()),
{
    glob_matches(pattern.as_bytes(), path.as_bytes())
}

/// A compile-time permission: everything, nothing, or the listed patterns.
#[derive(Debug)]
pub enum PermissionValue {
    All,
    Nothing,
    Patterns(Vec<String>),
}

/// Whether a permission grants access to `name`, which must be listed exactly.
pub fn permission_allows_name(permission: &PermissionValue, name: &str) -> (allowed: bool)
    ensures
        allowed == match permission {
            PermissionValue::All => true,
            PermissionValue::Nothing => false,
            PermissionValue::Patterns(patterns) => exists|i: int|
                0 <= i < patterns@.len() && #[trigger] patterns@[i]@ == name@,
        },
{
    match permission {
        PermissionValue::All => true,
        PermissionValue::Nothing => false,
        PermissionValue::Patterns(patterns) => crate::text::contains_str(patterns, name),
    }
}

} // verus!
