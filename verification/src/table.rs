//! Field tables, kept in their wire form.
//!
//! A table is a run of entries. Each entry is a name (a short string), a
//! one-byte type tag and a value whose width the tag decides. The table is
//! checked once, entry by entry; nested tables and arrays are carried as
//! the bytes of their value.

use crate::wire::{copy_range, long_string, put_bytes, put_u32, read_u32, short_string, u32_at};
use crate::wire::{lemma_long_string_round_trip, lemma_u32_at_concat};
use vstd::prelude::*;

verus! {

/// Tag of a value without content.
pub const TAG_VOID: u8 = 0x56;

/// Tag of a boolean.
pub const TAG_BOOLEAN: u8 = 0x74;

/// Tag of a signed 8-bit integer.
pub const TAG_SHORT_SHORT_INT: u8 = 0x62;

/// Tag of an unsigned 8-bit integer.
pub const TAG_SHORT_SHORT_UINT: u8 = 0x42;

/// Tag of a signed 16-bit integer.
pub const TAG_SHORT_INT: u8 = 0x73;

/// Tag of a signed 16-bit integer, as the protocol's text has it.
pub const TAG_SHORT_INT_ALT: u8 = 0x55;

/// Tag of an unsigned 16-bit integer.
pub const TAG_SHORT_UINT: u8 = 0x75;

/// Tag of a signed 32-bit integer.
pub const TAG_LONG_INT: u8 = 0x49;

/// Tag of an unsigned 32-bit integer.
pub const TAG_LONG_UINT: u8 = 0x69;

/// Tag of a 32-bit floating-point number.
pub const TAG_FLOAT: u8 = 0x66;

/// Tag of a decimal: a scale and a 32-bit integer.
pub const TAG_DECIMAL: u8 = 0x44;

/// Tag of a signed 64-bit integer.
pub const TAG_LONG_LONG_INT: u8 = 0x6c;

/// Tag of a signed 64-bit integer, as the protocol's text has it.
pub const TAG_LONG_LONG_INT_ALT: u8 = 0x4c;

/// Tag of a 64-bit floating-point number.
pub const TAG_DOUBLE: u8 = 0x64;

/// Tag of a timestamp.
pub const TAG_TIMESTAMP: u8 = 0x54;

/// Tag of a value that is a long string.
pub const TAG_LONG_STRING: u8 = 0x53;

/// Tag of a value that is an array of values.
pub const TAG_ARRAY: u8 = 0x41;

/// Tag of a value that is a nested table.
pub const TAG_TABLE: u8 = 0x46;

/// Tag of a value that is a byte array.
pub const TAG_BYTE_ARRAY: u8 = 0x78;

/// Width of a value whose tag alone decides it.
pub open spec fn fixed_width(tag: u8) -> Option<int> {
    if tag == TAG_VOID {
        Some(0)
    } else if tag == TAG_BOOLEAN || tag == TAG_SHORT_SHORT_INT || tag == TAG_SHORT_SHORT_UINT {
        Some(1)
    } else if tag == TAG_SHORT_INT || tag == TAG_SHORT_INT_ALT || tag == TAG_SHORT_UINT {
        Some(2)
    } else if tag == TAG_LONG_INT || tag == TAG_LONG_UINT || tag == TAG_FLOAT {
        Some(4)
    } else if tag == TAG_DECIMAL {
        Some(5)
    } else if tag == TAG_LONG_LONG_INT || tag == TAG_LONG_LONG_INT_ALT || tag == TAG_DOUBLE || tag
        == TAG_TIMESTAMP {
        Some(8)
    } else {
        None
    }
}

/// Whether a value of this tag carries its own four-byte length.
pub open spec fn is_sized(tag: u8) -> bool {
    tag == TAG_LONG_STRING || tag == TAG_ARRAY || tag == TAG_TABLE || tag == TAG_BYTE_ARRAY
}

/// Where the tag of the entry at `at` stands.
pub open spec fn tag_position(t: Seq<u8>, at: int) -> int {
    at + 1 + t[at] as int
}

/// Where the entry that starts at `at` ends, if a whole entry stands there.
pub open spec fn entry_end(t: Seq<u8>, at: int) -> Option<int> {
    if 0 <= at < t.len() && tag_position(t, at) < t.len() {
        let tag_at = tag_position(t, at);
        match fixed_width(t[tag_at]) {
            Some(width) => if tag_at + 1 + width <= t.len() {
                Some(tag_at + 1 + width)
            } else {
                None
            },
            None => if is_sized(t[tag_at]) && tag_at + 5 <= t.len() && tag_at + 5 + u32_at(
                t,
                tag_at + 1,
            ) as int <= t.len() {
                Some(tag_at + 5 + u32_at(t, tag_at + 1) as int)
            } else {
                None
            },
        }
    } else {
        None
    }
}

/// Whether whole entries fill `t` from `at` to its end.
pub open spec fn well_formed_from(t: Seq<u8>, at: int) -> bool
    decreases t.len() - at,
{
    if at >= t.len() {
        at == t.len()
    } else {
        match entry_end(t, at) {
            Some(next) => well_formed_from(t, next),
            None => false,
        }
    }
}

/// Whether `t` is a run of whole entries.
pub open spec fn well_formed_table(t: Seq<u8>) -> bool {
    well_formed_from(t, 0)
}

/// The bytes of one entry.
pub open spec fn entry(name: Seq<u8>, tag: u8, value: Seq<u8>) -> Seq<u8> {
    short_string(name) + seq![tag] + value
}

/// Tag and value bytes of the first entry from `at` on that is called
/// `name`.
pub open spec fn lookup_from(t: Seq<u8>, at: int, name: Seq<u8>) -> Option<(u8, Seq<u8>)>
    decreases t.len() - at,
{
    match entry_end(t, at) {
        Some(next) => if t.subrange(at + 1, tag_position(t, at)) == name {
            Some((t[tag_position(t, at)], t.subrange(tag_position(t, at) + 1, next)))
        } else {
            lookup_from(t, next, name)
        },
        None => None,
    }
}

/// An entry read behind a prefix ends where it ends without the prefix,
/// moved by the prefix's length.
pub proof fn lemma_entry_end_shift(prefix: Seq<u8>, s: Seq<u8>, at: int)
    requires
        0 <= at,
    ensures
        entry_end(prefix + s, prefix.len() + at) == match entry_end(s, at) {
            Some(next) => Some(prefix.len() + next),
            None => None,
        },
{
    let p = prefix.len() as int;
    let whole = prefix + s;
    if at < s.len() {
        assert(whole[p + at] == s[at]);
        let tag_at = tag_position(s, at);
        if tag_at < s.len() {
            assert(whole[p + tag_at] == s[tag_at]);
            if tag_at + 5 <= s.len() {
                lemma_u32_at_concat(prefix, s, tag_at + 1);
            }
        }
    }
}

/// A whole entry is not changed by bytes that follow it.
pub proof fn lemma_entry_end_prefix(t: Seq<u8>, rest: Seq<u8>, at: int)
    requires
        entry_end(t, at) is Some,
    ensures
        entry_end(t + rest, at) == entry_end(t, at),
        tag_position(t + rest, at) == tag_position(t, at),
{
    let whole = t + rest;
    let tag_at = tag_position(t, at);
    assert(whole[at] == t[at]);
    assert(whole[tag_at] == t[tag_at]);
    if fixed_width(t[tag_at]) is None {
        lemma_u32_at_concat(t, rest, tag_at + 1);
    }
}

/// The bytes of an entry with a long-string value are one whole entry.
pub proof fn lemma_long_string_entry(name: Seq<u8>, content: Seq<u8>)
    requires
        name.len() <= 255,
        content.len() <= u32::MAX,
    ensures
        entry_end(entry(name, TAG_LONG_STRING, long_string(content)), 0) == Some(
            entry(name, TAG_LONG_STRING, long_string(content)).len() as int,
        ),
        entry(name, TAG_LONG_STRING, long_string(content)).len() == name.len() + content.len() + 6,
{
    let e = entry(name, TAG_LONG_STRING, long_string(content));
    let head = short_string(name) + seq![TAG_LONG_STRING];
    assert(e =~= head + long_string(content) + Seq::<u8>::empty());
    lemma_long_string_round_trip(head, content, Seq::<u8>::empty());
    assert(e[0] == name.len() as u8);
    assert(e[name.len() as int + 1] == TAG_LONG_STRING);
}

/// A well-formed table stays well formed when one whole entry is appended.
pub proof fn lemma_append_entry(t: Seq<u8>, e: Seq<u8>, at: int)
    requires
        0 <= at <= t.len(),
        well_formed_from(t, at),
        entry_end(e, 0) == Some(e.len() as int),
    ensures
        well_formed_from(t + e, at),
    decreases t.len() - at,
{
    if at == t.len() {
        lemma_entry_end_shift(t, e, 0);
        assert(well_formed_from(t + e, (t.len() + e.len()) as int));
    } else {
        let next = entry_end(t, at).unwrap();
        lemma_entry_end_prefix(t, e, at);
        lemma_append_entry(t, e, next);
    }
}

/// A lookup in a table with one more entry finds what it found before; if
/// it found nothing, it finds the new entry when that has the name.
pub proof fn lemma_lookup_appended(
    t: Seq<u8>,
    at: int,
    name: Seq<u8>,
    new_name: Seq<u8>,
    tag: u8,
    value: Seq<u8>,
)
    requires
        0 <= at <= t.len(),
        well_formed_from(t, at),
        new_name.len() <= 255,
        entry_end(entry(new_name, tag, value), 0) == Some(entry(new_name, tag, value).len() as int),
    ensures
        lookup_from(t + entry(new_name, tag, value), at, name) == match lookup_from(t, at, name) {
            Some(found) => Some(found),
            None => if new_name == name {
                Some((tag, value))
            } else {
                None
            },
        },
    decreases t.len() - at,
{
    let e = entry(new_name, tag, value);
    let whole = t + e;
    if at == t.len() {
        lemma_entry_end_shift(t, e, 0);
        let n = new_name.len() as int;
        assert(e[0] == new_name.len() as u8);
        assert(whole[at] == e[0]);
        assert(tag_position(whole, at) == at + 1 + n);
        assert(whole.subrange(at + 1, at + 1 + n) =~= new_name);
        assert(whole[at + 1 + n] == tag);
        assert(whole.subrange(at + 2 + n, at + e.len()) =~= value);
        assert(entry_end(whole, at + e.len()) is None);
        assert(lookup_from(whole, at + e.len(), name) is None);
    } else {
        let next = entry_end(t, at).unwrap();
        lemma_entry_end_prefix(t, e, at);
        let tag_at = tag_position(t, at);
        assert(whole.subrange(at + 1, tag_at) =~= t.subrange(at + 1, tag_at));
        assert(whole.subrange(tag_at + 1, next) =~= t.subrange(tag_at + 1, next));
        assert(whole[tag_at] == t[tag_at]);
        lemma_lookup_appended(t, next, name, new_name, tag, value);
    }
}

/// Width of a value whose tag alone decides it.
pub fn width_of(tag: u8) -> (width: Option<usize>)
    ensures
        match width {
            Some(w) => fixed_width(tag) == Some(w as int),
            None => fixed_width(tag) is None,
        },
{
    if tag == TAG_VOID {
        Some(0)
    } else if tag == TAG_BOOLEAN || tag == TAG_SHORT_SHORT_INT || tag == TAG_SHORT_SHORT_UINT {
        Some(1)
    } else if tag == TAG_SHORT_INT || tag == TAG_SHORT_INT_ALT || tag == TAG_SHORT_UINT {
        Some(2)
    } else if tag == TAG_LONG_INT || tag == TAG_LONG_UINT || tag == TAG_FLOAT {
        Some(4)
    } else if tag == TAG_DECIMAL {
        Some(5)
    } else if tag == TAG_LONG_LONG_INT || tag == TAG_LONG_LONG_INT_ALT || tag == TAG_DOUBLE || tag
        == TAG_TIMESTAMP {
        Some(8)
    } else {
        None
    }
}

/// Where the entry that starts at `at` ends.
pub fn scan_entry(data: &[u8], at: usize) -> (end: Option<usize>)
    ensures
        match end {
            Some(next) => entry_end(data@, at as int) == Some(next as int),
            None => entry_end(data@, at as int) is None,
        },
{
    let len: usize = data.len();
    if at >= len {
        return None;
    }
    let name_len: usize = data[at] as usize;
    if name_len >= len - at - 1 {
        return None;
    }
    let tag_at: usize = at + 1 + name_len;
    let tag: u8 = data[tag_at];
    let room: usize = len - tag_at - 1;
    let width: usize = match width_of(tag) {
        Some(fixed) => fixed,
        None => {
            if !(tag == TAG_LONG_STRING || tag == TAG_ARRAY || tag == TAG_TABLE || tag
                == TAG_BYTE_ARRAY) || room < 4 {
                return None;
            }
            let size: usize = read_u32(data, tag_at + 1) as usize;
            if size > room - 4 {
                return None;
            }
            4 + size
        },
    };
    if width > room {
        return None;
    }
    Some(tag_at + 1 + width)
}

/// Whether `data` is a run of whole entries.
pub fn is_well_formed_table(data: &[u8]) -> (ok: bool)
    ensures
        ok == well_formed_table(data@),
{
    let mut at: usize = 0;
    while at < data.len()
        invariant
            at <= data@.len(),
            well_formed_table(data@) == well_formed_from(data@, at as int),
        decreases data@.len() - at,
    {
        match scan_entry(data, at) {
            Some(next) => {
                at = next;
            },
            None => {
                return false;
            },
        }
    }
    true
}

/// Whether two byte strings hold the same bytes.
pub fn same_bytes(a: &[u8], b: &[u8]) -> (same: bool)
    ensures
        same == (a@ == b@),
{
    if a.len() != b.len() {
        return false;
    }
    let mut i: usize = 0;
    while i < a.len()
        invariant
            i <= a@.len(),
            a@.len() == b@.len(),
            a@.subrange(0, i as int) == b@.subrange(0, i as int),
        decreases a@.len() - i,
    {
        if a[i] != b[i] {
            return false;
        }
        i = i + 1;
        assert(a@.subrange(0, i as int) =~= a@.subrange(0, i - 1).push(a@[i - 1]));
        assert(b@.subrange(0, i as int) =~= b@.subrange(0, i - 1).push(b@[i - 1]));
    }
    assert(a@ =~= a@.subrange(0, a@.len() as int));
    assert(b@ =~= b@.subrange(0, b@.len() as int));
    true
}

/// A field table in wire form.
#[derive(Clone, Debug, PartialEq, Eq)]
pub struct FieldTable {
    bytes: Vec<u8>,
}

impl View for FieldTable {
    type V = Seq<u8>;

    closed spec fn view(&self) -> Seq<u8> {
        self.bytes@
    }
}

impl FieldTable {
    /// The entries are whole.
    pub open spec fn wf(&self) -> bool {
        well_formed_table(self@)
    }

    /// What a lookup of `name` answers: tag and value bytes of the first
    /// entry of that name.
    pub open spec fn lookup(&self, name: Seq<u8>) -> Option<(u8, Seq<u8>)> {
        lookup_from(self@, 0, name)
    }

    /// The table without entries.
    pub fn new() -> (table: FieldTable)
        ensures
            table@ == Seq::<u8>::empty(),
            table.wf(),
    {
        FieldTable { bytes: Vec::new() }
    }

    /// The table that `bytes` spell, if they are a run of whole entries.
    pub fn from_bytes(bytes: Vec<u8>) -> (table: Option<FieldTable>)
        ensures
            match table {
                Some(t) => t@ == bytes@ && t.wf(),
                None => !well_formed_table(bytes@),
            },
    {
        if is_well_formed_table(bytes.as_slice()) {
            Some(FieldTable { bytes })
        } else {
            None
        }
    }

    /// The wire form of the entries.
    pub fn as_bytes(&self) -> (bytes: &[u8])
        ensures
            bytes@ == self@,
    {
        self.bytes.as_slice()
    }

    /// Appends an entry whose value is a long string. Refuses, and changes
    /// nothing, when the name is longer than 255 bytes or the table would
    /// outgrow a 32-bit length.
    pub fn insert_long_string(&mut self, name: &[u8], value: &[u8]) -> (inserted: bool)
        requires
            old(self).wf(),
        ensures
            final(self).wf(),
            inserted == (name@.len() <= 255 && old(self)@.len() + name@.len() + value@.len() + 6
                <= u32::MAX),
            inserted ==> final(self)@ == old(self)@ + entry(
                name@,
                TAG_LONG_STRING,
                long_string(value@),
            ),
            !inserted ==> final(self)@ == old(self)@,
    {
        let limit: usize = 0xffff_ffff;
        if name.len() > 255 || self.bytes.len() > limit {
            return false;
        }
        let room: usize = limit - self.bytes.len();
        if room < name.len() + 6 || value.len() > room - name.len() - 6 {
            return false;
        }
        let ghost before = self.bytes@;
        self.bytes.push(name.len() as u8);
        put_bytes(&mut self.bytes, name);
        self.bytes.push(TAG_LONG_STRING);
        put_u32(&mut self.bytes, value.len() as u32);
        put_bytes(&mut self.bytes, value);
        proof {
            let e = entry(name@, TAG_LONG_STRING, long_string(value@));
            assert(self.bytes@ =~= before + e);
            lemma_long_string_entry(name@, value@);
            lemma_append_entry(before, e, 0);
        }
        true
    }

    /// Tag and value bytes of the first entry called `name`.
    pub fn get(&self, name: &[u8]) -> (found: Option<(u8, Vec<u8>)>)
        ensures
            match found {
                Some((tag, value)) => self.lookup(name@) == Some((tag, value@)),
                None => self.lookup(name@) is None,
            },
    {
        let data = self.bytes.as_slice();
        let mut at: usize = 0;
        loop
            invariant
                data@ == self@,
                lookup_from(self@, 0, name@) == lookup_from(self@, at as int, name@),
            decreases data@.len() - at,
        {
            match scan_entry(data, at) {
                None => {
                    return None;
                },
                Some(next) => {
                    let tag_at: usize = at + 1 + data[at] as usize;
                    if same_bytes(vstd::slice::slice_subrange(data, at + 1, tag_at), name) {
                        return Some((data[tag_at], copy_range(data, tag_at + 1, next)));
                    }
                    at = next;
                },
            }
        }
    }
}

} // verus!
