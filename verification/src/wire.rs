//! Big-endian integers and length-prefixed byte strings, as AMQP lays them
//! out on the wire.

use vstd::prelude::*;

verus! {

/// The two bytes of `v`, most significant first.
#[verifier::opaque]
pub open spec fn u16_be(v: u16) -> Seq<u8> {
    seq![(v / 256) as u8, (v % 256) as u8]
}

/// The four bytes of `v`, most significant first.
#[verifier::opaque]
pub open spec fn u32_be(v: u32) -> Seq<u8> {
    seq![
        (v / 256 / 256 / 256) as u8,
        (v / 256 / 256 % 256) as u8,
        (v / 256 % 256) as u8,
        (v % 256) as u8,
    ]
}

/// The 16-bit integer whose big-endian bytes start at `at`.
#[verifier::opaque]
pub open spec fn u16_at(s: Seq<u8>, at: int) -> u16 {
    (s[at] as int * 256 + s[at + 1] as int) as u16
}

/// The 32-bit integer whose big-endian bytes start at `at`.
#[verifier::opaque]
pub open spec fn u32_at(s: Seq<u8>, at: int) -> u32 {
    (((s[at] as int * 256 + s[at + 1] as int) * 256 + s[at + 2] as int) * 256
        + s[at + 3] as int) as u32
}

/// A byte string behind a one-byte length.
pub open spec fn short_string(content: Seq<u8>) -> Seq<u8> {
    seq![content.len() as u8] + content
}

/// A byte string behind a four-byte length.
pub open spec fn long_string(content: Seq<u8>) -> Seq<u8> {
    u32_be(content.len() as u32) + content
}

/// The content of the short string that starts at `at`, if all of it is
/// there.
pub open spec fn short_string_at(s: Seq<u8>, at: int) -> Option<Seq<u8>> {
    if 0 <= at && at + 1 <= s.len() && at + 1 + s[at] as int <= s.len() {
        Some(s.subrange(at + 1, at + 1 + s[at] as int))
    } else {
        None
    }
}

/// The content of the long string that starts at `at`, if all of it is
/// there.
pub open spec fn long_string_at(s: Seq<u8>, at: int) -> Option<Seq<u8>> {
    if 0 <= at && at + 4 <= s.len() && at + 4 + u32_at(s, at) as int <= s.len() {
        Some(s.subrange(at + 4, at + 4 + u32_at(s, at) as int))
    } else {
        None
    }
}

/// An integer takes two bytes.
pub broadcast proof fn lemma_u16_be_len(v: u16)
    ensures
        #[trigger] u16_be(v).len() == 2,
{
    reveal(u16_be);
}

/// An integer takes four bytes.
pub broadcast proof fn lemma_u32_be_len(v: u32)
    ensures
        #[trigger] u32_be(v).len() == 4,
{
    reveal(u32_be);
}

/// What is read depends on the bytes read only.
pub proof fn lemma_u16_at_same(s: Seq<u8>, at: int, t: Seq<u8>, from: int)
    requires
        s[at] == t[from],
        s[at + 1] == t[from + 1],
    ensures
        u16_at(s, at) == u16_at(t, from),
{
    reveal(u16_at);
}

/// What is read depends on the bytes read only.
pub proof fn lemma_u32_at_same(s: Seq<u8>, at: int, t: Seq<u8>, from: int)
    requires
        s[at] == t[from],
        s[at + 1] == t[from + 1],
        s[at + 2] == t[from + 2],
        s[at + 3] == t[from + 3],
    ensures
        u32_at(s, at) == u32_at(t, from),
{
    reveal(u32_at);
}

/// Reading back the bytes of a 16-bit integer gives the integer.
pub proof fn lemma_u16_round_trip(v: u16)
    ensures
        u16_be(v).len() == 2,
        u16_at(u16_be(v), 0) == v,
{
    reveal(u16_be);
    reveal(u16_at);
}

/// Reading back the bytes of a 32-bit integer gives the integer.
pub proof fn lemma_u32_round_trip(v: u32)
    ensures
        u32_be(v).len() == 4,
        u32_at(u32_be(v), 0) == v,
{
    reveal(u32_be);
    reveal(u32_at);
    let a = v as int / 256;
    let b = a / 256;
    let c = b / 256;
    assert(v == a * 256 + v % 256);
    assert(a == b * 256 + a % 256);
    assert(b == c * 256 + b % 256);
    assert(c < 256);
}

/// Writing out an integer that was read gives the bytes it was read from.
pub proof fn lemma_u16_bytes_round_trip(s: Seq<u8>, at: int)
    requires
        0 <= at,
        at + 2 <= s.len(),
    ensures
        u16_be(u16_at(s, at)) == s.subrange(at, at + 2),
{
    reveal(u16_be);
    reveal(u16_at);
    assert(u16_be(u16_at(s, at)) =~= s.subrange(at, at + 2));
}

/// Writing out an integer that was read gives the bytes it was read from.
pub proof fn lemma_u32_bytes_round_trip(s: Seq<u8>, at: int)
    requires
        0 <= at,
        at + 4 <= s.len(),
    ensures
        u32_be(u32_at(s, at)) == s.subrange(at, at + 4),
{
    reveal(u32_be);
    reveal(u32_at);
    let x = s[at] as int * 256 + s[at + 1] as int;
    let w = x * 256 + s[at + 2] as int;
    let v = w * 256 + s[at + 3] as int;
    assert(v / 256 == w && v % 256 == s[at + 3]);
    assert(w / 256 == x && w % 256 == s[at + 2]);
    assert(x / 256 == s[at] && x % 256 == s[at + 1]);
    assert(u32_at(s, at) == v);
    assert(u32_be(u32_at(s, at)) =~= s.subrange(at, at + 4));
}

/// An integer read inside `prefix + s` behind the prefix is the one read
/// in `s`; one read inside the prefix does not depend on what follows.
pub proof fn lemma_u32_at_concat(prefix: Seq<u8>, s: Seq<u8>, at: int)
    requires
        0 <= at,
    ensures
        at + 4 <= s.len() ==> u32_at(prefix + s, prefix.len() + at) == u32_at(s, at),
        at + 4 <= prefix.len() ==> u32_at(prefix + s, at) == u32_at(prefix, at),
{
    reveal(u32_at);
}

/// A 16-bit integer is read back from wherever it was written.
pub proof fn lemma_u16_written(prefix: Seq<u8>, v: u16, rest: Seq<u8>)
    ensures
        u16_at(prefix + u16_be(v) + rest, prefix.len() as int) == v,
{
    lemma_u16_round_trip(v);
    let s = prefix + u16_be(v) + rest;
    lemma_u16_at_same(s, prefix.len() as int, u16_be(v), 0);
}

/// A 32-bit integer is read back from wherever it was written.
pub proof fn lemma_u32_written(prefix: Seq<u8>, v: u32, rest: Seq<u8>)
    ensures
        u32_at(prefix + u32_be(v) + rest, prefix.len() as int) == v,
{
    lemma_u32_round_trip(v);
    let s = prefix + u32_be(v) + rest;
    lemma_u32_at_same(s, prefix.len() as int, u32_be(v), 0);
}

/// Reads a big-endian 16-bit integer.
pub fn read_u16(data: &[u8], at: usize) -> (v: u16)
    requires
        at + 2 <= data@.len(),
    ensures
        v == u16_at(data@, at as int),
{
    proof {
        reveal(u16_at);
    }
    let hi: u16 = data[at] as u16;
    let lo: u16 = data[at + 1] as u16;
    hi * 256 + lo
}

/// Reads a big-endian 32-bit integer.
pub fn read_u32(data: &[u8], at: usize) -> (v: u32)
    requires
        at + 4 <= data@.len(),
    ensures
        v == u32_at(data@, at as int),
{
    proof {
        reveal(u32_at);
    }
    let b0: u32 = data[at] as u32;
    let b1: u32 = data[at + 1] as u32;
    let b2: u32 = data[at + 2] as u32;
    let b3: u32 = data[at + 3] as u32;
    ((b0 * 256 + b1) * 256 + b2) * 256 + b3
}

/// Appends the big-endian bytes of `v`.
pub fn put_u16(out: &mut Vec<u8>, v: u16)
    ensures
        final(out)@ == old(out)@ + u16_be(v),
{
    out.push((v / 256) as u8);
    out.push((v % 256) as u8);
    proof {
        reveal(u16_be);
    }
    assert(out@ =~= old(out)@ + u16_be(v));
}

/// Appends the big-endian bytes of `v`.
pub fn put_u32(out: &mut Vec<u8>, v: u32)
    ensures
        final(out)@ == old(out)@ + u32_be(v),
{
    out.push((v / 256 / 256 / 256) as u8);
    out.push((v / 256 / 256 % 256) as u8);
    out.push((v / 256 % 256) as u8);
    out.push((v % 256) as u8);
    proof {
        reveal(u32_be);
    }
    assert(out@ =~= old(out)@ + u32_be(v));
}

/// Appends `bytes`.
pub fn put_bytes(out: &mut Vec<u8>, bytes: &[u8])
    ensures
        final(out)@ == old(out)@ + bytes@,
{
    let mut i: usize = 0;
    while i < bytes.len()
        invariant
            i <= bytes@.len(),
            out@ == old(out)@ + bytes@.subrange(0, i as int),
        decreases bytes@.len() - i,
    {
        out.push(bytes[i]);
        i = i + 1;
        assert(out@ =~= old(out)@ + bytes@.subrange(0, i as int));
    }
    assert(bytes@.subrange(0, bytes@.len() as int) =~= bytes@);
}

/// A copy of the bytes from `from` up to `to`.
pub fn copy_range(data: &[u8], from: usize, to: usize) -> (bytes: Vec<u8>)
    requires
        from <= to <= data@.len(),
    ensures
        bytes@ == data@.subrange(from as int, to as int),
{
    vstd::slice::slice_to_vec(vstd::slice::slice_subrange(data, from, to))
}

/// Copies out the short string that starts at `at`.
pub fn take_short_string(data: &[u8], at: usize) -> (content: Option<Vec<u8>>)
    ensures
        match content {
            Some(bytes) => short_string_at(data@, at as int) == Some(bytes@) && at + 1
                + bytes@.len() <= data@.len(),
            None => short_string_at(data@, at as int) is None,
        },
{
    if at >= data.len() {
        return None;
    }
    let length: usize = data[at] as usize;
    if length > data.len() - at - 1 {
        return None;
    }
    Some(copy_range(data, at + 1, at + 1 + length))
}

/// Copies out the long string that starts at `at`.
pub fn take_long_string(data: &[u8], at: usize) -> (content: Option<Vec<u8>>)
    ensures
        match content {
            Some(bytes) => long_string_at(data@, at as int) == Some(bytes@) && at + 4
                + bytes@.len() <= data@.len(),
            None => long_string_at(data@, at as int) is None,
        },
{
    if at > data.len() || data.len() - at < 4 {
        return None;
    }
    let length: usize = read_u32(data, at) as usize;
    if length > data.len() - at - 4 {
        return None;
    }
    Some(copy_range(data, at + 4, at + 4 + length))
}

/// A short string is read back whole from wherever it was written.
pub proof fn lemma_short_string_round_trip(prefix: Seq<u8>, content: Seq<u8>, rest: Seq<u8>)
    requires
        content.len() <= 255,
    ensures
        short_string_at(prefix + short_string(content) + rest, prefix.len() as int) == Some(
            content,
        ),
        short_string(content).len() == content.len() + 1,
{
    let s = prefix + short_string(content) + rest;
    let at = prefix.len() as int;
    assert(s[at] == content.len() as u8);
    assert(s.subrange(at + 1, at + 1 + content.len()) =~= content);
}

/// A long string is read back whole from wherever it was written.
pub proof fn lemma_long_string_round_trip(prefix: Seq<u8>, content: Seq<u8>, rest: Seq<u8>)
    requires
        content.len() <= u32::MAX,
    ensures
        long_string_at(prefix + long_string(content) + rest, prefix.len() as int) == Some(content),
        u32_at(prefix + long_string(content) + rest, prefix.len() as int) == content.len(),
        long_string(content).len() == content.len() + 4,
{
    let s = prefix + long_string(content) + rest;
    let at = prefix.len() as int;
    let v = content.len() as u32;
    lemma_u32_be_len(v);
    assert(s =~= prefix + u32_be(v) + (content + rest));
    lemma_u32_written(prefix, v, content + rest);
    assert(s.subrange(at + 4, at + 4 + content.len()) =~= content);
}

} // verus!
