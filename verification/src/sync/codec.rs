use crate::sync::stamp::Timestamp;
use vstd::bytes::*;
use vstd::prelude::*;
use vstd::utf8::*;

verus! {

/// A 64-bit count, eight bytes, least significant first.
pub open spec fn enc_u64(x: u64) -> Seq<u8> {
    spec_u64_to_le_bytes(x)
}

/// An identifier, sixteen bytes, least significant first.
pub open spec fn enc_id(x: u128) -> Seq<u8> {
    spec_u128_to_le_bytes(x)
}

/// A byte string behind its length.
pub open spec fn enc_bytes(b: Seq<u8>) -> Seq<u8> {
    enc_u64(b.len() as u64) + b
}

/// A text as its UTF-8 bytes behind their length.
pub open spec fn enc_text(s: Seq<char>) -> Seq<u8> {
    enc_bytes(encode_utf8(s))
}

/// An optional identifier: a zero byte, or a one byte and the identifier.
pub open spec fn enc_opt_id(o: Option<u128>) -> Seq<u8> {
    match o {
        None => seq![0u8],
        Some(x) => seq![1u8] + enc_id(x),
    }
}

/// An optional text: a zero byte, or a one byte and the text.
pub open spec fn enc_opt_text(o: Option<Seq<char>>) -> Seq<u8> {
    match o {
        None => seq![0u8],
        Some(s) => seq![1u8] + enc_text(s),
    }
}

/// A flag as one byte.
pub open spec fn enc_flag(b: bool) -> Seq<u8> {
    if b {
        seq![1u8]
    } else {
        seq![0u8]
    }
}

/// A time stamp: a zero byte and the seconds, or for a time before the
/// epoch a one byte and the seconds that lack to the second before the
/// epoch; then the nanoseconds.
pub open spec fn enc_time(t: Timestamp) -> Seq<u8> {
    if t.secs >= 0 {
        seq![0u8] + enc_u64(t.secs as u64) + enc_u64(t.nanos as u64)
    } else {
        seq![1u8] + enc_u64((-(t.secs + 1)) as u64) + enc_u64(t.nanos as u64)
    }
}

pub fn put_u64(out: &mut Vec<u8>, x: u64)
    ensures
        final(out)@ == old(out)@ + enc_u64(x),
{
    let mut b = u64_to_le_bytes(x);
    out.append(&mut b);
}

pub fn put_id(out: &mut Vec<u8>, x: u128)
    ensures
        final(out)@ == old(out)@ + enc_id(x),
{
    let mut b = u128_to_le_bytes(x);
    out.append(&mut b);
}

pub fn put_raw(out: &mut Vec<u8>, b: &[u8])
    ensures
        final(out)@ == old(out)@ + b@,
{
    out.extend_from_slice(b);
}

pub fn put_bytes(out: &mut Vec<u8>, b: &[u8])
    ensures
        final(out)@ == old(out)@ + enc_bytes(b@),
{
    put_u64(out, b.len() as u64);
    put_raw(out, b);
    assert(out@ =~= old(out)@ + enc_bytes(b@));
}

pub fn put_text(out: &mut Vec<u8>, s: &str)
    ensures
        final(out)@ == old(out)@ + enc_text(s@),
{
    put_bytes(out, s.as_bytes());
}

pub fn put_opt_id(out: &mut Vec<u8>, o: Option<u128>)
    ensures
        final(out)@ == old(out)@ + enc_opt_id(o),
{
    match o {
        None => {
            out.push(0u8);
            assert(out@ =~= old(out)@ + enc_opt_id(o));
        },
        Some(x) => {
            out.push(1u8);
            put_id(out, x);
            assert(out@ =~= old(out)@ + enc_opt_id(o));
        },
    }
}

/// The content of an optional borrowed text.
pub open spec fn opt_str(o: Option<&str>) -> Option<Seq<char>> {
    match o {
        Some(s) => Some(s@),
        None => None,
    }
}

pub fn put_opt_text(out: &mut Vec<u8>, o: Option<&str>)
    ensures
        final(out)@ == old(out)@ + enc_opt_text(opt_str(o)),
{
    match o {
        None => {
            out.push(0u8);
            assert(out@ =~= old(out)@ + enc_opt_text(opt_str(o)));
        },
        Some(s) => {
            out.push(1u8);
            put_text(out, s);
            assert(out@ =~= old(out)@ + enc_opt_text(opt_str(o)));
        },
    }
}

/// A fresh buffer that holds an identifier.
pub fn start_id(x: u128) -> (out: Vec<u8>)
    ensures
        out@ == enc_id(x),
{
    u128_to_le_bytes(x)
}

pub fn put_flag(out: &mut Vec<u8>, b: bool)
    ensures
        final(out)@ == old(out)@ + enc_flag(b),
{
    if b {
        out.push(1u8);
    } else {
        out.push(0u8);
    }
    assert(out@ =~= old(out)@ + enc_flag(b));
}

pub fn put_time(out: &mut Vec<u8>, t: Timestamp)
    ensures
        final(out)@ == old(out)@ + enc_time(t),
{
    if t.secs >= 0 {
        out.push(0u8);
        put_u64(out, t.secs as u64);
    } else {
        out.push(1u8);
        put_u64(out, (-(t.secs + 1)) as u64);
    }
    put_u64(out, t.nanos as u64);
    assert(out@ =~= old(out)@ + enc_time(t));
}

} // verus!
