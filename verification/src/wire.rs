//! Mathematical model of the IPP attribute wire grammar: a ghost mirror of
//! the tagged value type, big-endian byte helpers, and the specification
//! encoder and decoder that the executable codec is proved against.

use vstd::prelude::*;

use crate::tags::{
    spec_value_tag_byte, spec_value_tag_from, ValueTag,
};

verus! {

/// Ghost mirror of the tagged value type, over mathematical sequences.
/// String-carrying variants hold the raw wire bytes of the text.
#[verifier::ext_equal]
pub enum Val {
    Integer(i32),
    Enum(i32),
    OctetString(Seq<u8>),
    TextWithoutLanguage(Seq<u8>),
    NameWithoutLanguage(Seq<u8>),
    Charset(Seq<u8>),
    NaturalLanguage(Seq<u8>),
    Uri(Seq<u8>),
    RangeOfInteger { min: i32, max: i32 },
    Boolean(bool),
    Keyword(Seq<u8>),
    ListOf(Seq<Val>),
    Collection(Seq<Val>),
    MimeMediaType(Seq<u8>),
    DateTime {
        year: u16,
        month: u8,
        day: u8,
        hour: u8,
        minutes: u8,
        seconds: u8,
        deciseconds: u8,
        utcdir: u8,
        utchours: u8,
        utcmins: u8,
    },
    MemberAttrName(Seq<u8>),
    Resolution { crossfeed: i32, feed: i32, units: i8 },
    Other { tag: u8, data: Seq<u8> },
}

/// Big-endian bytes of a 16-bit integer.
pub open spec fn be16(n: u16) -> Seq<u8> {
    seq![(n / 256) as u8, (n % 256) as u8]
}

/// Big-endian bytes of a 32-bit integer.
pub open spec fn be32(n: u32) -> Seq<u8> {
    seq![
        (n / 0x1000000) as u8,
        ((n / 0x10000) % 256) as u8,
        ((n / 256) % 256) as u8,
        (n % 256) as u8,
    ]
}

/// The 16-bit integer read big-endian from two bytes.
pub open spec fn be16_val(b0: u8, b1: u8) -> u16 {
    (b0 * 256 + b1) as u16
}

/// The 32-bit integer read big-endian from four bytes.
pub open spec fn be32_val(b0: u8, b1: u8, b2: u8, b3: u8) -> u32 {
    (b0 * 0x1000000 + b1 * 0x10000 + b2 * 256 + b3) as u32
}

/// Two's-complement image of a 32-bit signed integer.
pub open spec fn u32_of_i32(x: i32) -> u32 {
    if x >= 0 {
        x as u32
    } else {
        (x + 0x1_0000_0000) as u32
    }
}

/// The 32-bit signed integer whose two's-complement image a 32-bit word is.
pub open spec fn i32_of_u32(n: u32) -> i32 {
    if n < 0x8000_0000 {
        n as i32
    } else {
        (n - 0x1_0000_0000) as i32
    }
}

/// Two's-complement image of an 8-bit signed integer.
pub open spec fn u8_of_i8(x: i8) -> u8 {
    if x >= 0 {
        x as u8
    } else {
        (x + 0x100) as u8
    }
}

/// The 8-bit signed integer whose two's-complement image a byte is.
pub open spec fn i8_of_u8(n: u8) -> i8 {
    if n < 0x80 {
        n as i8
    } else {
        (n - 0x100) as i8
    }
}

/// The tag a value carries on the wire; a list delegates to its first
/// element, the raw passthrough variant reports the unknown-value tag.
pub open spec fn tag_of(v: Val) -> ValueTag
    decreases v,
{
    match v {
        Val::Integer(_) => ValueTag::Integer,
        Val::Enum(_) => ValueTag::Enum,
        Val::RangeOfInteger { .. } => ValueTag::RangeOfInteger,
        Val::Boolean(_) => ValueTag::Boolean,
        Val::Keyword(_) => ValueTag::Keyword,
        Val::OctetString(_) => ValueTag::OctetStringUnspecified,
        Val::TextWithoutLanguage(_) => ValueTag::TextWithoutLanguage,
        Val::NameWithoutLanguage(_) => ValueTag::NameWithoutLanguage,
        Val::Charset(_) => ValueTag::Charset,
        Val::NaturalLanguage(_) => ValueTag::NaturalLanguage,
        Val::Uri(_) => ValueTag::Uri,
        Val::MimeMediaType(_) => ValueTag::MimeMediaType,
        Val::ListOf(l) => if l.len() > 0 { tag_of(l[0]) } else { ValueTag::Unknown },
        Val::Collection(_) => ValueTag::BegCollection,
        Val::DateTime { .. } => ValueTag::DateTime,
        Val::MemberAttrName(_) => ValueTag::MemberAttrName,
        Val::Resolution { .. } => ValueTag::Resolution,
        Val::Other { .. } => ValueTag::Unknown,
    }
}

/// No list anywhere in the value is empty: a list of values must never be
/// constructed empty, so the tag of every list is defined.
pub open spec fn val_wf(v: Val) -> bool
    decreases v,
{
    match v {
        Val::ListOf(l) => l.len() > 0 && (forall|i: int| 0 <= i < l.len() ==> val_wf(#[trigger] l[i])),
        Val::Collection(l) => forall|i: int| 0 <= i < l.len() ==> val_wf(#[trigger] l[i]),
        _ => true,
    }
}

/// The value bytes a value is written as: a 2-byte big-endian length
/// followed by the payload, except for lists and collections, which carry
/// the array and sentinel conventions of the grammar.
pub open spec fn enc_value(v: Val) -> Seq<u8>
    decreases v, 1int,
{
    match v {
        Val::Integer(i) => be16(4) + be32(u32_of_i32(i)),
        Val::Enum(i) => be16(4) + be32(u32_of_i32(i)),
        Val::RangeOfInteger { min, max } => be16(8) + be32(u32_of_i32(min)) + be32(u32_of_i32(max)),
        Val::Boolean(b) => be16(1) + seq![if b { 1u8 } else { 0u8 }],
        Val::OctetString(s) => be16(s.len() as u16) + s,
        Val::TextWithoutLanguage(s) => be16(s.len() as u16) + s,
        Val::NameWithoutLanguage(s) => be16(s.len() as u16) + s,
        Val::Charset(s) => be16(s.len() as u16) + s,
        Val::NaturalLanguage(s) => be16(s.len() as u16) + s,
        Val::Uri(s) => be16(s.len() as u16) + s,
        Val::Keyword(s) => be16(s.len() as u16) + s,
        Val::MimeMediaType(s) => be16(s.len() as u16) + s,
        Val::MemberAttrName(s) => be16(s.len() as u16) + s,
        Val::ListOf(l) => if l.len() > 0 {
            enc_value(l[0]) + enc_list_rest(l.drop_first(), spec_value_tag_byte(tag_of(l[0])))
        } else {
            Seq::empty()
        },
        Val::Collection(l) => be16(0) + enc_members(l) + seq![0x37u8] + be32(0),
        Val::DateTime { year, month, day, hour, minutes, seconds, deciseconds, utcdir, utchours, utcmins } =>
            be16(11) + be16(year)
                + seq![month, day, hour, minutes, seconds, deciseconds, utcdir, utchours, utcmins],
        Val::Resolution { crossfeed, feed, units } =>
            be16(9) + be32(u32_of_i32(crossfeed)) + be32(u32_of_i32(feed)) + seq![u8_of_i8(units)],
        Val::Other { tag, data } => be16(data.len() as u16) + data,
    }
}

/// The later elements of a list: each is introduced by a repeated tag byte
/// and a zero-length name field, the array convention of the grammar.
pub open spec fn enc_list_rest(l: Seq<Val>, sep: u8) -> Seq<u8>
    decreases l, 0int,
{
    if l.len() == 0 {
        Seq::empty()
    } else {
        seq![sep] + be16(0) + enc_value(l[0]) + enc_list_rest(l.drop_first(), sep)
    }
}

/// The members of a collection: each child is introduced by its own tag
/// byte and a zero-length name field.
pub open spec fn enc_members(l: Seq<Val>) -> Seq<u8>
    decreases l, 0int,
{
    if l.len() == 0 {
        Seq::empty()
    } else {
        seq![spec_value_tag_byte(tag_of(l[0]))] + be16(0) + enc_value(l[0]) + enc_members(l.drop_first())
    }
}

/// What decoding one value yields: the value and the position after it, or
/// `None` when the stream is too short. Decoding starts at the value-length
/// field, the tag byte having been read by the caller. An unrecognized tag
/// byte yields the raw passthrough variant, never an error; a length
/// mismatch on a fixed-size kind is tolerated, the fixed size is read.
pub open spec fn dec_value(tag: u8, data: Seq<u8>, pos: int) -> Option<(Val, int)> {
    if pos + 2 > data.len() {
        None
    } else {
        let vsize = be16_val(data[pos], data[pos + 1]) as int;
        let p = pos + 2;
        match spec_value_tag_from(tag) {
            None => dec_raw(tag, data, p, vsize),
            Some(t) => match t {
                ValueTag::Integer => dec_i32(data, p, |i: i32| Val::Integer(i)),
                ValueTag::Enum => dec_i32(data, p, |i: i32| Val::Enum(i)),
                ValueTag::OctetStringUnspecified => dec_str(data, p, vsize, |s: Seq<u8>| Val::OctetString(s)),
                ValueTag::TextWithoutLanguage => dec_str(data, p, vsize, |s: Seq<u8>| Val::TextWithoutLanguage(s)),
                ValueTag::NameWithoutLanguage => dec_str(data, p, vsize, |s: Seq<u8>| Val::NameWithoutLanguage(s)),
                ValueTag::Charset => dec_str(data, p, vsize, |s: Seq<u8>| Val::Charset(s)),
                ValueTag::NaturalLanguage => dec_str(data, p, vsize, |s: Seq<u8>| Val::NaturalLanguage(s)),
                ValueTag::Uri => dec_str(data, p, vsize, |s: Seq<u8>| Val::Uri(s)),
                ValueTag::Keyword => dec_str(data, p, vsize, |s: Seq<u8>| Val::Keyword(s)),
                ValueTag::MimeMediaType => dec_str(data, p, vsize, |s: Seq<u8>| Val::MimeMediaType(s)),
                ValueTag::MemberAttrName => dec_str(data, p, vsize, |s: Seq<u8>| Val::MemberAttrName(s)),
                ValueTag::RangeOfInteger => if p + 8 > data.len() {
                    None
                } else {
                    Some((
                        Val::RangeOfInteger {
                            min: i32_of_u32(be32_val(data[p], data[p + 1], data[p + 2], data[p + 3])),
                            max: i32_of_u32(be32_val(data[p + 4], data[p + 5], data[p + 6], data[p + 7])),
                        },
                        p + 8,
                    ))
                },
                ValueTag::Boolean => if p + 1 > data.len() {
                    None
                } else {
                    Some((Val::Boolean(data[p] != 0), p + 1))
                },
                ValueTag::DateTime => if p + 11 > data.len() {
                    None
                } else {
                    Some((
                        Val::DateTime {
                            year: be16_val(data[p], data[p + 1]),
                            month: data[p + 2],
                            day: data[p + 3],
                            hour: data[p + 4],
                            minutes: data[p + 5],
                            seconds: data[p + 6],
                            deciseconds: data[p + 7],
                            utcdir: data[p + 8],
                            utchours: data[p + 9],
                            utcmins: data[p + 10],
                        },
                        p + 11,
                    ))
                },
                ValueTag::Resolution => if p + 9 > data.len() {
                    None
                } else {
                    Some((
                        Val::Resolution {
                            crossfeed: i32_of_u32(be32_val(data[p], data[p + 1], data[p + 2], data[p + 3])),
                            feed: i32_of_u32(be32_val(data[p + 4], data[p + 5], data[p + 6], data[p + 7])),
                            units: i8_of_u8(data[p + 8]),
                        },
                        p + 9,
                    ))
                },
                _ => dec_raw(tag, data, p, vsize),
            },
        }
    }
}

/// Decoding of a raw passthrough value: the stated number of bytes, kept as
/// they stand under the tag byte that selected no known kind.
pub open spec fn dec_raw(tag: u8, data: Seq<u8>, p: int, vsize: int) -> Option<(Val, int)> {
    if p + vsize > data.len() {
        None
    } else {
        Some((Val::Other { tag, data: data.subrange(p, p + vsize) }, p + vsize))
    }
}

/// Decoding of a 4-byte signed integer payload.
pub open spec fn dec_i32(data: Seq<u8>, p: int, mk: spec_fn(i32) -> Val) -> Option<(Val, int)> {
    if p + 4 > data.len() {
        None
    } else {
        Some((mk(i32_of_u32(be32_val(data[p], data[p + 1], data[p + 2], data[p + 3]))), p + 4))
    }
}

/// Decoding of a text payload of the stated length.
pub open spec fn dec_str(data: Seq<u8>, p: int, vsize: int, mk: spec_fn(Seq<u8>) -> Val) -> Option<(Val, int)> {
    if p + vsize > data.len() {
        None
    } else {
        Some((mk(data.subrange(p, p + vsize)), p + vsize))
    }
}

/// Reads a big-endian 16-bit integer at a position of a byte slice.
pub fn read_be16(data: &[u8], pos: usize) -> (n: u16)
    requires
        pos + 2 <= data@.len(),
    ensures
        n == be16_val(data@[pos as int], data@[pos as int + 1]),
{
    let b0 = data[pos];
    let b1 = data[pos + 1];
    (b0 as u16) * 256 + (b1 as u16)
}

/// Reads a big-endian 32-bit integer at a position of a byte slice.
pub fn read_be32(data: &[u8], pos: usize) -> (n: u32)
    requires
        pos + 4 <= data@.len(),
    ensures
        n == be32_val(data@[pos as int], data@[pos as int + 1], data@[pos as int + 2], data@[pos as int + 3]),
{
    let b0 = data[pos];
    let b1 = data[pos + 1];
    let b2 = data[pos + 2];
    let b3 = data[pos + 3];
    (b0 as u32) * 0x1000000 + (b1 as u32) * 0x10000 + (b2 as u32) * 256 + (b3 as u32)
}

/// Reads a big-endian 32-bit signed integer at a position of a byte slice.
pub fn read_be_i32(data: &[u8], pos: usize) -> (x: i32)
    requires
        pos + 4 <= data@.len(),
    ensures
        x == i32_of_u32(be32_val(data@[pos as int], data@[pos as int + 1], data@[pos as int + 2], data@[pos as int + 3])),
{
    let n = read_be32(data, pos);
    let v: i64 = n as i64;
    let s: i64 = if v < 0x8000_0000 {
        v
    } else {
        v - 0x1_0000_0000
    };
    s as i32
}

/// Copies a run of bytes out of a byte slice.
pub fn read_bytes(data: &[u8], pos: usize, n: usize) -> (r: Vec<u8>)
    requires
        pos + n <= data@.len(),
    ensures
        r@ == data@.subrange(pos as int, pos as int + n as int),
{
    let dlen = data.len();
    let mut r: Vec<u8> = Vec::new();
    let mut i: usize = 0;
    while i < n
        invariant
            pos + n <= dlen == data@.len(),
            i <= n,
            r@ == data@.subrange(pos as int, pos as int + i as int),
        decreases n - i,
    {
        r.push(data[pos + i]);
        i = i + 1;
        proof {
            assert(r@ =~= data@.subrange(pos as int, pos as int + i as int));
        }
    }
    r
}

/// Appends a big-endian 16-bit integer to a byte buffer.
pub fn push_be16(out: &mut Vec<u8>, n: u16)
    ensures
        final(out)@ == old(out)@ + be16(n),
{
    out.push((n / 256) as u8);
    out.push((n % 256) as u8);
    proof {
        assert(out@ =~= old(out)@ + be16(n));
    }
}

/// Appends a big-endian 32-bit integer to a byte buffer.
pub fn push_be32(out: &mut Vec<u8>, n: u32)
    ensures
        final(out)@ == old(out)@ + be32(n),
{
    out.push((n / 0x1000000) as u8);
    out.push(((n / 0x10000) % 256) as u8);
    out.push(((n / 256) % 256) as u8);
    out.push((n % 256) as u8);
    proof {
        assert(out@ =~= old(out)@ + be32(n));
    }
}

/// Appends a big-endian 32-bit signed integer, two's complement, to a byte
/// buffer.
pub fn push_be_i32(out: &mut Vec<u8>, x: i32)
    ensures
        final(out)@ == old(out)@ + be32(u32_of_i32(x)),
{
    let v: i64 = x as i64;
    let u: i64 = if v >= 0 {
        v
    } else {
        v + 0x1_0000_0000
    };
    push_be32(out, u as u32);
}

/// Appends the two's-complement byte of an 8-bit signed integer to a byte
/// buffer.
pub fn push_i8(out: &mut Vec<u8>, x: i8)
    ensures
        final(out)@ == old(out)@ + seq![u8_of_i8(x)],
{
    let v: i16 = x as i16;
    let u: i16 = if v >= 0 {
        v
    } else {
        v + 0x100
    };
    out.push(u as u8);
    proof {
        assert(out@ =~= old(out)@ + seq![u8_of_i8(x)]);
    }
}

/// Appends a copy of a byte slice to a byte buffer.
pub fn push_bytes(out: &mut Vec<u8>, s: &[u8])
    ensures
        final(out)@ == old(out)@ + s@,
{
    let mut i: usize = 0;
    while i < s.len()
        invariant
            i <= s@.len(),
            out@ == old(out)@ + s@.subrange(0, i as int),
        decreases s@.len() - i,
    {
        out.push(s[i]);
        i = i + 1;
        proof {
            assert(out@ =~= old(out)@ + s@.subrange(0, i as int));
        }
    }
    proof {
        assert(out@ =~= old(out)@ + s@);
    }
}

} // verus!
