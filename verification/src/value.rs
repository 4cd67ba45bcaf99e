//! The tagged value type of the IPP attribute format, with its per-variant
//! binary reader and writer and element iteration.

use vstd::prelude::*;

use crate::tags::ValueTag;
use crate::wire::{
    dec_value, enc_list_rest, enc_members, enc_value, push_be16, push_be32, push_be_i32,
    push_bytes, push_i8, read_be16, read_be_i32, read_bytes, tag_of, val_wf, Val,
};
use crate::parser::ParseError;

verus! {

/// A tagged attribute value. String-carrying variants hold the raw wire
/// bytes of the text; `Other` is the forward-compatible raw passthrough for
/// unrecognized tags.
#[derive(Debug, PartialEq)]
pub enum IppValue {
    Integer(i32),
    Enum(i32),
    OctetString(Vec<u8>),
    TextWithoutLanguage(Vec<u8>),
    NameWithoutLanguage(Vec<u8>),
    Charset(Vec<u8>),
    NaturalLanguage(Vec<u8>),
    Uri(Vec<u8>),
    RangeOfInteger { min: i32, max: i32 },
    Boolean(bool),
    Keyword(Vec<u8>),
    ListOf(Vec<IppValue>),
    Collection(Vec<IppValue>),
    MimeMediaType(Vec<u8>),
    DateTime {
        year: u16,
        month: u8,
        day: u8,
        hour: u8,
        minutes: u8,
        seconds: u8,
        deciseconds: u8,
        utcdir: u8,
        utchours: u8,
        utcmins: u8,
    },
    MemberAttrName(Vec<u8>),
    Resolution { crossfeed: i32, feed: i32, units: i8 },
    Other { tag: u8, data: Vec<u8> },
}

impl IppValue {
    /// The ghost mirror of this value.
    pub open spec fn deep(self) -> Val
        decreases self,
    {
        match self {
            IppValue::Integer(i) => Val::Integer(i),
            IppValue::Enum(i) => Val::Enum(i),
            IppValue::OctetString(s) => Val::OctetString(s@),
            IppValue::TextWithoutLanguage(s) => Val::TextWithoutLanguage(s@),
            IppValue::NameWithoutLanguage(s) => Val::NameWithoutLanguage(s@),
            IppValue::Charset(s) => Val::Charset(s@),
            IppValue::NaturalLanguage(s) => Val::NaturalLanguage(s@),
            IppValue::Uri(s) => Val::Uri(s@),
            IppValue::RangeOfInteger { min, max } => Val::RangeOfInteger { min, max },
            IppValue::Boolean(b) => Val::Boolean(b),
            IppValue::Keyword(s) => Val::Keyword(s@),
            IppValue::ListOf(l) => Val::ListOf(
                Seq::new(l@.len(), |i: int| if 0 <= i < l@.len() { l@[i].deep() } else { Val::Boolean(false) }),
            ),
            IppValue::Collection(l) => Val::Collection(
                Seq::new(l@.len(), |i: int| if 0 <= i < l@.len() { l@[i].deep() } else { Val::Boolean(false) }),
            ),
            IppValue::MimeMediaType(s) => Val::MimeMediaType(s@),
            IppValue::DateTime {
                year, month, day, hour, minutes, seconds, deciseconds, utcdir, utchours, utcmins,
            } => Val::DateTime {
                year, month, day, hour, minutes, seconds, deciseconds, utcdir, utchours, utcmins,
            },
            IppValue::MemberAttrName(s) => Val::MemberAttrName(s@),
            IppValue::Resolution { crossfeed, feed, units } => Val::Resolution { crossfeed, feed, units },
            IppValue::Other { tag, data } => Val::Other { tag, data: data@ },
        }
    }

    /// No list anywhere in this value is empty.
    pub open spec fn wf(self) -> bool {
        val_wf(self.deep())
    }

    /// The tag this value is written under; a list delegates to its first
    /// element.
    pub fn to_tag(&self) -> (t: ValueTag)
        requires
            self.wf(),
        ensures
            t == tag_of(self.deep()),
        decreases *self,
    {
        match self {
            IppValue::Integer(_) => ValueTag::Integer,
            IppValue::Enum(_) => ValueTag::Enum,
            IppValue::RangeOfInteger { .. } => ValueTag::RangeOfInteger,
            IppValue::Boolean(_) => ValueTag::Boolean,
            IppValue::Keyword(_) => ValueTag::Keyword,
            IppValue::OctetString(_) => ValueTag::OctetStringUnspecified,
            IppValue::TextWithoutLanguage(_) => ValueTag::TextWithoutLanguage,
            IppValue::NameWithoutLanguage(_) => ValueTag::NameWithoutLanguage,
            IppValue::Charset(_) => ValueTag::Charset,
            IppValue::NaturalLanguage(_) => ValueTag::NaturalLanguage,
            IppValue::Uri(_) => ValueTag::Uri,
            IppValue::MimeMediaType(_) => ValueTag::MimeMediaType,
            IppValue::ListOf(l) => l[0].to_tag(),
            IppValue::Collection(_) => ValueTag::BegCollection,
            IppValue::DateTime { .. } => ValueTag::DateTime,
            IppValue::MemberAttrName(_) => ValueTag::MemberAttrName,
            IppValue::Resolution { .. } => ValueTag::Resolution,
            IppValue::Other { .. } => ValueTag::Unknown,
        }
    }

    /// Reads one value from a byte stream, the tag byte having been read by
    /// the caller: a 2-byte big-endian length, then the payload the tag
    /// selects. An unrecognized tag byte yields the raw passthrough value,
    /// never an error; the sole error is a stream that ends too soon.
    pub fn read(vtag: u8, data: &[u8], pos: usize) -> (r: Result<(IppValue, usize), ParseError>)
        ensures
            match r {
                Ok((v, p)) => {
                    &&& dec_value(vtag, data@, pos as int) == Some((v.deep(), p as int))
                    &&& pos <= p <= data@.len()
                    &&& v.wf()
                },
                Err(e) => {
                    &&& e == ParseError::IOError
                    &&& dec_value(vtag, data@, pos as int) is None
                },
            },
    {
        if pos > data.len() || data.len() - pos < 2 {
            return Err(ParseError::IOError);
        }
        let vsize = read_be16(data, pos) as usize;
        let p = pos + 2;
        let tag = match ValueTag::from_u8(vtag) {
            None => {
                return Self::read_raw(vtag, data, p, vsize);
            },
            Some(t) => t,
        };
        match tag {
            ValueTag::Integer => {
                if data.len() - p < 4 {
                    Err(ParseError::IOError)
                } else {
                    Ok((IppValue::Integer(read_be_i32(data, p)), p + 4))
                }
            },
            ValueTag::Enum => {
                if data.len() - p < 4 {
                    Err(ParseError::IOError)
                } else {
                    Ok((IppValue::Enum(read_be_i32(data, p)), p + 4))
                }
            },
            ValueTag::OctetStringUnspecified => {
                if data.len() - p < vsize {
                    Err(ParseError::IOError)
                } else {
                    Ok((IppValue::OctetString(read_bytes(data, p, vsize)), p + vsize))
                }
            },
            ValueTag::TextWithoutLanguage => {
                if data.len() - p < vsize {
                    Err(ParseError::IOError)
                } else {
                    Ok((IppValue::TextWithoutLanguage(read_bytes(data, p, vsize)), p + vsize))
                }
            },
            ValueTag::NameWithoutLanguage => {
                if data.len() - p < vsize {
                    Err(ParseError::IOError)
                } else {
                    Ok((IppValue::NameWithoutLanguage(read_bytes(data, p, vsize)), p + vsize))
                }
            },
            ValueTag::Charset => {
                if data.len() - p < vsize {
                    Err(ParseError::IOError)
                } else {
                    Ok((IppValue::Charset(read_bytes(data, p, vsize)), p + vsize))
                }
            },
            ValueTag::NaturalLanguage => {
                if data.len() - p < vsize {
                    Err(ParseError::IOError)
                } else {
                    Ok((IppValue::NaturalLanguage(read_bytes(data, p, vsize)), p + vsize))
                }
            },
            ValueTag::Uri => {
                if data.len() - p < vsize {
                    Err(ParseError::IOError)
                } else {
                    Ok((IppValue::Uri(read_bytes(data, p, vsize)), p + vsize))
                }
            },
            ValueTag::Keyword => {
                if data.len() - p < vsize {
                    Err(ParseError::IOError)
                } else {
                    Ok((IppValue::Keyword(read_bytes(data, p, vsize)), p + vsize))
                }
            },
            ValueTag::MimeMediaType => {
                if data.len() - p < vsize {
                    Err(ParseError::IOError)
                } else {
                    Ok((IppValue::MimeMediaType(read_bytes(data, p, vsize)), p + vsize))
                }
            },
            ValueTag::MemberAttrName => {
                if data.len() - p < vsize {
                    Err(ParseError::IOError)
                } else {
                    Ok((IppValue::MemberAttrName(read_bytes(data, p, vsize)), p + vsize))
                }
            },
            ValueTag::RangeOfInteger => {
                if data.len() - p < 8 {
                    Err(ParseError::IOError)
                } else {
                    Ok((
                        IppValue::RangeOfInteger {
                            min: read_be_i32(data, p),
                            max: read_be_i32(data, p + 4),
                        },
                        p + 8,
                    ))
                }
            },
            ValueTag::Boolean => {
                if data.len() - p < 1 {
                    Err(ParseError::IOError)
                } else {
                    Ok((IppValue::Boolean(data[p] != 0), p + 1))
                }
            },
            ValueTag::DateTime => {
                if data.len() - p < 11 {
                    Err(ParseError::IOError)
                } else {
                    Ok((
                        IppValue::DateTime {
                            year: read_be16(data, p),
                            month: data[p + 2],
                            day: data[p + 3],
                            hour: data[p + 4],
                            minutes: data[p + 5],
                            seconds: data[p + 6],
                            deciseconds: data[p + 7],
                            utcdir: data[p + 8],
                            utchours: data[p + 9],
                            utcmins: data[p + 10],
                        },
                        p + 11,
                    ))
                }
            },
            ValueTag::Resolution => {
                if data.len() - p < 9 {
                    Err(ParseError::IOError)
                } else {
                    Ok((
                        IppValue::Resolution {
                            crossfeed: read_be_i32(data, p),
                            feed: read_be_i32(data, p + 4),
                            units: {
                                let b = data[p + 8];
                                let v: i16 = b as i16;
                                let s: i16 = if v < 0x80 {
                                    v
                                } else {
                                    v - 0x100
                                };
                                s as i8
                            },
                        },
                        p + 9,
                    ))
                }
            },
            _ => Self::read_raw(vtag, data, p, vsize),
        }
    }

    /// Writes this value to a byte buffer: the 2-byte big-endian length,
    /// then the payload; a list re-emits its tag with a zero-length name
    /// before each later element, a collection brackets its members with
    /// the begin/end sentinel convention. Returns the number of bytes
    /// written.
    #[verifier::loop_isolation(false)]
    #[verifier::rlimit(60)]
    pub fn write(&self, out: &mut Vec<u8>) -> (r: usize)
        requires
            self.wf(),
        ensures
            final(out)@ == old(out)@ + enc_value(self.deep()),
            r == enc_value(self.deep()).len(),
        decreases *self,
    {
        let start = out.len();
        let ghost base = out@;
        match self {
            IppValue::Integer(i) => {
                push_be16(out, 4);
                push_be_i32(out, *i);
                proof {
                    assert(out@ =~= base + enc_value(self.deep()));
                }
            },
            IppValue::Enum(i) => {
                push_be16(out, 4);
                push_be_i32(out, *i);
                proof {
                    assert(out@ =~= base + enc_value(self.deep()));
                }
            },
            IppValue::RangeOfInteger { min, max } => {
                push_be16(out, 8);
                push_be_i32(out, *min);
                push_be_i32(out, *max);
                proof {
                    assert(out@ =~= base + enc_value(self.deep()));
                }
            },
            IppValue::Boolean(b) => {
                push_be16(out, 1);
                out.push(if *b { 1 } else { 0 });
                proof {
                    assert(out@ =~= base + enc_value(self.deep()));
                }
            },
            IppValue::OctetString(s)
            | IppValue::TextWithoutLanguage(s)
            | IppValue::NameWithoutLanguage(s)
            | IppValue::Charset(s)
            | IppValue::NaturalLanguage(s)
            | IppValue::Uri(s)
            | IppValue::Keyword(s)
            | IppValue::MimeMediaType(s)
            | IppValue::MemberAttrName(s) => {
                push_be16(out, #[verifier::truncate] (s.len() as u16));
                push_bytes(out, s.as_slice());
                proof {
                    assert(out@ =~= base + enc_value(self.deep()));
                }
            },
            IppValue::ListOf(l) => {
                let ghost dl = self.deep()->ListOf_0;
                assert(dl.len() == l@.len());
                proof {
                    assert forall|k: int| 0 <= k < l@.len() implies val_wf(#[trigger] l@[k].deep()) by {
                        assert(dl[k] == l@[k].deep());
                        assert(val_wf(dl[k]));
                    }
                }
                l[0].write(out);
                let sep = l[0].to_tag().as_u8();
                proof {
                    assert(dl[0] == l@[0].deep());
                    assert(base + enc_value(self.deep()) =~= out@ + enc_list_rest(
                        dl.drop_first(),
                        sep,
                    ));
                }
                let mut i: usize = 1;
                while i < l.len()
                    invariant
                        1 <= i <= l@.len(),
                        dl.len() == l@.len(),
                        forall|k: int| 0 <= k < l@.len() ==> dl[k] == #[trigger] l@[k].deep(),
                        forall|k: int| 0 <= k < l@.len() ==> val_wf(#[trigger] l@[k].deep()),
                        base + enc_value(self.deep()) == out@ + enc_list_rest(
                            dl.skip(i as int),
                            sep,
                        ),
                    decreases l@.len() - i,
                {
                    out.push(sep);
                    push_be16(out, 0);
                    l[i].write(out);
                    proof {
                        assert(dl.skip(i as int)[0] == dl[i as int]);
                        assert(dl.skip(i as int).drop_first() =~= dl.skip(i as int + 1));
                        assert(enc_list_rest(dl.skip(i as int), sep) =~= seq![sep] + crate::wire::be16(
                            0,
                        ) + enc_value(dl[i as int]) + enc_list_rest(dl.skip(i as int + 1), sep));
                        assert(base + enc_value(self.deep()) =~= out@ + enc_list_rest(
                            dl.skip(i as int + 1),
                            sep,
                        ));
                    }
                    i = i + 1;
                }
                proof {
                    assert(dl.skip(l@.len() as int) =~= Seq::<Val>::empty());
                    assert(out@ =~= base + enc_value(self.deep()));
                }
            },
            IppValue::Collection(l) => {
                let ghost dl = self.deep()->Collection_0;
                assert(dl.len() == l@.len());
                proof {
                    assert forall|k: int| 0 <= k < l@.len() implies val_wf(#[trigger] l@[k].deep()) by {
                        assert(dl[k] == l@[k].deep());
                        assert(val_wf(dl[k]));
                    }
                }
                push_be16(out, 0);
                proof {
                    assert(base + crate::wire::be16(0) + enc_members(dl) =~= out@ + enc_members(
                        dl.skip(0),
                    )) by {
                        assert(dl.skip(0) =~= dl);
                    }
                }
                let mut i: usize = 0;
                while i < l.len()
                    invariant
                        0 <= i <= l@.len(),
                        dl.len() == l@.len(),
                        forall|k: int| 0 <= k < l@.len() ==> dl[k] == #[trigger] l@[k].deep(),
                        forall|k: int| 0 <= k < l@.len() ==> val_wf(#[trigger] l@[k].deep()),
                        base + crate::wire::be16(0) + enc_members(dl) == out@ + enc_members(
                            dl.skip(i as int),
                        ),
                    decreases l@.len() - i,
                {
                    let t = l[i].to_tag().as_u8();
                    out.push(t);
                    push_be16(out, 0);
                    l[i].write(out);
                    proof {
                        assert(dl.skip(i as int)[0] == dl[i as int]);
                        assert(dl.skip(i as int).drop_first() =~= dl.skip(i as int + 1));
                        assert(enc_members(dl.skip(i as int)) =~= seq![t] + crate::wire::be16(0)
                            + enc_value(dl[i as int]) + enc_members(dl.skip(i as int + 1)));
                        assert(base + crate::wire::be16(0) + enc_members(dl) =~= out@ + enc_members(
                            dl.skip(i as int + 1),
                        ));
                    }
                    i = i + 1;
                }
                out.push(0x37);
                push_be32(out, 0);
                proof {
                    assert(enc_members(dl.skip(l@.len() as int)) =~= Seq::<u8>::empty()) by {
                        assert(dl.skip(l@.len() as int) =~= Seq::<Val>::empty());
                    }
                    assert(out@ =~= base + enc_value(self.deep()));
                }
            },
            IppValue::DateTime {
                year, month, day, hour, minutes, seconds, deciseconds, utcdir, utchours, utcmins,
            } => {
                push_be16(out, 11);
                push_be16(out, *year);
                out.push(*month);
                out.push(*day);
                out.push(*hour);
                out.push(*minutes);
                out.push(*seconds);
                out.push(*deciseconds);
                out.push(*utcdir);
                out.push(*utchours);
                out.push(*utcmins);
                proof {
                    assert(out@ =~= base + enc_value(self.deep()));
                }
            },
            IppValue::Resolution { crossfeed, feed, units } => {
                push_be16(out, 9);
                push_be_i32(out, *crossfeed);
                push_be_i32(out, *feed);
                push_i8(out, *units);
                proof {
                    assert(out@ =~= base + enc_value(self.deep()));
                }
            },
            IppValue::Other { tag: _, data } => {
                push_be16(out, #[verifier::truncate] (data.len() as u16));
                push_bytes(out, data.as_slice());
                proof {
                    assert(out@ =~= base + enc_value(self.deep()));
                }
            },
        }
        out.len() - start
    }

    /// Reads the stated number of bytes as a raw passthrough value.
    fn read_raw(vtag: u8, data: &[u8], p: usize, vsize: usize) -> (r: Result<(IppValue, usize), ParseError>)
        requires
            p <= data@.len(),
        ensures
            match r {
                Ok((v, q)) => {
                    &&& crate::wire::dec_raw(vtag, data@, p as int, vsize as int) == Some((
                        v.deep(),
                        q as int,
                    ))
                    &&& p <= q <= data@.len()
                    &&& v.wf()
                },
                Err(e) => {
                    &&& e == ParseError::IOError
                    &&& crate::wire::dec_raw(vtag, data@, p as int, vsize as int) is None
                },
            },
    {
        if data.len() - p < vsize {
            Err(ParseError::IOError)
        } else {
            Ok((IppValue::Other { tag: vtag, data: read_bytes(data, p, vsize) }, p + vsize))
        }
    }
}

/// Ghost mirror of a run of values.
pub open spec fn vals_deep(s: Seq<IppValue>) -> Seq<Val> {
    Seq::new(s.len(), |i: int| if 0 <= i < s.len() { s[i].deep() } else { Val::Boolean(false) })
}

/// The elements a value yields when iterated: a list or collection yields
/// each child in order, any scalar yields itself exactly once, giving
/// callers uniform scalar-or-array handling.
pub open spec fn items_of(v: Val) -> Seq<Val> {
    match v {
        Val::ListOf(l) => l,
        Val::Collection(l) => l,
        _ => seq![v],
    }
}

/// A lazy, restartable walk over the elements of a value.
pub struct IppValueIterator<'a> {
    value: &'a IppValue,
    index: usize,
}

impl<'a> IppValueIterator<'a> {
    /// The value being walked.
    pub closed spec fn spec_value(self) -> Val {
        self.value.deep()
    }

    /// How many elements have been yielded.
    pub closed spec fn spec_index(self) -> int {
        self.index as int
    }

    /// The next element in order, or nothing once every element has been
    /// yielded.
    pub fn next(&mut self) -> (r: Option<&'a IppValue>)
        ensures
            final(self).spec_value() == old(self).spec_value(),
            ({
                let its = items_of(old(self).spec_value());
                if old(self).spec_index() < its.len() {
                    &&& r matches Some(v) && v.deep() == its[old(self).spec_index()]
                    &&& final(self).spec_index() == old(self).spec_index() + 1
                } else {
                    &&& r is None
                    &&& final(self).spec_index() == old(self).spec_index()
                }
            }),
    {
        match self.value {
            IppValue::ListOf(l) | IppValue::Collection(l) => {
                if self.index < l.len() {
                    self.index = self.index + 1;
                    Some(&l[self.index - 1])
                } else {
                    None
                }
            },
            _ => {
                if self.index == 0 {
                    self.index = 1;
                    Some(self.value)
                } else {
                    None
                }
            },
        }
    }
}

impl IppValue {
    /// Starts a walk over this value's elements.
    pub fn into_iter(&self) -> (r: IppValueIterator<'_>)
        ensures
            r.spec_value() == self.deep(),
            r.spec_index() == 0,
    {
        IppValueIterator { value: self, index: 0 }
    }
}

} // verus!
