//! The stream parser: header decoding and the stateful loop that
//! reconstructs grouped attributes, including nested collections, from a
//! byte stream. Nesting uses an explicit heap-growable stack of frames,
//! never call recursion, since nesting depth is peer-controlled.

use vstd::prelude::*;

use crate::attribute::{store_add, Attr, Group, IppAttribute, IppAttributeList};
use crate::tags::{spec_delimiter_tag_from, DelimiterTag};
use crate::value::{vals_deep, IppValue};
use crate::wire::{be16_val, be32_val, dec_value, read_be16, read_be32, read_bytes, Val};

verus! {

/// Why a parse was aborted. Failure is terminal: no partial result is
/// handed out.
#[derive(Clone, Copy, Debug, PartialEq, Eq, Structural)]
pub enum ParseError {
    /// An unrecognized delimiter byte, or a byte outside the grammar.
    InvalidTag(u8),
    /// The header names a version this codec does not support.
    InvalidVersion,
    /// A collection marker carried a non-empty payload, or its begin/end
    /// pairing was unbalanced.
    InvalidCollection,
    /// The stream ended before the grammar did.
    IOError,
}

/// The fixed message header: version, a 16-bit field read as operation or
/// status code by direction, and the request id.
#[derive(Clone, Copy, Debug, PartialEq, Eq, Structural)]
pub struct IppHeader {
    /// Major protocol version.
    pub version_major: u8,
    /// Minor protocol version.
    pub version_minor: u8,
    /// Operation code of a request, status code of a response.
    pub operation_status: u16,
    /// Request id, echoed by the peer.
    pub request_id: u32,
}

/// The protocol versions this codec accepts.
pub open spec fn supported_version(major: u8, minor: u8) -> bool {
    (major == 1 && (minor == 0 || minor == 1)) || (major == 2 && (minor == 0 || minor == 1
        || minor == 2))
}

/// What decoding the 8-byte header of a message yields.
pub open spec fn dec_header(data: Seq<u8>) -> Result<IppHeader, ParseError> {
    if data.len() < 8 {
        Err(ParseError::IOError)
    } else if !supported_version(data[0], data[1]) {
        Err(ParseError::InvalidVersion)
    } else {
        Ok(
            IppHeader {
                version_major: data[0],
                version_minor: data[1],
                operation_status: be16_val(data[2], data[3]),
                request_id: be32_val(data[4], data[5], data[6], data[7]),
            },
        )
    }
}

/// The bytes of the fixed header: version, the 16-bit operation or status
/// field, the request id, all big-endian.
pub open spec fn enc_header(h: IppHeader) -> Seq<u8> {
    seq![h.version_major, h.version_minor] + crate::wire::be16(h.operation_status)
        + crate::wire::be32(h.request_id)
}

impl IppHeader {
    /// Encodes the fixed header as the eight bytes a message starts with.
    pub fn to_bytes(&self) -> (r: Vec<u8>)
        ensures
            r@ == enc_header(*self),
    {
        let mut out: Vec<u8> = Vec::new();
        out.push(self.version_major);
        out.push(self.version_minor);
        crate::wire::push_be16(&mut out, self.operation_status);
        crate::wire::push_be32(&mut out, self.request_id);
        proof {
            assert(out@ =~= enc_header(*self));
        }
        out
    }

    /// Decodes the fixed header from the head of a byte stream, failing
    /// when the version is unsupported or the stream too short.
    pub fn from_bytes(data: &[u8]) -> (r: Result<IppHeader, ParseError>)
        ensures
            r == dec_header(data@),
    {
        if data.len() < 8 {
            return Err(ParseError::IOError);
        }
        let major = data[0];
        let minor = data[1];
        let ok = (major == 1 && (minor == 0 || minor == 1)) || (major == 2 && (minor == 0 || minor
            == 1 || minor == 2));
        if !ok {
            return Err(ParseError::InvalidVersion);
        }
        Ok(
            IppHeader {
                version_major: major,
                version_minor: minor,
                operation_status: read_be16(data, 2),
                request_id: read_be32(data, 4),
            },
        )
    }
}

/// Ghost state of the parse loop: the active group, the pending attribute
/// name, the stack of value-accumulation frames, and the store built so
/// far.
#[verifier::ext_equal]
pub struct PState {
    pub delim: DelimiterTag,
    pub name: Option<Seq<u8>>,
    pub stack: Seq<Seq<Val>>,
    pub store: Seq<Group>,
}

/// The state the parse loop starts in: group defaulted to
/// end-of-attributes, no name pending, one empty frame, empty store.
pub open spec fn init_state() -> PState {
    PState {
        delim: DelimiterTag::EndOfAttributes,
        name: None,
        stack: seq![Seq::<Val>::empty()],
        store: Seq::<Group>::empty(),
    }
}

/// One value from a one-element frame, a list otherwise.
pub open spec fn spec_list_or_value(vals: Seq<Val>) -> Val {
    if vals.len() == 1 {
        vals[0]
    } else {
        Val::ListOf(vals)
    }
}

/// Flushing the pending attribute: the top frame collapses to a value,
/// the attribute goes into the store under the active group, and the top
/// frame is reset to empty. With no name pending nothing changes.
pub open spec fn spec_flush(st: PState) -> PState {
    match st.name {
        None => st,
        Some(nm) => PState {
            stack: st.stack.update(st.stack.len() - 1, Seq::<Val>::empty()),
            store: store_add(
                st.store,
                st.delim,
                Attr { name: nm, value: spec_list_or_value(st.stack.last()) },
            ),
            ..st
        },
    }
}

/// Whether a collection marker value carries the empty payload the
/// grammar demands of it.
pub open spec fn empty_marker(v: Val) -> bool {
    v matches Val::Other { tag: _, data } && data.len() == 0
}

/// What the parse loop yields from a position and state: the finished
/// store and the position after the end-of-attributes marker, or the
/// error that aborted the parse.
pub open spec fn spec_parse_at(data: Seq<u8>, pos: int, st: PState) -> Result<
    (Seq<Group>, int),
    ParseError,
>
    decreases data.len() - pos,
{
    if pos < 0 || pos >= data.len() {
        Err(ParseError::IOError)
    } else {
        let tag = data[pos];
        if 0x01 <= tag <= 0x05 {
            if tag == 0x03 {
                if st.stack.len() != 1 {
                    Err(ParseError::InvalidCollection)
                } else {
                    Ok((spec_flush(st).store, pos + 1))
                }
            } else {
                spec_parse_at(
                    data,
                    pos + 1,
                    PState { delim: spec_delimiter_tag_from(tag)->Some_0, ..st },
                )
            }
        } else if 0x10 <= tag <= 0x4a {
            if pos + 3 > data.len() {
                Err(ParseError::IOError)
            } else {
                let namelen = be16_val(data[pos + 1], data[pos + 2]) as int;
                if pos + 3 + namelen > data.len() {
                    Err(ParseError::IOError)
                } else {
                    let name = data.subrange(pos + 3, pos + 3 + namelen);
                    match dec_value(tag, data, pos + 3 + namelen) {
                        None => Err(ParseError::IOError),
                        Some((v, np)) => {
                            let st1 = if namelen > 0 {
                                PState { name: Some(name), ..spec_flush(st) }
                            } else {
                                st
                            };
                            if tag == 0x34 {
                                if !empty_marker(v) {
                                    Err(ParseError::InvalidCollection)
                                } else {
                                    spec_parse_at(
                                        data,
                                        np,
                                        PState { stack: st1.stack.push(Seq::<Val>::empty()), ..st1 },
                                    )
                                }
                            } else if tag == 0x37 {
                                if !empty_marker(v) {
                                    Err(ParseError::InvalidCollection)
                                } else if st1.stack.len() <= 1 {
                                    Err(ParseError::InvalidCollection)
                                } else {
                                    let arr = st1.stack.last();
                                    let stack2 = st1.stack.drop_last();
                                    spec_parse_at(
                                        data,
                                        np,
                                        PState {
                                            stack: stack2.update(
                                                stack2.len() - 1,
                                                stack2.last().push(Val::Collection(arr)),
                                            ),
                                            ..st1
                                        },
                                    )
                                }
                            } else {
                                spec_parse_at(
                                    data,
                                    np,
                                    PState {
                                        stack: st1.stack.update(
                                            st1.stack.len() - 1,
                                            st1.stack.last().push(v),
                                        ),
                                        ..st1
                                    },
                                )
                            }
                        },
                    }
                }
            }
        } else {
            Err(ParseError::InvalidTag(tag))
        }
    }
}

/// What parsing a whole message yields: its header and the store its
/// attribute section describes, or the error that aborted the parse.
pub open spec fn spec_parse(data: Seq<u8>) -> Result<(IppHeader, Seq<Group>), ParseError> {
    match dec_header(data) {
        Err(e) => Err(e),
        Ok(h) => match spec_parse_at(data, 8, init_state()) {
            Err(e) => Err(e),
            Ok((store, _)) => Ok((h, store)),
        },
    }
}

/// What a full parse hands back: the header and the attribute store.
pub struct IppParseResult {
    /// The message header.
    pub header: IppHeader,
    /// The grouped attributes of the message.
    pub attributes: IppAttributeList,
}

impl IppParseResult {
    /// Bundles a header and a store into a parse result.
    pub fn new(header: IppHeader, attributes: IppAttributeList) -> (r: IppParseResult)
        ensures
            r.header == header,
            r.attributes.deep() == attributes.deep(),
    {
        IppParseResult { header, attributes }
    }
}

/// The stateful parser: a byte stream with a position, the active group,
/// the pending name, the frame stack and the store being built.
pub struct IppParser<'a> {
    data: &'a [u8],
    pos: usize,
    last_delimiter: DelimiterTag,
    last_name: Option<Vec<u8>>,
    context: Vec<Vec<IppValue>>,
    attributes: IppAttributeList,
}

impl<'a> IppParser<'a> {
    /// The ghost state of this parser.
    pub closed spec fn st(self) -> PState {
        PState {
            delim: self.last_delimiter,
            name: match self.last_name {
                None => None,
                Some(n) => Some(n@),
            },
            stack: Seq::new(
                self.context@.len(),
                |i: int|
                    if 0 <= i < self.context@.len() {
                        vals_deep(self.context@[i]@)
                    } else {
                        Seq::<Val>::empty()
                    },
            ),
            store: self.attributes.deep(),
        }
    }

    /// The byte stream this parser reads.
    pub closed spec fn src(self) -> Seq<u8> {
        self.data@
    }

    /// Creates a parser over a byte stream, in the starting state.
    pub fn new(data: &'a [u8]) -> (r: IppParser<'a>)
        ensures
            r.st() == init_state(),
            r.src() == data@,
    {
        let r = IppParser {
            data,
            pos: 0,
            last_delimiter: DelimiterTag::EndOfAttributes,
            last_name: None,
            context: {
                let mut c: Vec<Vec<IppValue>> = Vec::new();
                c.push(Vec::new());
                c
            },
            attributes: IppAttributeList::new(),
        };
        proof {
            assert(r.st().stack =~= init_state().stack) by {
                assert(vals_deep(r.context@[0]@) =~= Seq::<Val>::empty());
            }
            assert(r.st() =~= init_state());
        }
        r
    }

    /// Flushes the pending attribute, if one is, as the ghost flush says.
    fn add_last_attribute(&mut self)
        requires
            old(self).context@.len() >= 1,
        ensures
            final(self).st() == spec_flush(old(self).st()),
            final(self).src() == old(self).src(),
            final(self).pos == old(self).pos,
            final(self).context@.len() == old(self).context@.len(),
    {
        let ghost st0 = self.st();
        match &self.last_name {
            None => {
                proof {
                    assert(self.st() =~= spec_flush(st0));
                }
            },
            Some(nm) => {
                let name_copy = read_bytes(nm.as_slice(), 0, nm.len());
                proof {
                    assert(name_copy@ =~= nm@);
                }
                let frame = match self.context.pop() {
                    Some(f) => f,
                    None => {
                        proof {
                            assert(false);
                        }
                        Vec::new()
                    },
                };
                let value = list_or_value(frame);
                let attr = IppAttribute::new(name_copy.as_slice(), value);
                proof {
                    assert(st0.stack.last() == vals_deep(
                        old(self).context@[old(self).context@.len() - 1]@,
                    ));
                    assert(attr.deep() =~~= (Attr {
                        name: st0.name->Some_0,
                        value: spec_list_or_value(st0.stack.last()),
                    }));
                }
                self.attributes.add(self.last_delimiter, attr);
                self.context.push(Vec::new());
                proof {
                    assert(st0.stack.last() == vals_deep(
                        old(self).context@[old(self).context@.len() - 1]@,
                    ));
                    assert(self.st().stack =~= st0.stack.update(
                        st0.stack.len() - 1,
                        Seq::<Val>::empty(),
                    )) by {
                        assert(vals_deep(self.context@[self.context@.len() - 1]@)
                            =~= Seq::<Val>::empty());
                    }
                    assert(self.st() =~= spec_flush(st0));
                }
            },
        }
    }
}

impl<'a> IppParser<'a> {
    /// Handles one value entry: reads the name length, the name and the
    /// value, flushes the pending attribute when a new name starts, and
    /// applies the collection begin/end conventions to the frame stack.
    #[verifier::rlimit(100)]
    fn parse_value(&mut self, tag: u8) -> (r: Result<(), ParseError>)
        requires
            old(self).pos < old(self).src().len(),
            old(self).src()[old(self).pos as int] == tag,
            0x10 <= tag <= 0x4a,
            old(self).context@.len() >= 1,
        ensures
            final(self).src() == old(self).src(),
            match r {
                Ok(()) => {
                    &&& spec_parse_at(old(self).src(), old(self).pos as int, old(self).st())
                        == spec_parse_at(
                        final(self).src(),
                        final(self).pos as int,
                        final(self).st(),
                    )
                    &&& old(self).pos < final(self).pos <= final(self).src().len()
                    &&& final(self).context@.len() >= 1
                },
                Err(e) => spec_parse_at(old(self).src(), old(self).pos as int, old(self).st())
                    == Err::<(Seq<Group>, int), ParseError>(e),
            },
    {
        let ghost src = self.src();
        let ghost pos0 = self.pos as int;
        let ghost st0 = self.st();
        let pos = self.pos;
        if self.data.len() - pos < 3 {
            return Err(ParseError::IOError);
        }
        let namelen = read_be16(self.data, pos + 1) as usize;
        if self.data.len() - (pos + 3) < namelen {
            return Err(ParseError::IOError);
        }
        let name = read_bytes(self.data, pos + 3, namelen);
        let vpos = pos + 3 + namelen;
        let (value, np) = match IppValue::read(tag, self.data, vpos) {
            Ok(x) => x,
            Err(e) => {
                return Err(e);
            },
        };
        let ghost v = value.deep();
        if namelen > 0 {
            self.add_last_attribute();
            self.last_name = Some(name);
        }
        let ghost st1 = self.st();
        proof {
            if namelen > 0 {
                assert(st1 =~= PState {
                    name: Some(src.subrange(pos0 + 3, pos0 + 3 + namelen as int)),
                    ..spec_flush(st0)
                });
            } else {
                assert(st1 == st0);
            }
        }
        if tag == 0x34 {
            match &value {
                IppValue::Other { tag: _, data: d } => {
                    if d.len() != 0 {
                        return Err(ParseError::InvalidCollection);
                    }
                },
                _ => {
                    return Err(ParseError::InvalidCollection);
                },
            }
            self.context.push(Vec::new());
            self.pos = np;
            proof {
                assert(self.st() =~= PState { stack: st1.stack.push(Seq::<Val>::empty()), ..st1 })
                    by {
                    assert(vals_deep(self.context@[self.context@.len() - 1]@) =~= Seq::<
                        Val,
                    >::empty());
                    assert(self.st().stack =~= st1.stack.push(Seq::<Val>::empty()));
                }
                assert(spec_parse_at(src, pos0, st0) == spec_parse_at(
                    src,
                    self.pos as int,
                    self.st(),
                ));
            }
            Ok(())
        } else if tag == 0x37 {
            match &value {
                IppValue::Other { tag: _, data: d } => {
                    if d.len() != 0 {
                        return Err(ParseError::InvalidCollection);
                    }
                },
                _ => {
                    return Err(ParseError::InvalidCollection);
                },
            }
            if self.context.len() <= 1 {
                return Err(ParseError::InvalidCollection);
            }
            let arr = match self.context.pop() {
                Some(f) => f,
                None => {
                    proof {
                        assert(false);
                    }
                    Vec::new()
                },
            };
            let mut parent = match self.context.pop() {
                Some(f) => f,
                None => {
                    proof {
                        assert(false);
                    }
                    Vec::new()
                },
            };
            let coll = IppValue::Collection(arr);
            proof {
                assert(coll.deep()->Collection_0 =~= st1.stack.last());
                assert(coll.deep() =~~= Val::Collection(st1.stack.last()));
            }
            parent.push(coll);
            self.context.push(parent);
            self.pos = np;
            proof {
                let stack2 = st1.stack.drop_last();
                assert(self.st().stack =~= stack2.update(
                    stack2.len() - 1,
                    stack2.last().push(Val::Collection(st1.stack.last())),
                )) by {
                    assert(vals_deep(self.context@[self.context@.len() - 1]@) =~= stack2.last().push(
                        Val::Collection(st1.stack.last()),
                    ));
                }
                assert(self.st() =~= PState {
                    stack: stack2.update(
                        stack2.len() - 1,
                        stack2.last().push(Val::Collection(st1.stack.last())),
                    ),
                    ..st1
                });
                assert(spec_parse_at(src, pos0, st0) == spec_parse_at(
                    src,
                    self.pos as int,
                    self.st(),
                ));
            }
            Ok(())
        } else {
            let mut top = match self.context.pop() {
                Some(f) => f,
                None => {
                    proof {
                        assert(false);
                    }
                    Vec::new()
                },
            };
            top.push(value);
            self.context.push(top);
            self.pos = np;
            proof {
                assert(self.st().stack =~= st1.stack.update(
                    st1.stack.len() - 1,
                    st1.stack.last().push(v),
                )) by {
                    assert(vals_deep(self.context@[self.context@.len() - 1]@)
                        =~= st1.stack.last().push(v));
                }
                assert(self.st() =~= PState {
                    stack: st1.stack.update(st1.stack.len() - 1, st1.stack.last().push(v)),
                    ..st1
                });
                assert(spec_parse_at(src, pos0, st0) == spec_parse_at(
                    src,
                    self.pos as int,
                    self.st(),
                ));
            }
            Ok(())
        }
    }

    /// Parses the whole message: the fixed header, then one tag-dispatched
    /// entry at a time until the end-of-attributes marker, which is the
    /// sole success-terminating condition. Any error aborts the parse with
    /// no partial result.
    #[verifier::loop_isolation(false)]
    pub fn parse(self) -> (r: Result<IppParseResult, ParseError>)
        requires
            self.st() == init_state(),
        ensures
            match r {
                Ok(res) => spec_parse(self.src()) matches Ok(p) && p.0 == res.header && p.1
                    == res.attributes.deep(),
                Err(e) => spec_parse(self.src()) == Err::<
                    (IppHeader, Seq<Group>),
                    ParseError,
                >(e),
            },
    {
        let ghost src = self.src();
        let mut this = self;
        let header = match IppHeader::from_bytes(this.data) {
            Ok(h) => h,
            Err(e) => {
                return Err(e);
            },
        };
        this.pos = 8;
        loop
            invariant
                this.src() == src,
                dec_header(src) == Ok::<IppHeader, ParseError>(header),
                8 <= this.pos <= src.len(),
                this.context@.len() >= 1,
                spec_parse_at(src, 8, init_state()) == spec_parse_at(
                    src,
                    this.pos as int,
                    this.st(),
                ),
            decreases src.len() - this.pos,
        {
            let ghost prev = this.st();
            let ghost prev_pos = this.pos as int;
            if this.pos >= this.data.len() {
                return Err(ParseError::IOError);
            }
            let tag = this.data[this.pos];
            if 0x01 <= tag && tag <= 0x05 {
                if tag == 0x03 {
                    if this.context.len() != 1 {
                        return Err(ParseError::InvalidCollection);
                    }
                    this.add_last_attribute();
                    proof {
                        assert(spec_parse_at(src, prev_pos, prev) == Ok::<
                            (Seq<Group>, int),
                            ParseError,
                        >((spec_flush(prev).store, prev_pos + 1)));
                        assert(this.st().store == spec_flush(prev).store);
                    }
                    return Ok(IppParseResult::new(header, this.attributes));
                } else {
                    let d = match DelimiterTag::from_u8(tag) {
                        Some(d) => d,
                        None => {
                            proof {
                                assert(false);
                            }
                            DelimiterTag::EndOfAttributes
                        },
                    };
                    this.last_delimiter = d;
                    this.pos = this.pos + 1;
                    proof {
                        assert(this.st() =~= PState {
                            delim: spec_delimiter_tag_from(tag)->Some_0,
                            ..prev
                        });
                        assert(spec_parse_at(src, prev_pos, prev) == spec_parse_at(
                            src,
                            this.pos as int,
                            this.st(),
                        ));
                    }
                }
            } else if 0x10 <= tag && tag <= 0x4a {
                match this.parse_value(tag) {
                    Ok(()) => {},
                    Err(e) => {
                        return Err(e);
                    },
                }
            } else {
                return Err(ParseError::InvalidTag(tag));
            }
        }
    }
}

/// One value from a one-element frame, a list otherwise.
pub fn list_or_value(list: Vec<IppValue>) -> (r: IppValue)
    ensures
        r.deep() == spec_list_or_value(vals_deep(list@)),
{
    if list.len() == 1 {
        let mut l = list;
        let v = l.remove(0);
        proof {
            assert(vals_deep(list@)[0] == v.deep());
        }
        v
    } else {
        let r = IppValue::ListOf(list);
        proof {
            assert(r.deep()->ListOf_0 =~= vals_deep(list@));
            assert(r.deep() =~~= Val::ListOf(vals_deep(list@)));
        }
        r
    }
}

} // verus!
