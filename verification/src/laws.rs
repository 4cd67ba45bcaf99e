//! Round-trip laws of the codec: a value written by the encoder is
//! reconstructed exactly by the parser, one entry parses to a scalar,
//! repeated same-name entries parse to an ordered list, and nested
//! collection sentinels rebuild the nested collection values.

use vstd::prelude::*;

use crate::tags::{spec_value_tag_byte, spec_value_tag_from, ValueTag};
use crate::attribute::{enc_attr, Attr, Group};
use crate::parser::{dec_header, spec_parse, spec_parse_at, IppHeader};
use crate::tags::{spec_delimiter_tag_byte, DelimiterTag};
use crate::wire::{
    be16, be16_val, be32, be32_val, dec_value, enc_list_rest, enc_members, enc_value, i32_of_u32,
    i8_of_u8, tag_of, u32_of_i32, u8_of_i8, Val,
};

verus! {

/// A scalar that survives the wire unchanged: its sizes fit the format's
/// length fields and a raw passthrough value carries the tag it is
/// re-written under.
pub open spec fn scalar_rt(v: Val) -> bool {
    match v {
        Val::Integer(_) => true,
        Val::Enum(_) => true,
        Val::Boolean(_) => true,
        Val::RangeOfInteger { .. } => true,
        Val::DateTime { .. } => true,
        Val::Resolution { .. } => true,
        Val::OctetString(s) => s.len() <= 0xffff,
        Val::TextWithoutLanguage(s) => s.len() <= 0xffff,
        Val::NameWithoutLanguage(s) => s.len() <= 0xffff,
        Val::Charset(s) => s.len() <= 0xffff,
        Val::NaturalLanguage(s) => s.len() <= 0xffff,
        Val::Uri(s) => s.len() <= 0xffff,
        Val::Keyword(s) => s.len() <= 0xffff,
        Val::MimeMediaType(s) => s.len() <= 0xffff,
        Val::MemberAttrName(s) => s.len() <= 0xffff,
        Val::Other { tag, data } => tag == 0x12 && data.len() <= 0xffff,
        Val::ListOf(_) => false,
        Val::Collection(_) => false,
    }
}

/// Big-endian 16-bit bytes decode to the integer they encode.
pub proof fn lemma_be16_round_trip(n: u16)
    ensures
        be16_val(be16(n)[0], be16(n)[1]) == n,
{
}

/// Big-endian 32-bit bytes decode to the integer they encode.
pub proof fn lemma_be32_round_trip(n: u32)
    ensures
        be32_val(be32(n)[0], be32(n)[1], be32(n)[2], be32(n)[3]) == n,
{
}

/// The two's-complement image of a 32-bit signed integer reads back as
/// that integer.
pub proof fn lemma_i32_round_trip(x: i32)
    ensures
        i32_of_u32(u32_of_i32(x)) == x,
{
}

/// The two's-complement byte of an 8-bit signed integer reads back as
/// that integer.
pub proof fn lemma_i8_round_trip(x: i8)
    ensures
        i8_of_u8(u8_of_i8(x)) == x,
{
}

/// Decoding a scalar's encoding, wherever it stands in a stream, yields
/// the scalar and the position after it.
#[verifier::rlimit(100)]
pub proof fn lemma_dec_enc_scalar(v: Val, data: Seq<u8>, pos: int)
    requires
        scalar_rt(v),
        0 <= pos,
        pos + enc_value(v).len() <= data.len(),
        data.subrange(pos, pos + enc_value(v).len() as int) == enc_value(v),
    ensures
        dec_value(spec_value_tag_byte(tag_of(v)), data, pos) == Some(
            (v, pos + enc_value(v).len() as int),
        ),
{
    let e = enc_value(v);
    let n = e.len() as int;
    assert forall|k: int| 0 <= k < n implies data[pos + k] == #[trigger] e[k] by {
        assert(data.subrange(pos, pos + n)[k] == e[k]);
    }
    assert(data[pos] == e[0]);
    assert(data[pos + 1] == e[1]);
    if n > 2 {
        assert(data[pos + 2] == e[2]);
    }
    if n > 3 {
        assert(data[pos + 3] == e[3]);
    }
    if n > 4 {
        assert(data[pos + 4] == e[4]);
    }
    if n > 5 {
        assert(data[pos + 5] == e[5]);
    }
    if n > 6 {
        assert(data[pos + 6] == e[6]);
    }
    if n > 7 {
        assert(data[pos + 7] == e[7]);
    }
    if n > 8 {
        assert(data[pos + 8] == e[8]);
    }
    if n > 9 {
        assert(data[pos + 9] == e[9]);
    }
    if n > 10 {
        assert(data[pos + 10] == e[10]);
    }
    if n > 11 {
        assert(data[pos + 11] == e[11]);
    }
    if n > 12 {
        assert(data[pos + 12] == e[12]);
    }
    match v {
        Val::Integer(i) => {
            lemma_be32_round_trip(u32_of_i32(i));
            lemma_i32_round_trip(i);
        },
        Val::Enum(i) => {
            lemma_be32_round_trip(u32_of_i32(i));
            lemma_i32_round_trip(i);
        },
        Val::RangeOfInteger { min, max } => {
            lemma_be32_round_trip(u32_of_i32(min));
            lemma_be32_round_trip(u32_of_i32(max));
            lemma_i32_round_trip(min);
            lemma_i32_round_trip(max);
        },
        Val::Boolean(b) => {
        },
        Val::DateTime { year, .. } => {
            lemma_be16_round_trip(year);
        },
        Val::Resolution { crossfeed, feed, units } => {
            lemma_be32_round_trip(u32_of_i32(crossfeed));
            lemma_be32_round_trip(u32_of_i32(feed));
            lemma_i32_round_trip(crossfeed);
            lemma_i32_round_trip(feed);
            lemma_i8_round_trip(units);
        },
        Val::OctetString(s) => {
            lemma_be16_round_trip(s.len() as u16);
            assert forall|j: int| 0 <= j < s.len() implies data.subrange(
                pos + 2,
                pos + 2 + s.len() as int,
            )[j] == s[j] by {
                assert(e[2 + j] == s[j]);
                assert(data[pos + (2 + j)] == e[2 + j]);
            }
            assert(data.subrange(pos + 2, pos + 2 + s.len() as int) =~= s);
        },
        Val::TextWithoutLanguage(s) => {
            lemma_be16_round_trip(s.len() as u16);
            assert forall|j: int| 0 <= j < s.len() implies data.subrange(
                pos + 2,
                pos + 2 + s.len() as int,
            )[j] == s[j] by {
                assert(e[2 + j] == s[j]);
                assert(data[pos + (2 + j)] == e[2 + j]);
            }
            assert(data.subrange(pos + 2, pos + 2 + s.len() as int) =~= s);
        },
        Val::NameWithoutLanguage(s) => {
            lemma_be16_round_trip(s.len() as u16);
            assert forall|j: int| 0 <= j < s.len() implies data.subrange(
                pos + 2,
                pos + 2 + s.len() as int,
            )[j] == s[j] by {
                assert(e[2 + j] == s[j]);
                assert(data[pos + (2 + j)] == e[2 + j]);
            }
            assert(data.subrange(pos + 2, pos + 2 + s.len() as int) =~= s);
        },
        Val::Charset(s) => {
            lemma_be16_round_trip(s.len() as u16);
            assert forall|j: int| 0 <= j < s.len() implies data.subrange(
                pos + 2,
                pos + 2 + s.len() as int,
            )[j] == s[j] by {
                assert(e[2 + j] == s[j]);
                assert(data[pos + (2 + j)] == e[2 + j]);
            }
            assert(data.subrange(pos + 2, pos + 2 + s.len() as int) =~= s);
        },
        Val::NaturalLanguage(s) => {
            lemma_be16_round_trip(s.len() as u16);
            assert forall|j: int| 0 <= j < s.len() implies data.subrange(
                pos + 2,
                pos + 2 + s.len() as int,
            )[j] == s[j] by {
                assert(e[2 + j] == s[j]);
                assert(data[pos + (2 + j)] == e[2 + j]);
            }
            assert(data.subrange(pos + 2, pos + 2 + s.len() as int) =~= s);
        },
        Val::Uri(s) => {
            lemma_be16_round_trip(s.len() as u16);
            assert forall|j: int| 0 <= j < s.len() implies data.subrange(
                pos + 2,
                pos + 2 + s.len() as int,
            )[j] == s[j] by {
                assert(e[2 + j] == s[j]);
                assert(data[pos + (2 + j)] == e[2 + j]);
            }
            assert(data.subrange(pos + 2, pos + 2 + s.len() as int) =~= s);
        },
        Val::Keyword(s) => {
            lemma_be16_round_trip(s.len() as u16);
            assert forall|j: int| 0 <= j < s.len() implies data.subrange(
                pos + 2,
                pos + 2 + s.len() as int,
            )[j] == s[j] by {
                assert(e[2 + j] == s[j]);
                assert(data[pos + (2 + j)] == e[2 + j]);
            }
            assert(data.subrange(pos + 2, pos + 2 + s.len() as int) =~= s);
        },
        Val::MimeMediaType(s) => {
            lemma_be16_round_trip(s.len() as u16);
            assert forall|j: int| 0 <= j < s.len() implies data.subrange(
                pos + 2,
                pos + 2 + s.len() as int,
            )[j] == s[j] by {
                assert(e[2 + j] == s[j]);
                assert(data[pos + (2 + j)] == e[2 + j]);
            }
            assert(data.subrange(pos + 2, pos + 2 + s.len() as int) =~= s);
        },
        Val::MemberAttrName(s) => {
            lemma_be16_round_trip(s.len() as u16);
            assert forall|j: int| 0 <= j < s.len() implies data.subrange(
                pos + 2,
                pos + 2 + s.len() as int,
            )[j] == s[j] by {
                assert(e[2 + j] == s[j]);
                assert(data[pos + (2 + j)] == e[2 + j]);
            }
            assert(data.subrange(pos + 2, pos + 2 + s.len() as int) =~= s);
        },
        Val::Other { tag, data: d } => {
            lemma_be16_round_trip(d.len() as u16);
            assert forall|j: int| 0 <= j < d.len() implies data.subrange(
                pos + 2,
                pos + 2 + d.len() as int,
            )[j] == d[j] by {
                assert(e[2 + j] == d[j]);
                assert(data[pos + (2 + j)] == e[2 + j]);
            }
            assert(data.subrange(pos + 2, pos + 2 + d.len() as int) =~= d);
        },
        Val::ListOf(_) => {
        },
        Val::Collection(_) => {
        },
    }
}

/// A value that can stand as one member entry of a collection or as one
/// element of an attribute's array: scalars within the format's size
/// limits, and collections of such members, nested to any depth.
pub open spec fn member_rt(v: Val) -> bool
    decreases v,
{
    match v {
        Val::Collection(l) => forall|i: int| 0 <= i < l.len() ==> member_rt(#[trigger] l[i]),
        Val::ListOf(_) => false,
        _ => scalar_rt(v),
    }
}

/// A value that survives a round trip through one named attribute: a
/// member, or a list of two or more members of one tag. A one-element
/// list is excluded: the grammar writes it as a single entry, which
/// parses back to the scalar.
pub open spec fn value_rt(v: Val) -> bool {
    match v {
        Val::ListOf(l) => l.len() >= 2 && (forall|i: int|
            0 <= i < l.len() ==> member_rt(#[trigger] l[i])) && (forall|i: int|
            0 <= i < l.len() ==> tag_of(#[trigger] l[i]) == tag_of(l[0])),
        _ => member_rt(v),
    }
}

/// Every value tag byte lies in the value range of the grammar, and maps
/// back to its tag.
pub proof fn lemma_tag_byte_range(t: ValueTag)
    ensures
        0x10 <= spec_value_tag_byte(t) <= 0x4a,
        spec_value_tag_from(spec_value_tag_byte(t)) == Some(t),
{
    crate::tags::lemma_value_tag_byte_round_trip(t);
}

/// A prefix and a suffix of bytes standing together in a stream stand
/// there separately.
pub proof fn lemma_split_frame(data: Seq<u8>, pos: int, a: Seq<u8>, b: Seq<u8>)
    requires
        0 <= pos,
        pos + a.len() + b.len() <= data.len(),
        data.subrange(pos, pos + a.len() + b.len()) == a + b,
    ensures
        data.subrange(pos, pos + a.len() as int) == a,
        data.subrange(pos + a.len(), pos + a.len() + b.len()) == b,
{
    assert forall|k: int| 0 <= k < a.len() implies data.subrange(pos, pos + a.len() as int)[k]
        == a[k] by {
        assert(data.subrange(pos, pos + a.len() + b.len())[k] == (a + b)[k]);
    }
    assert(data.subrange(pos, pos + a.len() as int) =~= a);
    assert forall|k: int| 0 <= k < b.len() implies data.subrange(
        pos + a.len(),
        pos + a.len() + b.len(),
    )[k] == b[k] by {
        assert(data.subrange(pos + a.len(), pos + a.len() + b.len())[k] == data[pos + a.len() + k]);
        assert(data.subrange(pos, pos + a.len() + b.len())[a.len() + k] == (a + b)[a.len() + k]);
        assert(data[pos + (a.len() + k)] == (a + b)[a.len() + k]);
        assert((a + b)[a.len() + k] == b[k]);
    }
    assert(data.subrange(pos + a.len(), pos + a.len() + b.len()) =~= b);
}

/// The state after one value entry: a non-empty name flushes the pending
/// attribute and becomes pending itself, then the value lands on the top
/// frame — a collection entry by way of its bracketed members.
pub open spec fn entry_step(st: crate::parser::PState, name: Seq<u8>, v: Val)
    -> crate::parser::PState {
    let st1 = if name.len() > 0 {
        crate::parser::PState { name: Some(name), ..crate::parser::spec_flush(st) }
    } else {
        st
    };
    crate::parser::PState {
        stack: st1.stack.update(st1.stack.len() - 1, st1.stack.last().push(v)),
        ..st1
    }
}

/// Parsing one entry that carries a member value — under a name or as an
/// array or collection continuation — lands that value on the top frame
/// and continues after the entry's bytes.
#[verifier::rlimit(100)]
pub proof fn lemma_parse_entry(
    v: Val,
    name: Seq<u8>,
    data: Seq<u8>,
    pos: int,
    st: crate::parser::PState,
)
    requires
        member_rt(v),
        name.len() <= 0xffff,
        0 <= pos,
        pos + 3 + name.len() + enc_value(v).len() <= data.len(),
        data[pos] == spec_value_tag_byte(tag_of(v)),
        data.subrange(pos + 1, pos + 3) == be16(name.len() as u16),
        data.subrange(pos + 3, pos + 3 + name.len() as int) == name,
        data.subrange(
            pos + 3 + name.len(),
            pos + 3 + name.len() + enc_value(v).len(),
        ) == enc_value(v),
        st.stack.len() >= 1,
    ensures
        spec_parse_at(data, pos, st) == spec_parse_at(
            data,
            pos + 3 + name.len() + enc_value(v).len(),
            entry_step(st, name, v),
        ),
    decreases v, 1int,
{
    let t = tag_of(v);
    lemma_tag_byte_range(t);
    let tag = data[pos];
    assert(data[pos + 1] == be16(name.len() as u16)[0]) by {
        assert(data.subrange(pos + 1, pos + 3)[0] == be16(name.len() as u16)[0]);
    }
    assert(data[pos + 2] == be16(name.len() as u16)[1]) by {
        assert(data.subrange(pos + 1, pos + 3)[1] == be16(name.len() as u16)[1]);
    }
    lemma_be16_round_trip(name.len() as u16);
    assert(be16_val(data[pos + 1], data[pos + 2]) == name.len());
    let vpos = pos + 3 + name.len() as int;
    let st1 = if name.len() > 0 {
        crate::parser::PState { name: Some(name), ..crate::parser::spec_flush(st) }
    } else {
        st
    };
    assert(st1.stack.len() == st.stack.len());
    let e = enc_value(v);
    if !(v is Collection) {
        assert(scalar_rt(v));
        assert(tag != 0x34 && tag != 0x37) by {
            assert(t != ValueTag::BegCollection && t != ValueTag::EndCollection);
        }
        lemma_dec_enc_scalar(v, data, vpos);
        assert(spec_parse_at(data, pos, st) == spec_parse_at(
            data,
            vpos + e.len(),
            entry_step(st, name, v),
        ));
    } else {
        let l = v->Collection_0;
        assert(tag == 0x34);
        // the collection's value bytes: empty length, members, end sentinel
        let mem = enc_members(l);
        assert(e =~= be16(0) + mem + seq![0x37u8] + be32(0));
        assert forall|k: int| 0 <= k < e.len() implies data[vpos + k] == #[trigger] e[k] by {
            assert(data.subrange(vpos, vpos + e.len())[k] == e[k]);
        }
        assert(data[vpos] == 0 && data[vpos + 1] == 0) by {
            assert(data[vpos + 0] == e[0]);
            assert(data[vpos + 1] == e[1]);
        }
        assert(be16_val(0, 0) == 0);
        // the begin marker decodes to an empty raw value
        assert(dec_value(tag, data, vpos) == Some(
            (Val::Other { tag: 0x34u8, data: data.subrange(vpos + 2, vpos + 2) }, vpos + 2),
        ));
        assert(crate::parser::empty_marker(Val::Other {
            tag: 0x34u8,
            data: data.subrange(vpos + 2, vpos + 2),
        }));
        let st2 = crate::parser::PState { stack: st1.stack.push(Seq::<Val>::empty()), ..st1 };
        assert(spec_parse_at(data, pos, st) == spec_parse_at(data, vpos + 2, st2));
        // the members fill the fresh frame
        assert forall|j: int| 0 <= j < mem.len() implies data.subrange(
            vpos + 2,
            vpos + 2 + mem.len() as int,
        )[j] == mem[j] by {
            assert(e[2 + j] == mem[j]);
            assert(data[vpos + (2 + j)] == e[2 + j]);
        }
        assert(data.subrange(vpos + 2, vpos + 2 + mem.len() as int) =~= mem);
        lemma_parse_members(l, data, vpos + 2, st2);
        let st3 = crate::parser::PState {
            stack: st2.stack.update(st2.stack.len() - 1, st2.stack.last() + l),
            ..st2
        };
        assert(spec_parse_at(data, vpos + 2, st2) == spec_parse_at(
            data,
            vpos + 2 + mem.len(),
            st3,
        ));
        // the end sentinel pops the frame and appends the collection
        let q = vpos + 2 + mem.len() as int;
        assert(data[q] == 0x37 && data[q + 1] == 0 && data[q + 2] == 0 && data[q + 3] == 0
            && data[q + 4] == 0) by {
            assert(data[vpos + (2 + mem.len())] == e[2 + mem.len() as int]);
            assert(data[vpos + (3 + mem.len())] == e[3 + mem.len() as int]);
            assert(data[vpos + (4 + mem.len())] == e[4 + mem.len() as int]);
            assert(data[vpos + (5 + mem.len())] == e[5 + mem.len() as int]);
            assert(data[vpos + (6 + mem.len())] == e[6 + mem.len() as int]);
        }
        assert(dec_value(0x37u8, data, q + 3) == Some(
            (Val::Other { tag: 0x37u8, data: data.subrange(q + 5, q + 5) }, q + 5),
        ));
        assert(crate::parser::empty_marker(Val::Other {
            tag: 0x37u8,
            data: data.subrange(q + 5, q + 5),
        }));
        assert(st3.stack.len() == st.stack.len() + 1);
        let arr = st3.stack.last();
        assert(arr =~= l);
        let stack2 = st3.stack.drop_last();
        assert(stack2 =~= st1.stack);
        let st4 = crate::parser::PState {
            stack: stack2.update(stack2.len() - 1, stack2.last().push(Val::Collection(arr))),
            ..st3
        };
        assert(spec_parse_at(data, q, st3) == spec_parse_at(data, q + 5, st4));
        assert(st4 =~~= entry_step(st, name, v));
        assert(q + 5 == pos + 3 + name.len() + e.len());
    }
}

/// Parsing the member entries of a collection in order extends the top
/// frame by exactly those members.
pub proof fn lemma_parse_members(
    l: Seq<Val>,
    data: Seq<u8>,
    pos: int,
    st: crate::parser::PState,
)
    requires
        forall|i: int| 0 <= i < l.len() ==> member_rt(#[trigger] l[i]),
        0 <= pos,
        pos + enc_members(l).len() <= data.len(),
        data.subrange(pos, pos + enc_members(l).len() as int) == enc_members(l),
        st.stack.len() >= 1,
    ensures
        spec_parse_at(data, pos, st) == spec_parse_at(
            data,
            pos + enc_members(l).len(),
            crate::parser::PState {
                stack: st.stack.update(st.stack.len() - 1, st.stack.last() + l),
                ..st
            },
        ),
    decreases l, 0int,
{
    if l.len() == 0 {
        assert(st.stack.update(st.stack.len() - 1, st.stack.last() + l) =~~= st.stack) by {
            assert(st.stack.last() + l =~= st.stack.last());
        }
        assert(crate::parser::PState {
            stack: st.stack.update(st.stack.len() - 1, st.stack.last() + l),
            ..st
        } =~~= st);
    } else {
        let v0 = l[0];
        let hd = seq![spec_value_tag_byte(tag_of(v0))] + be16(0) + enc_value(v0);
        let rest = enc_members(l.drop_first());
        assert(enc_members(l) =~= hd + rest);
        lemma_split_frame(data, pos, hd, rest);
        assert forall|k: int| 0 <= k < hd.len() implies data[pos + k] == #[trigger] hd[k] by {
            assert(data.subrange(pos, pos + hd.len() as int)[k] == hd[k]);
        }
        assert(data[pos] == spec_value_tag_byte(tag_of(v0))) by {
            assert(data[pos + 0] == hd[0]);
        }
        assert(data.subrange(pos + 1, pos + 3) =~= be16(0)) by {
            assert(data[pos + 1] == hd[1]);
            assert(data[pos + 2] == hd[2]);
        }
        assert forall|j: int| 0 <= j < enc_value(v0).len() implies data.subrange(
            pos + 3,
            pos + 3 + enc_value(v0).len(),
        )[j] == enc_value(v0)[j] by {
            assert(hd[3 + j] == enc_value(v0)[j]);
            assert(data[pos + (3 + j)] == hd[3 + j]);
            assert(data.subrange(pos + 3, pos + 3 + enc_value(v0).len())[j] == data[pos + 3 + j]);
        }
        assert(data.subrange(pos + 3, pos + 3 + enc_value(v0).len()) =~= enc_value(v0));
        assert(data.subrange(pos + 3, pos + 3) =~= Seq::<u8>::empty());
        lemma_parse_entry(v0, Seq::<u8>::empty(), data, pos, st);
        let st_mid = entry_step(st, Seq::<u8>::empty(), v0);
        let p_mid = pos + 3 + enc_value(v0).len() as int;
        lemma_parse_members(l.drop_first(), data, p_mid, st_mid);
        let st_end = crate::parser::PState {
            stack: st_mid.stack.update(
                st_mid.stack.len() - 1,
                st_mid.stack.last() + l.drop_first(),
            ),
            ..st_mid
        };
        assert(st_end =~~= crate::parser::PState {
            stack: st.stack.update(st.stack.len() - 1, st.stack.last() + l),
            ..st
        }) by {
            assert(st_mid.stack.last() =~= st.stack.last().push(v0));
            assert(st.stack.last().push(v0) + l.drop_first() =~= st.stack.last() + l);
        }
    }
}

/// The array continuation of a homogeneous list is written exactly as
/// collection members are: each entry under the element's own tag.
pub proof fn lemma_list_rest_members(l: Seq<Val>, sep: u8)
    requires
        forall|i: int| 0 <= i < l.len() ==> spec_value_tag_byte(tag_of(#[trigger] l[i])) == sep,
    ensures
        enc_list_rest(l, sep) == enc_members(l),
    decreases l.len(),
{
    if l.len() > 0 {
        assert(forall|i: int|
            0 <= i < l.drop_first().len() ==> spec_value_tag_byte(
                tag_of(#[trigger] l.drop_first()[i]),
            ) == sep);
        lemma_list_rest_members(l.drop_first(), sep);
        assert(enc_list_rest(l, sep) =~= enc_members(l));
    }
}

/// One member value under a fresh name, followed by the end marker,
/// parses to the store extended by that scalar-or-collection attribute.
#[verifier::rlimit(100)]
pub proof fn lemma_member_attr_then_end(
    v: Val,
    name: Seq<u8>,
    data: Seq<u8>,
    pos: int,
    st: crate::parser::PState,
)
    requires
        member_rt(v),
        0 < name.len() <= 0xffff,
        0 <= pos,
        pos + 3 + name.len() + enc_value(v).len() + 1 <= data.len(),
        data[pos] == spec_value_tag_byte(tag_of(v)),
        data.subrange(pos + 1, pos + 3) == be16(name.len() as u16),
        data.subrange(pos + 3, pos + 3 + name.len() as int) == name,
        data.subrange(pos + 3 + name.len(), pos + 3 + name.len() + enc_value(v).len())
            == enc_value(v),
        data[pos + 3 + name.len() + enc_value(v).len()] == 0x03,
        st.stack.len() == 1,
        st.stack.last().len() == 0,
        st.name is None,
    ensures
        spec_parse_at(data, pos, st) == Ok::<(Seq<Group>, int), crate::parser::ParseError>(
            (
                crate::attribute::store_add(st.store, st.delim, Attr { name, value: v }),
                pos + 3 + name.len() + enc_value(v).len() + 1,
            ),
        ),
{
    let qe = pos + 3 + name.len() + enc_value(v).len() as int;
    lemma_parse_entry(v, name, data, pos, st);
    let st_b = entry_step(st, name, v);
    assert(spec_parse_at(data, pos, st) == spec_parse_at(data, qe, st_b));
    assert(st_b.stack.len() == 1);
    assert(spec_parse_at(data, qe, st_b) == Ok::<(Seq<Group>, int), crate::parser::ParseError>(
        (crate::parser::spec_flush(st_b).store, qe + 1),
    ));
    assert(st_b.stack.last() =~= seq![v]);
    assert(crate::parser::spec_list_or_value(st_b.stack.last()) == v);
    assert(crate::parser::spec_flush(st_b).store == crate::attribute::store_add(
        st.store,
        st.delim,
        Attr { name, value: v },
    ));
}

/// A list of two or more members under a fresh name — the first entry
/// named, the rest as empty-name continuations — followed by the end
/// marker, parses to the store extended by the ordered list attribute.
#[verifier::rlimit(100)]
pub proof fn lemma_list_attr_then_end(
    l: Seq<Val>,
    name: Seq<u8>,
    data: Seq<u8>,
    pos: int,
    st: crate::parser::PState,
)
    requires
        value_rt(Val::ListOf(l)),
        0 < name.len() <= 0xffff,
        0 <= pos,
        pos + 3 + name.len() + enc_value(Val::ListOf(l)).len() + 1 <= data.len(),
        data[pos] == spec_value_tag_byte(tag_of(Val::ListOf(l))),
        data.subrange(pos + 1, pos + 3) == be16(name.len() as u16),
        data.subrange(pos + 3, pos + 3 + name.len() as int) == name,
        data.subrange(
            pos + 3 + name.len(),
            pos + 3 + name.len() + enc_value(Val::ListOf(l)).len(),
        ) == enc_value(Val::ListOf(l)),
        data[pos + 3 + name.len() + enc_value(Val::ListOf(l)).len()] == 0x03,
        st.stack.len() == 1,
        st.stack.last().len() == 0,
        st.name is None,
    ensures
        spec_parse_at(data, pos, st) == Ok::<(Seq<Group>, int), crate::parser::ParseError>(
            (
                crate::attribute::store_add(
                    st.store,
                    st.delim,
                    Attr { name, value: Val::ListOf(l) },
                ),
                pos + 3 + name.len() + enc_value(Val::ListOf(l)).len() + 1,
            ),
        ),
{
    let v = Val::ListOf(l);
    let v0 = l[0];
    let nl = name.len() as int;
    let tb = spec_value_tag_byte(tag_of(v));
    let qe = pos + 3 + nl + enc_value(v).len() as int;
    assert(member_rt(v0));
    assert(tag_of(v) == tag_of(v0));
    let rest = enc_list_rest(l.drop_first(), tb);
    assert(enc_value(v) =~= enc_value(v0) + rest);
    assert(forall|i: int|
        0 <= i < l.drop_first().len() ==> spec_value_tag_byte(
            tag_of(#[trigger] l.drop_first()[i]),
        ) == tb);
    lemma_list_rest_members(l.drop_first(), tb);
    lemma_split_frame(data, pos + 3 + nl, enc_value(v0), enc_members(l.drop_first()));
    lemma_parse_entry(v0, name, data, pos, st);
    let st_b = entry_step(st, name, v0);
    let p2 = pos + 3 + nl + enc_value(v0).len() as int;
    assert(spec_parse_at(data, pos, st) == spec_parse_at(data, p2, st_b));
    assert(forall|i: int| 0 <= i < l.drop_first().len() ==> member_rt(
        #[trigger] l.drop_first()[i],
    ));
    lemma_parse_members(l.drop_first(), data, p2, st_b);
    let st_c = crate::parser::PState {
        stack: st_b.stack.update(st_b.stack.len() - 1, st_b.stack.last() + l.drop_first()),
        ..st_b
    };
    assert(spec_parse_at(data, p2, st_b) == spec_parse_at(data, qe, st_c));
    assert(st_c.stack.len() == 1);
    assert(spec_parse_at(data, qe, st_c) == Ok::<(Seq<Group>, int), crate::parser::ParseError>(
        (crate::parser::spec_flush(st_c).store, qe + 1),
    ));
    assert(st_c.stack.last() =~= l) by {
        assert(st_b.stack.last() =~= seq![v0]);
        assert(seq![v0] + l.drop_first() =~= l);
    }
    assert(crate::parser::spec_list_or_value(st_c.stack.last()) == v) by {
        assert(l.len() >= 2);
    }
    assert(crate::parser::spec_flush(st_c).store == crate::attribute::store_add(
        st.store,
        st.delim,
        Attr { name, value: v },
    ));
}

/// The header reads the first eight bytes alone: what follows does not
/// change it.
pub proof fn lemma_dec_header_prefix(h8: Seq<u8>, rest: Seq<u8>)
    requires
        h8.len() == 8,
    ensures
        dec_header(h8 + rest) == dec_header(h8),
{
    let data = h8 + rest;
    assert(data[0] == h8[0] && data[1] == h8[1] && data[2] == h8[2] && data[3] == h8[3] && data[4]
        == h8[4] && data[5] == h8[5] && data[6] == h8[6] && data[7] == h8[7]);
}

/// The pieces of a serialized attribute stand at their offsets within it.
pub proof fn lemma_attr_frame(data: Seq<u8>, pos: int, a: Attr)
    requires
        0 <= pos,
        pos + enc_attr(a).len() <= data.len(),
        data.subrange(pos, pos + enc_attr(a).len() as int) == enc_attr(a),
    ensures
        data[pos] == spec_value_tag_byte(tag_of(a.value)),
        data.subrange(pos + 1, pos + 3) == be16(a.name.len() as u16),
        data.subrange(pos + 3, pos + 3 + a.name.len() as int) == a.name,
        data.subrange(
            pos + 3 + a.name.len(),
            pos + 3 + a.name.len() + enc_value(a.value).len(),
        ) == enc_value(a.value),
{
    let tb = spec_value_tag_byte(tag_of(a.value));
    let ea = enc_attr(a);
    assert(data.subrange(pos, pos + ea.len() as int) =~= seq![tb] + (be16(a.name.len() as u16) + (
    a.name + enc_value(a.value))));
    lemma_split_frame(data, pos, seq![tb], be16(a.name.len() as u16) + (a.name + enc_value(
        a.value,
    )));
    lemma_split_frame(
        data,
        pos + 1,
        be16(a.name.len() as u16),
        a.name + enc_value(a.value),
    );
    lemma_split_frame(data, pos + 3, a.name, enc_value(a.value));
    assert(data[pos] == tb) by {
        assert(data.subrange(pos, pos + 1)[0] == seq![tb][0]);
    }
}

/// From the head of the attribute section — a group delimiter, one
/// serialized attribute, the end marker — the parse loop yields the store
/// holding exactly that attribute.
#[verifier::rlimit(100)]
pub proof fn lemma_group_attr_parse(data: Seq<u8>, g: DelimiterTag, a: Attr)
    requires
        g != DelimiterTag::EndOfAttributes,
        0 < a.name.len() <= 0xffff,
        value_rt(a.value),
        9 + enc_attr(a).len() + 1 <= data.len(),
        data[8] == spec_delimiter_tag_byte(g),
        data.subrange(9, 9 + enc_attr(a).len() as int) == enc_attr(a),
        data[9 + enc_attr(a).len() as int] == 0x03,
    ensures
        spec_parse_at(data, 8, crate::parser::init_state()) == Ok::<
            (Seq<Group>, int),
            crate::parser::ParseError,
        >((seq![Group { tag: g, attrs: seq![a] }], 9 + enc_attr(a).len() as int + 1)),
{
    let gb = spec_delimiter_tag_byte(g);
    crate::tags::lemma_delimiter_tag_byte_round_trip(g);
    assert(0x01 <= gb <= 0x05 && gb != 0x03);
    let st0 = crate::parser::init_state();
    let st_a = crate::parser::PState { delim: g, ..st0 };
    assert(spec_parse_at(data, 8, st0) == spec_parse_at(data, 9, st_a));
    let v = a.value;
    let qe = 9 + enc_attr(a).len() as int;
    lemma_attr_frame(data, 9, a);
    if !(v is ListOf) {
        lemma_member_attr_then_end(v, a.name, data, 9, st_a);
    } else {
        lemma_list_attr_then_end(v->ListOf_0, a.name, data, 9, st_a);
    }
    assert(spec_parse_at(data, 9, st_a) == Ok::<(Seq<Group>, int), crate::parser::ParseError>(
        (crate::attribute::store_add(Seq::<Group>::empty(), g, Attr { name: a.name, value: v }), qe
            + 1),
    ));
    assert(crate::attribute::store_add(Seq::<Group>::empty(), g, Attr { name: a.name, value: v })
        =~~= seq![Group { tag: g, attrs: seq![a] }]) by {
        assert(Attr { name: a.name, value: v } == a);
    }
}

/// Round trip of one attribute through the full grammar: a message that



/// carries the serialized attribute under a group parses back to a store
/// holding exactly that attribute — the scalar as itself, a list of two
/// or more entries as the same ordered list, and nested collections
/// rebuilt from their begin/end sentinels.
#[verifier::rlimit(100)]
pub proof fn lemma_attribute_round_trip(h8: Seq<u8>, g: DelimiterTag, a: Attr)
    requires
        h8.len() == 8,
        dec_header(h8) is Ok,
        g != DelimiterTag::EndOfAttributes,
        0 < a.name.len() <= 0xffff,
        value_rt(a.value),
    ensures
        spec_parse(h8 + seq![spec_delimiter_tag_byte(g)] + enc_attr(a) + seq![0x03u8]) == Ok::<
            (IppHeader, Seq<Group>),
            crate::parser::ParseError,
        >((dec_header(h8)->Ok_0, seq![Group { tag: g, attrs: seq![a] }])),
{
    let gb = spec_delimiter_tag_byte(g);
    let data = h8 + seq![gb] + enc_attr(a) + seq![0x03u8];
    let tail = seq![gb] + enc_attr(a) + seq![0x03u8];
    assert(data =~= h8 + tail);
    lemma_dec_header_prefix(h8, tail);
    assert(dec_header(data) == dec_header(h8));
    // the group delimiter selects the active group
    assert forall|j: int| 0 <= j < tail.len() implies data.subrange(8, data.len() as int)[j]
        == tail[j] by {
        assert(data[8 + j] == tail[j]);
    }
    assert(data.subrange(8, data.len() as int) =~= tail);
    assert(data.subrange(8, data.len() as int) =~= seq![gb] + (enc_attr(a) + seq![0x03u8]));
    lemma_split_frame(data, 8, seq![gb], enc_attr(a) + seq![0x03u8]);
    lemma_split_frame(data, 9, enc_attr(a), seq![0x03u8]);
    assert(data[8] == gb) by {
        assert(data.subrange(8, 9)[0] == seq![gb][0]);
    }
    let ea = enc_attr(a);
    let qe = 9 + ea.len() as int;
    assert(data[qe] == 0x03) by {
        assert(data.subrange(qe, qe + 1)[0] == seq![0x03u8][0]);
    }
    lemma_group_attr_parse(data, g, a);
}

/// A single value under a name parses to that scalar, not to a list.
pub proof fn lemma_single_value_parses_scalar(h8: Seq<u8>, g: DelimiterTag, name: Seq<u8>, v: Val)
    requires
        h8.len() == 8,
        dec_header(h8) is Ok,
        g != DelimiterTag::EndOfAttributes,
        0 < name.len() <= 0xffff,
        scalar_rt(v),
    ensures
        spec_parse(h8 + seq![spec_delimiter_tag_byte(g)] + enc_attr(Attr { name, value: v })
            + seq![0x03u8]) == Ok::<(IppHeader, Seq<Group>), crate::parser::ParseError>(
            (dec_header(h8)->Ok_0, seq![Group { tag: g, attrs: seq![Attr { name, value: v }] }]),
        ),
{
    lemma_attribute_round_trip(h8, g, Attr { name, value: v });
}

/// Two or more entries continuing one attribute — the first named, the
/// rest with the empty name the array convention uses — parse to a list
/// of the values in their original order.
pub proof fn lemma_repeated_entries_parse_list(
    h8: Seq<u8>,
    g: DelimiterTag,
    name: Seq<u8>,
    l: Seq<Val>,
)
    requires
        h8.len() == 8,
        dec_header(h8) is Ok,
        g != DelimiterTag::EndOfAttributes,
        0 < name.len() <= 0xffff,
        value_rt(Val::ListOf(l)),
    ensures
        spec_parse(h8 + seq![spec_delimiter_tag_byte(g)] + enc_attr(
            Attr { name, value: Val::ListOf(l) },
        ) + seq![0x03u8]) == Ok::<(IppHeader, Seq<Group>), crate::parser::ParseError>(
            (
                dec_header(h8)->Ok_0,
                seq![Group { tag: g, attrs: seq![Attr { name, value: Val::ListOf(l) }] }],
            ),
        ),
{
    lemma_attribute_round_trip(h8, g, Attr { name, value: Val::ListOf(l) });
}

/// Begin/end sentinel pairs, nested to any depth, reconstruct the
/// corresponding nested collection value.
pub proof fn lemma_nested_collections_round_trip(
    h8: Seq<u8>,
    g: DelimiterTag,
    name: Seq<u8>,
    members: Seq<Val>,
)
    requires
        h8.len() == 8,
        dec_header(h8) is Ok,
        g != DelimiterTag::EndOfAttributes,
        0 < name.len() <= 0xffff,
        member_rt(Val::Collection(members)),
    ensures
        spec_parse(h8 + seq![spec_delimiter_tag_byte(g)] + enc_attr(
            Attr { name, value: Val::Collection(members) },
        ) + seq![0x03u8]) == Ok::<(IppHeader, Seq<Group>), crate::parser::ParseError>(
            (
                dec_header(h8)->Ok_0,
                seq![Group { tag: g, attrs: seq![Attr { name, value: Val::Collection(members) }] }],
            ),
        ),
{
    lemma_attribute_round_trip(h8, g, Attr { name, value: Val::Collection(members) });
}

/// A header of a supported version decodes from its own encoding, at the
/// head of any message.
pub proof fn lemma_header_round_trip(h: IppHeader, rest: Seq<u8>)
    requires
        crate::parser::supported_version(h.version_major, h.version_minor),
    ensures
        dec_header(crate::parser::enc_header(h) + rest) == Ok::<IppHeader, crate::parser::ParseError>(h),
{
    let e = crate::parser::enc_header(h);
    let data = e + rest;
    assert(data[0] == h.version_major && data[1] == h.version_minor);
    assert(data[2] == e[2] && data[3] == e[3] && data[4] == e[4] && data[5] == e[5] && data[6]
        == e[6] && data[7] == e[7]);
    lemma_be16_round_trip(h.operation_status);
    lemma_be32_round_trip(h.request_id);
}

/// An end-collection sentinel with no open collection aborts the parse:

/// an unbalanced pair is a parse error.
pub proof fn lemma_unbalanced_end(data: Seq<u8>, pos: int, st: crate::parser::PState)
    requires
        st.stack.len() == 1,
        0 <= pos,
        pos + 5 <= data.len(),
        data[pos] == 0x37,
        data[pos + 1] == 0,
        data[pos + 2] == 0,
        data[pos + 3] == 0,
        data[pos + 4] == 0,
    ensures
        spec_parse_at(data, pos, st) == Err::<(Seq<Group>, int), crate::parser::ParseError>(
            crate::parser::ParseError::InvalidCollection,
        ),
{
    assert(be16_val(0, 0) == 0);
    assert(dec_value(0x37u8, data, pos + 3) == Some(
        (Val::Other { tag: 0x37u8, data: data.subrange(pos + 5, pos + 5) }, pos + 5),
    ));
}

/// A begin-collection left open when the end-of-attributes marker comes
/// aborts the parse: an unbalanced pair is a parse error.
pub proof fn lemma_unbalanced_begin(data: Seq<u8>, pos: int, st: crate::parser::PState)
    requires
        st.stack.len() != 1,
        0 <= pos < data.len(),
        data[pos] == 0x03,
    ensures
        spec_parse_at(data, pos, st) == Err::<(Seq<Group>, int), crate::parser::ParseError>(
            crate::parser::ParseError::InvalidCollection,
        ),
{
}

} // verus!
