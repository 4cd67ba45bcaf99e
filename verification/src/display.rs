//! Human-readable rendering of values and errors, for diagnostics only —
//! not wire-significant. The text is produced as ASCII bytes.

use vstd::prelude::*;

use crate::parser::ParseError;
use crate::value::IppValue;
use crate::wire::{u8_of_i8, Val};
use crate::IppError;

verus! {

/// The ASCII digit of one decimal place.
pub open spec fn digit(d: int) -> u8 {
    (0x30 + d) as u8
}

/// The decimal digits of an unsigned number, most significant first.
pub open spec fn dec_str(n: int) -> Seq<u8>
    decreases n,
{
    if n < 10 {
        seq![digit(if n >= 0 { n } else { 0 })]
    } else {
        dec_str(n / 10) + seq![digit(n % 10)]
    }
}

/// The decimal rendering of a signed number: a minus sign, then digits.
pub open spec fn dec_str_signed(i: int) -> Seq<u8> {
    if i < 0 {
        seq![0x2du8] + dec_str(-i)
    } else {
        dec_str(i)
    }
}

/// The rendering of a value: decimal numbers, true/false, text as it
/// stands, bracket-joined lists, angle-bracket-joined collections,
/// unit-suffixed resolutions, fixed-format datetimes, and tag-prefixed
/// decimal bytes for the raw passthrough value.
pub open spec fn disp(v: Val) -> Seq<u8>
    decreases v, 1int,
{
    match v {
        Val::Integer(i) => dec_str_signed(i as int),
        Val::Enum(i) => dec_str_signed(i as int),
        Val::RangeOfInteger { min, max } => dec_str_signed(min as int) + seq![0x2eu8, 0x2eu8]
            + dec_str_signed(max as int),
        Val::Boolean(b) => if b {
            seq![0x74u8, 0x72u8, 0x75u8, 0x65u8]
        } else {
            seq![0x66u8, 0x61u8, 0x6cu8, 0x73u8, 0x65u8]
        },
        Val::OctetString(s) => s,
        Val::TextWithoutLanguage(s) => s,
        Val::NameWithoutLanguage(s) => s,
        Val::Charset(s) => s,
        Val::NaturalLanguage(s) => s,
        Val::Uri(s) => s,
        Val::Keyword(s) => s,
        Val::MimeMediaType(s) => s,
        Val::MemberAttrName(s) => s,
        Val::ListOf(l) => seq![0x5bu8] + disp_items(l) + seq![0x5du8],
        Val::Collection(l) => seq![0x3cu8] + disp_items(l) + seq![0x3eu8],
        Val::DateTime { year, month, day, hour, minutes, seconds, deciseconds, utcdir, utchours, utcmins: _ } =>
            dec_str(year as int) + seq![0x2du8] + dec_str(month as int) + seq![0x2du8] + dec_str(
                day as int,
            ) + seq![0x2cu8] + dec_str(hour as int) + seq![0x3au8] + dec_str(minutes as int)
                + seq![0x3au8] + dec_str(seconds as int) + seq![0x2eu8] + dec_str(
                deciseconds as int,
            ) + seq![0x2cu8] + seq![utcdir] + dec_str(utchours as int) + seq![0x75u8, 0x74u8, 0x63u8],
        Val::Resolution { crossfeed, feed, units } => dec_str_signed(crossfeed as int)
            + seq![0x78u8] + dec_str_signed(feed as int) + (if u8_of_i8(units) == 3 {
            seq![0x69u8, 0x6eu8]
        } else {
            seq![0x63u8, 0x6du8]
        }),
        Val::Other { tag, data } => dec_str(tag as int) + seq![0x3au8, 0x20u8] + disp_items_raw(data),
    }
}

/// The renderings of a run of values, joined by a comma and a space.
pub open spec fn disp_items(l: Seq<Val>) -> Seq<u8>
    decreases l, 0int,
{
    if l.len() == 0 {
        Seq::empty()
    } else if l.len() == 1 {
        disp(l[0])
    } else {
        disp(l[0]) + seq![0x2cu8, 0x20u8] + disp_items(l.drop_first())
    }
}

/// The decimal renderings of raw bytes, joined by a space.
pub open spec fn disp_items_raw(data: Seq<u8>) -> Seq<u8>
    decreases data.len(),
{
    if data.len() == 0 {
        Seq::empty()
    } else if data.len() == 1 {
        dec_str(data[0] as int)
    } else {
        dec_str(data[0] as int) + seq![0x20u8] + disp_items_raw(data.drop_first())
    }
}

/// Appends the decimal digits of an unsigned number.
fn push_dec(out: &mut Vec<u8>, n: u32)
    ensures
        final(out)@ == old(out)@ + dec_str(n as int),
    decreases n,
{
    if n >= 10 {
        push_dec(out, n / 10);
    }
    out.push(0x30 + (n % 10) as u8);
    proof {
        assert(out@ =~= old(out)@ + dec_str(n as int));
    }
}

/// Appends the decimal rendering of a signed number.
fn push_dec_signed(out: &mut Vec<u8>, i: i32)
    ensures
        final(out)@ == old(out)@ + dec_str_signed(i as int),
{
    if i < 0 {
        out.push(0x2d);
        let m: i64 = -(i as i64);
        push_dec(out, m as u32);
        proof {
            assert(out@ =~= old(out)@ + dec_str_signed(i as int));
        }
    } else {
        push_dec(out, i as u32);
    }
}

impl IppValue {
    /// Renders this value as human-readable ASCII bytes, for diagnostics.
    pub fn display_bytes(&self) -> (r: Vec<u8>)
        ensures
            r@ == disp(self.deep()),
    {
        let mut out: Vec<u8> = Vec::new();
        self.push_display(&mut out);
        out
    }

    /// Appends this value's rendering to a buffer.
    #[verifier::loop_isolation(false)]
    #[verifier::rlimit(60)]
    fn push_display(&self, out: &mut Vec<u8>)
        ensures
            final(out)@ == old(out)@ + disp(self.deep()),
        decreases *self,
    {
        let ghost base = out@;
        match self {
            IppValue::Integer(i) => {
                push_dec_signed(out, *i);
            },
            IppValue::Enum(i) => {
                push_dec_signed(out, *i);
            },
            IppValue::RangeOfInteger { min, max } => {
                push_dec_signed(out, *min);
                out.push(0x2e);
                out.push(0x2e);
                push_dec_signed(out, *max);
                proof {
                    assert(out@ =~= base + disp(self.deep()));
                }
            },
            IppValue::Boolean(b) => {
                if *b {
                    out.push(0x74);
                    out.push(0x72);
                    out.push(0x75);
                    out.push(0x65);
                } else {
                    out.push(0x66);
                    out.push(0x61);
                    out.push(0x6c);
                    out.push(0x73);
                    out.push(0x65);
                }
                proof {
                    assert(out@ =~= base + disp(self.deep()));
                }
            },
            IppValue::OctetString(s)
            | IppValue::TextWithoutLanguage(s)
            | IppValue::NameWithoutLanguage(s)
            | IppValue::Charset(s)
            | IppValue::NaturalLanguage(s)
            | IppValue::Uri(s)
            | IppValue::Keyword(s)
            | IppValue::MimeMediaType(s)
            | IppValue::MemberAttrName(s) => {
                crate::wire::push_bytes(out, s.as_slice());
            },
            IppValue::ListOf(l) => {
                out.push(0x5b);
                Self::push_display_items(l, out);
                out.push(0x5d);
                proof {
                    assert(self.deep()->ListOf_0 =~= crate::value::vals_deep(l@));
                    assert(out@ =~= base + disp(self.deep()));
                }
            },
            IppValue::Collection(l) => {
                out.push(0x3c);
                Self::push_display_items(l, out);
                out.push(0x3e);
                proof {
                    assert(self.deep()->Collection_0 =~= crate::value::vals_deep(l@));
                    assert(out@ =~= base + disp(self.deep()));
                }
            },
            IppValue::DateTime {
                year, month, day, hour, minutes, seconds, deciseconds, utcdir, utchours, utcmins: _,
            } => {
                push_dec(out, *year as u32);
                out.push(0x2d);
                push_dec(out, *month as u32);
                out.push(0x2d);
                push_dec(out, *day as u32);
                out.push(0x2c);
                push_dec(out, *hour as u32);
                out.push(0x3a);
                push_dec(out, *minutes as u32);
                out.push(0x3a);
                push_dec(out, *seconds as u32);
                out.push(0x2e);
                push_dec(out, *deciseconds as u32);
                out.push(0x2c);
                out.push(*utcdir);
                push_dec(out, *utchours as u32);
                out.push(0x75);
                out.push(0x74);
                out.push(0x63);
                proof {
                    assert(out@ =~= base + disp(self.deep()));
                }
            },
            IppValue::Resolution { crossfeed, feed, units } => {
                push_dec_signed(out, *crossfeed);
                out.push(0x78);
                push_dec_signed(out, *feed);
                let v: i16 = *units as i16;
                let u: i16 = if v >= 0 {
                    v
                } else {
                    v + 0x100
                };
                if u == 3 {
                    out.push(0x69);
                    out.push(0x6e);
                } else {
                    out.push(0x63);
                    out.push(0x6d);
                }
                proof {
                    assert(out@ =~= base + disp(self.deep()));
                }
            },
            IppValue::Other { tag, data } => {
                push_dec(out, *tag as u32);
                out.push(0x3a);
                out.push(0x20);
                let ghost mid = out@;
                let n = data.len();
                let ghost d = data@;
                let mut i: usize = 0;
                proof {
                    assert(d.skip(0) =~= d);
                }
                while i < n
                    invariant
                        n == data@.len(),
                        i <= n,
                        mid + disp_items_raw(d) == out@ + disp_items_raw(d.skip(i as int)),
                    decreases n - i,
                {
                    proof {
                        assert(d.skip(i as int)[0] == d[i as int]);
                        assert(d.skip(i as int).drop_first() =~= d.skip(i as int + 1));
                    }
                    push_dec(out, data[i] as u32);
                    if i + 1 < n {
                        out.push(0x20);
                    }
                    proof {
                        assert(mid + disp_items_raw(d) =~= out@ + disp_items_raw(
                            d.skip(i as int + 1),
                        ));
                    }
                    i = i + 1;
                }
                proof {
                    assert(disp_items_raw(d.skip(n as int)) =~= Seq::<u8>::empty()) by {
                        assert(d.skip(n as int) =~= Seq::<u8>::empty());
                    }
                    assert(out@ =~= base + disp(self.deep()));
                }
            },
        }
    }

    /// Appends the renderings of a run of values, joined by a comma and a
    /// space.
    #[verifier::loop_isolation(false)]
    fn push_display_items(l: &Vec<IppValue>, out: &mut Vec<u8>)
        ensures
            final(out)@ == old(out)@ + disp_items(crate::value::vals_deep(l@)),
        decreases *l,
    {
        let ghost dl = crate::value::vals_deep(l@);
        let ghost base = out@;
        let n = l.len();
        let mut i: usize = 0;
        proof {
            assert(dl.skip(0) =~= dl);
        }
        while i < n
            invariant
                n == l@.len(),
                dl == crate::value::vals_deep(l@),
                i <= n,
                base + disp_items(dl) == out@ + disp_items(dl.skip(i as int)),
            decreases n - i,
        {
            proof {
                assert(dl.skip(i as int)[0] == dl[i as int]);
                assert(dl[i as int] == l@[i as int].deep());
                assert(dl.skip(i as int).drop_first() =~= dl.skip(i as int + 1));
            }
            l[i].push_display(out);
            if i + 1 < n {
                out.push(0x2c);
                out.push(0x20);
            }
            proof {
                assert(base + disp_items(dl) =~= out@ + disp_items(dl.skip(i as int + 1)));
            }
            i = i + 1;
        }
        proof {
            assert(disp_items(dl.skip(n as int)) =~= Seq::<u8>::empty()) by {
                assert(dl.skip(n as int) =~= Seq::<Val>::empty());
            }
            assert(out@ =~= base + disp_items(dl));
        }
    }
}

/// The text of one diagnostic message piece.
fn invalid_tag_prefix() -> (r: Vec<u8>)
    ensures
        r@ == seq![0x69u8, 0x6eu8, 0x76u8, 0x61u8, 0x6cu8, 0x69u8, 0x64u8, 0x20u8, 0x74u8, 0x61u8, 0x67u8, 0x20u8],
{
    let mut v: Vec<u8> = Vec::new();
    v.push(0x69);
    v.push(0x6e);
    v.push(0x76);
    v.push(0x61);
    v.push(0x6c);
    v.push(0x69);
    v.push(0x64);
    v.push(0x20);
    v.push(0x74);
    v.push(0x61);
    v.push(0x67);
    v.push(0x20);
    proof {
        assert(v@ =~= seq![0x69u8, 0x6eu8, 0x76u8, 0x61u8, 0x6cu8, 0x69u8, 0x64u8, 0x20u8, 0x74u8, 0x61u8, 0x67u8, 0x20u8]);
    }
    v
}

/// The text of one diagnostic message piece.
fn invalid_version_text() -> (r: Vec<u8>)
    ensures
        r@ == seq![0x69u8, 0x6eu8, 0x76u8, 0x61u8, 0x6cu8, 0x69u8, 0x64u8, 0x20u8, 0x76u8, 0x65u8, 0x72u8, 0x73u8, 0x69u8, 0x6fu8, 0x6eu8],
{
    let mut v: Vec<u8> = Vec::new();
    v.push(0x69);
    v.push(0x6e);
    v.push(0x76);
    v.push(0x61);
    v.push(0x6c);
    v.push(0x69);
    v.push(0x64);
    v.push(0x20);
    v.push(0x76);
    v.push(0x65);
    v.push(0x72);
    v.push(0x73);
    v.push(0x69);
    v.push(0x6f);
    v.push(0x6e);
    proof {
        assert(v@ =~= seq![0x69u8, 0x6eu8, 0x76u8, 0x61u8, 0x6cu8, 0x69u8, 0x64u8, 0x20u8, 0x76u8, 0x65u8, 0x72u8, 0x73u8, 0x69u8, 0x6fu8, 0x6eu8]);
    }
    v
}

/// The text of one diagnostic message piece.
fn invalid_collection_text() -> (r: Vec<u8>)
    ensures
        r@ == seq![0x69u8, 0x6eu8, 0x76u8, 0x61u8, 0x6cu8, 0x69u8, 0x64u8, 0x20u8, 0x63u8, 0x6fu8, 0x6cu8, 0x6cu8, 0x65u8, 0x63u8, 0x74u8, 0x69u8, 0x6fu8, 0x6eu8],
{
    let mut v: Vec<u8> = Vec::new();
    v.push(0x69);
    v.push(0x6e);
    v.push(0x76);
    v.push(0x61);
    v.push(0x6c);
    v.push(0x69);
    v.push(0x64);
    v.push(0x20);
    v.push(0x63);
    v.push(0x6f);
    v.push(0x6c);
    v.push(0x6c);
    v.push(0x65);
    v.push(0x63);
    v.push(0x74);
    v.push(0x69);
    v.push(0x6f);
    v.push(0x6e);
    proof {
        assert(v@ =~= seq![0x69u8, 0x6eu8, 0x76u8, 0x61u8, 0x6cu8, 0x69u8, 0x64u8, 0x20u8, 0x63u8, 0x6fu8, 0x6cu8, 0x6cu8, 0x65u8, 0x63u8, 0x74u8, 0x69u8, 0x6fu8, 0x6eu8]);
    }
    v
}

/// The text of one diagnostic message piece.
fn end_of_stream_text() -> (r: Vec<u8>)
    ensures
        r@ == seq![0x75u8, 0x6eu8, 0x65u8, 0x78u8, 0x70u8, 0x65u8, 0x63u8, 0x74u8, 0x65u8, 0x64u8, 0x20u8, 0x65u8, 0x6eu8, 0x64u8, 0x20u8, 0x6fu8, 0x66u8, 0x20u8, 0x73u8, 0x74u8, 0x72u8, 0x65u8, 0x61u8, 0x6du8],
{
    let mut v: Vec<u8> = Vec::new();
    v.push(0x75);
    v.push(0x6e);
    v.push(0x65);
    v.push(0x78);
    v.push(0x70);
    v.push(0x65);
    v.push(0x63);
    v.push(0x74);
    v.push(0x65);
    v.push(0x64);
    v.push(0x20);
    v.push(0x65);
    v.push(0x6e);
    v.push(0x64);
    v.push(0x20);
    v.push(0x6f);
    v.push(0x66);
    v.push(0x20);
    v.push(0x73);
    v.push(0x74);
    v.push(0x72);
    v.push(0x65);
    v.push(0x61);
    v.push(0x6d);
    proof {
        assert(v@ =~= seq![0x75u8, 0x6eu8, 0x65u8, 0x78u8, 0x70u8, 0x65u8, 0x63u8, 0x74u8, 0x65u8, 0x64u8, 0x20u8, 0x65u8, 0x6eu8, 0x64u8, 0x20u8, 0x6fu8, 0x66u8, 0x20u8, 0x73u8, 0x74u8, 0x72u8, 0x65u8, 0x61u8, 0x6du8]);
    }
    v
}

/// The text of one diagnostic message piece.
fn request_error_text() -> (r: Vec<u8>)
    ensures
        r@ == seq![0x49u8, 0x50u8, 0x50u8, 0x20u8, 0x72u8, 0x65u8, 0x71u8, 0x75u8, 0x65u8, 0x73u8, 0x74u8, 0x20u8, 0x65u8, 0x72u8, 0x72u8, 0x6fu8, 0x72u8],
{
    let mut v: Vec<u8> = Vec::new();
    v.push(0x49);
    v.push(0x50);
    v.push(0x50);
    v.push(0x20);
    v.push(0x72);
    v.push(0x65);
    v.push(0x71);
    v.push(0x75);
    v.push(0x65);
    v.push(0x73);
    v.push(0x74);
    v.push(0x20);
    v.push(0x65);
    v.push(0x72);
    v.push(0x72);
    v.push(0x6f);
    v.push(0x72);
    proof {
        assert(v@ =~= seq![0x49u8, 0x50u8, 0x50u8, 0x20u8, 0x72u8, 0x65u8, 0x71u8, 0x75u8, 0x65u8, 0x73u8, 0x74u8, 0x20u8, 0x65u8, 0x72u8, 0x72u8, 0x6fu8, 0x72u8]);
    }
    v
}

/// The text of one diagnostic message piece.
fn status_error_prefix() -> (r: Vec<u8>)
    ensures
        r@ == seq![0x49u8, 0x50u8, 0x50u8, 0x20u8, 0x73u8, 0x74u8, 0x61u8, 0x74u8, 0x75u8, 0x73u8, 0x20u8, 0x65u8, 0x72u8, 0x72u8, 0x6fu8, 0x72u8, 0x3au8, 0x20u8],
{
    let mut v: Vec<u8> = Vec::new();
    v.push(0x49);
    v.push(0x50);
    v.push(0x50);
    v.push(0x20);
    v.push(0x73);
    v.push(0x74);
    v.push(0x61);
    v.push(0x74);
    v.push(0x75);
    v.push(0x73);
    v.push(0x20);
    v.push(0x65);
    v.push(0x72);
    v.push(0x72);
    v.push(0x6f);
    v.push(0x72);
    v.push(0x3a);
    v.push(0x20);
    proof {
        assert(v@ =~= seq![0x49u8, 0x50u8, 0x50u8, 0x20u8, 0x73u8, 0x74u8, 0x61u8, 0x74u8, 0x75u8, 0x73u8, 0x20u8, 0x65u8, 0x72u8, 0x72u8, 0x6fu8, 0x72u8, 0x3au8, 0x20u8]);
    }
    v
}

/// The text of one diagnostic message piece.
fn missing_attribute_text() -> (r: Vec<u8>)
    ensures
        r@ == seq![0x4du8, 0x69u8, 0x73u8, 0x73u8, 0x69u8, 0x6eu8, 0x67u8, 0x20u8, 0x61u8, 0x74u8, 0x74u8, 0x72u8, 0x69u8, 0x62u8, 0x75u8, 0x74u8, 0x65u8, 0x20u8, 0x69u8, 0x6eu8, 0x20u8, 0x72u8, 0x65u8, 0x73u8, 0x70u8, 0x6fu8, 0x6eu8, 0x73u8, 0x65u8],
{
    let mut v: Vec<u8> = Vec::new();
    v.push(0x4d);
    v.push(0x69);
    v.push(0x73);
    v.push(0x73);
    v.push(0x69);
    v.push(0x6e);
    v.push(0x67);
    v.push(0x20);
    v.push(0x61);
    v.push(0x74);
    v.push(0x74);
    v.push(0x72);
    v.push(0x69);
    v.push(0x62);
    v.push(0x75);
    v.push(0x74);
    v.push(0x65);
    v.push(0x20);
    v.push(0x69);
    v.push(0x6e);
    v.push(0x20);
    v.push(0x72);
    v.push(0x65);
    v.push(0x73);
    v.push(0x70);
    v.push(0x6f);
    v.push(0x6e);
    v.push(0x73);
    v.push(0x65);
    proof {
        assert(v@ =~= seq![0x4du8, 0x69u8, 0x73u8, 0x73u8, 0x69u8, 0x6eu8, 0x67u8, 0x20u8, 0x61u8, 0x74u8, 0x74u8, 0x72u8, 0x69u8, 0x62u8, 0x75u8, 0x74u8, 0x65u8, 0x20u8, 0x69u8, 0x6eu8, 0x20u8, 0x72u8, 0x65u8, 0x73u8, 0x70u8, 0x6fu8, 0x6eu8, 0x73u8, 0x65u8]);
    }
    v
}

/// The text of one diagnostic message piece.
fn invalid_attribute_text() -> (r: Vec<u8>)
    ensures
        r@ == seq![0x49u8, 0x6eu8, 0x76u8, 0x61u8, 0x6cu8, 0x69u8, 0x64u8, 0x20u8, 0x61u8, 0x74u8, 0x74u8, 0x72u8, 0x69u8, 0x62u8, 0x75u8, 0x74u8, 0x65u8, 0x20u8, 0x74u8, 0x79u8, 0x70u8, 0x65u8],
{
    let mut v: Vec<u8> = Vec::new();
    v.push(0x49);
    v.push(0x6e);
    v.push(0x76);
    v.push(0x61);
    v.push(0x6c);
    v.push(0x69);
    v.push(0x64);
    v.push(0x20);
    v.push(0x61);
    v.push(0x74);
    v.push(0x74);
    v.push(0x72);
    v.push(0x69);
    v.push(0x62);
    v.push(0x75);
    v.push(0x74);
    v.push(0x65);
    v.push(0x20);
    v.push(0x74);
    v.push(0x79);
    v.push(0x70);
    v.push(0x65);
    proof {
        assert(v@ =~= seq![0x49u8, 0x6eu8, 0x76u8, 0x61u8, 0x6cu8, 0x69u8, 0x64u8, 0x20u8, 0x61u8, 0x74u8, 0x74u8, 0x72u8, 0x69u8, 0x62u8, 0x75u8, 0x74u8, 0x65u8, 0x20u8, 0x74u8, 0x79u8, 0x70u8, 0x65u8]);
    }
    v
}

/// The rendering of a parse error.
pub open spec fn parse_err_disp(e: ParseError) -> Seq<u8> {
    match e {
        ParseError::InvalidTag(b) => seq![0x69u8, 0x6eu8, 0x76u8, 0x61u8, 0x6cu8, 0x69u8, 0x64u8, 0x20u8, 0x74u8, 0x61u8, 0x67u8, 0x20u8] + dec_str(b as int),
        ParseError::InvalidVersion => seq![0x69u8, 0x6eu8, 0x76u8, 0x61u8, 0x6cu8, 0x69u8, 0x64u8, 0x20u8, 0x76u8, 0x65u8, 0x72u8, 0x73u8, 0x69u8, 0x6fu8, 0x6eu8],
        ParseError::InvalidCollection => seq![0x69u8, 0x6eu8, 0x76u8, 0x61u8, 0x6cu8, 0x69u8, 0x64u8, 0x20u8, 0x63u8, 0x6fu8, 0x6cu8, 0x6cu8, 0x65u8, 0x63u8, 0x74u8, 0x69u8, 0x6fu8, 0x6eu8],
        ParseError::IOError => seq![0x75u8, 0x6eu8, 0x65u8, 0x78u8, 0x70u8, 0x65u8, 0x63u8, 0x74u8, 0x65u8, 0x64u8, 0x20u8, 0x65u8, 0x6eu8, 0x64u8, 0x20u8, 0x6fu8, 0x66u8, 0x20u8, 0x73u8, 0x74u8, 0x72u8, 0x65u8, 0x61u8, 0x6du8],
    }
}

/// The rendering of an attribute-layer error.
pub open spec fn err_disp(e: IppError) -> Seq<u8> {
    match e {
        IppError::RequestError => seq![0x49u8, 0x50u8, 0x50u8, 0x20u8, 0x72u8, 0x65u8, 0x71u8, 0x75u8, 0x65u8, 0x73u8, 0x74u8, 0x20u8, 0x65u8, 0x72u8, 0x72u8, 0x6fu8, 0x72u8],
        IppError::StatusError(c) => seq![0x49u8, 0x50u8, 0x50u8, 0x20u8, 0x73u8, 0x74u8, 0x61u8, 0x74u8, 0x75u8, 0x73u8, 0x20u8, 0x65u8, 0x72u8, 0x72u8, 0x6fu8, 0x72u8, 0x3au8, 0x20u8] + dec_str(c as int),
        IppError::ParseError(p) => parse_err_disp(p),
        IppError::MissingAttribute => seq![0x4du8, 0x69u8, 0x73u8, 0x73u8, 0x69u8, 0x6eu8, 0x67u8, 0x20u8, 0x61u8, 0x74u8, 0x74u8, 0x72u8, 0x69u8, 0x62u8, 0x75u8, 0x74u8, 0x65u8, 0x20u8, 0x69u8, 0x6eu8, 0x20u8, 0x72u8, 0x65u8, 0x73u8, 0x70u8, 0x6fu8, 0x6eu8, 0x73u8, 0x65u8],
        IppError::InvalidAttributeType => seq![0x49u8, 0x6eu8, 0x76u8, 0x61u8, 0x6cu8, 0x69u8, 0x64u8, 0x20u8, 0x61u8, 0x74u8, 0x74u8, 0x72u8, 0x69u8, 0x62u8, 0x75u8, 0x74u8, 0x65u8, 0x20u8, 0x74u8, 0x79u8, 0x70u8, 0x65u8],
    }
}

impl ParseError {
    /// Renders this error as human-readable ASCII bytes.
    pub fn display_bytes(&self) -> (r: Vec<u8>)
        ensures
            r@ == parse_err_disp(*self),
    {
        let mut out: Vec<u8> = Vec::new();
        match self {
            ParseError::InvalidTag(b) => {
                crate::wire::push_bytes(&mut out, invalid_tag_prefix().as_slice());
                push_dec(&mut out, *b as u32);
            },
            ParseError::InvalidVersion => {
                crate::wire::push_bytes(&mut out, invalid_version_text().as_slice());
            },
            ParseError::InvalidCollection => {
                crate::wire::push_bytes(&mut out, invalid_collection_text().as_slice());
            },
            ParseError::IOError => {
                crate::wire::push_bytes(&mut out, end_of_stream_text().as_slice());
            },
        }
        proof {
            assert(out@ =~= parse_err_disp(*self));
        }
        out
    }
}

impl IppError {
    /// Renders this error as human-readable ASCII bytes.
    pub fn display_bytes(&self) -> (r: Vec<u8>)
        ensures
            r@ == err_disp(*self),
    {
        let mut out: Vec<u8> = Vec::new();
        match self {
            IppError::RequestError => {
                crate::wire::push_bytes(&mut out, request_error_text().as_slice());
            },
            IppError::StatusError(c) => {
                crate::wire::push_bytes(&mut out, status_error_prefix().as_slice());
                push_dec(&mut out, *c as u32);
            },
            IppError::ParseError(p) => {
                let rendered = p.display_bytes();
                crate::wire::push_bytes(&mut out, rendered.as_slice());
            },
            IppError::MissingAttribute => {
                crate::wire::push_bytes(&mut out, missing_attribute_text().as_slice());
            },
            IppError::InvalidAttributeType => {
                crate::wire::push_bytes(&mut out, invalid_attribute_text().as_slice());
            },
        }
        proof {
            assert(out@ =~= err_disp(*self));
        }
        out
    }
}

} // verus!
