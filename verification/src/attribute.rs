//! Name+value attribute pairs grouped by delimiter tag: insertion,
//! lookup, and the serializer that re-emits the grammar the parser
//! accepts. Within one group a name is unique — a later add with the same
//! name replaces the earlier one in place — and insertion order is kept,
//! so arrays split over several wire entries re-serialize faithfully.

use vstd::prelude::*;

use crate::tags::{spec_value_tag_byte, DelimiterTag};
use crate::value::IppValue;
use crate::wire::{be16, enc_value, push_be16, push_bytes, read_bytes, tag_of, val_wf, Val};
use crate::IppError;

verus! {

/// Ghost mirror of an attribute: a name and a value.
#[verifier::ext_equal]
pub struct Attr {
    pub name: Seq<u8>,
    pub value: Val,
}

/// Ghost mirror of one attribute group: its delimiter tag and its
/// attributes in insertion order.
#[verifier::ext_equal]
pub struct Group {
    pub tag: DelimiterTag,
    pub attrs: Seq<Attr>,
}

/// The attributes of the first group carrying a tag, if one does.
pub open spec fn store_group(s: Seq<Group>, g: DelimiterTag) -> Option<Seq<Attr>>
    decreases s.len(),
{
    if s.len() == 0 {
        None
    } else if s[0].tag == g {
        Some(s[0].attrs)
    } else {
        store_group(s.drop_first(), g)
    }
}

/// The first attribute of a group carrying a name, if one does.
pub open spec fn group_get(attrs: Seq<Attr>, name: Seq<u8>) -> Option<Attr>
    decreases attrs.len(),
{
    if attrs.len() == 0 {
        None
    } else if attrs[0].name == name {
        Some(attrs[0])
    } else {
        group_get(attrs.drop_first(), name)
    }
}

/// The attribute a store holds under a group and name, if any.
pub open spec fn store_get(s: Seq<Group>, g: DelimiterTag, name: Seq<u8>) -> Option<Attr> {
    match store_group(s, g) {
        None => None,
        Some(attrs) => group_get(attrs, name),
    }
}

/// Insertion into a group: an attribute of the same name is replaced in
/// place, a new name is appended.
pub open spec fn group_add(attrs: Seq<Attr>, a: Attr) -> Seq<Attr>
    decreases attrs.len(),
{
    if attrs.len() == 0 {
        seq![a]
    } else if attrs[0].name == a.name {
        seq![a] + attrs.drop_first()
    } else {
        seq![attrs[0]] + group_add(attrs.drop_first(), a)
    }
}

/// Insertion into a store: the attribute goes into the first group
/// carrying the tag, or a fresh group is appended.
pub open spec fn store_add(s: Seq<Group>, g: DelimiterTag, a: Attr) -> Seq<Group>
    decreases s.len(),
{
    if s.len() == 0 {
        seq![Group { tag: g, attrs: seq![a] }]
    } else if s[0].tag == g {
        seq![Group { tag: g, attrs: group_add(s[0].attrs, a) }] + s.drop_first()
    } else {
        seq![s[0]] + store_add(s.drop_first(), g, a)
    }
}

/// Every attribute held anywhere in the store can be serialized.
pub open spec fn store_wf(s: Seq<Group>) -> bool {
    forall|i: int, j: int|
        0 <= i < s.len() && 0 <= j < s[i].attrs.len() ==> attr_ok(#[trigger] s[i].attrs[j])
}

/// Insertion keeps a well-formed store well formed when the new attribute
/// is.
pub proof fn lemma_store_add_wf(s: Seq<Group>, g: DelimiterTag, a: Attr)
    requires
        store_wf(s),
        attr_ok(a),
    ensures
        store_wf(store_add(s, g, a)),
    decreases s.len(),
{
    if s.len() == 0 {
    } else if s[0].tag == g {
        lemma_group_add_wf(s[0].attrs, a);
    } else {
        assert(forall|i: int, j: int|
            0 <= i < s.drop_first().len() && 0 <= j < s.drop_first()[i].attrs.len()
                ==> attr_ok(#[trigger] s.drop_first()[i].attrs[j]));
        lemma_store_add_wf(s.drop_first(), g, a);
    }
}

/// Insertion keeps the attributes of a group well formed when the new one
/// is.
pub proof fn lemma_group_add_wf(attrs: Seq<Attr>, a: Attr)
    requires
        forall|j: int| 0 <= j < attrs.len() ==> attr_ok(#[trigger] attrs[j]),
        attr_ok(a),
    ensures
        forall|j: int|
            0 <= j < group_add(attrs, a).len() ==> attr_ok(#[trigger] group_add(attrs, a)[j]),
    decreases attrs.len(),
{
    if attrs.len() == 0 {
    } else if attrs[0].name == a.name {
    } else {
        lemma_group_add_wf(attrs.drop_first(), a);
        assert forall|j: int|
            0 <= j < group_add(attrs, a).len() implies attr_ok(
            #[trigger] group_add(attrs, a)[j],
        ) by {
            if j == 0 {
                assert(attr_ok(attrs[0]));
            } else {
                assert(group_add(attrs, a)[j] == group_add(attrs.drop_first(), a)[j - 1]);
            }
        }
    }
}

/// Every attribute of a group of a well-formed store can be serialized.
pub proof fn lemma_store_group_ok(s: Seq<Group>, g: DelimiterTag)
    requires
        store_wf(s),
        store_group(s, g) is Some,
    ensures
        forall|j: int|
            0 <= j < store_group(s, g)->Some_0.len() ==> attr_ok(
                #[trigger] store_group(s, g)->Some_0[j],
            ),
    decreases s.len(),
{
    if s.len() == 0 {
    } else if s[0].tag == g {
    } else {
        assert(forall|i: int, j: int|
            0 <= i < s.drop_first().len() && 0 <= j < s.drop_first()[i].attrs.len()
                ==> attr_ok(#[trigger] s.drop_first()[i].attrs[j]));
        lemma_store_group_ok(s.drop_first(), g);
    }
}

/// An attribute looked up in a well-formed group can be serialized.
pub proof fn lemma_group_get_ok(attrs: Seq<Attr>, name: Seq<u8>)
    requires
        forall|j: int| 0 <= j < attrs.len() ==> attr_ok(#[trigger] attrs[j]),
        group_get(attrs, name) is Some,
    ensures
        attr_ok(group_get(attrs, name)->Some_0),
    decreases attrs.len(),
{
    if attrs.len() == 0 {
    } else if attrs[0].name == name {
    } else {
        lemma_group_get_ok(attrs.drop_first(), name);
    }
}

/// A group lookup passes over a prefix of groups carrying other tags.
pub proof fn lemma_store_group_skip(s: Seq<Group>, g: DelimiterTag, i: int)
    requires
        0 <= i <= s.len(),
        forall|k: int| 0 <= k < i ==> s[k].tag != g,
    ensures
        store_group(s, g) == store_group(s.skip(i), g),
    decreases i,
{
    if i > 0 {
        assert(s.drop_first().skip(i - 1) =~= s.skip(i));
        lemma_store_group_skip(s.drop_first(), g, i - 1);
    } else {
        assert(s.skip(0) =~= s);
    }
}

/// A name lookup passes over a prefix of attributes carrying other names.
pub proof fn lemma_group_get_skip(attrs: Seq<Attr>, name: Seq<u8>, i: int)
    requires
        0 <= i <= attrs.len(),
        forall|k: int| 0 <= k < i ==> attrs[k].name != name,
    ensures
        group_get(attrs, name) == group_get(attrs.skip(i), name),
    decreases i,
{
    if i > 0 {
        assert(attrs.drop_first().skip(i - 1) =~= attrs.skip(i));
        lemma_group_get_skip(attrs.drop_first(), name, i - 1);
    } else {
        assert(attrs.skip(0) =~= attrs);
    }
}

/// An insertion leaves a prefix of groups carrying other tags unchanged.
pub proof fn lemma_store_add_skip(s: Seq<Group>, g: DelimiterTag, a: Attr, i: int)
    requires
        0 <= i <= s.len(),
        forall|k: int| 0 <= k < i ==> s[k].tag != g,
    ensures
        store_add(s, g, a) == s.take(i) + store_add(s.skip(i), g, a),
    decreases i,
{
    if i > 0 {
        assert(s.drop_first().skip(i - 1) =~= s.skip(i));
        lemma_store_add_skip(s.drop_first(), g, a, i - 1);
        assert(s.take(i) =~= seq![s[0]] + s.drop_first().take(i - 1));
        assert(store_add(s, g, a) =~= s.take(i) + store_add(s.skip(i), g, a));
    } else {
        assert(s.skip(0) =~= s);
        assert(s.take(0) =~= Seq::<Group>::empty());
        assert(store_add(s, g, a) =~= s.take(0) + store_add(s.skip(0), g, a));
    }
}

/// A name and a value that can stand in a serialized request: the value is
/// well formed and the name length fits the 16-bit name-length field.
pub open spec fn attr_ok(a: Attr) -> bool {
    val_wf(a.value) && a.name.len() <= 0xffff
}

/// The name of the charset header attribute.
pub open spec fn charset_name() -> Seq<u8> {
    seq![0x61u8, 0x74u8, 0x74u8, 0x72u8, 0x69u8, 0x62u8, 0x75u8, 0x74u8, 0x65u8, 0x73u8, 0x2du8, 0x63u8, 0x68u8, 0x61u8, 0x72u8, 0x73u8, 0x65u8, 0x74u8]
}

/// The name of the natural-language header attribute.
pub open spec fn natural_language_name() -> Seq<u8> {
    seq![0x61u8, 0x74u8, 0x74u8, 0x72u8, 0x69u8, 0x62u8, 0x75u8, 0x74u8, 0x65u8, 0x73u8, 0x2du8, 0x6eu8, 0x61u8, 0x74u8, 0x75u8, 0x72u8, 0x61u8, 0x6cu8, 0x2du8, 0x6cu8, 0x61u8, 0x6eu8, 0x67u8, 0x75u8, 0x61u8, 0x67u8, 0x65u8]
}

/// The name of the target-URI header attribute.
pub open spec fn printer_uri_name() -> Seq<u8> {
    seq![0x70u8, 0x72u8, 0x69u8, 0x6eu8, 0x74u8, 0x65u8, 0x72u8, 0x2du8, 0x75u8, 0x72u8, 0x69u8]
}

/// The name of the charset header attribute, as bytes.
pub fn attributes_charset() -> (r: Vec<u8>)
    ensures
        r@ == charset_name(),
{
    let mut v: Vec<u8> = Vec::new();
    v.push(0x61);
    v.push(0x74);
    v.push(0x74);
    v.push(0x72);
    v.push(0x69);
    v.push(0x62);
    v.push(0x75);
    v.push(0x74);
    v.push(0x65);
    v.push(0x73);
    v.push(0x2d);
    v.push(0x63);
    v.push(0x68);
    v.push(0x61);
    v.push(0x72);
    v.push(0x73);
    v.push(0x65);
    v.push(0x74);
    proof {
        assert(v@ =~= charset_name());
    }
    v
}

/// The name of the natural-language header attribute, as bytes.
pub fn attributes_natural_language() -> (r: Vec<u8>)
    ensures
        r@ == natural_language_name(),
{
    let mut v: Vec<u8> = Vec::new();
    v.push(0x61);
    v.push(0x74);
    v.push(0x74);
    v.push(0x72);
    v.push(0x69);
    v.push(0x62);
    v.push(0x75);
    v.push(0x74);
    v.push(0x65);
    v.push(0x73);
    v.push(0x2d);
    v.push(0x6e);
    v.push(0x61);
    v.push(0x74);
    v.push(0x75);
    v.push(0x72);
    v.push(0x61);
    v.push(0x6c);
    v.push(0x2d);
    v.push(0x6c);
    v.push(0x61);
    v.push(0x6e);
    v.push(0x67);
    v.push(0x75);
    v.push(0x61);
    v.push(0x67);
    v.push(0x65);
    proof {
        assert(v@ =~= natural_language_name());
    }
    v
}

/// The name of the target-URI header attribute, as bytes.
pub fn printer_uri() -> (r: Vec<u8>)
    ensures
        r@ == printer_uri_name(),
{
    let mut v: Vec<u8> = Vec::new();
    v.push(0x70);
    v.push(0x72);
    v.push(0x69);
    v.push(0x6e);
    v.push(0x74);
    v.push(0x65);
    v.push(0x72);
    v.push(0x2d);
    v.push(0x75);
    v.push(0x72);
    v.push(0x69);
    proof {
        assert(v@ =~= printer_uri_name());
    }
    v
}

/// Whether a name is one of the three protocol-mandatory header
/// attributes of the operation group.
pub open spec fn is_header_name(n: Seq<u8>) -> bool {
    n == charset_name() || n == natural_language_name() || n == printer_uri_name()
}

/// Whether a name is one of the three protocol-mandatory header
/// attributes of the operation group.
pub fn is_header_attr(name: &[u8]) -> (r: bool)
    ensures
        r == is_header_name(name@),
{
    let c = attributes_charset();
    let n = attributes_natural_language();
    let u = printer_uri();
    bytes_eq(name, c.as_slice()) || bytes_eq(name, n.as_slice()) || bytes_eq(name, u.as_slice())
}

/// A lookup after an insertion under the same group and name finds the
/// inserted attribute.
pub proof fn lemma_group_get_add(attrs: Seq<Attr>, a: Attr)
    ensures
        group_get(group_add(attrs, a), a.name) == Some(a),
    decreases attrs.len(),
{
    if attrs.len() == 0 {
        assert(group_add(attrs, a)[0] == a);
    } else if attrs[0].name == a.name {
        assert(group_add(attrs, a)[0] == a);
    } else {
        lemma_group_get_add(attrs.drop_first(), a);
        assert(group_add(attrs, a)[0] == attrs[0]);
        assert(group_add(attrs, a).drop_first() =~= group_add(attrs.drop_first(), a));
    }
}

/// An insertion leaves every other name's lookup in the group unchanged.
pub proof fn lemma_group_get_add_other(attrs: Seq<Attr>, a: Attr, n: Seq<u8>)
    requires
        n != a.name,
    ensures
        group_get(group_add(attrs, a), n) == group_get(attrs, n),
    decreases attrs.len(),
{
    if attrs.len() == 0 {
        assert(group_add(attrs, a)[0] == a);
        assert(group_add(attrs, a).drop_first() =~= Seq::<Attr>::empty());
        assert(group_get(group_add(attrs, a).drop_first(), n) is None);
        assert(group_get(group_add(attrs, a), n) is None);
    } else if attrs[0].name == a.name {
        assert(group_add(attrs, a)[0] == a);
        assert(group_add(attrs, a).drop_first() =~= attrs.drop_first());
        assert(group_get(group_add(attrs, a), n) == group_get(attrs.drop_first(), n));
        assert(group_get(attrs, n) == group_get(attrs.drop_first(), n));
    } else {
        lemma_group_get_add_other(attrs.drop_first(), a, n);
        assert(group_add(attrs, a)[0] == attrs[0]);
        assert(group_add(attrs, a).drop_first() =~= group_add(attrs.drop_first(), a));
    }
}

/// A lookup after an insertion under the same group and name finds the
/// inserted attribute, at the store level.
pub proof fn lemma_store_get_add(s: Seq<Group>, g: DelimiterTag, a: Attr)
    ensures
        store_get(store_add(s, g, a), g, a.name) == Some(a),
    decreases s.len(),
{
    if s.len() == 0 {
        assert(store_add(s, g, a)[0] == (Group { tag: g, attrs: seq![a] }));
        assert(group_get(seq![a], a.name) == Some(a));
    } else if s[0].tag == g {
        assert(store_add(s, g, a)[0] == (Group { tag: g, attrs: group_add(s[0].attrs, a) }));
        lemma_group_get_add(s[0].attrs, a);
    } else {
        lemma_store_get_add(s.drop_first(), g, a);
        assert(store_add(s, g, a)[0] == s[0]);
        assert(store_add(s, g, a).drop_first() =~= store_add(s.drop_first(), g, a));
    }
}

/// The bytes an attribute is written as: the tag of its value, the
/// big-endian name length, the name, then the encoded value.
pub open spec fn enc_attr(a: Attr) -> Seq<u8> {
    seq![spec_value_tag_byte(tag_of(a.value))] + be16(a.name.len() as u16) + a.name + enc_value(
        a.value,
    )
}

/// Whether two byte slices hold the same bytes.
fn bytes_eq(a: &[u8], b: &[u8]) -> (r: bool)
    ensures
        r == (a@ == b@),
{
    if a.len() != b.len() {
        return false;
    }
    let n = a.len();
    let mut i: usize = 0;
    while i < n
        invariant
            n == a@.len() == b@.len(),
            i <= n,
            forall|k: int| 0 <= k < i ==> a@[k] == b@[k],
        decreases n - i,
    {
        if a[i] != b[i] {
            return false;
        }
        i = i + 1;
    }
    proof {
        assert(a@ =~= b@);
    }
    true
}

/// One attribute: a name and a tagged value.
#[derive(Debug)]
pub struct IppAttribute {
    name: Vec<u8>,
    value: IppValue,
}

impl IppAttribute {
    /// The ghost mirror of this attribute.
    pub closed spec fn deep(self) -> Attr {
        Attr { name: self.name@, value: self.value.deep() }
    }

    /// This attribute can be serialized: its value is well formed and its
    /// name fits the 16-bit name-length field.
    pub open spec fn wf(self) -> bool {
        attr_ok(self.deep())
    }

    /// Creates an attribute from a name and a value.
    pub fn new(name: &[u8], value: IppValue) -> (r: IppAttribute)
        ensures
            r.deep() == (Attr { name: name@, value: value.deep() }),
    {
        let n = read_bytes(name, 0, name.len());
        IppAttribute { name: n, value }
    }

    /// The attribute's name.
    pub fn name(&self) -> (r: &Vec<u8>)
        ensures
            r@ == self.deep().name,
    {
        &self.name
    }

    /// The attribute's value.
    pub fn value(&self) -> (r: &IppValue)
        ensures
            r.deep() == self.deep().value,
    {
        &self.value
    }

    /// Writes the attribute to a byte buffer: its value's tag byte, the
    /// big-endian name length, the name bytes, then the encoded value.
    /// Returns the number of bytes written.
    pub fn write(&self, out: &mut Vec<u8>) -> (r: usize)
        requires
            self.wf(),
        ensures
            final(out)@ == old(out)@ + enc_attr(self.deep()),
            r == enc_attr(self.deep()).len(),
    {
        let start = out.len();
        let t = self.value.to_tag().as_u8();
        out.push(t);
        push_be16(out, self.name.len() as u16);
        push_bytes(out, self.name.as_slice());
        self.value.write(out);
        proof {
            assert(out@ =~= old(out)@ + enc_attr(self.deep()));
        }
        out.len() - start
    }
}

/// One attribute group: a delimiter tag and its attributes in insertion
/// order.
#[derive(Debug)]
pub struct AttrGroup {
    /// The group's delimiter tag.
    pub tag: DelimiterTag,
    /// The group's attributes, in insertion order.
    pub attrs: Vec<IppAttribute>,
}

impl AttrGroup {
    /// The ghost mirror of this group.
    pub open spec fn deep(self) -> Group {
        Group {
            tag: self.tag,
            attrs: Seq::new(
                self.attrs@.len(),
                |i: int|
                    if 0 <= i < self.attrs@.len() {
                        self.attrs@[i].deep()
                    } else {
                        Attr { name: Seq::empty(), value: Val::Boolean(false) }
                    },
            ),
        }
    }
}

/// Attribute list indexed by group and name; group order and, within a
/// group, attribute insertion order are kept.
#[derive(Debug)]
pub struct IppAttributeList {
    groups: Vec<AttrGroup>,
}

impl IppAttributeList {
    /// The ghost mirror of this store.
    pub closed spec fn deep(self) -> Seq<Group> {
        Seq::new(
            self.groups@.len(),
            |i: int|
                if 0 <= i < self.groups@.len() {
                    self.groups@[i].deep()
                } else {
                    Group { tag: DelimiterTag::EndOfAttributes, attrs: Seq::empty() }
                },
        )
    }

    /// Every value held anywhere in this store is well formed.
    pub open spec fn wf(self) -> bool {
        store_wf(self.deep())
    }

    /// Creates an empty attribute list.
    pub fn new() -> (r: IppAttributeList)
        ensures
            r.deep() == Seq::<Group>::empty(),
    {
        let r = IppAttributeList { groups: Vec::new() };
        proof {
            assert(r.deep() =~= Seq::<Group>::empty());
        }
        r
    }

    /// The first index of a group carrying a tag, or the group count when
    /// none does.
    fn find_group_index(&self, group: DelimiterTag) -> (r: usize)
        ensures
            r <= self.groups@.len(),
            forall|k: int| 0 <= k < r ==> self.deep()[k].tag != group,
            r < self.groups@.len() ==> self.deep()[r as int].tag == group,
    {
        let n = self.groups.len();
        let mut gi: usize = 0;
        while gi < n
            invariant
                n == self.groups@.len(),
                gi <= n,
                forall|k: int| 0 <= k < gi ==> self.deep()[k].tag != group,
            decreases n - gi,
        {
            if self.groups[gi].tag == group {
                return gi;
            }
            gi = gi + 1;
        }
        gi
    }

    /// Adds an attribute under a group; an attribute of the same name in
    /// that group is replaced in place, a new name is appended.
    pub fn add(&mut self, group: DelimiterTag, attribute: IppAttribute)
        ensures
            final(self).deep() == store_add(old(self).deep(), group, attribute.deep()),
    {
        let ghost s0 = self.deep();
        let ghost a = attribute.deep();
        let n = self.groups.len();
        let gi = self.find_group_index(group);
        if gi == n {
            // no group with this tag yet: append a fresh one
            proof {
                lemma_store_add_skip(s0, group, a, n as int);
                assert(s0.skip(n as int) =~= Seq::<Group>::empty());
            }
            let mut attrs: Vec<IppAttribute> = Vec::new();
            attrs.push(attribute);
            self.groups.push(AttrGroup { tag: group, attrs });
            proof {
                assert(self.deep() =~~= store_add(s0, group, a));
            }
            return ;
        }
        proof {
            lemma_store_add_skip(s0, group, a, gi as int);
            assert(s0.skip(gi as int)[0] == s0[gi as int]);
        }
        let mut grp = self.groups.remove(gi);
        let ghost at0 = grp.deep().attrs;
        let m = grp.attrs.len();
        let ai = find_name_index(&grp.attrs, attribute.name.as_slice());
        proof {
            lemma_group_add_skip(at0, a, ai as int);
        }
        if ai == m {
            proof {
                assert(at0.skip(m as int) =~= Seq::<Attr>::empty());
            }
            grp.attrs.push(attribute);
            proof {
                assert(grp.deep().attrs =~= group_add(at0, a));
            }
        } else {
            proof {
                assert(at0.skip(ai as int)[0] == at0[ai as int]);
            }
            grp.attrs.set(ai, attribute);
            proof {
                assert(grp.deep().attrs =~= group_add(at0, a));
            }
        }
        self.groups.insert(gi, grp);
        proof {
            assert(self.deep() =~~= store_add(s0, group, a));
        }
    }

    /// Looks an attribute up by group and name; absence is a normal empty
    /// result, not an error.
    pub fn get(&self, group: DelimiterTag, name: &[u8]) -> (r: Option<&IppAttribute>)
        ensures
            match r {
                Some(att) => store_get(self.deep(), group, name@) == Some(att.deep()),
                None => store_get(self.deep(), group, name@) is None,
            },
    {
        match self.get_group(group) {
            None => None,
            Some(attrs) => {
                let ghost at = store_group(self.deep(), group)->Some_0;
                let m = attrs.len();
                let mut ai: usize = 0;
                while ai < m
                    invariant
                        m == attrs@.len(),
                        ai <= m,
                        at.len() == m,
                        store_group(self.deep(), group) == Some(at),
                        forall|k: int|
                            0 <= k < m ==> at[k] == #[trigger] attrs@[k].deep(),
                        forall|k: int| 0 <= k < ai ==> at[k].name != name@,
                    decreases m - ai,
                {
                    let hit = bytes_eq(attrs[ai].name.as_slice(), name);
                    proof {
                        assert(at[ai as int] == attrs@[ai as int].deep());
                    }
                    if hit {
                        proof {
                            lemma_group_get_skip(at, name@, ai as int);
                            assert(at.skip(ai as int)[0] == at[ai as int]);
                            assert(at[ai as int].name == name@);
                            assert(group_get(at.skip(ai as int), name@) == Some(
                                at.skip(ai as int)[0],
                            ));
                            assert(store_get(self.deep(), group, name@) == Some(at[ai as int]));
                        }
                        return Some(&attrs[ai]);
                    }
                    ai = ai + 1;
                }
                proof {
                    lemma_group_get_skip(at, name@, m as int);
                    assert(at.skip(m as int) =~= Seq::<Attr>::empty());
                }
                None
            },
        }
    }

    /// The attributes of a group; absence is a normal empty result, not an
    /// error.
    pub fn get_group(&self, group: DelimiterTag) -> (r: Option<&Vec<IppAttribute>>)
        ensures
            match r {
                Some(attrs) => {
                    &&& store_group(self.deep(), group) == Some(attrs_view(attrs@))
                    &&& attrs_view(attrs@).len() == attrs@.len()
                    &&& forall|k: int|
                        0 <= k < attrs@.len() ==> attrs_view(attrs@)[k] == #[trigger] attrs@[k].deep()
                },
                None => store_group(self.deep(), group) is None,
            },
    {
        let ghost s0 = self.deep();
        let n = self.groups.len();
        let mut gi: usize = 0;
        while gi < n
            invariant
                n == self.groups@.len(),
                gi <= n,
                self.deep() == s0,
                forall|k: int| 0 <= k < gi ==> s0[k].tag != group,
            decreases n - gi,
        {
            if self.groups[gi].tag == group {
                proof {
                    lemma_store_group_skip(s0, group, gi as int);
                    assert(s0.skip(gi as int)[0] == s0[gi as int]);
                }
                return Some(&self.groups[gi].attrs);
            }
            gi = gi + 1;
        }
        proof {
            lemma_store_group_skip(s0, group, n as int);
            assert(s0.skip(n as int) =~= Seq::<Group>::empty());
        }
        None
    }
}

/// The bytes of a run of attributes of one group; in the operation group
/// the three header attributes are passed over, having been emitted first.
pub open spec fn enc_group_attrs(attrs: Seq<Attr>, skip_headers: bool) -> Seq<u8>
    decreases attrs.len(),
{
    if attrs.len() == 0 {
        Seq::empty()
    } else {
        (if skip_headers && is_header_name(attrs[0].name) {
            Seq::<u8>::empty()
        } else {
            enc_attr(attrs[0])
        }) + enc_group_attrs(attrs.drop_first(), skip_headers)
    }
}

/// The store holds the three protocol-mandatory header attributes of the
/// operation group, so a request can be serialized from it.
pub open spec fn hdr_ok(s: Seq<Group>) -> bool {
    &&& store_get(s, DelimiterTag::OperationAttributes, charset_name()) is Some
    &&& store_get(s, DelimiterTag::OperationAttributes, natural_language_name()) is Some
    &&& store_get(s, DelimiterTag::OperationAttributes, printer_uri_name()) is Some
}

/// The bytes a store is serialized as: the operation group tag, the three
/// header attributes in their mandated order, the remaining operation
/// attributes, then the job and printer groups if present, then the
/// end-of-attributes marker. The unsupported group is never emitted.
pub open spec fn enc_store(s: Seq<Group>) -> Seq<u8> {
    seq![0x01u8] + enc_attr(store_get(s, DelimiterTag::OperationAttributes, charset_name())->Some_0)
        + enc_attr(store_get(s, DelimiterTag::OperationAttributes, natural_language_name())->Some_0)
        + enc_attr(store_get(s, DelimiterTag::OperationAttributes, printer_uri_name())->Some_0)
        + enc_group_attrs(store_group(s, DelimiterTag::OperationAttributes)->Some_0, true) + (match store_group(
        s,
        DelimiterTag::JobAttributes,
    ) {
        None => Seq::<u8>::empty(),
        Some(j) => seq![0x02u8] + enc_group_attrs(j, false),
    }) + (match store_group(s, DelimiterTag::PrinterAttributes) {
        None => Seq::<u8>::empty(),
        Some(p) => seq![0x04u8] + enc_group_attrs(p, false),
    }) + seq![0x03u8]
}

impl IppAttributeList {
    /// Writes one group's attributes, passing over the header attributes
    /// where asked. Returns nothing; the caller reads the buffer growth.
    fn write_group_attrs(attrs: &Vec<IppAttribute>, skip_headers: bool, out: &mut Vec<u8>)
        requires
            forall|k: int| 0 <= k < attrs@.len() ==> attr_ok(#[trigger] attrs_view(attrs@)[k]),
        ensures
            final(out)@ == old(out)@ + enc_group_attrs(attrs_view(attrs@), skip_headers),
    {
        let ghost base = out@;
        let ghost at = attrs_view(attrs@);
        let m = attrs.len();
        let mut i: usize = 0;
        proof {
            assert(at.skip(0) =~= at);
        }
        while i < m
            invariant
                m == attrs@.len(),
                i <= m,
                at == attrs_view(attrs@),
                forall|k: int| 0 <= k < m ==> attr_ok(#[trigger] at[k]),
                base + enc_group_attrs(at, skip_headers) == out@ + enc_group_attrs(
                    at.skip(i as int),
                    skip_headers,
                ),
            decreases m - i,
        {
            proof {
                assert(at.skip(i as int)[0] == at[i as int]);
                assert(at.skip(i as int).drop_first() =~= at.skip(i as int + 1));
                assert(at[i as int] == attrs@[i as int].deep());
            }
            let skip_this = skip_headers && is_header_attr(attrs[i].name.as_slice());
            if !skip_this {
                attrs[i].write(out);
            }
            proof {
                assert(base + enc_group_attrs(at, skip_headers) =~= out@ + enc_group_attrs(
                    at.skip(i as int + 1),
                    skip_headers,
                ));
            }
            i = i + 1;
        }
        proof {
            assert(at.skip(m as int) =~= Seq::<Attr>::empty());
            assert(out@ =~= base + enc_group_attrs(at, skip_headers));
        }
    }

    /// Serializes the store as a request body: the operation group tag,
    /// the three mandated header attributes — charset, natural language,
    /// target URI, in that order — the remaining operation attributes,
    /// the job and printer groups if present, and the end-of-attributes
    /// marker. A store missing one of the three headers is refused before
    /// any byte is written. Returns the number of bytes written.
    #[verifier::rlimit(100)]
    pub fn write(&self, out: &mut Vec<u8>) -> (r: Result<usize, IppError>)
        requires
            self.wf(),
        ensures
            match r {
                Ok(n) => {
                    &&& hdr_ok(self.deep())
                    &&& final(out)@ == old(out)@ + enc_store(self.deep())
                    &&& n == enc_store(self.deep()).len()
                },
                Err(e) => {
                    &&& e == IppError::RequestError
                    &&& !hdr_ok(self.deep())
                    &&& final(out)@ == old(out)@
                },
            },
    {
        let ghost s = self.deep();
        let op = DelimiterTag::OperationAttributes;
        let charset = attributes_charset();
        let natlang = attributes_natural_language();
        let uri = printer_uri();
        let a_charset = match self.get(op, charset.as_slice()) {
            Some(a) => a,
            None => {
                return Err(IppError::RequestError);
            },
        };
        let a_natlang = match self.get(op, natlang.as_slice()) {
            Some(a) => a,
            None => {
                return Err(IppError::RequestError);
            },
        };
        let a_uri = match self.get(op, uri.as_slice()) {
            Some(a) => a,
            None => {
                return Err(IppError::RequestError);
            },
        };
        proof {
            lemma_store_group_ok(s, op);
            lemma_group_get_ok(store_group(s, op)->Some_0, charset_name());
            lemma_group_get_ok(store_group(s, op)->Some_0, natural_language_name());
            lemma_group_get_ok(store_group(s, op)->Some_0, printer_uri_name());
        }
        let start = out.len();
        let ghost base = out@;
        out.push(0x01);
        a_charset.write(out);
        a_natlang.write(out);
        a_uri.write(out);
        proof {
            assert(out@ =~= base + seq![0x01u8] + enc_attr(store_get(s, op, charset_name())->Some_0)
                + enc_attr(store_get(s, op, natural_language_name())->Some_0) + enc_attr(
                store_get(s, op, printer_uri_name())->Some_0,
            ));
        }
        let op_attrs = match self.get_group(op) {
            Some(v) => v,
            None => {
                proof {
                    assert(false);
                }
                return Err(IppError::RequestError);
            },
        };
        proof {
            assert forall|k: int| 0 <= k < op_attrs@.len() implies attr_ok(
                #[trigger] attrs_view(op_attrs@)[k],
            ) by {
                assert(attrs_view(op_attrs@)[k] == store_group(s, op)->Some_0[k]);
            }
        }
        Self::write_group_attrs(op_attrs, true, out);
        match self.get_group(DelimiterTag::JobAttributes) {
            None => {},
            Some(v) => {
                out.push(0x02);
                proof {
                    lemma_store_group_ok(s, DelimiterTag::JobAttributes);
                    assert forall|k: int| 0 <= k < v@.len() implies attr_ok(
                        #[trigger] attrs_view(v@)[k],
                    ) by {
                        assert(attrs_view(v@)[k] == store_group(
                            s,
                            DelimiterTag::JobAttributes,
                        )->Some_0[k]);
                    }
                }
                Self::write_group_attrs(v, false, out);
            },
        }
        match self.get_group(DelimiterTag::PrinterAttributes) {
            None => {},
            Some(v) => {
                out.push(0x04);
                proof {
                    lemma_store_group_ok(s, DelimiterTag::PrinterAttributes);
                    assert forall|k: int| 0 <= k < v@.len() implies attr_ok(
                        #[trigger] attrs_view(v@)[k],
                    ) by {
                        assert(attrs_view(v@)[k] == store_group(
                            s,
                            DelimiterTag::PrinterAttributes,
                        )->Some_0[k]);
                    }
                }
                Self::write_group_attrs(v, false, out);
            },
        }
        out.push(0x03);
        proof {
            assert(out@ =~= base + enc_store(s));
        }
        Ok(out.len() - start)
    }
}

/// Ghost mirror of a run of attributes.
pub open spec fn attrs_view(s: Seq<IppAttribute>) -> Seq<Attr> {
    Seq::new(
        s.len(),
        |i: int|
            if 0 <= i < s.len() {
                s[i].deep()
            } else {
                Attr { name: Seq::empty(), value: Val::Boolean(false) }
            },
    )
}

/// The first index of an attribute carrying a name, or the attribute
/// count when none does.
fn find_name_index(attrs: &Vec<IppAttribute>, name: &[u8]) -> (r: usize)
    ensures
        r <= attrs@.len(),
        forall|k: int| 0 <= k < r ==> attrs_view(attrs@)[k].name != name@,
        r < attrs@.len() ==> attrs_view(attrs@)[r as int].name == name@,
{
    let m = attrs.len();
    let mut ai: usize = 0;
    while ai < m
        invariant
            m == attrs@.len(),
            ai <= m,
            forall|k: int| 0 <= k < ai ==> attrs_view(attrs@)[k].name != name@,
        decreases m - ai,
    {
        if bytes_eq(attrs[ai].name.as_slice(), name) {
            return ai;
        }
        ai = ai + 1;
    }
    ai
}

/// An insertion leaves a prefix of attributes carrying other names
/// unchanged.
pub proof fn lemma_group_add_skip(attrs: Seq<Attr>, a: Attr, i: int)
    requires
        0 <= i <= attrs.len(),
        forall|k: int| 0 <= k < i ==> attrs[k].name != a.name,
    ensures
        group_add(attrs, a) == attrs.take(i) + group_add(attrs.skip(i), a),
    decreases i,
{
    if i > 0 {
        assert(attrs.drop_first().skip(i - 1) =~= attrs.skip(i));
        lemma_group_add_skip(attrs.drop_first(), a, i - 1);
        assert(attrs.take(i) =~= seq![attrs[0]] + attrs.drop_first().take(i - 1));
        assert(group_add(attrs, a) =~= attrs.take(i) + group_add(attrs.skip(i), a));
    } else {
        assert(attrs.skip(0) =~= attrs);
        assert(attrs.take(0) =~= Seq::<Attr>::empty());
        assert(group_add(attrs, a) =~= attrs.take(0) + group_add(attrs.skip(0), a));
    }
}

} // verus!
