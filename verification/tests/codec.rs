use ipp::attribute::{IppAttribute, IppAttributeList};
use ipp::parser::IppParser;
use ipp::tags::{DelimiterTag, ValueTag};
use ipp::value::IppValue;

#[test]
fn test_value_iterator_single() {
    let val = IppValue::Integer(1234);

    let mut it = val.into_iter();
    let mut seen = 0;
    while let Some(v) = it.next() {
        assert_eq!(*v, IppValue::Integer(1234));
        seen += 1;
    }
    assert_eq!(seen, 1);
}

#[test]
fn test_value_iterator_multiple() {
    let val = IppValue::ListOf(vec![IppValue::Integer(1234), IppValue::Integer(5678)]);

    let mut it = val.into_iter();
    assert_eq!(*it.next().unwrap(), IppValue::Integer(1234));
    assert_eq!(*it.next().unwrap(), IppValue::Integer(5678));
    assert!(it.next().is_none());
}

#[test]
fn test_collection_de_serialize() {
    let attr = IppAttribute::new(
        b"coll",
        IppValue::Collection(vec![
            IppValue::Integer(0x11111111),
            IppValue::Integer(0x22222222),
        ]),
    );
    let mut buf: Vec<u8> = Vec::new();
    let n = attr.write(&mut buf);
    assert_eq!(n, buf.len());

    assert_eq!(
        vec![
            0x34, 0, 4, b'c', b'o', b'l', b'l', 0, 0, 0x21, 0, 0, 0, 4, 0x11, 0x11, 0x11, 0x11,
            0x21, 0, 0, 0, 4, 0x22, 0x22, 0x22, 0x22, 0x37, 0, 0, 0, 0,
        ],
        buf
    );

    let mut data = vec![1, 1, 0, 0, 0, 0, 0, 0, 4];
    data.extend(buf);
    data.extend(vec![3]);

    let result = IppParser::new(&data).parse();
    assert!(result.is_ok());

    let res = result.ok().unwrap();
    let attr = res
        .attributes
        .get(DelimiterTag::PrinterAttributes, b"coll")
        .unwrap();
    assert_eq!(
        *attr.value(),
        IppValue::Collection(vec![
            IppValue::Integer(0x11111111),
            IppValue::Integer(0x22222222),
        ])
    );
}

fn round_trip(value: IppValue) -> IppValue {
    let attr = IppAttribute::new(b"attr", value);
    let mut data = vec![1, 1, 0, 0, 0, 0, 0, 0, 4];
    let mut body: Vec<u8> = Vec::new();
    let n = attr.write(&mut body);
    assert_eq!(n, body.len());
    data.extend(body);
    data.push(3);
    let res = IppParser::new(&data).parse().unwrap();
    let parsed = res
        .attributes
        .get(DelimiterTag::PrinterAttributes, b"attr")
        .unwrap();
    rebuild(parsed.value())
}

fn rebuild(v: &IppValue) -> IppValue {
    match v {
        IppValue::Integer(i) => IppValue::Integer(*i),
        IppValue::Enum(i) => IppValue::Enum(*i),
        IppValue::OctetString(s) => IppValue::OctetString(s.clone()),
        IppValue::TextWithoutLanguage(s) => IppValue::TextWithoutLanguage(s.clone()),
        IppValue::NameWithoutLanguage(s) => IppValue::NameWithoutLanguage(s.clone()),
        IppValue::Charset(s) => IppValue::Charset(s.clone()),
        IppValue::NaturalLanguage(s) => IppValue::NaturalLanguage(s.clone()),
        IppValue::Uri(s) => IppValue::Uri(s.clone()),
        IppValue::RangeOfInteger { min, max } => IppValue::RangeOfInteger {
            min: *min,
            max: *max,
        },
        IppValue::Boolean(b) => IppValue::Boolean(*b),
        IppValue::Keyword(s) => IppValue::Keyword(s.clone()),
        IppValue::ListOf(l) => IppValue::ListOf(l.iter().map(rebuild).collect()),
        IppValue::Collection(l) => IppValue::Collection(l.iter().map(rebuild).collect()),
        IppValue::MimeMediaType(s) => IppValue::MimeMediaType(s.clone()),
        IppValue::DateTime {
            year,
            month,
            day,
            hour,
            minutes,
            seconds,
            deciseconds,
            utcdir,
            utchours,
            utcmins,
        } => IppValue::DateTime {
            year: *year,
            month: *month,
            day: *day,
            hour: *hour,
            minutes: *minutes,
            seconds: *seconds,
            deciseconds: *deciseconds,
            utcdir: *utcdir,
            utchours: *utchours,
            utcmins: *utcmins,
        },
        IppValue::MemberAttrName(s) => IppValue::MemberAttrName(s.clone()),
        IppValue::Resolution {
            crossfeed,
            feed,
            units,
        } => IppValue::Resolution {
            crossfeed: *crossfeed,
            feed: *feed,
            units: *units,
        },
        IppValue::Other { tag, data } => IppValue::Other {
            tag: *tag,
            data: data.clone(),
        },
    }
}

#[test]
fn test_round_trip_scalars() {
    assert_eq!(round_trip(IppValue::Integer(-5)), IppValue::Integer(-5));
    assert_eq!(round_trip(IppValue::Enum(3)), IppValue::Enum(3));
    assert_eq!(
        round_trip(IppValue::Boolean(true)),
        IppValue::Boolean(true)
    );
    assert_eq!(
        round_trip(IppValue::RangeOfInteger { min: -2, max: 9 }),
        IppValue::RangeOfInteger { min: -2, max: 9 }
    );
    assert_eq!(
        round_trip(IppValue::Resolution {
            crossfeed: 300,
            feed: 600,
            units: 3
        }),
        IppValue::Resolution {
            crossfeed: 300,
            feed: 600,
            units: 3
        }
    );
    assert_eq!(
        round_trip(IppValue::Keyword(b"two-sided".to_vec())),
        IppValue::Keyword(b"two-sided".to_vec())
    );
    assert_eq!(
        round_trip(IppValue::Uri(b"ipp://printer".to_vec())),
        IppValue::Uri(b"ipp://printer".to_vec())
    );
    let dt = IppValue::DateTime {
        year: 2014,
        month: 10,
        day: 7,
        hour: 12,
        minutes: 34,
        seconds: 56,
        deciseconds: 7,
        utcdir: b'+',
        utchours: 1,
        utcmins: 30,
    };
    assert_eq!(round_trip(rebuild(&dt)), dt);
    assert_eq!(
        round_trip(IppValue::Other {
            tag: 0x12,
            data: vec![1, 2, 3]
        }),
        IppValue::Other {
            tag: 0x12,
            data: vec![1, 2, 3]
        }
    );
}

#[test]
fn test_round_trip_list_and_collection() {
    let list = IppValue::ListOf(vec![IppValue::Enum(4), IppValue::Enum(5), IppValue::Enum(6)]);
    assert_eq!(round_trip(rebuild(&list)), list);
    let coll = IppValue::Collection(vec![
        IppValue::Keyword(b"media".to_vec()),
        IppValue::Collection(vec![IppValue::Integer(21590)]),
    ]);
    assert_eq!(round_trip(rebuild(&coll)), coll);
}

#[test]
fn test_write_reports_exact_count() {
    let mut buf: Vec<u8> = Vec::new();
    let n = IppValue::Integer(77).write(&mut buf);
    assert_eq!(n, 6);
    assert_eq!(buf, vec![0, 4, 0, 0, 0, 77]);

    let mut buf2: Vec<u8> = Vec::new();
    let n2 = IppValue::Boolean(false).write(&mut buf2);
    assert_eq!(n2, 3);
    assert_eq!(buf2, vec![0, 1, 0]);

    let mut buf3: Vec<u8> = Vec::new();
    let n3 = IppValue::Keyword(b"abc".to_vec()).write(&mut buf3);
    assert_eq!(n3, 5);
    assert_eq!(buf3, vec![0, 3, b'a', b'b', b'c']);
}

#[test]
fn test_to_tag_bytes() {
    assert_eq!(IppValue::Integer(1).to_tag(), ValueTag::Integer);
    assert_eq!(IppValue::Integer(1).to_tag().as_u8(), 0x21);
    assert_eq!(
        IppValue::ListOf(vec![IppValue::Keyword(b"k".to_vec())]).to_tag(),
        ValueTag::Keyword
    );
    assert_eq!(
        IppValue::Collection(vec![]).to_tag(),
        ValueTag::BegCollection
    );
    assert_eq!(ValueTag::from_u8(0x44), Some(ValueTag::Keyword));
    assert_eq!(ValueTag::from_u8(0x0b), None);
    assert_eq!(DelimiterTag::from_u8(0x03), Some(DelimiterTag::EndOfAttributes));
    assert_eq!(DelimiterTag::from_u8(0x09), None);
}

#[test]
fn test_store_write_full_request() {
    let mut store = IppAttributeList::new();
    let op = DelimiterTag::OperationAttributes;
    store.add(
        op,
        IppAttribute::new(b"attributes-charset", IppValue::Charset(b"utf-8".to_vec())),
    );
    store.add(
        op,
        IppAttribute::new(
            b"attributes-natural-language",
            IppValue::NaturalLanguage(b"en".to_vec()),
        ),
    );
    store.add(
        op,
        IppAttribute::new(b"printer-uri", IppValue::Uri(b"ipp://p".to_vec())),
    );
    store.add(
        DelimiterTag::JobAttributes,
        IppAttribute::new(b"copies", IppValue::Integer(2)),
    );
    let mut out: Vec<u8> = Vec::new();
    let n = store.write(&mut out).unwrap();
    assert_eq!(n, out.len());

    let mut expected: Vec<u8> = vec![1];
    // charset header
    expected.extend(vec![0x47, 0, 18]);
    expected.extend(b"attributes-charset".to_vec());
    expected.extend(vec![0, 5]);
    expected.extend(b"utf-8".to_vec());
    // natural-language header
    expected.extend(vec![0x48, 0, 27]);
    expected.extend(b"attributes-natural-language".to_vec());
    expected.extend(vec![0, 2]);
    expected.extend(b"en".to_vec());
    // uri header
    expected.extend(vec![0x45, 0, 11]);
    expected.extend(b"printer-uri".to_vec());
    expected.extend(vec![0, 7]);
    expected.extend(b"ipp://p".to_vec());
    // job group
    expected.push(2);
    expected.extend(vec![0x21, 0, 6]);
    expected.extend(b"copies".to_vec());
    expected.extend(vec![0, 4, 0, 0, 0, 2]);
    // end of attributes
    expected.push(3);
    assert_eq!(out, expected);
}

#[test]
fn test_store_write_missing_natural_language_writes_nothing() {
    let mut store = IppAttributeList::new();
    let op = DelimiterTag::OperationAttributes;
    store.add(
        op,
        IppAttribute::new(b"attributes-charset", IppValue::Charset(b"utf-8".to_vec())),
    );
    store.add(
        op,
        IppAttribute::new(b"printer-uri", IppValue::Uri(b"ipp://p".to_vec())),
    );
    let mut out: Vec<u8> = Vec::new();
    let r = store.write(&mut out);
    assert!(matches!(r, Err(ipp::IppError::RequestError)));
    assert!(out.is_empty());
}

#[test]
fn test_store_write_job_attributes_only_fails() {
    let mut store = IppAttributeList::new();
    store.add(
        DelimiterTag::JobAttributes,
        IppAttribute::new(b"copies", IppValue::Integer(1)),
    );
    let mut out: Vec<u8> = Vec::new();
    let r = store.write(&mut out);
    assert!(matches!(r, Err(ipp::IppError::RequestError)));
    assert!(out.is_empty());
}

#[test]
fn test_store_add_replaces_same_name() {
    let mut store = IppAttributeList::new();
    let g = DelimiterTag::PrinterAttributes;
    store.add(g, IppAttribute::new(b"copies", IppValue::Integer(1)));
    store.add(g, IppAttribute::new(b"copies", IppValue::Integer(8)));
    assert_eq!(
        *store.get(g, b"copies").unwrap().value(),
        IppValue::Integer(8)
    );
    assert_eq!(store.get_group(g).unwrap().len(), 1);
}

#[test]
fn test_attribute_accessors() {
    let a = IppAttribute::new(b"job-name", IppValue::NameWithoutLanguage(b"doc".to_vec()));
    assert_eq!(a.name().as_slice(), b"job-name");
    assert_eq!(
        *a.value(),
        IppValue::NameWithoutLanguage(b"doc".to_vec())
    );
}

#[test]
fn test_display_scalars() {
    assert_eq!(IppValue::Integer(-42).display_bytes(), b"-42".to_vec());
    assert_eq!(IppValue::Enum(7).display_bytes(), b"7".to_vec());
    assert_eq!(IppValue::Boolean(true).display_bytes(), b"true".to_vec());
    assert_eq!(IppValue::Boolean(false).display_bytes(), b"false".to_vec());
    assert_eq!(
        IppValue::RangeOfInteger { min: 1, max: 100 }.display_bytes(),
        b"1..100".to_vec()
    );
    assert_eq!(
        IppValue::Keyword(b"two-sided".to_vec()).display_bytes(),
        b"two-sided".to_vec()
    );
    assert_eq!(
        IppValue::Resolution {
            crossfeed: 300,
            feed: 600,
            units: 3
        }
        .display_bytes(),
        b"300x600in".to_vec()
    );
    assert_eq!(
        IppValue::Resolution {
            crossfeed: 300,
            feed: 600,
            units: 4
        }
        .display_bytes(),
        b"300x600cm".to_vec()
    );
}

#[test]
fn test_display_composites() {
    let list = IppValue::ListOf(vec![IppValue::Integer(1), IppValue::Integer(2)]);
    assert_eq!(list.display_bytes(), b"[1, 2]".to_vec());
    let coll = IppValue::Collection(vec![
        IppValue::Keyword(b"a".to_vec()),
        IppValue::Integer(3),
    ]);
    assert_eq!(coll.display_bytes(), b"<a, 3>".to_vec());
    let dt = IppValue::DateTime {
        year: 2014,
        month: 10,
        day: 7,
        hour: 12,
        minutes: 34,
        seconds: 56,
        deciseconds: 7,
        utcdir: b'+',
        utchours: 1,
        utcmins: 30,
    };
    assert_eq!(dt.display_bytes(), b"2014-10-7,12:34:56.7,+1utc".to_vec());
    let other = IppValue::Other {
        tag: 0x40,
        data: vec![10, 20],
    };
    assert_eq!(other.display_bytes(), b"64: 10 20".to_vec());
}

#[test]
fn test_error_display() {
    assert_eq!(
        ipp::parser::ParseError::InvalidTag(0x0a).display_bytes(),
        b"invalid tag 10".to_vec()
    );
    assert_eq!(
        ipp::IppError::StatusError(1030).display_bytes(),
        b"IPP status error: 1030".to_vec()
    );
    assert_eq!(
        ipp::IppError::RequestError.display_bytes(),
        b"IPP request error".to_vec()
    );
}

#[test]
fn test_store_write_filters_headers_from_group_run() {
    // an ordinary operation attribute added before the headers is still
    // emitted after them, and the headers are not emitted twice
    let mut store = IppAttributeList::new();
    let op = DelimiterTag::OperationAttributes;
    store.add(
        op,
        IppAttribute::new(b"job-name", IppValue::NameWithoutLanguage(b"doc".to_vec())),
    );
    store.add(
        op,
        IppAttribute::new(b"attributes-charset", IppValue::Charset(b"utf-8".to_vec())),
    );
    store.add(
        op,
        IppAttribute::new(
            b"attributes-natural-language",
            IppValue::NaturalLanguage(b"en".to_vec()),
        ),
    );
    store.add(
        op,
        IppAttribute::new(b"printer-uri", IppValue::Uri(b"ipp://p".to_vec())),
    );
    let mut out: Vec<u8> = Vec::new();
    let n = store.write(&mut out).unwrap();
    assert_eq!(n, out.len());

    let mut expected: Vec<u8> = vec![1];
    expected.extend(vec![0x47, 0, 18]);
    expected.extend(b"attributes-charset".to_vec());
    expected.extend(vec![0, 5]);
    expected.extend(b"utf-8".to_vec());
    expected.extend(vec![0x48, 0, 27]);
    expected.extend(b"attributes-natural-language".to_vec());
    expected.extend(vec![0, 2]);
    expected.extend(b"en".to_vec());
    expected.extend(vec![0x45, 0, 11]);
    expected.extend(b"printer-uri".to_vec());
    expected.extend(vec![0, 7]);
    expected.extend(b"ipp://p".to_vec());
    // the one non-header operation attribute, after the headers
    expected.extend(vec![0x42, 0, 8]);
    expected.extend(b"job-name".to_vec());
    expected.extend(vec![0, 3]);
    expected.extend(b"doc".to_vec());
    expected.push(3);
    assert_eq!(out, expected);
}
