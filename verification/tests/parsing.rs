use ipp::attribute::IppAttributeList;
use ipp::parser::{IppParser, ParseError};
use ipp::tags::DelimiterTag;
use ipp::value::IppValue;

#[test]
fn test_parse_no_attributes() {
    let data = &[1, 1, 0, 0, 0, 0, 0, 0, 3];
    let result = IppParser::new(data).parse();
    assert!(result.is_ok());

    let res = result.ok().unwrap();
    assert!(res.attributes.get_group(DelimiterTag::JobAttributes).is_none());
    assert!(res.attributes.get_group(DelimiterTag::PrinterAttributes).is_none());
    assert!(res.attributes.get_group(DelimiterTag::OperationAttributes).is_none());
}

#[test]
fn test_parse_single_value() {
    let data = &[
        1, 1, 0, 0, 0, 0, 0, 0, 4, 0x21, 0x00, 0x04, b't', b'e', b's', b't', 0x00, 0x04, 0x12,
        0x34, 0x56, 0x78, 3,
    ];
    let result = IppParser::new(data).parse();
    assert!(result.is_ok());

    let res = result.ok().unwrap();
    let attr = res
        .attributes
        .get(DelimiterTag::PrinterAttributes, b"test")
        .unwrap();
    if let IppValue::Integer(val) = attr.value() {
        assert_eq!(*val, 0x12345678);
    } else {
        assert!(false);
    }
}

#[test]
fn test_parse_list() {
    let data = &[
        1, 1, 0, 0, 0, 0, 0, 0, 4, 0x21, 0x00, 0x04, b't', b'e', b's', b't', 0x00, 0x04, 0x12,
        0x34, 0x56, 0x78, 0x21, 0x00, 0x00, 0x00, 0x04, 0x77, 0x65, 0x43, 0x21, 3,
    ];
    let result = IppParser::new(data).parse();
    assert!(result.is_ok());

    let res = result.ok().unwrap();
    let attr = res
        .attributes
        .get(DelimiterTag::PrinterAttributes, b"test")
        .unwrap();
    if let IppValue::ListOf(list) = attr.value() {
        assert_eq!(
            *list,
            vec![IppValue::Integer(0x12345678), IppValue::Integer(0x77654321)]
        );
    } else {
        assert!(false);
    }
}

#[test]
fn test_parse_collection() {
    let data = &[
        1, 1, 0, 0, 0, 0, 0, 0, 4, 0x34, 0, 4, b'c', b'o', b'l', b'l', 0, 0, 0x21, 0, 0, 0, 4,
        0x12, 0x34, 0x56, 0x78, 0x44, 0, 0, 0, 3, b'k', b'e', b'y', 0x37, 0, 0, 0, 0, 3,
    ];
    let result = IppParser::new(data).parse();
    assert!(result.is_ok());

    let res = result.ok().unwrap();
    let attr = res
        .attributes
        .get(DelimiterTag::PrinterAttributes, b"coll")
        .unwrap();
    if let IppValue::Collection(coll) = attr.value() {
        assert_eq!(
            *coll,
            vec![
                IppValue::Integer(0x12345678),
                IppValue::Keyword(b"key".to_vec())
            ]
        );
    } else {
        assert!(false);
    }
}

#[test]
fn test_parse_header_fields() {
    let data = &[2, 1, 0x01, 0x0b, 0x00, 0x00, 0x00, 0x2a, 3];
    let res = IppParser::new(data).parse().unwrap();
    assert_eq!(res.header.version_major, 2);
    assert_eq!(res.header.version_minor, 1);
    assert_eq!(res.header.operation_status, 0x010b);
    assert_eq!(res.header.request_id, 42);
}

#[test]
fn test_parse_bad_version() {
    let data = &[9, 9, 0, 0, 0, 0, 0, 0, 3];
    let result = IppParser::new(data).parse();
    assert!(matches!(result, Err(ParseError::InvalidVersion)));
}

#[test]
fn test_parse_truncated_header() {
    let data = &[1, 1, 0, 0];
    let result = IppParser::new(data).parse();
    assert!(matches!(result, Err(ParseError::IOError)));
}

#[test]
fn test_parse_missing_end_marker() {
    let data = &[1, 1, 0, 0, 0, 0, 0, 0, 4];
    let result = IppParser::new(data).parse();
    assert!(matches!(result, Err(ParseError::IOError)));
}

#[test]
fn test_parse_invalid_tag_byte() {
    let data = &[1, 1, 0, 0, 0, 0, 0, 0, 0x0a, 3];
    let result = IppParser::new(data).parse();
    assert!(matches!(result, Err(ParseError::InvalidTag(0x0a))));
}

#[test]
fn test_parse_unbalanced_end_collection() {
    // an end-collection sentinel with no open collection
    let data = &[
        1, 1, 0, 0, 0, 0, 0, 0, 4, 0x37, 0, 0, 0, 0, 3,
    ];
    let result = IppParser::new(data).parse();
    assert!(matches!(result, Err(ParseError::InvalidCollection)));
}

#[test]
fn test_parse_unbalanced_begin_collection() {
    // a begin-collection left open when end-of-attributes comes
    let data = &[
        1, 1, 0, 0, 0, 0, 0, 0, 4, 0x34, 0, 4, b'c', b'o', b'l', b'l', 0, 0, 3,
    ];
    let result = IppParser::new(data).parse();
    assert!(matches!(result, Err(ParseError::InvalidCollection)));
}

#[test]
fn test_parse_nonempty_collection_marker() {
    // a begin-collection marker whose payload is not empty
    let data = &[
        1, 1, 0, 0, 0, 0, 0, 0, 4, 0x34, 0, 4, b'c', b'o', b'l', b'l', 0, 1, 0xff, 3,
    ];
    let result = IppParser::new(data).parse();
    assert!(matches!(result, Err(ParseError::InvalidCollection)));
}

#[test]
fn test_parse_unknown_value_tag_is_not_error() {
    // 0x40 is not in the known set: it decodes to the raw passthrough value
    let data = &[
        1, 1, 0, 0, 0, 0, 0, 0, 4, 0x40, 0x00, 0x01, b'x', 0x00, 0x02, 0xab, 0xcd, 3,
    ];
    let res = IppParser::new(data).parse().unwrap();
    let attr = res
        .attributes
        .get(DelimiterTag::PrinterAttributes, b"x")
        .unwrap();
    assert_eq!(
        *attr.value(),
        IppValue::Other {
            tag: 0x40,
            data: vec![0xab, 0xcd]
        }
    );
}

#[test]
fn test_parse_nested_collection() {
    // a collection holding an integer and an inner one-keyword collection
    let data = &[
        1, 1, 0, 0, 0, 0, 0, 0, 4, //
        0x34, 0, 1, b'n', 0, 0, // "n" begins a collection
        0x21, 0, 0, 0, 4, 0, 0, 0, 7, // integer 7
        0x34, 0, 0, 0, 0, // inner collection begins
        0x44, 0, 0, 0, 2, b'h', b'i', // keyword "hi"
        0x37, 0, 0, 0, 0, // inner collection ends
        0x37, 0, 0, 0, 0, // outer collection ends
        3,
    ];
    let res = IppParser::new(data).parse().unwrap();
    let attr = res
        .attributes
        .get(DelimiterTag::PrinterAttributes, b"n")
        .unwrap();
    assert_eq!(
        *attr.value(),
        IppValue::Collection(vec![
            IppValue::Integer(7),
            IppValue::Collection(vec![IppValue::Keyword(b"hi".to_vec())]),
        ])
    );
}

#[test]
fn test_parse_groups_and_replacement() {
    // a pending attribute is committed at the next flush, under the group
    // active then; a later add of the same name replaces the earlier value
    let data = &[
        1, 1, 0, 0, 0, 0, 0, 0, //
        2, 0x21, 0, 1, b'a', 0, 4, 0, 0, 0, 1, // job group; entry a = 1
        4, 0x21, 0, 1, b'a', 0, 4, 0, 0, 0, 2, // printer group; entry a = 2
        2, 0x21, 0, 1, b'a', 0, 4, 0, 0, 0, 3, // job group; entry a = 3
        3,
    ];
    let res = IppParser::new(data).parse().unwrap();
    // a = 1 was flushed after the printer delimiter, a = 2 after the
    // second job delimiter, a = 3 at end-of-attributes
    let prt = res
        .attributes
        .get(DelimiterTag::PrinterAttributes, b"a")
        .unwrap();
    assert_eq!(*prt.value(), IppValue::Integer(1));
    let job = res.attributes.get(DelimiterTag::JobAttributes, b"a").unwrap();
    assert_eq!(*job.value(), IppValue::Integer(3));
}

#[test]
fn test_store_absent_lookups() {
    let store = IppAttributeList::new();
    assert!(store.get_group(DelimiterTag::JobAttributes).is_none());
    assert!(store.get(DelimiterTag::JobAttributes, b"missing").is_none());
}

#[test]
fn test_header_encode_then_parse() {
    let h = ipp::parser::IppHeader {
        version_major: 1,
        version_minor: 1,
        operation_status: 0x0002,
        request_id: 123,
    };
    let mut data = h.to_bytes();
    assert_eq!(data, vec![1, 1, 0, 2, 0, 0, 0, 123]);
    data.push(3);
    let res = IppParser::new(&data).parse().unwrap();
    assert_eq!(res.header, h);
}
