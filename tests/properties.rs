use fbxcel::attribute::{AttributeType, AttributeValue};
use fbxcel::error::{DataError, ErrorContainer, ErrorKind, Warning};
use fbxcel::loaders::{ArrayLoader, BinaryLoader, DirectLoader, PrimitiveLoader, StringLoader, TypeLoader};
use fbxcel::low::{ArrayAttributeEncoding, FbxVersion};
use fbxcel::parser::{from_seekable_reader, AnyParser, AnyParserError, Event, Parser, ParserState};
use fbxcel::reader::{IoError, SeekableReader};
use fbxcel::low::HeaderError;
use fbxcel::tree::{AnyTree, Tree};
use fbxcel::writer::{FbxFooter, FbxFooterPaddingLength, Writer, WriterError};

const UNKNOWN3: [u8; 16] = [
    0xf8, 0x5a, 0x8c, 0x6a, 0xde, 0xf5, 0xd9, 0x7e, 0xec, 0xe9, 0x0c, 0xe3, 0x75, 0x8f, 0x29, 0x0b,
];

fn open(bytes: Vec<u8>) -> Parser {
    match from_seekable_reader(SeekableReader::new(bytes)) {
        Ok(AnyParser::V7400(p)) => p,
        Err(e) => panic!("not parsable: {:?}", e),
    }
}

fn footer_with_padding(p: FbxFooterPaddingLength) -> FbxFooter {
    FbxFooter { unknown1: None, padding_len: p, unknown2: None, unknown3: None }
}

/// Drains a parser; returns the events as (+1 start, -1 end, 0 end of file).
fn drain(parser: &mut Parser) -> Vec<i32> {
    let mut out = Vec::new();
    loop {
        let before = parser.position();
        match parser.next_event().expect("event") {
            Event::StartNode(_) => out.push(1),
            Event::EndNode => out.push(-1),
            Event::EndOfFile(f) => {
                f.expect("footer");
                out.push(0);
                return out;
            }
        }
        assert!(parser.position() >= before);
    }
}

fn mixed_file(version: u32, enc: ArrayAttributeEncoding) -> Vec<u8> {
    let mut w = Writer::new(FbxVersion::new(version)).unwrap();
    w.new_node("Mixed").unwrap();
    let attrs = vec![
        AttributeValue::Bool(false),
        AttributeValue::I16(-7),
        AttributeValue::I32(-100000),
        AttributeValue::I64(1 << 40),
        AttributeValue::F32(2.5f32.to_bits()),
        AttributeValue::F64((-0.125f64).to_bits()),
        AttributeValue::ArrBool(vec![true, false, true]),
        AttributeValue::ArrI32(vec![-1, 0, 1]),
        AttributeValue::ArrI64(vec![i64::MIN, i64::MAX]),
        AttributeValue::ArrF32(vec![1.5f32.to_bits()]),
        AttributeValue::ArrF64(vec![3.25f64.to_bits(), 0]),
        AttributeValue::Binary(vec![0, 255]),
        AttributeValue::String("héllo".to_string()),
    ];
    for a in &attrs {
        w.append_attribute(a, enc).unwrap();
    }
    w.new_node("Child").unwrap();
    w.close_node().unwrap();
    w.close_node().unwrap();
    w.finalize(&FbxFooter::default()).unwrap()
}

#[test]
fn empty_tree_round_trip() {
    let w = Writer::new(FbxVersion::new(7400)).unwrap();
    let bytes = w.finalize(&FbxFooter::default()).unwrap();
    let mut p = open(bytes);
    match p.next_event().unwrap() {
        Event::EndOfFile(f) => {
            let f = f.expect("valid footer");
            assert_eq!(f.unknown2, vec![0u8; 4]);
            assert_eq!(f.unknown3, UNKNOWN3.to_vec());
            assert_eq!(f.fbx_version, FbxVersion::new(7400));
        }
        e => panic!("unexpected {:?}", e),
    }
    assert_eq!(p.state(), ParserState::Finished);
    assert_eq!(p.current_depth(), 0);
}

#[test]
fn events_are_balanced_and_monotonic() {
    let bytes = mixed_file(7400, ArrayAttributeEncoding::Direct);
    let mut p = open(bytes);
    let ev = drain(&mut p);
    assert_eq!(ev, vec![1, 1, -1, -1, 0]);
    let e = p.next_event().unwrap_err();
    assert_eq!(e.kind(), ErrorKind::Operation);
}

#[test]
fn mixed_tree_round_trip() {
    let bytes = mixed_file(7400, ArrayAttributeEncoding::Direct);
    let t1 = match AnyTree::from_seekable_reader(SeekableReader::new(bytes)).unwrap() {
        AnyTree::V7400(_, t, f) => {
            f.unwrap();
            t
        }
    };
    let mut w = Writer::new(FbxVersion::new(7400)).unwrap();
    w.write_tree(&t1).unwrap();
    let bytes2 = w.finalize(&FbxFooter::default()).unwrap();
    let mut p = open(bytes2);
    let (t2, f) = Tree::load(&mut p).unwrap();
    f.unwrap();
    assert!(t1.strict_eq(&t2));
    assert_eq!(t2.node_count(), 3);
    let mixed = t2.children(t2.root())[0];
    assert_eq!(t2.name(mixed), "Mixed");
    assert_eq!(t2.attributes(mixed).len(), 13);
    assert_eq!(t2.attributes(mixed)[12], AttributeValue::String("héllo".to_string()));
    assert_eq!(t2.children_by_name(mixed, "Child").len(), 1);
    assert_eq!(t2.children_by_name(mixed, "Other").len(), 0);
}

#[test]
fn header_width_boundary() {
    let a = mixed_file(7400, ArrayAttributeEncoding::Direct);
    let b = mixed_file(7500, ArrayAttributeEncoding::Direct);
    assert_eq!(b.len() > a.len(), true);
    let ta = match AnyTree::from_seekable_reader(SeekableReader::new(a)).unwrap() {
        AnyTree::V7400(v, t, _) => {
            assert_eq!(v, FbxVersion::new(7400));
            t
        }
    };
    let tb = match AnyTree::from_seekable_reader(SeekableReader::new(b)).unwrap() {
        AnyTree::V7400(v, t, _) => {
            assert_eq!(v, FbxVersion::new(7500));
            t
        }
    };
    assert!(ta.strict_eq(&tb));
}

#[test]
fn direct_and_zlib_arrays_agree() {
    let a = mixed_file(7400, ArrayAttributeEncoding::Direct);
    let z = mixed_file(7400, ArrayAttributeEncoding::Zlib);
    assert_ne!(a, z);
    let ta = match AnyTree::from_seekable_reader(SeekableReader::new(a)).unwrap() {
        AnyTree::V7400(_, t, _) => t,
    };
    let tz = match AnyTree::from_seekable_reader(SeekableReader::new(z)).unwrap() {
        AnyTree::V7400(_, t, _) => t,
    };
    assert!(ta.strict_eq(&tz));
}

fn bool_file(arr: &[u8], single: u8) -> Vec<u8> {
    // A node with a boolean array (direct) and a single boolean, raw bytes.
    let mut w = Writer::new(FbxVersion::new(7400)).unwrap();
    w.new_node("B").unwrap();
    w.append_attribute(&AttributeValue::ArrBool(vec![true; arr.len()]), ArrayAttributeEncoding::Direct)
        .unwrap();
    w.append_attribute(&AttributeValue::Bool(true), ArrayAttributeEncoding::Direct).unwrap();
    w.close_node().unwrap();
    let mut bytes = w.finalize(&FbxFooter::default()).unwrap();
    // header 27, node header 13, name 1, type code 1, array header 12
    let start = 27 + 13 + 1 + 1 + 12;
    bytes[start..start + arr.len()].copy_from_slice(arr);
    bytes[start + arr.len() + 1] = single;
    bytes
}

fn bool_warnings(bytes: Vec<u8>) -> (Vec<AttributeValue>, usize) {
    let mut p = open(bytes);
    match p.next_event().unwrap() {
        Event::StartNode(_) => {}
        e => panic!("{:?}", e),
    }
    let a = p.load_next_attribute().unwrap().unwrap();
    let b = p.load_next_attribute().unwrap().unwrap();
    (vec![a, b], p.warnings().len())
}

#[test]
fn canonical_booleans_do_not_warn() {
    let (v, n) = bool_warnings(bool_file(b"YTY", b'T'));
    assert_eq!(n, 0);
    assert_eq!(v[0], AttributeValue::ArrBool(vec![true, false, true]));
    assert_eq!(v[1], AttributeValue::Bool(false));
}

#[test]
fn odd_booleans_warn_once_per_attribute() {
    let (v, n) = bool_warnings(bool_file(b"\x01\x03\x05", b'Y'));
    assert_eq!(n, 1);
    assert_eq!(v[0], AttributeValue::ArrBool(vec![true, true, true]));
    let (_, n) = bool_warnings(bool_file(b"\x01\x03\x05", 0x01));
    assert_eq!(n, 2);
}

fn padding_result(p: FbxFooterPaddingLength) -> (bool, Vec<Warning>) {
    let w = Writer::new(FbxVersion::new(7400)).unwrap();
    let bytes = w.finalize(&footer_with_padding(p)).unwrap();
    let mut parser = open(bytes);
    match parser.next_event().unwrap() {
        Event::EndOfFile(f) => (f.is_ok(), parser.warnings().clone()),
        e => panic!("{:?}", e),
    }
}

#[test]
fn forced_footer_padding() {
    // The body before the footer is 27 + 13 + 16 = 56 bytes: aligned padding is 8.
    let (ok, warnings) = padding_result(FbxFooterPaddingLength::Forced(8));
    assert!(ok);
    assert!(warnings.is_empty());
    let (ok, warnings) = padding_result(FbxFooterPaddingLength::Forced(0));
    assert!(ok);
    assert_eq!(warnings, vec![Warning::InvalidFooterPaddingLength(8, 0)]);
    let (ok, warnings) = padding_result(FbxFooterPaddingLength::Forced(15));
    assert!(ok);
    assert_eq!(warnings, vec![Warning::InvalidFooterPaddingLength(8, 15)]);
}

#[test]
fn magic_rejection() {
    let mut bytes = b"Kaydara FBX Binary  \x00\xff\x00".to_vec();
    bytes.extend(&7400u32.to_le_bytes());
    match from_seekable_reader(SeekableReader::new(bytes)) {
        Err(AnyParserError::Header(HeaderError::MagicNotDetected)) => {}
        r => panic!("{:?}", r.map(|_| ())),
    }
}

#[test]
fn unsupported_version() {
    let mut bytes = b"Kaydara FBX Binary  \x00\x1a\x00".to_vec();
    bytes.extend(&6100u32.to_le_bytes());
    match from_seekable_reader(SeekableReader::new(bytes)) {
        Err(AnyParserError::UnsupportedVersion(6100)) => {}
        r => panic!("{:?}", r.map(|_| ())),
    }
    assert_eq!(Writer::new(FbxVersion::new(6100)).err(), Some(WriterError::UnsupportedFbxVersion(6100)));
}

#[test]
fn zlib_array() {
    let values: Vec<i32> = (1..=1000).collect();
    let mut w = Writer::new(FbxVersion::new(7400)).unwrap();
    w.new_node("A").unwrap();
    w.append_attribute(&AttributeValue::ArrI32(values.clone()), ArrayAttributeEncoding::Zlib).unwrap();
    w.close_node().unwrap();
    let bytes = w.finalize(&FbxFooter::default()).unwrap();
    // The compressed payload is much shorter than the 4000 raw bytes.
    assert!(bytes.len() < 4000);
    let mut p = open(bytes);
    match p.next_event().unwrap() {
        Event::StartNode(s) => assert_eq!(s.name, "A"),
        e => panic!("{:?}", e),
    }
    assert_eq!(p.load_next_attribute().unwrap(), Some(AttributeValue::ArrI32(values)));
}

#[test]
fn short_read_in_array() {
    let mut w = Writer::new(FbxVersion::new(7400)).unwrap();
    w.new_node("A").unwrap();
    w.append_attribute(&AttributeValue::ArrI64(vec![1, 2, 3, 4]), ArrayAttributeEncoding::Direct)
        .unwrap();
    w.close_node().unwrap();
    let bytes = w.finalize(&FbxFooter::default()).unwrap();
    // header 27, node header 13, name 1, type code 1, array header 12, then 32 payload bytes
    let cut = 27 + 13 + 1 + 1 + 12 + 16;
    let mut p = open(bytes[..cut].to_vec());
    match p.next_event().unwrap() {
        Event::StartNode(_) => {}
        e => panic!("{:?}", e),
    }
    let e = p.load_next_attribute().unwrap_err();
    assert_eq!(e.kind(), ErrorKind::Io);
    assert_eq!(*e.as_error(), ErrorContainer::Io(IoError::UnexpectedEof));
    let pos = e.position().clone().expect("position");
    assert_eq!(pos.attribute_index, Some(0));
    assert_eq!(pos.component_byte_pos, 27 + 13 + 1);
    assert_eq!(pos.node_path, vec!["A".to_string()]);
    assert_eq!(p.state(), ParserState::Aborted);
    assert_eq!(p.next_event().unwrap_err().kind(), ErrorKind::Operation);
}

#[test]
fn warning_to_error() {
    let w = Writer::new(FbxVersion::new(7400)).unwrap();
    let footer = FbxFooter {
        unknown1: Some(vec![0u8; 16]),
        padding_len: FbxFooterPaddingLength::Default,
        unknown2: None,
        unknown3: None,
    };
    let bytes = w.finalize(&footer).unwrap();
    let mut p = open(bytes);
    p.set_fatal_warnings(vec![Warning::UnexpectedFooterFieldValue]);
    match p.next_event().unwrap() {
        Event::EndOfFile(Err(e)) => {
            assert_eq!(*e.as_error(), ErrorContainer::Warning(Warning::UnexpectedFooterFieldValue));
        }
        e => panic!("{:?}", e),
    }
    assert_eq!(p.state(), ParserState::Aborted);
}

#[test]
fn tolerated_footer_warning() {
    let w = Writer::new(FbxVersion::new(7400)).unwrap();
    let footer = FbxFooter {
        unknown1: Some(vec![0u8; 16]),
        padding_len: FbxFooterPaddingLength::Default,
        unknown2: None,
        unknown3: None,
    };
    let bytes = w.finalize(&footer).unwrap();
    let mut p = open(bytes);
    match p.next_event().unwrap() {
        Event::EndOfFile(Ok(_)) => {}
        e => panic!("{:?}", e),
    }
    assert_eq!(p.warnings().clone(), vec![Warning::UnexpectedFooterFieldValue]);
    assert_eq!(p.state(), ParserState::Finished);
}

#[test]
fn writer_errors() {
    let mut w = Writer::new(FbxVersion::new(7400)).unwrap();
    assert_eq!(w.close_node(), Err(WriterError::NoNodesToClose));
    let long = "x".repeat(256);
    assert_eq!(w.new_node(&long), Err(WriterError::NodeNameTooLong(256)));
    w.new_node("Open").unwrap();
    assert_eq!(w.finalize(&FbxFooter::default()).err(), Some(WriterError::UnclosedNode(1)));
}

#[test]
fn leaf_with_attributes_has_no_end_marker() {
    let mut w = Writer::new(FbxVersion::new(7400)).unwrap();
    w.new_node("L").unwrap();
    w.append_attribute(&AttributeValue::I32(5), ArrayAttributeEncoding::Direct).unwrap();
    w.close_node().unwrap();
    let bytes = w.sink().clone();
    // header 27, node header 13, name 1, attribute 5; no end marker
    assert_eq!(bytes.len(), 27 + 13 + 1 + 5);
    // end offset, attribute count, attribute length
    assert_eq!(&bytes[27..31], &46u32.to_le_bytes());
    assert_eq!(&bytes[31..35], &1u32.to_le_bytes());
    assert_eq!(&bytes[35..39], &5u32.to_le_bytes());
    assert_eq!(bytes[39], 1);
}

#[test]
fn unread_attributes_are_skipped() {
    let bytes = mixed_file(7500, ArrayAttributeEncoding::Zlib);
    let mut p = open(bytes);
    match p.next_event().unwrap() {
        Event::StartNode(s) => assert_eq!(s.attribute_count, 13),
        e => panic!("{:?}", e),
    }
    assert_eq!(p.load_next_attribute().unwrap(), Some(AttributeValue::Bool(false)));
    assert_eq!(p.rest_count(), 12);
    match p.next_event().unwrap() {
        Event::StartNode(s) => assert_eq!(s.name, "Child"),
        e => panic!("{:?}", e),
    }
}

#[test]
fn attribute_type_codes() {
    let codes = b"CYILFDbildfRS";
    for &c in codes.iter() {
        let t = AttributeType::from_type_code(c).unwrap();
        assert_eq!(t.type_code(), c);
    }
    assert!(AttributeType::from_type_code(b'x').is_err());
    assert_eq!(ArrayAttributeEncoding::from_u32(1).unwrap(), ArrayAttributeEncoding::Zlib);
    assert!(ArrayAttributeEncoding::from_u32(2).is_err());
}

#[test]
fn builtin_loaders() {
    use_loaders();
}

fn use_loaders() {
    let bytes = mixed_file(7400, ArrayAttributeEncoding::Direct);
    let mut p = open(bytes);
    match p.next_event().unwrap() {
        Event::StartNode(_) => {}
        e => panic!("{:?}", e),
    }
    let mut values = Vec::new();
    while let Some(v) = p.load_next_attribute().unwrap() {
        values.push(v);
    }
    assert_eq!(values.len(), 13);
    assert_eq!(TypeLoader.load(&values[2]), AttributeType::I32);
    assert_eq!(DirectLoader.load(values[1].clone()), AttributeValue::I16(-7));
    let prim = PrimitiveLoader::new(AttributeType::I64);
    assert_eq!(prim.load(values[3].clone()), Ok(AttributeValue::I64(1 << 40)));
    assert_eq!(
        prim.load(values[2].clone()),
        Err(DataError::UnexpectedAttribute(AttributeType::I64, AttributeType::I32))
    );
    let arr = ArrayLoader::new(AttributeType::ArrI32);
    assert_eq!(arr.load(values[7].clone()), Ok(AttributeValue::ArrI32(vec![-1, 0, 1])));
    assert!(arr.load(values[8].clone()).is_err());
    assert_eq!(BinaryLoader.load(values[11].clone()), Ok(vec![0u8, 255]));
    assert_eq!(
        BinaryLoader.load(values[12].clone()),
        Err(DataError::UnexpectedAttribute(AttributeType::Binary, AttributeType::String))
    );
    assert_eq!(StringLoader.load(values[12].clone()), Ok("héllo".to_string()));
    assert!(StringLoader.load(values[0].clone()).is_err());
}

#[test]
fn tree_traversal() {
    let mut t = Tree::new();
    let root = t.root();
    let a = t.append_child(root, "A");
    let b = t.append_child(root, "B");
    let a1 = t.append_child(a, "A1");
    let c = t.append_child(root, "A");
    assert_eq!(t.node_count(), 5);
    assert_eq!(t.first_child(root), Some(a));
    assert_eq!(t.last_child(root), Some(c));
    assert_eq!(t.next_sibling(a), Some(b));
    assert_eq!(t.next_sibling(b), Some(c));
    assert_eq!(t.next_sibling(c), None);
    assert_eq!(t.previous_sibling(c), Some(b));
    assert_eq!(t.previous_sibling(a), None);
    assert_eq!(t.parent(a1), Some(a));
    assert_eq!(t.parent(root), None);
    assert_eq!(t.first_child(a), Some(a1));
    assert_eq!(t.last_child(a1), None);
    assert_eq!(t.children(root), vec![a, b, c]);
    assert_eq!(t.children_by_name(root, "A"), vec![a, c]);
    assert_eq!(t.name(a1), "A1");
    assert_eq!(t.name(root), "");
    assert_eq!(a1.index(), 3);
}

#[test]
fn write_tree_follows_links() {
    let mut t = Tree::new();
    let root = t.root();
    let a = t.append_child(root, "A");
    let b = t.append_child(root, "B");
    let a1 = t.append_child(a, "A1");
    t.append_attribute(a1, AttributeValue::I32(7));
    t.append_attribute(b, AttributeValue::String("b".to_string()));
    let mut w = Writer::new(FbxVersion::new(7400)).unwrap();
    w.write_tree(&t).unwrap();
    let bytes = w.finalize(&FbxFooter::default()).unwrap();
    let mut p = open(bytes);
    let (t2, f) = Tree::load(&mut p).unwrap();
    f.unwrap();
    let r2 = t2.root();
    let top = t2.children(r2);
    assert_eq!(top.len(), 2);
    assert_eq!(t2.name(top[0]), "A");
    assert_eq!(t2.name(top[1]), "B");
    assert_eq!(t2.attributes(top[1]).clone(), vec![AttributeValue::String("b".to_string())]);
    let under_a = t2.children(top[0]);
    assert_eq!(under_a.len(), 1);
    assert_eq!(t2.name(under_a[0]), "A1");
    assert_eq!(t2.attributes(under_a[0]).clone(), vec![AttributeValue::I32(7)]);
    // The loaded tree numbers nodes depth first.
    assert_eq!(under_a[0].index(), 2);
}

#[test]
fn footer_warning_positions() {
    let w = Writer::new(FbxVersion::new(7400)).unwrap();
    let footer = FbxFooter {
        unknown1: Some(vec![0u8; 16]),
        padding_len: FbxFooterPaddingLength::Default,
        unknown2: None,
        unknown3: None,
    };
    let bytes = w.finalize(&footer).unwrap();
    // header 27, root end marker 13: the footer starts at 40
    let mut p = open(bytes.clone());
    match p.next_event().unwrap() {
        Event::EndOfFile(Ok(_)) => {}
        e => panic!("{:?}", e),
    }
    assert_eq!(p.warning_positions().len(), 1);
    assert_eq!(p.warning_positions()[0].byte_pos, 40);
    assert_eq!(p.warning_positions()[0].component_byte_pos, 40);

    let mut p = open(bytes);
    p.set_fatal_warnings(vec![Warning::UnexpectedFooterFieldValue]);
    match p.next_event().unwrap() {
        Event::EndOfFile(Err(e)) => {
            let pos = e.position().clone().expect("position");
            assert_eq!(pos.byte_pos, 40);
            assert_eq!(pos.component_byte_pos, 40);
        }
        e => panic!("{:?}", e),
    }
}

#[test]
fn writer_errors_leave_bytes_alone() {
    let mut w = Writer::new(FbxVersion::new(7400)).unwrap();
    let before = w.sink().clone();
    assert_eq!(w.close_node(), Err(WriterError::NoNodesToClose));
    assert_eq!(w.sink().clone(), before);
    w.new_node("N").unwrap();
    let before = w.sink().clone();
    assert!(w.append_attribute(&AttributeValue::I32(1), ArrayAttributeEncoding::Direct).is_ok());
    assert_ne!(w.sink().clone(), before);
    let empty = Tree::new();
    let mut w2 = Writer::new(FbxVersion::new(7500)).unwrap();
    assert!(w2.write_tree(&empty).is_ok());
}

#[test]
fn bad_type_code_is_reported_at_attribute() {
    let mut w = Writer::new(FbxVersion::new(7400)).unwrap();
    w.new_node("A").unwrap();
    w.append_attribute(&AttributeValue::I32(5), ArrayAttributeEncoding::Direct).unwrap();
    w.close_node().unwrap();
    let mut bytes = w.finalize(&FbxFooter::default()).unwrap();
    // header 27, node header 13, name 1: the attribute starts at 41
    bytes[41] = b'x';
    let mut p = open(bytes);
    match p.next_event().unwrap() {
        Event::StartNode(_) => {}
        e => panic!("{:?}", e),
    }
    let e = p.load_next_attribute().unwrap_err();
    assert_eq!(*e.as_error(), ErrorContainer::Data(DataError::InvalidAttributeTypeCode(b'x')));
    let pos = e.position().clone().expect("position");
    assert_eq!(pos.component_byte_pos, 41);
    assert_eq!(pos.attribute_index, Some(0));
    assert_eq!(p.total_count(), 1);
}
