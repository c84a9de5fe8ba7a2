use fbxcel::attribute::AttributeValue;
use fbxcel::error::{DataError, ErrorContainer, ErrorKind, Warning};
use fbxcel::low::{ArrayAttributeEncoding, FbxHeader, FbxVersion, HeaderError};
use fbxcel::parser::{from_seekable_reader, AnyParser, AnyParserError, Event, Parser, ParserState};
use fbxcel::reader::{IoError, SeekableReader};
use fbxcel::tree::{AnyTree, Tree};
use fbxcel::writer::{FbxFooter, FbxFooterPaddingLength, Writer, WriterError};

const MAGIC: &[u8; 23] = b"Kaydara FBX Binary  \x00\x1a\x00";
const CUSTOM_UNKNOWN1: [u8; 16] = [
    0xff, 0xbe, 0xad, 0x0c, 0xdb, 0xcf, 0xd5, 0x6f, 0xbb, 0x7f, 0xfe, 0x8f, 0x1e, 0xf3, 0x20,
    0x7a,
];
const UNKNOWN3: [u8; 16] = [
    0xf8, 0x5a, 0x8c, 0x6a, 0xde, 0xf5, 0xd9, 0x7e, 0xec, 0xe9, 0x0c, 0xe3, 0x75, 0x8f, 0x29, 0x0b,
];

fn parser_of(bytes: Vec<u8>) -> Parser {
    match from_seekable_reader(SeekableReader::new(bytes)) {
        Ok(AnyParser::V7400(p)) => p,
        Err(e) => panic!("Generated data should be parsable with v7400 parser: {:?}", e),
    }
}

fn expect_node_start(parser: &mut Parser, name: &str) -> u64 {
    match parser.next_event().expect("event") {
        Event::StartNode(s) => {
            assert_eq!(s.name, name);
            s.attribute_count
        }
        e => panic!("expected start of {}, got {:?}", name, e),
    }
}

fn expect_node_end(parser: &mut Parser) {
    match parser.next_event().expect("event") {
        Event::EndNode => {}
        e => panic!("expected node end, got {:?}", e),
    }
}

fn expect_fbx_end(parser: &mut Parser) -> Result<fbxcel::low::FbxFooter, fbxcel::error::Error> {
    match parser.next_event().expect("event") {
        Event::EndOfFile(f) => f,
        e => panic!("expected end of file, got {:?}", e),
    }
}

fn node(w: &mut Writer, name: &str, attrs: &[AttributeValue]) {
    w.new_node(name).expect("node");
    for a in attrs {
        w.append_attribute(a, ArrayAttributeEncoding::Direct).expect("attribute");
    }
}

fn close(w: &mut Writer) {
    w.close_node().expect("close");
}

/// Node0{Node0_0{}, Node0_1{}} Node1[true]{Node1_0[a, b]{} Node1_1[&[1,2,4,8,16], "Hello, world"]{}}
fn write_sample(w: &mut Writer, first: AttributeValue) {
    node(w, "Node0", &[]);
    node(w, "Node0_0", &[]);
    close(w);
    node(w, "Node0_1", &[]);
    close(w);
    close(w);
    node(w, "Node1", &[AttributeValue::Bool(true)]);
    node(w, "Node1_0", &[first, AttributeValue::F64(1.234f64.to_bits())]);
    close(w);
    node(w, "Node1_1", &[]);
    w.append_binary_direct(&[1u8, 2, 4, 8, 16]).expect("binary");
    w.append_string_direct("Hello, world").expect("string");
    close(w);
    close(w);
}

fn sample_tree() -> Tree {
    let mut t = Tree::new();
    let root = t.root();
    let n0 = t.append_child(root, "Node0");
    t.append_child(n0, "Node0_0");
    t.append_child(n0, "Node0_1");
    let n1 = t.append_child(root, "Node1");
    t.append_attribute(n1, AttributeValue::Bool(true));
    let n10 = t.append_child(n1, "Node1_0");
    t.append_attribute(n10, AttributeValue::I32(42));
    t.append_attribute(n10, AttributeValue::F64(1.234f64.to_bits()));
    let n11 = t.append_child(n1, "Node1_1");
    t.append_attribute(n11, AttributeValue::Binary(vec![1u8, 2, 4, 8, 16]));
    t.append_attribute(n11, AttributeValue::String("Hello, world".to_string()));
    t
}

#[test]
fn read() {
    let orig: Vec<u8> = (0..=255).collect();
    let mut reader = SeekableReader::new(orig);
    assert_eq!(
        reader.position(),
        0,
        "`PositionCacheReader::new()` should return a reader with position 0"
    );
    let buf = reader.read(128);
    assert!(!buf.is_empty());
    assert_eq!(buf, (0..buf.len() as u8).collect::<Vec<u8>>());
    assert_eq!(reader.position() as usize, buf.len());
}

#[test]
fn read_with_offset() {
    const OFFSET: u64 = 60;
    let orig: Vec<u8> = (0..=255).collect();
    let mut reader = SeekableReader::with_offset(orig, OFFSET);
    assert_eq!(reader.position(), OFFSET);
    let buf = reader.read(128);
    assert!(!buf.is_empty());
    assert_eq!(buf, (0..buf.len() as u8).collect::<Vec<u8>>());
    assert_eq!(reader.position() as usize, OFFSET as usize + buf.len());
}

#[test]
fn header_ok() {
    let raw_header = b"Kaydara FBX Binary  \x00\x1a\x00\xe8\x1c\x00\x00";
    let mut reader = SeekableReader::new(raw_header.to_vec());
    let header = FbxHeader::load(&mut reader).expect("Should never fail");
    assert_eq!(
        header.version(),
        FbxVersion::new(7400),
        "Header and version should be detected correctly"
    );
    assert_eq!(
        reader.position() as usize,
        raw_header.len(),
        "Header should be read completely"
    );
}

#[test]
fn magic_ng() {
    let wrong_header = b"Kaydara FBX Binary  \x00\xff\x00\xe8\x1c\x00\x00";
    let mut reader = SeekableReader::new(wrong_header.to_vec());
    assert!(
        matches!(FbxHeader::load(&mut reader), Err(HeaderError::MagicNotDetected)),
        "Invalid magic should be reported by `MagicNotDetected`"
    );
    assert!(
        (reader.position() as usize) < wrong_header.len(),
        "Header should not be read too much if the magic is not detected"
    );
}

#[test]
fn empty_writer() {
    let writer = Writer::new(FbxVersion::new(7400)).expect("writer");
    let _buf = writer.finalize(&FbxFooter::default()).expect("finalize");
}

#[test]
fn empty_node() {
    let mut writer = Writer::new(FbxVersion::new(7400)).expect("writer");
    node(&mut writer, "Hello", &[]);
    close(&mut writer);
    node(&mut writer, "World", &[]);
    close(&mut writer);
    let _buf = writer.finalize(&FbxFooter::default()).expect("finalize");
}

#[test]
fn nested_node() {
    let mut w = Writer::new(FbxVersion::new(7400)).expect("writer");
    node(&mut w, "Hello", &[]);
    node(&mut w, "Hello1", &[]);
    close(&mut w);
    node(&mut w, "Hello2", &[]);
    close(&mut w);
    close(&mut w);
    node(&mut w, "World", &[]);
    node(&mut w, "World1", &[]);
    node(&mut w, "World1_1", &[]);
    close(&mut w);
    node(&mut w, "World1_2", &[]);
    close(&mut w);
    close(&mut w);
    node(&mut w, "World2", &[]);
    close(&mut w);
    close(&mut w);
    let _buf = w.finalize(&FbxFooter::default()).expect("finalize");
}

#[test]
fn nested_node_with_attrs() {
    let mut w = Writer::new(FbxVersion::new(7400)).expect("writer");
    node(&mut w, "Hello", &[]);
    node(&mut w, "Hello1", &[AttributeValue::String("string".to_string())]);
    close(&mut w);
    node(&mut w, "Hello2", &[AttributeValue::F32(1.234f32.to_bits()), AttributeValue::I64(42)]);
    close(&mut w);
    close(&mut w);
    node(&mut w, "World", &[]);
    node(&mut w, "World1", &[]);
    node(
        &mut w,
        "World1_1",
        &[AttributeValue::String("Hello".to_string()), AttributeValue::I32(42)],
    );
    close(&mut w);
    node(&mut w, "World1_2", &[]);
    close(&mut w);
    close(&mut w);
    node(&mut w, "World2", &[]);
    close(&mut w);
    close(&mut w);
    let _buf = w.finalize(&FbxFooter::default()).expect("finalize");
}

#[test]
fn empty_write_v7400() {
    let writer = Writer::new(FbxVersion::new(7400)).expect("writer");
    let footer = FbxFooter {
        unknown1: Some(CUSTOM_UNKNOWN1.to_vec()),
        padding_len: FbxFooterPaddingLength::Default,
        unknown2: None,
        unknown3: None,
    };
    let dest = writer.finalize(&footer).expect("finalize");

    let expected = {
        let raw_ver = 7400u32;
        let mut vec = Vec::new();
        vec.extend(MAGIC);
        vec.extend(&raw_ver.to_le_bytes());
        vec.extend(std::iter::repeat(0).take(4 * 3 + 1));
        vec.extend(&CUSTOM_UNKNOWN1);
        let len = vec.len().wrapping_neg() % 16;
        assert_eq!((vec.len() + len) % 16, 0);
        vec.extend(std::iter::repeat(0).take(len));
        vec.extend(&[0; 4]);
        vec.extend(&raw_ver.to_le_bytes());
        vec.extend(std::iter::repeat(0).take(120));
        vec.extend(&UNKNOWN3);
        vec
    };
    assert_eq!(dest.len() % 16, 0);
    assert_eq!(dest, expected);

    let mut parser = parser_of(dest);
    assert_eq!(parser.fbx_version(), FbxVersion::new(7400));
    let footer = expect_fbx_end(&mut parser).expect("footer");
    assert_eq!(footer.unknown1, CUSTOM_UNKNOWN1.to_vec());
    assert_eq!(footer.unknown2, vec![0u8; 4]);
    assert_eq!(footer.unknown3, UNKNOWN3.to_vec());
    assert_eq!(parser.warnings().len(), 0);
}

#[test]
fn tree_write_v7500() {
    let mut w = Writer::new(FbxVersion::new(7500)).expect("writer");
    write_sample(&mut w, AttributeValue::F64(42f64.to_bits()));
    let dest = w.finalize(&FbxFooter::default()).expect("finalize");

    let mut parser = parser_of(dest);
    assert_eq!(parser.fbx_version(), FbxVersion::new(7500));
    assert_eq!(expect_node_start(&mut parser, "Node0"), 0);
    assert_eq!(expect_node_start(&mut parser, "Node0_0"), 0);
    expect_node_end(&mut parser);
    assert_eq!(expect_node_start(&mut parser, "Node0_1"), 0);
    expect_node_end(&mut parser);
    expect_node_end(&mut parser);
    assert_eq!(expect_node_start(&mut parser, "Node1"), 1);
    assert_eq!(expect_node_start(&mut parser, "Node1_0"), 2);
    expect_node_end(&mut parser);
    assert_eq!(expect_node_start(&mut parser, "Node1_1"), 2);
    expect_node_end(&mut parser);
    expect_node_end(&mut parser);
    assert!(expect_fbx_end(&mut parser).is_ok());
    assert_eq!(parser.warnings().len(), 0);
}

#[test]
fn macro_v7400_idempotence() {
    let version = FbxVersion::new(7400);
    let mut w = Writer::new(version).expect("writer");
    write_sample(&mut w, AttributeValue::I32(42));
    let bin = w.finalize(&FbxFooter::default()).expect("finalize");

    let mut parser = parser_of(bin);
    assert_eq!(parser.fbx_version(), version);
    assert_eq!(expect_node_start(&mut parser, "Node0"), 0);
    assert_eq!(expect_node_start(&mut parser, "Node0_0"), 0);
    expect_node_end(&mut parser);
    assert_eq!(expect_node_start(&mut parser, "Node0_1"), 0);
    expect_node_end(&mut parser);
    expect_node_end(&mut parser);
    assert_eq!(expect_node_start(&mut parser, "Node1"), 1);
    assert_eq!(parser.load_next_attribute().unwrap(), Some(AttributeValue::Bool(true)));
    assert_eq!(parser.total_count(), 1);
    assert_eq!(expect_node_start(&mut parser, "Node1_0"), 2);
    assert_eq!(parser.load_next_attribute().unwrap(), Some(AttributeValue::I32(42)));
    assert_eq!(
        parser.load_next_attribute().unwrap(),
        Some(AttributeValue::F64(1.234f64.to_bits()))
    );
    assert_eq!(parser.total_count(), 2);
    expect_node_end(&mut parser);
    assert_eq!(expect_node_start(&mut parser, "Node1_1"), 2);
    assert_eq!(
        parser.load_next_attribute().unwrap(),
        Some(AttributeValue::Binary(vec![1u8, 2, 4, 8, 16]))
    );
    assert_eq!(
        parser.load_next_attribute().unwrap(),
        Some(AttributeValue::String("Hello, world".to_string()))
    );
    assert_eq!(parser.total_count(), 2);
    expect_node_end(&mut parser);
    expect_node_end(&mut parser);
    assert!(expect_fbx_end(&mut parser).is_ok());
    assert_eq!(parser.warnings().len(), 0);
}

#[test]
fn tree_write_parse_idempotence_v7500() {
    let tree1 = sample_tree();
    let mut w = Writer::new(FbxVersion::new(7500)).expect("writer");
    w.write_tree(&tree1).expect("write tree");
    let bin = w.finalize(&FbxFooter::default()).expect("finalize");

    let mut parser = parser_of(bin);
    assert_eq!(parser.fbx_version(), FbxVersion::new(7500));
    let (tree2, footer_res) = Tree::load(&mut parser).expect("load");
    assert_eq!(parser.warnings().len(), 0);
    assert!(footer_res.is_ok());
    assert!(tree1.strict_eq(&tree2));
}
