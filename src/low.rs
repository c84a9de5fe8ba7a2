//! Low-level wire records of the binary FBX format.
use vstd::prelude::*;
use crate::reader::{IoError, SeekableReader};
use crate::wire::{bytes_eq, le_u32, put_u32, u32_bytes};

verus! {

/// An FBX version number, such as 7400 for 7.4.
#[derive(Debug, Clone, Copy, PartialEq, Eq, Structural)]
pub struct FbxVersion {
    raw: u32,
}

impl FbxVersion {
    pub closed spec fn spec_raw(&self) -> u32 {
        self.raw
    }

    pub fn new(raw: u32) -> (r: Self)
        ensures
            r.spec_raw() == raw,
    {
        FbxVersion { raw }
    }

    /// Returns the raw version number.
    pub fn raw(&self) -> (r: u32)
        ensures
            r == self.spec_raw(),
    {
        self.raw
    }

    /// Returns the major version, the thousands of the raw number.
    pub fn major(&self) -> (r: u32)
        ensures
            r == self.spec_raw() / 1000,
    {
        self.raw / 1000
    }

    /// Whether node headers of this version use 64-bit fields.
    pub open spec fn spec_wide_headers(&self) -> bool {
        self.spec_raw() >= 7500
    }
}

/// Length of the magic at the start of every file.
pub const MAGIC_LEN: usize = 23;

/// The magic at the start of every file: `Kaydara FBX Binary  \x00\x1a\x00`.
pub open spec fn magic() -> Seq<u8> {
    seq![
        0x4bu8, 0x61, 0x79, 0x64, 0x61, 0x72, 0x61, 0x20, 0x46, 0x42, 0x58, 0x20,
        0x42, 0x69, 0x6e, 0x61, 0x72, 0x79, 0x20, 0x20, 0x00, 0x1a, 0x00,
    ]
}

/// Returns the magic bytes.
pub fn magic_bytes() -> (r: Vec<u8>)
    ensures
        r@ == magic(),
{
    let r: Vec<u8> = vec![
        0x4bu8, 0x61, 0x79, 0x64, 0x61, 0x72, 0x61, 0x20, 0x46, 0x42, 0x58, 0x20,
        0x42, 0x69, 0x6e, 0x61, 0x72, 0x79, 0x20, 0x20, 0x00, 0x1a, 0x00,
    ];
    assert(r@ =~= magic());
    r
}

/// Why a file header could not be read.
#[derive(Debug, Clone, Copy, PartialEq, Eq, Structural)]
pub enum HeaderError {
    /// The source failed.
    Io(IoError),
    /// The first bytes are not the FBX magic.
    MagicNotDetected,
}

/// The file header: magic and version.
#[derive(Debug, Clone, Copy, PartialEq, Eq, Structural)]
pub struct FbxHeader {
    version: FbxVersion,
}

impl FbxHeader {
    pub closed spec fn spec_version(&self) -> FbxVersion {
        self.version
    }

    /// Reads the header: the magic, then the little-endian version.
    ///
    /// When the magic differs, no byte past the magic is read.
    pub fn load(reader: &mut SeekableReader) -> (r: Result<FbxHeader, HeaderError>)
        requires
            old(reader).wf(),
        ensures
            final(reader).wf(),
            final(reader).bytes() == old(reader).bytes(),
            final(reader).offset() == old(reader).offset(),
            final(reader).pos() >= old(reader).pos(),
            ({
                let rest = old(reader).rest();
                match r {
                    Ok(h) => {
                        &&& rest.len() >= 27
                        &&& rest.subrange(0, 23) == magic()
                        &&& h.spec_version().spec_raw() as nat == le_u32(rest, 23)
                        &&& final(reader).pos() == old(reader).pos() + 27
                    },
                    Err(HeaderError::MagicNotDetected) => {
                        &&& rest.len() >= 23
                        &&& rest.subrange(0, 23) != magic()
                        &&& final(reader).pos() <= old(reader).pos() + 23
                    },
                    Err(HeaderError::Io(e)) => {
                        &&& e == IoError::UnexpectedEof
                        &&& (rest.len() < 23 || (rest.subrange(0, 23) == magic() && rest.len()
                            < 27))
                    },
                }
            }),
    {
        let ghost rest = reader.rest();
        let buf = match reader.read_exact(MAGIC_LEN) {
            Ok(b) => b,
            Err(e) => return Err(HeaderError::Io(e)),
        };
        let m = magic_bytes();
        if !bytes_eq(&buf, &m) {
            return Err(HeaderError::MagicNotDetected);
        }
        let ghost mid = reader.rest();
        let v = match reader.read_u32() {
            Ok(v) => v,
            Err(e) => return Err(HeaderError::Io(e)),
        };
        assert(le_u32(mid, 0) == le_u32(rest, 23));
        Ok(FbxHeader { version: FbxVersion::new(v) })
    }

    /// Returns the FBX version.
    pub fn version(&self) -> (r: FbxVersion)
        ensures
            r == self.spec_version(),
    {
        self.version
    }

    /// Returns the header length in bytes.
    pub fn len(&self) -> (r: usize)
        ensures
            r == 27,
    {
        MAGIC_LEN + 4
    }
}

/// Encoding of an array attribute's payload.
#[derive(Debug, Clone, Copy, PartialEq, Eq, Structural)]
pub enum ArrayAttributeEncoding {
    /// Raw little-endian elements.
    Direct,
    /// A zlib stream, with its header, of the raw elements.
    Zlib,
}

/// Errors of the low-level records.
#[derive(Debug, Clone, Copy, PartialEq, Eq, Structural)]
pub enum LowError {
    /// The source failed.
    Io(IoError),
    /// An array encoding other than 0 or 1.
    InvalidArrayAttributeEncoding(u32),
    /// An unknown attribute type code.
    InvalidAttributeTypeCode(u8),
}

pub open spec fn encoding_of(v: u32) -> Option<ArrayAttributeEncoding> {
    if v == 0 {
        Some(ArrayAttributeEncoding::Direct)
    } else if v == 1 {
        Some(ArrayAttributeEncoding::Zlib)
    } else {
        None
    }
}

impl ArrayAttributeEncoding {
    pub open spec fn spec_to_u32(self) -> u32 {
        match self {
            ArrayAttributeEncoding::Direct => 0,
            ArrayAttributeEncoding::Zlib => 1,
        }
    }

    /// Reads a raw encoding value: 0 is direct, 1 is zlib.
    pub fn from_u32(v: u32) -> (r: Result<Self, LowError>)
        ensures
            match encoding_of(v) {
                Some(e) => r == Ok::<Self, LowError>(e),
                None => r == Err::<Self, LowError>(LowError::InvalidArrayAttributeEncoding(v)),
            },
    {
        match v {
            0 => Ok(ArrayAttributeEncoding::Direct),
            1 => Ok(ArrayAttributeEncoding::Zlib),
            v => Err(LowError::InvalidArrayAttributeEncoding(v)),
        }
    }

    /// Returns the raw encoding value.
    pub fn to_u32(self) -> (r: u32)
        ensures
            r == self.spec_to_u32(),
            encoding_of(r) == Some(self),
    {
        match self {
            ArrayAttributeEncoding::Direct => 0,
            ArrayAttributeEncoding::Zlib => 1,
        }
    }
}

/// The 12-byte header of an array attribute.
#[derive(Debug, Clone, Copy, PartialEq, Eq, Structural)]
pub struct ArrayAttributeHeader {
    /// Number of elements.
    pub elements_count: u32,
    /// Encoding of the payload.
    pub encoding: ArrayAttributeEncoding,
    /// Payload length in bytes.
    pub bytelen: u32,
}

impl ArrayAttributeHeader {
    /// The wire bytes of the header.
    pub open spec fn spec_bytes(&self) -> Seq<u8> {
        u32_bytes(self.elements_count as nat) + u32_bytes(self.encoding.spec_to_u32() as nat)
            + u32_bytes(self.bytelen as nat)
    }

    /// Appends the wire bytes of the header.
    pub fn write(&self, out: &mut Vec<u8>)
        ensures
            final(out)@ == old(out)@ + self.spec_bytes(),
    {
        put_u32(out, self.elements_count);
        put_u32(out, self.encoding.to_u32());
        put_u32(out, self.bytelen);
        assert(final(out)@ =~= old(out)@ + self.spec_bytes());
    }
}

/// The 4-byte header of a binary or string attribute.
#[derive(Debug, Clone, Copy, PartialEq, Eq, Structural)]
pub struct SpecialAttributeHeader {
    /// Payload length in bytes.
    pub bytelen: u32,
}

/// A node header. All fields zero marks the end of a sibling list.
#[derive(Debug, Clone, Copy, PartialEq, Eq, Structural)]
pub struct NodeHeader {
    /// Absolute position just past the node.
    pub end_offset: u64,
    /// Number of attributes.
    pub num_attributes: u64,
    /// Length of the attributes in bytes.
    pub bytelen_attributes: u64,
    /// Length of the node name in bytes.
    pub bytelen_name: u8,
}

impl NodeHeader {
    pub open spec fn spec_is_node_end(&self) -> bool {
        &&& self.end_offset == 0
        &&& self.num_attributes == 0
        &&& self.bytelen_attributes == 0
        &&& self.bytelen_name == 0
    }

    /// Whether this header is a node end marker.
    pub fn is_node_end(&self) -> (r: bool)
        ensures
            r == self.spec_is_node_end(),
    {
        self.end_offset == 0 && self.num_attributes == 0 && self.bytelen_attributes == 0
            && self.bytelen_name == 0
    }

    /// Returns the node end marker.
    pub fn node_end() -> (r: Self)
        ensures
            r.spec_is_node_end(),
    {
        NodeHeader { end_offset: 0, num_attributes: 0, bytelen_attributes: 0, bytelen_name: 0 }
    }
}

/// Length of a node header: 13 bytes before 7.5, 25 from 7.5 on.
pub open spec fn node_header_len(wide: bool) -> nat {
    if wide {
        25
    } else {
        13
    }
}

/// The fixed 16 bytes that end an official footer.
pub open spec fn unknown3_expected() -> Seq<u8> {
    seq![
        0xf8u8, 0x5a, 0x8c, 0x6a, 0xde, 0xf5, 0xd9, 0x7e, 0xec, 0xe9, 0x0c, 0xe3, 0x75, 0x8f,
        0x29, 0x0b,
    ]
}

/// The upper four bits of each byte of an official footer's first field.
pub open spec fn unknown1_pattern() -> Seq<u8> {
    seq![
        0xf0u8, 0xb0, 0xa0, 0x00, 0xd0, 0xc0, 0xd0, 0x60, 0xb0, 0x70, 0xf0, 0x80, 0x10, 0xf0,
        0x20, 0x70,
    ]
}

/// Returns the fixed trailer of an official footer.
pub fn unknown3_expected_bytes() -> (r: Vec<u8>)
    ensures
        r@ == unknown3_expected(),
{
    let r: Vec<u8> = vec![
        0xf8u8, 0x5a, 0x8c, 0x6a, 0xde, 0xf5, 0xd9, 0x7e, 0xec, 0xe9, 0x0c, 0xe3, 0x75, 0x8f,
        0x29, 0x0b,
    ];
    assert(r@ =~= unknown3_expected());
    r
}

/// Returns the upper-nibble pattern of an official footer's first field.
pub fn unknown1_pattern_bytes() -> (r: Vec<u8>)
    ensures
        r@ == unknown1_pattern(),
{
    let r: Vec<u8> = vec![
        0xf0u8, 0xb0, 0xa0, 0x00, 0xd0, 0xc0, 0xd0, 0x60, 0xb0, 0x70, 0xf0, 0x80, 0x10, 0xf0,
        0x20, 0x70,
    ];
    assert(r@ =~= unknown1_pattern());
    r
}

/// A parsed file footer.
#[derive(Debug, Clone, PartialEq, Eq)]
pub struct FbxFooter {
    /// Sixteen quasi-random bytes.
    pub unknown1: Vec<u8>,
    /// Number of zero bytes of padding, below 16.
    pub padding_len: u8,
    /// Four bytes, zero in a valid footer.
    pub unknown2: Vec<u8>,
    /// The version again, equal to the header's.
    pub fbx_version: FbxVersion,
    /// The fixed trailer.
    pub unknown3: Vec<u8>,
}

} // verus!
