//! The pull parser: a state machine that yields node events from bytes.
use vstd::prelude::*;
use crate::attribute::{attr_error_of, parse_attr, read_attribute, string_from_utf8, AttrParse, AttributeValue};
use crate::error::{
    container_of_attr, from_attribute_error, DataError, Error, ErrorContainer, OperationError,
    SyntacticPosition, Warning,
};
use crate::low::{
    node_header_len, unknown1_pattern, unknown1_pattern_bytes, unknown3_expected,
    unknown3_expected_bytes, FbxFooter, FbxHeader, FbxVersion, HeaderError, NodeHeader,
};
use crate::reader::{IoError, SeekableReader};
use vstd::utf8::{decode_utf8, valid_utf8};
use crate::wire::{bytes_eq, get_u32, le_u32, le_u64};

verus! {

/// The state of a parser.
#[derive(Debug, Clone, Copy, PartialEq, Eq, Structural)]
pub enum ParserState {
    /// Parsing can go on.
    Healthy,
    /// The footer has been read.
    Finished,
    /// An error stopped parsing.
    Aborted,
}

/// The start of a node.
#[derive(Debug, Clone, PartialEq, Eq)]
pub struct StartNode {
    /// The node name.
    pub name: String,
    /// The number of attributes of the node.
    pub attribute_count: u64,
}

/// A parser event.
#[derive(Debug, PartialEq, Eq)]
pub enum Event {
    /// A node starts; its attributes come next.
    StartNode(StartNode),
    /// The innermost open node ends.
    EndNode,
    /// The file ends; holds the result of reading the footer.
    EndOfFile(Result<FbxFooter, Error>),
}

/// A node the parser is inside.
#[derive(Debug, Clone)]
struct OpenNode {
    name: String,
    end_offset: u64,
    has_child: bool,
    has_attributes: bool,
}

/// The node header at the front of `b`.
pub open spec fn node_header_at(b: Seq<u8>, wide: bool) -> NodeHeader {
    if wide {
        NodeHeader {
            end_offset: le_u64(b, 0) as u64,
            num_attributes: le_u64(b, 8) as u64,
            bytelen_attributes: le_u64(b, 16) as u64,
            bytelen_name: b[24],
        }
    } else {
        NodeHeader {
            end_offset: le_u32(b, 0) as u64,
            num_attributes: le_u32(b, 4) as u64,
            bytelen_attributes: le_u32(b, 8) as u64,
            bytelen_name: b[12],
        }
    }
}

/// Whether `b` starts with a footer of version `version` whose padding is
/// `pl` bytes long: 16 free bytes, `pl` zeros, 4 zeros, the version, 120
/// zeros and the fixed trailer.
pub open spec fn valid_footer(b: Seq<u8>, version: u32, pl: nat) -> bool {
    &&& pl < 16
    &&& b.len() >= 160 + pl
    &&& forall|k: int| 16 <= k < 20 + pl ==> b[k] == 0
    &&& le_u32(b, 20 + pl as int) == version
    &&& forall|k: int| 24 + pl <= k < 144 + pl ==> b[k] == 0
    &&& b.subrange(144 + pl as int, 160 + pl as int) == unknown3_expected()
}

/// Whether the first field of a footer has the official high nibbles.
pub open spec fn official_unknown1(u: Seq<u8>) -> bool {
    forall|k: int| 0 <= k < 16 ==> #[trigger] (u[k] / 16) * 16 == unknown1_pattern()[k]
}

/// The warnings after reading a footer whose first field is `u1` and whose
/// padding of `pl` bytes starts at `pos`: one for a first field without the
/// official pattern, one for a padding that does not align.
pub open spec fn footer_warnings(before: Seq<Warning>, u1: Seq<u8>, pl: nat, pos: nat) -> Seq<
    Warning,
> {
    let w1 = if official_unknown1(u1) {
        before
    } else {
        before.push(Warning::UnexpectedFooterFieldValue)
    };
    if pl == expected_padding(pos) {
        w1
    } else {
        w1.push(Warning::InvalidFooterPaddingLength(expected_padding(pos) as u64, pl as u64))
    }
}

/// The padding length that aligns the field after it, when the padding
/// starts at `pos`.
pub open spec fn expected_padding(pos: nat) -> nat {
    ((16 - pos % 16) % 16) as nat
}

/// The binary FBX 7.4/7.5 pull parser.
#[derive(Debug, Clone)]
pub struct Parser {
    reader: SeekableReader,
    fbx_version: FbxVersion,
    state: ParserState,
    open_nodes: Vec<OpenNode>,
    attr_total: u64,
    attr_rest: u64,
    next_attr_start: u64,
    attr_end: u64,
    fatal_warnings: Vec<Warning>,
    warnings: Vec<Warning>,
    warning_positions: Vec<SyntacticPosition>,
}

impl Parser {
    pub closed spec fn spec_state(&self) -> ParserState {
        self.state
    }

    /// The number of open nodes.
    pub closed spec fn depth(&self) -> nat {
        self.open_nodes@.len()
    }

    /// The declared end offsets of the open nodes, outermost first.
    pub closed spec fn end_offsets(&self) -> Seq<u64> {
        self.open_nodes@.map_values(|n: OpenNode| n.end_offset)
    }

    /// The reader position.
    pub closed spec fn pos(&self) -> nat {
        self.reader.pos()
    }

    /// The bytes not read yet.
    pub closed spec fn rest(&self) -> Seq<u8> {
        self.reader.rest()
    }

    /// All bytes of the source.
    pub closed spec fn bytes(&self) -> Seq<u8> {
        self.reader.bytes()
    }

    pub closed spec fn spec_version(&self) -> FbxVersion {
        self.fbx_version
    }

    /// Whether node headers are 64-bit wide.
    pub open spec fn wide(&self) -> bool {
        self.spec_version().spec_wide_headers()
    }

    /// Attributes of the current node.
    pub closed spec fn spec_total_count(&self) -> nat {
        self.attr_total as nat
    }

    /// Attributes of the current node not read yet.
    pub closed spec fn spec_rest_count(&self) -> nat {
        self.attr_rest as nat
    }

    /// Where the next attribute starts.
    pub closed spec fn spec_next_attr_start(&self) -> nat {
        self.next_attr_start as nat
    }

    /// Where the attributes of the current node end.
    pub closed spec fn spec_attr_end(&self) -> nat {
        self.attr_end as nat
    }

    /// Warnings reported and tolerated so far.
    pub closed spec fn spec_warnings(&self) -> Seq<Warning> {
        self.warnings@
    }

    /// Whether a warning of this kind stops parsing.
    pub open spec fn is_fatal(&self, w: Warning) -> bool {
        exists|k: int| 0 <= k < self.fatal_kinds().len() && #[trigger] self.fatal_kinds()[k].spec_same_kind(w)
    }

    /// The kinds of warning that stop parsing.
    pub closed spec fn fatal_kinds(&self) -> Seq<Warning> {
        self.fatal_warnings@
    }

    pub closed spec fn wf(&self) -> bool {
        &&& self.warning_positions@.len() == self.warnings@.len()
        &&& self.reader.wf()
        &&& self.attr_rest <= self.attr_total
    }

    /// Starts parsing after the file header, over a reader that stands just
    /// past it.
    pub fn new(reader: SeekableReader, fbx_version: FbxVersion) -> (r: Parser)
        requires
            reader.wf(),
        ensures
            r.wf(),
            r.spec_state() == ParserState::Healthy,
            r.depth() == 0,
            r.pos() == reader.pos(),
            r.rest() == reader.rest(),
            r.bytes() == reader.bytes(),
            r.spec_version() == fbx_version,
            r.spec_warnings().len() == 0,
            r.fatal_kinds().len() == 0,
    {
        let pos = reader.position();
        Parser {
            reader,
            fbx_version,
            state: ParserState::Healthy,
            open_nodes: Vec::new(),
            attr_total: 0,
            attr_rest: 0,
            next_attr_start: pos,
            attr_end: pos,
            fatal_warnings: Vec::new(),
            warnings: Vec::new(),
            warning_positions: Vec::new(),
        }
    }

    /// Makes warnings of the given kinds stop parsing; others are recorded
    /// and parsing goes on.
    pub fn set_fatal_warnings(&mut self, kinds: Vec<Warning>)
        requires
            old(self).wf(),
        ensures
            final(self).wf(),
            final(self).spec_state() == old(self).spec_state(),
            final(self).depth() == old(self).depth(),
            final(self).pos() == old(self).pos(),
            final(self).rest() == old(self).rest(),
            final(self).bytes() == old(self).bytes(),
            final(self).spec_version() == old(self).spec_version(),
            final(self).spec_warnings() == old(self).spec_warnings(),
            final(self).fatal_kinds() == kinds@,
    {
        self.fatal_warnings = kinds;
    }

    /// Returns the FBX version.
    pub fn fbx_version(&self) -> (r: FbxVersion)
        ensures
            r == self.spec_version(),
    {
        self.fbx_version
    }

    /// Returns the parser state.
    pub fn state(&self) -> (r: ParserState)
        ensures
            r == self.spec_state(),
    {
        self.state
    }

    /// Returns the reader position.
    pub fn position(&self) -> (r: u64)
        requires
            self.wf(),
        ensures
            r == self.pos(),
    {
        self.reader.position()
    }

    /// Returns the warnings reported and tolerated so far.
    pub fn warnings(&self) -> (r: &Vec<Warning>)
        ensures
            r@ == self.spec_warnings(),
    {
        &self.warnings
    }

    /// Returns where each tolerated warning arose, in the order of
    /// `warnings`.
    pub fn warning_positions(&self) -> (r: &Vec<SyntacticPosition>)
        requires
            self.wf(),
        ensures
            r@.len() == self.spec_warnings().len(),
    {
        &self.warning_positions
    }

    /// Returns the number of open nodes.
    pub fn current_depth(&self) -> (r: usize)
        ensures
            r == self.depth(),
    {
        self.open_nodes.len()
    }

    /// Returns the number of attributes of the current node.
    pub fn total_count(&self) -> (r: u64)
        ensures
            r == self.spec_total_count(),
    {
        self.attr_total
    }

    /// Returns the number of attributes of the current node not read yet.
    pub fn rest_count(&self) -> (r: u64)
        ensures
            r == self.spec_rest_count(),
    {
        self.attr_rest
    }

    fn node_path(&self) -> (r: Vec<String>)
        ensures
            r@.len() == self.open_nodes@.len(),
    {
        let mut path: Vec<String> = Vec::new();
        let mut k: usize = 0;
        while k < self.open_nodes.len()
            invariant
                k <= self.open_nodes@.len(),
                path@.len() == k,
            decreases self.open_nodes@.len() - k,
        {
            path.push(self.open_nodes[k].name.clone());
            k = k + 1;
        }
        path
    }

    fn syntactic_position(&self, component: u64, attribute_index: Option<u64>) -> (r:
        SyntacticPosition)
        requires
            self.wf(),
        ensures
            r.byte_pos == self.pos(),
            r.component_byte_pos == component,
            r.attribute_index == attribute_index,
    {
        SyntacticPosition {
            byte_pos: self.reader.position(),
            component_byte_pos: component,
            node_path: self.node_path(),
            attribute_index,
        }
    }

    /// Stops parsing with the given error.
    fn abort(&mut self, c: ErrorContainer, component: u64, attribute_index: Option<u64>) -> (r:
        Error)
        requires
            old(self).wf(),
        ensures
            *final(self) == (Parser { state: ParserState::Aborted, ..*old(self) }),
            r.container == c,
            r.position matches Some(p) && p.byte_pos == old(self).pos() && p.component_byte_pos
                == component && p.attribute_index == attribute_index,
    {
        let pos = self.syntactic_position(component, attribute_index);
        self.state = ParserState::Aborted;
        Error::with_position(c, pos)
    }

    fn fatal(&self, w: &Warning) -> (r: bool)
        ensures
            r == self.is_fatal(*w),
    {
        let mut k: usize = 0;
        while k < self.fatal_warnings.len()
            invariant
                k <= self.fatal_warnings@.len(),
                forall|j: int| 0 <= j < k ==> !self.fatal_warnings@[j].spec_same_kind(*w),
            decreases self.fatal_warnings@.len() - k,
        {
            if self.fatal_warnings[k].same_kind(w) {
                assert(self.fatal_kinds()[k as int].spec_same_kind(*w));
                return true;
            }
            k = k + 1;
        }
        false
    }

    /// Reports a warning at `byte_pos`: a fatal one aborts, another is
    /// recorded with its position.
    fn warn(
        &mut self,
        w: Warning,
        byte_pos: u64,
        component: u64,
        attribute_index: Option<u64>,
    ) -> (r: Result<(), Error>)
        requires
            old(self).wf(),
        ensures
            final(self).wf(),
            final(self).reader == old(self).reader,
            final(self).open_nodes == old(self).open_nodes,
            final(self).fatal_warnings == old(self).fatal_warnings,
            final(self).fbx_version == old(self).fbx_version,
            final(self).attr_total == old(self).attr_total,
            final(self).attr_rest == old(self).attr_rest,
            final(self).next_attr_start == old(self).next_attr_start,
            final(self).attr_end == old(self).attr_end,
            match r {
                Ok(_) => {
                    &&& !old(self).is_fatal(w)
                    &&& final(self).state == old(self).state
                    &&& final(self).warnings@ == old(self).warnings@.push(w)
                },
                Err(e) => {
                    &&& old(self).is_fatal(w)
                    &&& final(self).state == ParserState::Aborted
                    &&& final(self).warnings@ == old(self).warnings@
                    &&& e.container == ErrorContainer::Warning(w)
                    &&& e.position matches Some(p) && p.byte_pos == byte_pos
                        && p.component_byte_pos == component && p.attribute_index
                        == attribute_index
                },
            },
    {
        let pos = SyntacticPosition {
            byte_pos,
            component_byte_pos: component,
            node_path: self.node_path(),
            attribute_index,
        };
        if self.fatal(&w) {
            self.state = ParserState::Aborted;
            return Err(Error::with_position(ErrorContainer::Warning(w), pos));
        }
        self.warnings.push(w);
        self.warning_positions.push(pos);
        Ok(())
    }

    /// Reads a node header, narrow or wide by the version.
    fn read_node_header(&mut self) -> (r: Result<NodeHeader, Error>)
        requires
            old(self).wf(),
            old(self).state == ParserState::Healthy,
        ensures
            final(self).wf(),
            final(self).reader.bytes() == old(self).reader.bytes(),
            final(self).reader.offset() == old(self).reader.offset(),
            final(self).pos() >= old(self).pos(),
            final(self).open_nodes == old(self).open_nodes,
            final(self).fatal_warnings == old(self).fatal_warnings,
            final(self).warnings == old(self).warnings,
            final(self).fbx_version == old(self).fbx_version,
            final(self).attr_total == old(self).attr_total,
            final(self).attr_rest == old(self).attr_rest,
            match r {
                Ok(h) => {
                    &&& old(self).rest().len() >= node_header_len(old(self).wide())
                    &&& h == node_header_at(old(self).rest(), old(self).wide())
                    &&& final(self).pos() == old(self).pos() + node_header_len(old(self).wide())
                    &&& final(self).state == old(self).state
                    &&& final(self).next_attr_start == old(self).next_attr_start
                    &&& final(self).attr_end == old(self).attr_end
                },
                Err(e) => {
                    &&& old(self).rest().len() < node_header_len(old(self).wide())
                    &&& final(self).state == ParserState::Aborted
                    &&& e.container == ErrorContainer::Io(IoError::UnexpectedEof)
                },
            },
    {
        let start = self.reader.position();
        let wide = self.fbx_version.raw() >= 7500;
        let len: usize = if wide { 25 } else { 13 };
        let buf = match self.reader.read_exact(len) {
            Ok(b) => b,
            Err(e) => return Err(self.abort(ErrorContainer::Io(e), start, None)),
        };
        let b = buf.as_slice();
        let h = if wide {
            NodeHeader {
                end_offset: crate::wire::get_u64(b, 0),
                num_attributes: crate::wire::get_u64(b, 8),
                bytelen_attributes: crate::wire::get_u64(b, 16),
                bytelen_name: b[24],
            }
        } else {
            NodeHeader {
                end_offset: get_u32(b, 0) as u64,
                num_attributes: get_u32(b, 4) as u64,
                bytelen_attributes: get_u32(b, 8) as u64,
                bytelen_name: b[12],
            }
        };
        proof {
            let rest = old(self).rest();
            assert(buf@ =~= rest.subrange(0, len as int));
            if wide {
                assert(le_u64(buf@, 0) == le_u64(rest, 0));
                assert(le_u64(buf@, 8) == le_u64(rest, 8));
                assert(le_u64(buf@, 16) == le_u64(rest, 16));
            } else {
                assert(le_u32(buf@, 0) == le_u32(rest, 0));
                assert(le_u32(buf@, 4) == le_u32(rest, 4));
                assert(le_u32(buf@, 8) == le_u32(rest, 8));
            }
        }
        Ok(h)
    }

    /// Reads the footer that follows the root's end marker.
    #[verifier::rlimit(50)]
    fn parse_footer(&mut self) -> (r: Result<FbxFooter, Error>)
        requires
            old(self).wf(),
            old(self).state == ParserState::Healthy,
        ensures
            final(self).wf(),
            final(self).reader.bytes() == old(self).reader.bytes(),
            final(self).reader.offset() == old(self).reader.offset(),
            final(self).pos() >= old(self).pos(),
            final(self).open_nodes == old(self).open_nodes,
            final(self).fatal_warnings == old(self).fatal_warnings,
            final(self).fbx_version == old(self).fbx_version,
            final(self).attr_total == old(self).attr_total,
            final(self).attr_rest == old(self).attr_rest,
            final(self).state == ParserState::Healthy || final(self).state == ParserState::Aborted,
            final(self).state == ParserState::Aborted ==> (r matches Err(e) && e.container is Warning),
            (r matches Err(e) && e.container is Warning) ==> final(self).state
                == ParserState::Aborted,
            match r {
                Ok(f) => {
                    &&& valid_footer(old(self).rest(), old(self).fbx_version.spec_raw(), f.padding_len as nat)
                    &&& f.unknown1@ == old(self).rest().subrange(0, 16)
                    &&& f.fbx_version == old(self).fbx_version
                    &&& f.unknown2@ == seq![0u8, 0, 0, 0]
                    &&& f.unknown3@ == unknown3_expected()
                    &&& final(self).pos() == old(self).pos() + 160 + f.padding_len
                    &&& (!official_unknown1(f.unknown1@) ==> !old(self).is_fatal(
                        Warning::UnexpectedFooterFieldValue,
                    ))
                    &&& (f.padding_len != expected_padding(old(self).pos() + 16) ==> !old(self).is_fatal(
                        Warning::InvalidFooterPaddingLength(0, 0),
                    ))
                    &&& final(self).warnings@ == footer_warnings(
                        old(self).warnings@,
                        f.unknown1@,
                        f.padding_len as nat,
                        old(self).pos() + 16,
                    )
                },
                Err(_) => true,
            },
            (r matches Err(e) && e.container is Data) ==> forall|pl: nat|
                !#[trigger] valid_footer(old(self).rest(), old(self).fbx_version.spec_raw(), pl),
            (exists|pl: nat| valid_footer(old(self).rest(), old(self).fbx_version.spec_raw(), pl))
                && !old(self).is_fatal(Warning::UnexpectedFooterFieldValue)
                && !old(self).is_fatal(Warning::InvalidFooterPaddingLength(0, 0)) ==> r is Ok,
    {
        let ghost rest = self.rest();
        let ghost ver = self.fbx_version.spec_raw();
        let start = self.reader.position();
        let unknown1 = match self.reader.read_exact(16) {
            Ok(b) => b,
            Err(e) => return Err(Error::new(ErrorContainer::Io(e))),
        };
        assert(self.fatal_kinds() == old(self).fatal_kinds());
        if !is_official_unknown1(&unknown1) {
            match self.warn(Warning::UnexpectedFooterFieldValue, start, start, None) {
                Ok(_) => {},
                Err(e) => return Err(e),
            }
        }
        let buf_start = self.reader.position();
        let expected_padding_len: u64 = ((16 - buf_start % 16) % 16) as u64;
        let buf = match self.reader.read_exact(144) {
            Ok(b) => b,
            Err(e) => return Err(Error::new(ErrorContainer::Io(e))),
        };
        assert(buf@ =~= rest.subrange(16, 160));
        proof {
            if exists|q: nat| valid_footer(rest, ver, q) {
                let q = choose|q: nat| valid_footer(rest, ver, q);
                lemma_valid_footer_body(rest, ver, q);
            }
        }
        let pl = match footer_padding(&buf, self.fbx_version.raw()) {
            Some(pl) => pl,
            None => {
                proof {
                    assert forall|q: nat| !valid_footer(rest, ver, q) by {
                        if valid_footer(rest, ver, q) {
                            lemma_valid_footer_body(rest, ver, q);
                        }
                    }
                }
                return Err(Error::new(ErrorContainer::Data(DataError::BrokenFbxFooter)));
            },
        };
        let tail = match self.reader.read_exact(pl) {
            Ok(b) => b,
            Err(e) => return Err(Error::new(ErrorContainer::Io(e))),
        };
        let unknown3 = join_trailer(&buf, &tail, pl);
        assert(unknown3@ =~= rest.subrange(144 + pl as int, 160 + pl as int));
        let expected3 = unknown3_expected_bytes();
        if !bytes_eq(&unknown3, &expected3) {
            proof {
                assert forall|q: nat| !valid_footer(rest, ver, q) by {
                    if valid_footer(rest, ver, q) {
                        lemma_valid_footer_body(rest, ver, q);
                        assert(q == pl);
                    }
                }
            }
            return Err(Error::new(ErrorContainer::Data(DataError::BrokenFbxFooter)));
        }
        assert(self.fatal_kinds() == old(self).fatal_kinds());
        proof {
            lemma_fatal_same_kind(
                *self,
                Warning::InvalidFooterPaddingLength(expected_padding_len, pl as u64),
                Warning::InvalidFooterPaddingLength(0, 0),
            );
        }
        if pl as u64 != expected_padding_len {
            match self.warn(
                Warning::InvalidFooterPaddingLength(expected_padding_len, pl as u64),
                buf_start,
                start,
                None,
            ) {
                Ok(_) => {},
                Err(e) => return Err(e),
            }
        }
        proof {
            lemma_body_valid_footer(rest, ver, pl as nat);
            assert(unknown1@ =~= rest.subrange(0, 16));
        }
        let unknown2: Vec<u8> = vec![0u8, 0, 0, 0];
        Ok(FbxFooter {
            unknown1,
            padding_len: pl as u8,
            unknown2,
            fbx_version: self.fbx_version,
            unknown3,
        })
    }

    /// The postcondition shared by the steps of `next_event`.
    pub open spec fn step_frame(&self, post: &Parser) -> bool {
        &&& post.wf()
        &&& post.bytes() == self.bytes()
        &&& post.spec_version() == self.spec_version()
        &&& post.fatal_kinds() == self.fatal_kinds()
        &&& post.pos() >= self.pos()
        &&& post.limit() == self.limit()
        &&& post.origin() == self.origin()
        &&& post.pos() <= post.limit()
    }

    /// The position just past the last byte of the source.
    pub closed spec fn limit(&self) -> nat {
        self.reader.end_pos()
    }

    /// The position at which the source starts.
    pub closed spec fn origin(&self) -> nat {
        self.reader.offset()
    }

    /// The reader position stays within the source, whose length fits a
    /// `usize`.
    pub proof fn lemma_pos_within(&self)
        requires
            self.wf(),
        ensures
            self.origin() <= self.pos() <= self.limit(),
            self.limit() <= self.origin() + usize::MAX,
    {
    }

    /// What a successful `next_event` returns and how the parser moves.
    pub open spec fn event_post(&self, post: &Parser, ev: &Event) -> bool {
        let st = self.skip_target();
        let h = self.header_at(st);
        let hl = node_header_len(self.wide());
        &&& self.spec_state() == ParserState::Healthy
        &&& match ev {
            Event::StartNode(s) => {
                &&& !h.spec_is_node_end()
                &&& s.attribute_count == h.num_attributes
                &&& post.end_offsets().last() == h.end_offset
                &&& s.name@ == decode_utf8(self.bytes_from(st + hl).subrange(0, h.bytelen_name as int))
                &&& post.pos() == st + hl + h.bytelen_name
                &&& post.spec_attr_end() == post.pos() + h.bytelen_attributes
                &&& post.spec_state() == ParserState::Healthy
                &&& post.depth() == self.depth() + 1
                &&& post.end_offsets().drop_last() == self.end_offsets()
                &&& post.spec_total_count() == s.attribute_count
                &&& post.spec_rest_count() == s.attribute_count
                &&& post.pos() == post.spec_next_attr_start()
                &&& post.pos() > self.pos()
                &&& post.spec_attr_end() <= post.end_offsets().last()
                &&& (self.depth() > 0 ==> post.end_offsets().last() <= self.end_offsets().last())
                &&& (self.depth() > 0 ==> post.pos() < self.end_offsets().last())
            },
            Event::EndNode => {
                &&& (st == self.end_offsets().last() || (h.spec_is_node_end() && st + hl
                    == self.end_offsets().last()))
                &&& post.spec_state() == ParserState::Healthy
                &&& self.depth() > 0
                &&& post.depth() == self.depth() - 1
                &&& post.end_offsets() == self.end_offsets().drop_last()
                &&& post.pos() == self.end_offsets().last()
                &&& post.spec_rest_count() == 0
            },
            Event::EndOfFile(f) => {
                &&& h.spec_is_node_end()
                &&& (f matches Ok(ft) ==> valid_footer(
                    self.bytes_from(st + hl),
                    self.spec_version().spec_raw(),
                    ft.padding_len as nat,
                ) && ft.unknown1@ == self.bytes_from(st + hl).subrange(0, 16)
                    && (!official_unknown1(ft.unknown1@) ==> !self.is_fatal(
                    Warning::UnexpectedFooterFieldValue,
                )) && (ft.padding_len != expected_padding(st + hl + 16) ==> !self.is_fatal(
                    Warning::InvalidFooterPaddingLength(0, 0),
                )) && post.spec_warnings() == footer_warnings(
                    self.spec_warnings(),
                    ft.unknown1@,
                    ft.padding_len as nat,
                    st + hl + 16,
                ))
                &&& self.depth() == 0
                &&& post.depth() == 0
                &&& (post.spec_state() == ParserState::Finished || (post.spec_state()
                    == ParserState::Aborted && f is Err))
                &&& (f matches Err(e) && e.container is Warning) ==> post.spec_state()
                    == ParserState::Aborted
                &&& (f matches Err(e) && e.container is Data) ==> forall|pl: nat|
                    !#[trigger] valid_footer(self.bytes_from(st + hl), self.spec_version().spec_raw(), pl)
            },
        }
    }

    /// Where the next record starts: past the attributes of the current
    /// node that were not read.
    pub open spec fn skip_target(&self) -> nat {
        if self.depth() > 0 && self.pos() < self.spec_attr_end() {
            self.spec_attr_end()
        } else {
            self.pos()
        }
    }

    /// The node header at position `p`.
    pub open spec fn header_at(&self, p: nat) -> NodeHeader {
        node_header_at(self.bytes_from(p), self.wide())
    }

    /// Two parsers over the same source see the same bytes at every position.
    pub proof fn lemma_same_source(&self, other: &Parser)
        requires
            self.bytes() == other.bytes(),
            self.origin() == other.origin(),
        ensures
            forall|p: nat| #[trigger] self.bytes_from(p) == other.bytes_from(p),
    {
    }

    proof fn lemma_rest_is_bytes_from(&self)
        requires
            self.wf(),
        ensures
            self.rest() == self.bytes_from(self.pos()),
    {
    }

    /// Whether the name of a node with header `h` can be read from position
    /// `p` and the node's lengths agree: the name is there and is UTF-8, the
    /// attributes end by the node's end, and the node lies within its parent.
    pub open spec fn name_ready(&self, h: NodeHeader, p: nat) -> bool {
        let nb = self.bytes_from(p);
        let n = h.bytelen_name as nat;
        let body = p + n;
        &&& nb.len() >= n
        &&& valid_utf8(nb.subrange(0, n as int))
        &&& body + h.bytelen_attributes <= h.end_offset
        &&& (self.depth() > 0 ==> h.end_offset <= self.end_offsets().last() && body
            < self.end_offsets().last())
    }

    /// Whether the next record is well formed: the skipped attributes lie
    /// within the source, and what follows is the end of the innermost node,
    /// a complete end marker that closes it (or the root), or a complete node
    /// header whose name and lengths are sound.
    pub open spec fn next_ready(&self) -> bool {
        let st = self.skip_target();
        let hl = node_header_len(self.wide());
        let h = self.header_at(st);
        &&& st <= self.limit()
        &&& (self.depth() > 0 ==> st <= self.end_offsets().last())
        &&& !(self.depth() > 0 && st == self.end_offsets().last()) ==> {
            &&& self.bytes_from(st).len() >= hl
            &&& if h.spec_is_node_end() {
                self.depth() > 0 ==> st + hl == self.end_offsets().last()
            } else {
                self.name_ready(h, st + hl)
            }
        }
    }

    /// The errors that a malformed next record gives: the end of the source
    /// inside skipped attributes or inside a node header, and a record that
    /// starts past the end of the innermost node.
    pub open spec fn event_error(&self, r: Result<Event, Error>) -> bool {
        let st = self.skip_target();
        let hl = node_header_len(self.wide());
        &&& st > self.limit() ==> (r matches Err(e) && e.container == ErrorContainer::Io(
            IoError::UnexpectedEof,
        ))
        &&& (st <= self.limit() && self.depth() > 0 && st > self.end_offsets().last()) ==> (
        r matches Err(e) && e.container == ErrorContainer::Data(
            DataError::NodeLengthMismatch(self.end_offsets().last(), Some(st as u64)),
        ))
        &&& (st <= self.limit() && !(self.depth() > 0 && st >= self.end_offsets().last())
            && self.bytes_from(st).len() < hl) ==> (r matches Err(e) && e.container
            == ErrorContainer::Io(IoError::UnexpectedEof))
    }

    /// Whether none of the warnings about node structure stops parsing.
    pub open spec fn node_warnings_tolerated(&self) -> bool {
        &&& !self.is_fatal(Warning::MissingNodeEndMarker)
        &&& !self.is_fatal(Warning::ExtraNodeEndMarker)
        &&& !self.is_fatal(Warning::EmptyNodeName)
    }

    /// Skips the attributes of the current node not read yet.
    fn skip_attributes(&mut self) -> (r: Result<(), Error>)
        requires
            old(self).wf(),
            old(self).state == ParserState::Healthy,
        ensures
            old(self).step_frame(final(self)),
            final(self).open_nodes == old(self).open_nodes,
            final(self).attr_end == old(self).attr_end,
            final(self).attr_total == old(self).attr_total,
            final(self).warnings == old(self).warnings,
            r is Ok ==> final(self).state == ParserState::Healthy && final(self).attr_rest == 0
                && final(self).pos() == old(self).skip_target(),
            old(self).skip_target() <= old(self).limit() ==> r is Ok,
            old(self).skip_target() > old(self).limit() ==> (r matches Err(e) && e.container
                == ErrorContainer::Io(IoError::UnexpectedEof)),
            r is Err ==> final(self).state == ParserState::Aborted,
    {
        if self.open_nodes.len() > 0 && self.reader.position() < self.attr_end {
            let start = self.reader.position();
            match self.reader.skip_to(self.attr_end) {
                Ok(_) => {},
                Err(e) => return Err(self.abort(ErrorContainer::Io(e), start, None)),
            }
        }
        self.attr_rest = 0;
        self.next_attr_start = self.reader.position();
        Ok(())
    }

    /// Returns the next event.
    #[verifier::rlimit(80)]
    pub fn next_event(&mut self) -> (r: Result<Event, Error>)
        requires
            old(self).wf(),
        ensures
            old(self).step_frame(final(self)),
            old(self).spec_state() == ParserState::Aborted ==> (r matches Err(e) && e.container
                == ErrorContainer::Operation(OperationError::AlreadyAborted)) && *final(self) == *old(self),
            old(self).spec_state() == ParserState::Finished ==> (r matches Err(e) && e.container
                == ErrorContainer::Operation(OperationError::AlreadyFinished)) && *final(self) == *old(self),
            old(self).spec_state() == ParserState::Healthy && r is Err ==> final(self).spec_state()
                == ParserState::Aborted,
            r matches Ok(ev) ==> old(self).event_post(final(self), &ev),
            old(self).spec_state() == ParserState::Healthy && old(self).next_ready()
                && old(self).node_warnings_tolerated() ==> r is Ok,
            old(self).spec_state() == ParserState::Healthy ==> old(self).event_error(r),
    {
        match self.state {
            ParserState::Aborted => {
                return Err(Error::new(ErrorContainer::Operation(OperationError::AlreadyAborted)));
            },
            ParserState::Finished => {
                return Err(Error::new(ErrorContainer::Operation(OperationError::AlreadyFinished)));
            },
            ParserState::Healthy => {},
        }
        match self.skip_attributes() {
            Ok(_) => {},
            Err(e) => return Err(e),
        }
        let pos = self.reader.position();
        let depth = self.open_nodes.len();
        if depth > 0 {
            let end = self.open_nodes[depth - 1].end_offset;
            if pos == end {
                if self.open_nodes[depth - 1].has_child || !self.open_nodes[depth - 1].has_attributes {
                    match self.warn(Warning::MissingNodeEndMarker, pos, pos, None) {
                        Ok(_) => {},
                        Err(e) => return Err(e),
                    }
                }
                self.open_nodes.pop();
                proof {
                    assert(self.end_offsets() =~= old(self).end_offsets().drop_last());
                }
                return Ok(Event::EndNode);
            }
            if pos > end {
                return Err(
                    self.abort(
                        ErrorContainer::Data(DataError::NodeLengthMismatch(end, Some(pos))),
                        pos,
                        None,
                    ),
                );
            }
        }
        proof {
            self.lemma_rest_is_bytes_from();
        }
        let header = match self.read_node_header() {
            Ok(h) => h,
            Err(e) => return Err(e),
        };
        proof {
            self.lemma_rest_is_bytes_from();
        }
        if header.is_node_end() {
            if depth == 0 {
                let footer = self.parse_footer();
                if self.state == ParserState::Healthy {
                    self.state = ParserState::Finished;
                }
                return Ok(Event::EndOfFile(footer));
            }
            let end = self.open_nodes[depth - 1].end_offset;
            let p2 = self.reader.position();
            if p2 != end {
                return Err(
                    self.abort(
                        ErrorContainer::Data(DataError::NodeLengthMismatch(end, Some(p2))),
                        pos,
                        None,
                    ),
                );
            }
            if !self.open_nodes[depth - 1].has_child && self.open_nodes[depth - 1].has_attributes {
                match self.warn(Warning::ExtraNodeEndMarker, pos, pos, None) {
                    Ok(_) => {},
                    Err(e) => return Err(e),
                }
            }
            self.open_nodes.pop();
            proof {
                assert(self.end_offsets() =~= old(self).end_offsets().drop_last());
            }
            return Ok(Event::EndNode);
        }
        self.start_node(header, pos)
    }

    /// Reads the name of a node whose header was just read, and opens it.
    fn start_node(&mut self, header: NodeHeader, header_pos: u64) -> (r: Result<Event, Error>)
        requires
            old(self).wf(),
            old(self).state == ParserState::Healthy,
            old(self).attr_rest == 0,
            header_pos < old(self).pos(),
        ensures
            r matches Ok(ev) ==> ev is StartNode && ({
                let s = ev->StartNode_0;
                &&& s.attribute_count == header.num_attributes
                &&& final(self).end_offsets().last() == header.end_offset
                &&& s.name@ == decode_utf8(old(self).bytes_from(old(self).pos()).subrange(0, header.bytelen_name as int))
                &&& final(self).pos() == old(self).pos() + header.bytelen_name
                &&& final(self).spec_attr_end() == final(self).pos() + header.bytelen_attributes
            }),
            old(self).step_frame(final(self)),
            r is Err ==> final(self).spec_state() == ParserState::Aborted,
            old(self).name_ready(header, old(self).pos()) && !old(self).is_fatal(Warning::EmptyNodeName)
                ==> r is Ok,
            r matches Ok(ev) ==> ev is StartNode && ({
                let s = ev->StartNode_0;
                &&& final(self).spec_state() == ParserState::Healthy
                &&& final(self).depth() == old(self).depth() + 1
                &&& final(self).end_offsets().drop_last() == old(self).end_offsets()
                &&& final(self).spec_total_count() == s.attribute_count
                &&& final(self).spec_rest_count() == s.attribute_count
                &&& final(self).pos() == final(self).spec_next_attr_start()
                &&& final(self).pos() >= old(self).pos()
                &&& final(self).pos() > header_pos
                &&& final(self).spec_attr_end() <= final(self).end_offsets().last()
                &&& (old(self).depth() > 0 ==> final(self).end_offsets().last() <= old(self).end_offsets().last())
                &&& (old(self).depth() > 0 ==> final(self).pos() < old(self).end_offsets().last())
            }),
    {
        proof {
            self.lemma_rest_is_bytes_from();
        }
        let name_bytes = match self.reader.read_exact(header.bytelen_name as usize) {
            Ok(b) => b,
            Err(e) => return Err(self.abort(ErrorContainer::Io(e), header_pos, None)),
        };
        let name = match string_from_utf8(name_bytes) {
            Some(s) => s,
            None => return Err(
                self.abort(
                    ErrorContainer::Data(DataError::InvalidNodeNameEncoding),
                    header_pos,
                    None,
                ),
            ),
        };
        if name.as_str().len() == 0 {
            match self.warn(Warning::EmptyNodeName, header_pos, header_pos, None) {
                Ok(_) => {},
                Err(e) => return Err(e),
            }
        }
        let body = self.reader.position();
        let depth = self.open_nodes.len();
        if header.bytelen_attributes > u64::MAX - body || body + header.bytelen_attributes
            > header.end_offset || (depth > 0 && header.end_offset
            > self.open_nodes[depth - 1].end_offset) || (depth > 0 && body
            >= self.open_nodes[depth - 1].end_offset) {
            return Err(
                self.abort(
                    ErrorContainer::Data(DataError::NodeLengthMismatch(header.end_offset, None)),
                    header_pos,
                    None,
                ),
            );
        }
        if depth > 0 {
            let parent = OpenNode {
                name: self.open_nodes[depth - 1].name.clone(),
                end_offset: self.open_nodes[depth - 1].end_offset,
                has_child: true,
                has_attributes: self.open_nodes[depth - 1].has_attributes,
            };
            self.open_nodes.set(depth - 1, parent);
        }
        assert(self.end_offsets() =~= old(self).end_offsets());
        self.open_nodes.push(
            OpenNode {
                name: name.clone(),
                end_offset: header.end_offset,
                has_child: false,
                has_attributes: header.num_attributes > 0,
            },
        );
        self.attr_total = header.num_attributes;
        self.attr_rest = header.num_attributes;
        self.next_attr_start = body;
        self.attr_end = body + header.bytelen_attributes;
        proof {
            assert(self.end_offsets().drop_last() =~= old(self).end_offsets());
        }
        Ok(Event::StartNode(StartNode { name, attribute_count: header.num_attributes }))
    }

    /// The bytes from position `p` on.
    pub closed spec fn bytes_from(&self, p: nat) -> Seq<u8> {
        self.reader.bytes().subrange(p - self.reader.offset(), self.reader.bytes().len() as int)
    }

    /// Where the next attribute starts: past what is left of the previous one.
    pub open spec fn attr_start(&self) -> nat {
        if self.pos() < self.spec_next_attr_start() {
            self.spec_next_attr_start()
        } else {
            self.pos()
        }
    }

    /// Whether an error arose at the record starting at `start`, while
    /// reading the attribute of index `idx`.
    pub open spec fn at_attribute(e: Error, start: nat, idx: nat) -> bool {
        e.position matches Some(p) && p.component_byte_pos == start && p.attribute_index == Some(
            idx as u64,
        )
    }

    /// Whether the next attribute can be read: it lies in the source,
    /// decodes within the attribute region (ending it when it is the last),
    /// and any boolean warning it raises is tolerated.
    pub open spec fn attr_ready(&self) -> bool {
        let st = self.attr_start();
        &&& st <= self.limit()
        &&& match parse_attr(self.bytes_from(st)) {
            AttrParse::Done(_, len, bad) => {
                &&& st + len <= self.spec_attr_end()
                &&& (self.spec_rest_count() == 1 ==> st + len == self.spec_attr_end())
                &&& (bad ==> !self.is_fatal(Warning::IncorrectBooleanRepresentation))
            },
            _ => false,
        }
    }

    /// What reading the next attribute gives, when one is left: the decoded
    /// value whenever it decodes within the attribute region and no boolean
    /// warning is fatal, and otherwise the decoding error at the attribute.
    pub open spec fn attr_outcome(&self, r: Result<Option<AttributeValue>, Error>) -> bool {
        let st = self.attr_start();
        let idx = (self.spec_total_count() - self.spec_rest_count()) as nat;
        if st > self.limit() {
            r matches Err(e) && e.container == ErrorContainer::Io(IoError::UnexpectedEof)
                && Self::at_attribute(e, st, idx)
        } else {
            match parse_attr(self.bytes_from(st)) {
                AttrParse::Done(_, len, bad) => (st + len <= self.spec_attr_end() && (
                self.spec_rest_count() == 1 ==> st + len == self.spec_attr_end()) && (bad
                    ==> !self.is_fatal(Warning::IncorrectBooleanRepresentation))) ==> r matches Ok(
                    Some(_),
                ),
                p => r matches Err(e) && e.container == container_of_attr(attr_error_of(p))
                    && Self::at_attribute(e, st, idx),
            }
        }
    }

    /// Reads the next attribute of the current node, if one is left.
    ///
    /// The attribute starts where the previous one ended; what a caller left
    /// unread of the region before is skipped.
    pub fn load_next_attribute(&mut self) -> (r: Result<Option<AttributeValue>, Error>)
        requires
            old(self).wf(),
        ensures
            old(self).step_frame(final(self)),
            final(self).depth() == old(self).depth(),
            final(self).end_offsets() == old(self).end_offsets(),
            final(self).spec_attr_end() == old(self).spec_attr_end(),
            old(self).spec_state() == ParserState::Aborted ==> (r matches Err(e) && e.container
                == ErrorContainer::Operation(OperationError::AlreadyAborted)) && *final(self)
                == *old(self),
            old(self).spec_state() == ParserState::Finished ==> (r matches Err(e) && e.container
                == ErrorContainer::Operation(OperationError::AlreadyFinished)) && *final(self)
                == *old(self),
            old(self).spec_state() == ParserState::Healthy && r is Err ==> final(self).spec_state()
                == ParserState::Aborted,
            old(self).spec_state() == ParserState::Healthy && old(self).spec_rest_count() == 0
                ==> (r matches Ok(None) && *final(self) == *old(self)),
            r matches Ok(None) ==> old(self).spec_rest_count() == 0 && *final(self) == *old(self),
            final(self).spec_total_count() == old(self).spec_total_count(),
            old(self).spec_state() == ParserState::Healthy && old(self).spec_rest_count() > 0
                ==> old(self).attr_outcome(r),
            old(self).spec_state() == ParserState::Healthy && old(self).spec_rest_count() > 0
                && old(self).attr_ready() ==> r matches Ok(Some(_)),
            r matches Ok(Some(v)) ==> {
                let start = if old(self).pos() < old(self).spec_next_attr_start() {
                    old(self).spec_next_attr_start()
                } else {
                    old(self).pos()
                };
                match parse_attr(old(self).bytes_from(start)) {
                    AttrParse::Done(value, len, bad) => {
                        &&& v@ == value
                        &&& final(self).pos() == start + len
                        &&& final(self).pos() == final(self).spec_next_attr_start()
                        &&& final(self).pos() <= final(self).spec_attr_end()
                        &&& final(self).spec_rest_count() == old(self).spec_rest_count() - 1
                        &&& final(self).spec_warnings() == if bad {
                            old(self).spec_warnings().push(Warning::IncorrectBooleanRepresentation)
                        } else {
                            old(self).spec_warnings()
                        }
                        &&& final(self).spec_state() == ParserState::Healthy
                    },
                    _ => false,
                }
            },
    {
        match self.state {
            ParserState::Aborted => {
                return Err(Error::new(ErrorContainer::Operation(OperationError::AlreadyAborted)));
            },
            ParserState::Finished => {
                return Err(Error::new(ErrorContainer::Operation(OperationError::AlreadyFinished)));
            },
            ParserState::Healthy => {},
        }
        if self.attr_rest == 0 {
            return Ok(None);
        }
        let here0 = self.reader.position();
        let start = if here0 < self.next_attr_start {
            self.next_attr_start
        } else {
            here0
        };
        let index = self.attr_total - self.attr_rest;
        if self.reader.position() < start {
            let here = self.reader.position();
            match self.reader.skip_to(start) {
                Ok(_) => {},
                Err(e) => return Err(self.abort(ErrorContainer::Io(e), start, Some(index))),
            }
        }
        let ghost from = self.reader.rest();
        proof {
            let st = if old(self).pos() < old(self).spec_next_attr_start() {
                old(self).spec_next_attr_start()
            } else {
                old(self).pos()
            };
            assert(from =~= old(self).bytes_from(st));
        }
        let (v, bad) = match read_attribute(&mut self.reader) {
            Ok(x) => x,
            Err(e) => {
                let c = from_attribute_error(e);
                return Err(self.abort(c, start, Some(index)));
            },
        };
        assert(self.fatal_kinds() == old(self).fatal_kinds());
        if bad {
            match self.warn(Warning::IncorrectBooleanRepresentation, start, start, Some(index)) {
                Ok(_) => {},
                Err(e) => return Err(e),
            }
        }
        self.attr_rest = self.attr_rest - 1;
        let p = self.reader.position();
        self.next_attr_start = p;
        if p > self.attr_end || (self.attr_rest == 0 && p != self.attr_end) {
            let end = self.attr_end;
            return Err(
                self.abort(
                    ErrorContainer::Data(DataError::NodeLengthMismatch(end, Some(p))),
                    start,
                    Some(index),
                ),
            );
        }
        Ok(Some(v))
    }
}

proof fn lemma_fatal_same_kind(p: Parser, a: Warning, b: Warning)
    requires
        a.spec_same_kind(b),
    ensures
        p.is_fatal(a) == p.is_fatal(b),
{
    if p.is_fatal(a) {
        let k = choose|k: int| 0 <= k < p.fatal_kinds().len() && #[trigger] p.fatal_kinds()[k].spec_same_kind(a);
        assert(p.fatal_kinds()[k].spec_same_kind(b));
    }
    if p.is_fatal(b) {
        let k = choose|k: int| 0 <= k < p.fatal_kinds().len() && #[trigger] p.fatal_kinds()[k].spec_same_kind(b);
        assert(p.fatal_kinds()[k].spec_same_kind(a));
    }
}

/// Whether the 144 bytes after a footer's first field have, for padding
/// length `pl`, zeros where zeros belong, the version, and a non-zero first
/// trailer byte.
pub open spec fn footer_body_ok(buf: Seq<u8>, version: u32, pl: nat) -> bool {
    &&& pl < 16
    &&& buf.len() == 144
    &&& forall|i: int| 0 <= i < pl + 128 && !(pl + 4 <= i < pl + 8) ==> buf[i] == 0
    &&& le_u32(buf, pl as int + 4) == version
    &&& buf[128 + pl as int] != 0
}

proof fn lemma_valid_footer_body(rest: Seq<u8>, version: u32, pl: nat)
    requires
        valid_footer(rest, version, pl),
    ensures
        footer_body_ok(rest.subrange(16, 160), version, pl),
{
    let buf = rest.subrange(16, 160);
    assert(rest.subrange(144 + pl as int, 160 + pl as int)[0] == unknown3_expected()[0]);
    assert(buf[128 + pl as int] == rest[144 + pl as int]);
    assert forall|i: int| 0 <= i < pl + 128 && !(pl + 4 <= i < pl + 8) implies buf[i] == 0 by {
        assert(buf[i] == rest[16 + i]);
    }
    assert(le_u32(buf, pl as int + 4) == le_u32(rest, 20 + pl as int));
}

proof fn lemma_body_valid_footer(rest: Seq<u8>, version: u32, pl: nat)
    requires
        rest.len() >= 160 + pl,
        footer_body_ok(rest.subrange(16, 160), version, pl),
        rest.subrange(144 + pl as int, 160 + pl as int) == unknown3_expected(),
    ensures
        valid_footer(rest, version, pl),
{
    let buf = rest.subrange(16, 160);
    assert forall|k: int| 16 <= k < 20 + pl implies rest[k] == 0 by {
        assert(rest[k] == buf[k - 16]);
    }
    assert forall|k: int| 24 + pl <= k < 144 + pl implies rest[k] == 0 by {
        assert(rest[k] == buf[k - 16]);
    }
    assert(le_u32(buf, pl as int + 4) == le_u32(rest, 20 + pl as int));
}

/// Whether a footer's first field has the official high nibbles.
fn is_official_unknown1(u: &Vec<u8>) -> (r: bool)
    requires
        u@.len() == 16,
    ensures
        r == official_unknown1(u@),
{
    let pattern = unknown1_pattern_bytes();
    let mut k: usize = 0;
    while k < 16
        invariant
            k <= 16,
            u@.len() == 16,
            pattern@ == unknown1_pattern(),
            forall|j: int| 0 <= j < k ==> #[trigger] (u@[j] / 16) * 16 == unknown1_pattern()[j],
        decreases 16 - k,
    {
        if (u[k] / 16) * 16 != pattern[k] {
            return false;
        }
        k = k + 1;
    }
    true
}

/// Finds the padding length of a footer from the 144 bytes after its first
/// field: the trailer starts at the first non-zero byte among the last 16.
fn footer_padding(buf: &Vec<u8>, version: u32) -> (r: Option<usize>)
    requires
        buf@.len() == 144,
    ensures
        match r {
            Some(pl) => footer_body_ok(buf@, version, pl as nat) && forall|q: nat|
                #[trigger] footer_body_ok(buf@, version, q) ==> q == pl,
            None => forall|pl: nat| !footer_body_ok(buf@, version, pl),
        },
{
    let mut p: usize = 128;
    while p < 144 && buf[p] == 0
        invariant
            128 <= p <= 144,
            buf@.len() == 144,
            forall|j: int| 128 <= j < p ==> buf@[j] == 0,
        decreases 144 - p,
    {
        p = p + 1;
    }
    if p == 144 {
        assert forall|pl: nat| !footer_body_ok(buf@, version, pl) by {
            if footer_body_ok(buf@, version, pl) {
                assert(buf@[128 + pl as int] == 0);
            }
        }
        return None;
    }
    let pl: usize = p - 128;
    assert forall|q: nat| #[trigger] footer_body_ok(buf@, version, q) implies q == pl by {
        if q < pl {
            assert(buf@[128 + q as int] == 0);
        } else if q > pl {
            assert(buf@[p as int] == 0);
        }
    }
    let mut ok = true;
    let mut j: usize = 0;
    while j < pl + 128
        invariant
            pl < 16,
            j <= pl + 128,
            buf@.len() == 144,
            ok == forall|i: int| 0 <= i < j && !(pl + 4 <= i < pl + 8) ==> buf@[i] == 0,
        decreases pl + 128 - j,
    {
        if !(pl + 4 <= j && j < pl + 8) && buf[j] != 0 {
            ok = false;
        }
        j = j + 1;
    }
    let v = get_u32(buf.as_slice(), pl + 4);
    if !ok || v != version {
        return None;
    }
    Some(pl)
}

/// The trailer: the last bytes of the 144 after the padding, then `tail`.
fn join_trailer(buf: &Vec<u8>, tail: &Vec<u8>, pl: usize) -> (r: Vec<u8>)
    requires
        buf@.len() == 144,
        pl < 16,
        tail@.len() == pl,
    ensures
        r@ == buf@.subrange(128 + pl as int, 144) + tail@,
{
    let mut out: Vec<u8> = Vec::new();
    let mut i: usize = 128 + pl;
    while i < 144
        invariant
            128 + pl <= i <= 144,
            buf@.len() == 144,
            out@ == buf@.subrange(128 + pl as int, i as int),
        decreases 144 - i,
    {
        out.push(buf[i]);
        i = i + 1;
        assert(out@ =~= buf@.subrange(128 + pl as int, i as int));
    }
    let mut k: usize = 0;
    while k < pl
        invariant
            k <= pl,
            tail@.len() == pl,
            out@ == buf@.subrange(128 + pl as int, 144) + tail@.subrange(0, k as int),
        decreases pl - k,
    {
        out.push(tail[k]);
        k = k + 1;
        assert(out@ =~= buf@.subrange(128 + pl as int, 144) + tail@.subrange(0, k as int));
    }
    assert(tail@.subrange(0, pl as int) =~= tail@);
    out
}

/// Parser versions.
#[derive(Debug, Clone, Copy, PartialEq, Eq, Structural)]
pub enum ParserVersion {
    /// The parser of FBX 7.4 and 7.5.
    V7400,
}

/// Why no parser could be made.
#[derive(Debug, Clone, Copy, PartialEq, Eq, Structural)]
pub enum AnyParserError {
    /// The file header could not be read.
    Header(HeaderError),
    /// No parser reads this version.
    UnsupportedVersion(u32),
}

/// A parser of whichever version the file header names.
#[derive(Debug)]
pub enum AnyParser {
    V7400(Parser),
}

impl AnyParser {
    /// Returns the parser version.
    pub fn parser_version(&self) -> (r: ParserVersion)
        ensures
            r == ParserVersion::V7400,
    {
        match self {
            AnyParser::V7400(_) => ParserVersion::V7400,
        }
    }

    /// Returns the FBX version.
    pub fn fbx_version(&self) -> (r: FbxVersion)
        ensures
            match self {
                AnyParser::V7400(p) => r == p.spec_version(),
            },
    {
        match self {
            AnyParser::V7400(p) => p.fbx_version(),
        }
    }
}

/// When reading the header fails with `e`.
pub open spec fn from_seekable_reader_fails(reader: SeekableReader, e: AnyParserError) -> bool {
    match e {
        AnyParserError::UnsupportedVersion(v) => {
                let rest = reader.rest();
                &&& rest.len() >= 27
                &&& rest.subrange(0, 23) == crate::low::magic()
                &&& v as nat == le_u32(rest, 23)
                &&& v / 1000 != 7
            },
        AnyParserError::Header(HeaderError::MagicNotDetected) => {
                let rest = reader.rest();
                &&& rest.len() >= 23
                &&& rest.subrange(0, 23) != crate::low::magic()
            },
        AnyParserError::Header(HeaderError::Io(_)) => reader.rest().len() < 27,
    }
}

/// Reads the file header and makes a parser for its version; versions 7.x
/// are read by the 7.4 parser.
pub fn from_seekable_reader(reader: SeekableReader) -> (r: Result<AnyParser, AnyParserError>)
    requires
        reader.wf(),
    ensures
        match r {
            Ok(AnyParser::V7400(p)) => {
                let rest = reader.rest();
                &&& rest.len() >= 27
                &&& rest.subrange(0, 23) == crate::low::magic()
                &&& p.spec_version().spec_raw() as nat == le_u32(rest, 23)
                &&& p.spec_version().spec_raw() / 1000 == 7
                &&& p.wf()
                &&& p.spec_state() == ParserState::Healthy
                &&& p.depth() == 0
                &&& p.pos() == reader.pos() + 27
                &&& p.rest() == rest.subrange(27, rest.len() as int)
                &&& p.spec_warnings().len() == 0
                &&& p.fatal_kinds().len() == 0
            },
            Err(e) => from_seekable_reader_fails(reader, e),
        },
{
    let mut reader = reader;
    let ghost rest = reader.rest();
    let header = match FbxHeader::load(&mut reader) {
        Ok(h) => h,
        Err(e) => return Err(AnyParserError::Header(e)),
    };
    let version = header.version();
    if version.major() != 7 {
        return Err(AnyParserError::UnsupportedVersion(version.raw()));
    }
    assert(reader.rest() =~= rest.subrange(27, rest.len() as int));
    Ok(AnyParser::V7400(Parser::new(reader, version)))
}

/// The number of node starts minus node ends among `evs`.
pub open spec fn balance(evs: Seq<Event>) -> int
    decreases evs.len(),
{
    if evs.len() == 0 {
        0
    } else {
        balance(evs.drop_last()) + match evs.last() {
            Event::StartNode(_) => 1int,
            Event::EndNode => -1int,
            Event::EndOfFile(_) => 0int,
        }
    }
}

/// Events come balanced: along any run of successful `next_event` calls
/// from a parser at the top level, the depth after each event is the number
/// of node starts minus node ends so far (so never below zero), and an end
/// of file comes only when every node has ended, as the last event of the
/// run.
pub proof fn lemma_events_balanced(states: Seq<Parser>, evs: Seq<Event>)
    requires
        states.len() == evs.len() + 1,
        states[0].depth() == 0,
        forall|i: int| 0 <= i < evs.len() ==> #[trigger] states[i].event_post(&states[i + 1], &evs[i]),
    ensures
        forall|i: int| 0 <= i <= evs.len() ==> #[trigger] states[i].depth() == balance(evs.subrange(0, i)),
        forall|i: int|
            0 <= i < evs.len() && #[trigger] evs[i] is EndOfFile ==> balance(evs.subrange(0, i)) == 0
                && i == evs.len() - 1,
    decreases evs.len(),
{
    if evs.len() > 0 {
        let n = evs.len() - 1;
        let s2 = states.subrange(0, n + 1);
        let e2 = evs.subrange(0, n);
        assert forall|i: int| 0 <= i < e2.len() implies #[trigger] s2[i].event_post(&s2[i + 1], &e2[i]) by {
            assert(states[i].event_post(&states[i + 1], &evs[i]));
        }
        lemma_events_balanced(s2, e2);
        assert forall|i: int| 0 <= i <= evs.len() implies #[trigger] states[i].depth() == balance(evs.subrange(0, i)) by {
            if i <= n {
                assert(s2[i] == states[i]);
                assert(e2.subrange(0, i) =~= evs.subrange(0, i));
            } else {
                assert(s2[n] == states[n]);
                assert(e2.subrange(0, n) =~= e2);
                assert(evs.subrange(0, i).drop_last() =~= e2);
                assert(states[n].event_post(&states[n + 1], &evs[n]));
            }
        }
        assert forall|i: int| 0 <= i < evs.len() && #[trigger] evs[i] is EndOfFile implies balance(evs.subrange(0, i)) == 0
            && i == evs.len() - 1 by {
            assert(states[i].event_post(&states[i + 1], &evs[i]));
            assert(states[i].depth() == balance(evs.subrange(0, i)));
            if i < evs.len() - 1 {
                assert(states[i + 1].event_post(&states[i + 2], &evs[i + 1]));
            }
        }
    }
}

} // verus!
