use vstd::prelude::*;

use crate::util::{
    align_up, be_u32, find_zero, lemma_find_zero_found, MiniStream, MiniStreamReadError,
};

verus! {

/// Why a blob could not be decoded.
#[derive(Debug, Clone, Copy, PartialEq, Eq, Structural)]
pub enum ParseError {
    InvalidMagic,
    ReadError,
    InvalidTag,
    UnexpectedTag,
    NoRootFound,
}

impl From<MiniStreamReadError> for ParseError {
    fn from(e: MiniStreamReadError) -> (r: ParseError)
        ensures
            r == ParseError::ReadError,
    {
        ParseError::ReadError
    }
}

impl vstd::std_specs::convert::FromSpecImpl<MiniStreamReadError> for ParseError {
    open spec fn obeys_from_spec() -> bool {
        true
    }

    open spec fn from_spec(e: MiniStreamReadError) -> ParseError {
        ParseError::ReadError
    }
}

/// The 32-bit words that mark the elements of a blob.
#[derive(Debug, Clone, Copy, PartialEq, Eq, Structural)]
pub enum Tag {
    Property,
    BeginNode,
    EndNode,
    End,
    Magic,
}

/// The tag that a word stands for.
pub open spec fn tag_of(v: u32) -> Result<Tag, ParseError> {
    if v == 1 {
        Ok(Tag::BeginNode)
    } else if v == 2 {
        Ok(Tag::EndNode)
    } else if v == 3 {
        Ok(Tag::Property)
    } else if v == 9 {
        Ok(Tag::End)
    } else if v == 0xd00dfeed {
        Ok(Tag::Magic)
    } else {
        Err(ParseError::InvalidTag)
    }
}

impl Tag {
    pub fn from_u32(val: u32) -> (r: Result<Tag, ParseError>)
        ensures
            r == tag_of(val),
    {
        match val {
            0x01 => Ok(Tag::BeginNode),
            0x02 => Ok(Tag::EndNode),
            0x03 => Ok(Tag::Property),
            0x09 => Ok(Tag::End),
            0xd00dfeed => Ok(Tag::Magic),
            _ => Err(ParseError::InvalidTag),
        }
    }
}

/// The fixed part of a blob: the fields that a version lacks are zero.
#[derive(Debug, Clone, Copy, PartialEq, Eq, Structural)]
pub struct DeviceTreeHeader {
    pub totalsize: u32,
    pub off_dt_struct: u32,
    pub off_dt_strings: u32,
    pub off_mem_rsvmap: u32,
    pub version: u32,
    pub last_comp_version: u32,
    pub boot_cpuid_phys: u32,
    pub size_dt_strings: u32,
    pub size_dt_struct: u32,
}

pub struct PropertyModel {
    pub name: Seq<u8>,
    pub data: Seq<u8>,
}

pub struct NodeModel {
    pub name: Seq<u8>,
    pub properties: Seq<PropertyModel>,
    pub children: Seq<NodeModel>,
}

pub struct TreeModel {
    pub header: DeviceTreeHeader,
    pub root: NodeModel,
}

/// A named byte payload of a node.
#[derive(Debug)]
pub struct Property {
    name: Vec<u8>,
    data: Vec<u8>,
}

#[derive(Debug)]
pub struct Node {
    pub name: Vec<u8>,
    pub properties: Vec<Property>,
    pub children: Vec<Node>,
}

/// A decoded blob: its header and its root node.
#[derive(Debug)]
pub struct DeviceTree {
    header: DeviceTreeHeader,
    root: Node,
}

impl View for Property {
    type V = PropertyModel;

    closed spec fn view(&self) -> PropertyModel {
        PropertyModel { name: self.name@, data: self.data@ }
    }
}

pub open spec fn props_view(s: Seq<Property>) -> Seq<PropertyModel> {
    s.map_values(|p: Property| p@)
}

pub open spec fn nodes_view(s: Seq<Node>) -> Seq<NodeModel> {
    s.map_values(|n: Node| n@)
}

impl View for Node {
    type V = NodeModel;

    open spec fn view(&self) -> NodeModel
        decreases self,
    {
        NodeModel {
            name: self.name@,
            properties: props_view(self.properties@),
            children: Seq::new(
                self.children@.len(),
                |i: int|
                    if 0 <= i < self.children@.len() {
                        self.children@[i].view()
                    } else {
                        NodeModel { name: seq![], properties: seq![], children: seq![] }
                    },
            ),
        }
    }
}

impl View for DeviceTree {
    type V = TreeModel;

    closed spec fn view(&self) -> TreeModel {
        TreeModel { header: self.header, root: self.root@ }
    }
}

impl Property {
    pub fn name(&self) -> (r: &[u8])
        ensures
            r@ == self@.name,
    {
        self.name.as_slice()
    }

    pub fn data(&self) -> (r: &[u8])
        ensures
            r@ == self@.data,
    {
        self.data.as_slice()
    }
}

impl DeviceTree {
    pub fn header(&self) -> (r: &DeviceTreeHeader)
        ensures
            *r == self@.header,
    {
        &self.header
    }

    pub fn root(&self) -> (r: &Node)
        ensures
            r@ == self@.root,
    {
        &self.root
    }
}

// The decoding of a blob `b`, stated over positions in it; `so` is the start
// of the strings block.
/// The word at `p`, if four bytes are there.
pub open spec fn word_at(b: Seq<u8>, p: int) -> Option<u32> {
    if 0 <= p && p + 4 <= b.len() {
        Some(be_u32(b, p))
    } else {
        None
    }
}

/// The tag at `p`.
pub open spec fn tag_at(b: Seq<u8>, p: int) -> Result<Tag, ParseError> {
    match word_at(b, p) {
        Some(w) => tag_of(w),
        None => Err(ParseError::ReadError),
    }
}

/// A node name at `p`: the bytes before the first zero, padded with the zero
/// and what follows it up to a whole number of four-byte blocks; with the
/// position after the last block.
pub open spec fn block_name(b: Seq<u8>, p: int) -> Result<(Seq<u8>, int), ParseError> {
    match find_zero(b, p) {
        Some(z) => {
            let end = p + 4 * ((z - p) / 4 + 1);
            if end <= b.len() {
                Ok((b.subrange(p, z), end))
            } else {
                Err(ParseError::ReadError)
            }
        },
        None => Err(ParseError::ReadError),
    }
}

/// A property record at `p` (after its tag): payload length, name offset,
/// payload, padding to four bytes; the name is the string at that offset in
/// the strings block. The payload must not run past the end of the blob,
/// nor past the start of a strings block that follows it. The position after
/// the padding must still lie inside the blob, since decoding returns there
/// after resolving the name.
pub open spec fn property_at(b: Seq<u8>, so: int, p: int) -> Result<
    (PropertyModel, int),
    ParseError,
> {
    if p < 0 || p + 8 > b.len() {
        Err(ParseError::ReadError)
    } else {
        let d = p + 8;
        let e = d + be_u32(b, p) as int;
        let a = align_up(e);
        let s = so + be_u32(b, p + 4) as int;
        if so >= d && e > so {
            Err(ParseError::ReadError)
        } else if a < b.len() && s < b.len() && find_zero(b, s) is Some {
            let name = b.subrange(s, find_zero(b, s)->Some_0);
            Ok((PropertyModel { name, data: b.subrange(d, e) }, a))
        } else {
            Err(ParseError::ReadError)
        }
    }
}

/// The run of property records at `p`, appended to `acc`, and the position
/// after them.
pub open spec fn props_from(b: Seq<u8>, so: int, p: int, acc: Seq<PropertyModel>) -> Result<
    (Seq<PropertyModel>, int),
    ParseError,
>
    decreases b.len() - p,
{
    match tag_at(b, p) {
        Err(e) => Err(e),
        Ok(Tag::Property) => match property_at(b, so, p + 4) {
            Err(e) => Err(e),
            Ok((pr, q)) => if p < q <= b.len() {
                props_from(b, so, q, acc.push(pr))
            } else {
                Err(ParseError::ReadError)
            },
        },
        Ok(_) => Ok((acc, p)),
    }
}

/// The node at `p` and the position after it, or `None` where no node begins
/// at `p`.
pub open spec fn node_at(b: Seq<u8>, so: int, p: int) -> Result<
    Option<(NodeModel, int)>,
    ParseError,
>
    decreases b.len() - p, 0int,
{
    match tag_at(b, p) {
        Err(e) => Err(e),
        Ok(Tag::BeginNode) => match block_name(b, p + 4) {
            Err(e) => Err(e),
            Ok((name, q)) => match props_from(b, so, q, seq![]) {
                Err(e) => Err(e),
                Ok((props, r)) => if p < r <= b.len() {
                    match children_from(b, so, r, seq![]) {
                        Err(e) => Err(e),
                        Ok((kids, t)) => match tag_at(b, t) {
                            Err(e) => Err(e),
                            Ok(Tag::EndNode) => Ok(
                                Some(
                                    (NodeModel { name, properties: props, children: kids }, t + 4),
                                ),
                            ),
                            Ok(_) => Err(ParseError::UnexpectedTag),
                        },
                    }
                } else {
                    Err(ParseError::ReadError)
                },
            },
        },
        Ok(_) => Ok(None),
    }
}

/// The run of sibling nodes at `p`, appended to `acc`, and the position after
/// them.
pub open spec fn children_from(b: Seq<u8>, so: int, p: int, acc: Seq<NodeModel>) -> Result<
    (Seq<NodeModel>, int),
    ParseError,
>
    decreases b.len() - p, 1int,
{
    if p > b.len() {
        Err(ParseError::ReadError)
    } else {
        match node_at(b, so, p) {
            Err(e) => Err(e),
            Ok(None) => Ok((acc, p)),
            Ok(Some((n, q))) => if p < q <= b.len() {
                children_from(b, so, q, acc.push(n))
            } else {
                Err(ParseError::ReadError)
            },
        }
    }
}

/// How many header words follow the magic word in a blob of `version`.
pub open spec fn header_words(version: u32) -> int {
    6 + (if version > 2 {
        1int
    } else {
        0
    }) + (if version > 3 {
        1int
    } else {
        0
    }) + (if version > 17 {
        1int
    } else {
        0
    })
}

/// The header fields at `p` (after the magic word): six fixed words, then
/// `boot_cpuid_phys` from version 3, `size_dt_strings` from version 4 and
/// `size_dt_struct` from version 18.
pub open spec fn header_at(b: Seq<u8>, p: int) -> Option<DeviceTreeHeader> {
    if p < 0 || p + 24 > b.len() {
        None
    } else {
        let version = be_u32(b, p + 16);
        let n = header_words(version);
        if p + 4 * n > b.len() {
            None
        } else {
            Some(
                DeviceTreeHeader {
                    totalsize: be_u32(b, p),
                    off_dt_struct: be_u32(b, p + 4),
                    off_dt_strings: be_u32(b, p + 8),
                    off_mem_rsvmap: be_u32(b, p + 12),
                    version,
                    last_comp_version: be_u32(b, p + 20),
                    boot_cpuid_phys: if version > 2 {
                        be_u32(b, p + 24)
                    } else {
                        0
                    },
                    size_dt_strings: if version > 3 {
                        be_u32(b, p + 28)
                    } else {
                        0
                    },
                    size_dt_struct: if version > 17 {
                        be_u32(b, p + 32)
                    } else {
                        0
                    },
                },
            )
        }
    }
}

/// The tree of a blob read from `p`: the magic word, the header, then the
/// root node at the structure block's offset. Decoding stops at the root's
/// end tag: what follows it, the block's final end tag included, is not read.
pub open spec fn tree_at(b: Seq<u8>, p: int) -> Result<TreeModel, ParseError> {
    match tag_at(b, p) {
        Err(e) => Err(e),
        Ok(Tag::Magic) => match header_at(b, p + 4) {
            None => Err(ParseError::ReadError),
            Some(h) => if h.off_dt_struct >= b.len() {
                Err(ParseError::ReadError)
            } else {
                match node_at(b, h.off_dt_strings as int, h.off_dt_struct as int) {
                    Err(e) => Err(e),
                    Ok(None) => Err(ParseError::NoRootFound),
                    Ok(Some((root, _))) => Ok(TreeModel { header: h, root }),
                }
            },
        },
        Ok(_) => Err(ParseError::InvalidMagic),
    }
}

/// The tree of a whole blob.
pub open spec fn parse_blob(b: Seq<u8>) -> Result<TreeModel, ParseError> {
    tree_at(b, 0)
}

/// Decodes a blob held in a borrowed buffer.
pub struct DeviceTreeParser<'a> {
    buf: MiniStream<'a>,
    string_offset: usize,
}

impl<'a> DeviceTreeParser<'a> {
    /// The blob being decoded.
    pub closed spec fn bytes(&self) -> Seq<u8> {
        self.buf.bytes()
    }

    /// The offset of the next byte to be read.
    pub closed spec fn position(&self) -> int {
        self.buf.position()
    }

    /// Where the strings block starts.
    pub closed spec fn strings_base(&self) -> int {
        self.string_offset as int
    }

    pub closed spec fn wf(&self) -> bool {
        self.buf.wf()
    }

    pub fn new(buf: &'a [u8]) -> (r: DeviceTreeParser<'a>)
        ensures
            r.wf(),
            r.bytes() == buf@,
            r.position() == 0,
            r.strings_base() == 0,
    {
        DeviceTreeParser { buf: MiniStream::new(buf), string_offset: 0 }
    }

    /// The current offset, which tells where a failed decoding stopped.
    pub fn pos(&self) -> (r: usize)
        ensures
            r == self.position(),
    {
        self.buf.pos()
    }

    fn word(&mut self) -> (r: Result<u32, ParseError>)
        requires
            old(self).wf(),
        ensures
            final(self).wf(),
            final(self).bytes() == old(self).bytes(),
            final(self).strings_base() == old(self).strings_base(),
            r == (match word_at(old(self).bytes(), old(self).position()) {
                Some(w) => Ok(w),
                None => Err(ParseError::ReadError),
            }),
            final(self).position() == (if r is Ok {
                old(self).position() + 4
            } else {
                old(self).position()
            }),
    {
        match self.buf.read_u32_le() {
            Ok(v) => Ok(v),
            Err(e) => Err(ParseError::from(e)),
        }
    }

    fn tag(&mut self) -> (r: Result<Tag, ParseError>)
        requires
            old(self).wf(),
        ensures
            final(self).wf(),
            final(self).bytes() == old(self).bytes(),
            final(self).strings_base() == old(self).strings_base(),
            r == tag_at(old(self).bytes(), old(self).position()),
            final(self).position() == (if word_at(old(self).bytes(), old(self).position()) is Some {
                old(self).position() + 4
            } else {
                old(self).position()
            }),
    {
        match self.word() {
            Ok(v) => Tag::from_u32(v),
            Err(e) => Err(e),
        }
    }

    fn peek_tag(&self) -> (r: Result<Tag, ParseError>)
        requires
            self.wf(),
        ensures
            r == tag_at(self.bytes(), self.position()),
    {
        match self.buf.peek_u32_le() {
            Ok(v) => Tag::from_u32(v),
            Err(e) => Err(ParseError::from(e)),
        }
    }

    /// Consumes the tag at the position where it is `tag`.
    fn accept_tag(&mut self, tag: Tag) -> (r: Result<bool, ParseError>)
        requires
            old(self).wf(),
        ensures
            final(self).wf(),
            final(self).bytes() == old(self).bytes(),
            final(self).strings_base() == old(self).strings_base(),
            r == (match tag_at(old(self).bytes(), old(self).position()) {
                Ok(t) => Ok(t == tag),
                Err(e) => Err(e),
            }),
            final(self).position() == (if r == Ok::<bool, ParseError>(true) {
                old(self).position() + 4
            } else {
                old(self).position()
            }),
    {
        let t = match self.peek_tag() {
            Ok(t) => t,
            Err(e) => return Err(e),
        };
        if t == tag {
            match self.tag() {
                Ok(_) => Ok(true),
                Err(e) => Err(e),
            }
        } else {
            Ok(false)
        }
    }

    /// Consumes the tag at the position, which must be `tag`.
    fn expect_tag(&mut self, tag: Tag) -> (r: Result<(), ParseError>)
        requires
            old(self).wf(),
        ensures
            final(self).wf(),
            final(self).bytes() == old(self).bytes(),
            final(self).strings_base() == old(self).strings_base(),
            r == (match tag_at(old(self).bytes(), old(self).position()) {
                Ok(t) => if t == tag {
                    Ok(())
                } else {
                    Err(ParseError::UnexpectedTag)
                },
                Err(e) => Err(e),
            }),
            final(self).position() == (if r is Ok {
                old(self).position() + 4
            } else {
                old(self).position()
            }),
    {
        match self.accept_tag(tag) {
            Ok(true) => Ok(()),
            Ok(false) => Err(ParseError::UnexpectedTag),
            Err(e) => Err(e),
        }
    }

    /// Reads a node name: the block-padded string at the position.
    fn block_string0(&mut self) -> (r: Result<&'a [u8], ParseError>)
        requires
            old(self).wf(),
        ensures
            final(self).wf(),
            final(self).bytes() == old(self).bytes(),
            final(self).strings_base() == old(self).strings_base(),
            r is Ok <==> block_name(old(self).bytes(), old(self).position()) is Ok,
            r matches Ok(s) ==> {
                let (name, end) = block_name(old(self).bytes(), old(self).position())->Ok_0;
                s@ == name && final(self).position() == end
            },
            r matches Err(e) ==> e == ParseError::ReadError,
    {
        let ghost b = self.bytes();
        let start = self.buf.pos();
        let mut zero_at: usize = 4;
        while zero_at == 4
            invariant
                self.wf(),
                self.bytes() == b,
                b == old(self).bytes(),
                self.strings_base() == old(self).strings_base(),
                start == old(self).position(),
                start <= self.position() <= b.len(),
                (self.position() - start) % 4 == 0,
                zero_at <= 4,
                zero_at == 4 ==> find_zero(b, start as int) == find_zero(b, self.position()),
                zero_at < 4 ==> self.position() >= start + 4 && find_zero(b, start as int)
                    == Some(self.position() - 4 + zero_at),
            decreases b.len() - self.position(), zero_at,
        {
            let ghost at = self.position();
            let block = match self.buf.read_bytes(4) {
                Ok(block) => block,
                Err(e) => {
                    proof {
                        lemma_find_zero_found(b, at);
                    }
                    return Err(ParseError::from(e));
                },
            };
            assert(block@ == b.subrange(at, at + 4));
            if block[0] == 0 {
                zero_at = 0;
            } else if block[1] == 0 {
                zero_at = 1;
            } else if block[2] == 0 {
                zero_at = 2;
            } else if block[3] == 0 {
                zero_at = 3;
            }
            assert(find_zero(b, at) == find_zero(b, at + 1) || b[at] == 0);
            assert(find_zero(b, at + 1) == find_zero(b, at + 2) || b[at + 1] == 0);
            assert(find_zero(b, at + 2) == find_zero(b, at + 3) || b[at + 2] == 0);
            assert(find_zero(b, at + 3) == find_zero(b, at + 4) || b[at + 3] == 0);
        }
        let end = self.buf.pos();
        let span = end - start;
        assert((span - 4 + zero_at as int) / 4 == span / 4 - 1);
        match self.buf.seek(start) {
            Ok(()) => {},
            Err(e) => return Err(ParseError::from(e)),
        }
        let data = match self.buf.read_bytes(span) {
            Ok(data) => data,
            Err(e) => return Err(ParseError::from(e)),
        };
        let name = vstd::slice::slice_subrange(data, 0, span - (4 - zero_at));
        assert(name@ =~= b.subrange(start as int, end - 4 + zero_at));
        Ok(name)
    }

    /// The string at `offset` in the strings block; the position is where it
    /// was before.
    fn far_string0(&mut self, offset: usize) -> (r: Result<Vec<u8>, ParseError>)
        requires
            old(self).wf(),
        ensures
            final(self).wf(),
            final(self).bytes() == old(self).bytes(),
            final(self).strings_base() == old(self).strings_base(),
            ({
                let b = old(self).bytes();
                let s = old(self).strings_base() + offset;
                &&& r is Ok <==> (s < b.len() && find_zero(b, s) is Some && old(self).position()
                    < b.len())
                &&& r matches Ok(v) ==> v@ == b.subrange(s, find_zero(b, s)->Some_0)
                &&& r matches Err(e) ==> e == ParseError::ReadError
            }),
            final(self).position() == old(self).position(),
    {
        let pos = self.pos();
        // the way back must be open before leaving
        match self.buf.seek(pos) {
            Ok(()) => {},
            Err(e) => return Err(ParseError::from(e)),
        }
        let target = match self.string_offset.checked_add(offset) {
            Some(t) => t,
            None => return Err(ParseError::ReadError),
        };
        match self.buf.seek(target) {
            Ok(()) => {},
            Err(e) => return Err(ParseError::from(e)),
        }
        let found = self.buf.read_string0();
        match self.buf.seek(pos) {
            Ok(()) => {},
            Err(e) => return Err(ParseError::from(e)),
        }
        match found {
            Ok(s) => Ok(vstd::slice::slice_to_vec(s)),
            Err(e) => Err(ParseError::from(e)),
        }
    }

    /// Reads a property record, after its tag.
    fn property(&mut self) -> (r: Result<Property, ParseError>)
        requires
            old(self).wf(),
        ensures
            final(self).wf(),
            final(self).bytes() == old(self).bytes(),
            final(self).strings_base() == old(self).strings_base(),
            r is Ok <==> property_at(
                old(self).bytes(),
                old(self).strings_base(),
                old(self).position(),
            ) is Ok,
            r matches Ok(pr) ==> {
                let (m, a) = property_at(
                    old(self).bytes(),
                    old(self).strings_base(),
                    old(self).position(),
                )->Ok_0;
                pr@ == m && final(self).position() == a
            },
            r matches Err(e) ==> e == ParseError::ReadError,
    {
        let len = match self.word() {
            Ok(v) => v,
            Err(e) => return Err(e),
        };
        let off = match self.word() {
            Ok(v) => v,
            Err(e) => return Err(e),
        };
        let start = self.pos();
        if self.string_offset >= start && len as usize > self.string_offset - start {
            return Err(ParseError::ReadError);
        }
        let data = match self.buf.read_bytes(len as usize) {
            Ok(d) => vstd::slice::slice_to_vec(d),
            Err(e) => return Err(ParseError::from(e)),
        };
        match self.buf.align() {
            Ok(()) => {},
            Err(e) => return Err(ParseError::from(e)),
        }
        let name = match self.far_string0(off as usize) {
            Ok(v) => v,
            Err(e) => return Err(e),
        };
        let prop = Property { name: name, data: data };
        Ok(prop)
    }

    /// Reads the node at the position with its properties and, recursively,
    /// its children; `None`, moving nothing, where no node begins there.
    #[verifier::rlimit(50)]
    fn node(&mut self) -> (r: Result<Option<Node>, ParseError>)
        requires
            old(self).wf(),
        ensures
            final(self).wf(),
            final(self).bytes() == old(self).bytes(),
            final(self).strings_base() == old(self).strings_base(),
            match node_at(old(self).bytes(), old(self).strings_base(), old(self).position()) {
                Ok(Some((m, q))) => r matches Ok(Some(n)) && n@ == m && final(self).position()
                    == q,
                Ok(None) => r matches Ok(None) && final(self).position() == old(self).position(),
                Err(e) => r == Err::<Option<Node>, ParseError>(e),
            },
            r matches Ok(Some(_)) ==> final(self).position() > old(self).position(),
        decreases old(self).bytes().len() - old(self).position(),
    {
        let ghost b = self.bytes();
        let ghost so = self.strings_base();
        let ghost p = self.position();
        match self.accept_tag(Tag::BeginNode) {
            Ok(true) => {},
            Ok(false) => return Ok(None),
            Err(e) => return Err(e),
        }
        let name = match self.block_string0() {
            Ok(s) => vstd::slice::slice_to_vec(s),
            Err(e) => return Err(e),
        };
        let ghost q = self.position();
        proof {
            lemma_find_zero_found(b, p + 4);
            assert(tag_at(b, p) == Ok::<Tag, ParseError>(Tag::BeginNode));
            assert(block_name(b, p + 4) == Ok::<(Seq<u8>, int), ParseError>((name@, q)));
        }
        let mut properties: Vec<Property> = Vec::new();
        assert(props_view(properties@) =~= seq![]);
        loop
            invariant
                self.wf(),
                self.bytes() == b,
                self.strings_base() == so,
                b == old(self).bytes(),
                so == old(self).strings_base(),
                p == old(self).position(),
                p < q <= self.position() <= b.len(),
                tag_at(b, p) == Ok::<Tag, ParseError>(Tag::BeginNode),
                block_name(b, p + 4) == Ok::<(Seq<u8>, int), ParseError>((name@, q)),
                props_from(b, so, q, seq![]) == props_from(
                    b,
                    so,
                    self.position(),
                    props_view(properties@),
                ),
            ensures
                props_from(b, so, q, seq![]) == Ok::<(Seq<PropertyModel>, int), ParseError>(
                    (props_view(properties@), self.position()),
                ),
            decreases b.len() - self.position(),
        {
            let ghost at = self.position();
            let ghost acc = props_view(properties@);
            match self.accept_tag(Tag::Property) {
                Ok(true) => {},
                Ok(false) => {
                    assert(props_from(b, so, at, acc) == Ok::<(Seq<PropertyModel>, int), ParseError>(
                        (acc, at),
                    ));
                    break;
                },
                Err(e) => {
                    assert(props_from(b, so, at, acc) is Err);
                    return Err(e);
                },
            }
            let prop = match self.property() {
                Ok(pr) => pr,
                Err(e) => {
                    assert(props_from(b, so, at, acc) is Err);
                    return Err(e);
                },
            };
            let ghost before = properties@;
            properties.push(prop);
            assert(props_view(properties@) =~= props_view(before).push(prop@));
        }
        let ghost r = self.position();
        let mut children: Vec<Node> = Vec::new();
        assert(nodes_view(children@) =~= seq![]);
        loop
            invariant
                self.wf(),
                self.bytes() == b,
                self.strings_base() == so,
                b == old(self).bytes(),
                so == old(self).strings_base(),
                p == old(self).position(),
                p < q <= r <= self.position() <= b.len(),
                tag_at(b, p) == Ok::<Tag, ParseError>(Tag::BeginNode),
                block_name(b, p + 4) == Ok::<(Seq<u8>, int), ParseError>((name@, q)),
                props_from(b, so, q, seq![]) == Ok::<(Seq<PropertyModel>, int), ParseError>(
                    (props_view(properties@), r),
                ),
                children_from(b, so, r, seq![]) == children_from(
                    b,
                    so,
                    self.position(),
                    nodes_view(children@),
                ),
            ensures
                children_from(b, so, r, seq![]) == Ok::<(Seq<NodeModel>, int), ParseError>(
                    (nodes_view(children@), self.position()),
                ),
            decreases b.len() - self.position(),
        {
            let ghost at = self.position();
            match self.node() {
                Ok(Some(child)) => {
                    let ghost before = children@;
                    children.push(child);
                    assert(nodes_view(children@) =~= nodes_view(before).push(child@));
                },
                Ok(None) => break,
                Err(e) => {
                    assert(children_from(b, so, at, nodes_view(children@)) is Err);
                    return Err(e);
                },
            }
        }
        let ghost t = self.position();
        match self.expect_tag(Tag::EndNode) {
            Ok(()) => {},
            Err(e) => {
                assert(node_at(b, so, p) == Err::<Option<(NodeModel, int)>, ParseError>(e));
                return Err(e);
            },
        }
        let rs = Node { name: name, properties: properties, children: children };
        assert(rs@.children =~= nodes_view(rs.children@));
        Ok(Some(rs))
    }

    /// Decodes the blob from the position (the start, for a new parser): the
    /// magic word, the header, then the root node at the structure block's
    /// offset. On failure `pos` tells where decoding stopped.
    pub fn parse(&mut self) -> (r: Result<DeviceTree, ParseError>)
        requires
            old(self).wf(),
        ensures
            final(self).wf(),
            final(self).bytes() == old(self).bytes(),
            0 <= final(self).position() <= final(self).bytes().len(),
            match tree_at(old(self).bytes(), old(self).position()) {
                Ok(t) => r matches Ok(tree) && tree@ == t,
                Err(e) => r == Err::<DeviceTree, ParseError>(e),
            },
    {
        let ghost b = self.bytes();
        let ghost p = self.position();
        match self.tag() {
            Ok(Tag::Magic) => {},
            Ok(_) => return Err(ParseError::InvalidMagic),
            Err(e) => return Err(e),
        }
        let totalsize = match self.word() {
            Ok(v) => v,
            Err(e) => return Err(e),
        };
        let off_dt_struct = match self.word() {
            Ok(v) => v,
            Err(e) => return Err(e),
        };
        let off_dt_strings = match self.word() {
            Ok(v) => v,
            Err(e) => return Err(e),
        };
        self.string_offset = off_dt_strings as usize;
        let off_mem_rsvmap = match self.word() {
            Ok(v) => v,
            Err(e) => return Err(e),
        };
        let version = match self.word() {
            Ok(v) => v,
            Err(e) => return Err(e),
        };
        let last_comp_version = match self.word() {
            Ok(v) => v,
            Err(e) => return Err(e),
        };
        let mut boot_cpuid_phys: u32 = 0;
        if version > 2 {
            boot_cpuid_phys = match self.word() {
                Ok(v) => v,
                Err(e) => return Err(e),
            };
        }
        let mut size_dt_strings: u32 = 0;
        if version > 3 {
            size_dt_strings = match self.word() {
                Ok(v) => v,
                Err(e) => return Err(e),
            };
        }
        let mut size_dt_struct: u32 = 0;
        if version > 17 {
            size_dt_struct = match self.word() {
                Ok(v) => v,
                Err(e) => return Err(e),
            };
        }
        let header = DeviceTreeHeader {
            totalsize: totalsize,
            off_dt_struct: off_dt_struct,
            off_dt_strings: off_dt_strings,
            off_mem_rsvmap: off_mem_rsvmap,
            version: version,
            last_comp_version: last_comp_version,
            boot_cpuid_phys: boot_cpuid_phys,
            size_dt_strings: size_dt_strings,
            size_dt_struct: size_dt_struct,
        };
        match self.buf.seek(off_dt_struct as usize) {
            Ok(()) => {},
            Err(e) => return Err(ParseError::from(e)),
        }
        match self.node() {
            Ok(Some(root)) => Ok(DeviceTree { header: header, root: root }),
            Ok(None) => Err(ParseError::NoRootFound),
            Err(e) => Err(e),
        }
    }
} // impl DeviceTreeParser

} // verus!
