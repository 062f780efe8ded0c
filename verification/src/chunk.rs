//! Chunks: the nodes of the container's tree, their headers, and the windows
//! through which their contents are read and written.

use vstd::prelude::*;
use vstd::std_specs::cmp::PartialEqSpecImpl;
use vstd::std_specs::convert::FromSpecImpl;
use vstd::string::StringSliceAdditionalSpecFns;

use crate::endian::{u32_le, u32_le_bytes};
use crate::reader::{Error as ReadError, ErrorView as ReadErrorView};
use crate::stream::{
    read_exact, read_outcome, remaining, window, write_outcome, written, ByteReader, ByteWriter,
    InvalidSeek, IoError, Read, SeekFrom, Write,
};
use crate::types::Version;
use crate::writer::{Error as WriteError, ErrorView as WriteErrorView};

verus! {

/// A string that is not a chunk tag: a tag has exactly four bytes.
#[derive(Debug)]
pub struct ChunkIdParseError(pub String);

/// The identity of a chunk: one of the known tags, or four other bytes.
#[derive(Copy, Clone, Debug, Eq, PartialOrd, Ord, Hash)]
pub enum ChunkId {
    Main,
    Pack,
    Size,
    Xyzi,
    Rgba,
    Matt,
    Note,
    Vox,
    NTrn,
    NGrp,
    NShp,
    Layr,
    Matl,
    RObj,
    RCam,
    /// A tag that is none of the above.
    Unsupported([u8; 4]),
}

/// The array that holds the first four bytes of `t`.
pub open spec fn tag_array(t: Seq<u8>) -> [u8; 4] {
    [t[0], t[1], t[2], t[3]]
}

/// Whether `value` holds the four given bytes.
pub open spec fn tag_is(value: [u8; 4], a: u8, b: u8, c: u8, d: u8) -> bool {
    value[0] == a && value[1] == b && value[2] == c && value[3] == d
}

/// The chunk identity that four bytes stand for.
pub open spec fn chunk_id_of(value: [u8; 4]) -> ChunkId {
    if tag_is(value, 77, 65, 73, 78) {
        ChunkId::Main
    } else if tag_is(value, 80, 65, 67, 75) {
        ChunkId::Pack
    } else if tag_is(value, 83, 73, 90, 69) {
        ChunkId::Size
    } else if tag_is(value, 88, 89, 90, 73) {
        ChunkId::Xyzi
    } else if tag_is(value, 82, 71, 66, 65) {
        ChunkId::Rgba
    } else if tag_is(value, 77, 65, 84, 84) {
        ChunkId::Matt
    } else if tag_is(value, 78, 79, 84, 69) {
        ChunkId::Note
    } else if tag_is(value, 86, 79, 88, 32) {
        ChunkId::Vox
    } else if tag_is(value, 110, 84, 82, 78) {
        ChunkId::NTrn
    } else if tag_is(value, 110, 71, 82, 80) {
        ChunkId::NGrp
    } else if tag_is(value, 110, 83, 72, 80) {
        ChunkId::NShp
    } else if tag_is(value, 76, 65, 89, 82) {
        ChunkId::Layr
    } else if tag_is(value, 77, 65, 84, 76) {
        ChunkId::Matl
    } else if tag_is(value, 114, 79, 66, 74) {
        ChunkId::RObj
    } else if tag_is(value, 114, 67, 65, 77) {
        ChunkId::RCam
    } else {
        ChunkId::Unsupported(value)
    }
}

/// The four bytes that stand for a chunk identity.
pub open spec fn tag_of(id: ChunkId) -> [u8; 4] {
    match id {
        ChunkId::Main => [77u8, 65u8, 73u8, 78u8],
        ChunkId::Pack => [80u8, 65u8, 67u8, 75u8],
        ChunkId::Size => [83u8, 73u8, 90u8, 69u8],
        ChunkId::Xyzi => [88u8, 89u8, 90u8, 73u8],
        ChunkId::Rgba => [82u8, 71u8, 66u8, 65u8],
        ChunkId::Matt => [77u8, 65u8, 84u8, 84u8],
        ChunkId::Note => [78u8, 79u8, 84u8, 69u8],
        ChunkId::Vox => [86u8, 79u8, 88u8, 32u8],
        ChunkId::NTrn => [110u8, 84u8, 82u8, 78u8],
        ChunkId::NGrp => [110u8, 71u8, 82u8, 80u8],
        ChunkId::NShp => [110u8, 83u8, 72u8, 80u8],
        ChunkId::Layr => [76u8, 65u8, 89u8, 82u8],
        ChunkId::Matl => [77u8, 65u8, 84u8, 76u8],
        ChunkId::RObj => [114u8, 79u8, 66u8, 74u8],
        ChunkId::RCam => [114u8, 67u8, 65u8, 77u8],
        ChunkId::Unsupported(value) => value,
    }
}

/// A tag survives the way through a chunk identity byte for byte, also one
/// that is not known.
pub proof fn tag_round_trip(value: [u8; 4])
    ensures
        tag_of(chunk_id_of(value)) == value,
{
    assert(tag_of(chunk_id_of(value)) =~= value);
}

/// A known identity, and an unknown one whose bytes are no known tag,
/// survives the way through its bytes.
pub proof fn chunk_id_round_trip(id: ChunkId)
    requires
        id matches ChunkId::Unsupported(value) ==> chunk_id_of(value) is Unsupported,
    ensures
        chunk_id_of(tag_of(id)) == id,
{
}

impl PartialEq for ChunkId {
    fn eq(&self, other: &ChunkId) -> (r: bool) {
        let a: [u8; 4] = tag_bytes(*self);
        let b: [u8; 4] = tag_bytes(*other);
        assert((a =~= b) == (a == b));
        self.is_supported() == other.is_supported() && a[0] == b[0] && a[1] == b[1] && a[2] == b[2]
            && a[3] == b[3]
    }
}

impl PartialEqSpecImpl for ChunkId {
    open spec fn obeys_eq_spec() -> bool {
        true
    }

    open spec fn eq_spec(&self, other: &ChunkId) -> bool {
        *self == *other
    }
}

/// The four bytes of a chunk identity.
fn tag_bytes(id: ChunkId) -> (r: [u8; 4])
    ensures
        r == tag_of(id),
{
    let r: [u8; 4] = match id {
        ChunkId::Main => [77u8, 65u8, 73u8, 78u8],
        ChunkId::Pack => [80u8, 65u8, 67u8, 75u8],
        ChunkId::Size => [83u8, 73u8, 90u8, 69u8],
        ChunkId::Xyzi => [88u8, 89u8, 90u8, 73u8],
        ChunkId::Rgba => [82u8, 71u8, 66u8, 65u8],
        ChunkId::Matt => [77u8, 65u8, 84u8, 84u8],
        ChunkId::Note => [78u8, 79u8, 84u8, 69u8],
        ChunkId::Vox => [86u8, 79u8, 88u8, 32u8],
        ChunkId::NTrn => [110u8, 84u8, 82u8, 78u8],
        ChunkId::NGrp => [110u8, 71u8, 82u8, 80u8],
        ChunkId::NShp => [110u8, 83u8, 72u8, 80u8],
        ChunkId::Layr => [76u8, 65u8, 89u8, 82u8],
        ChunkId::Matl => [77u8, 65u8, 84u8, 76u8],
        ChunkId::RObj => [114u8, 79u8, 66u8, 74u8],
        ChunkId::RCam => [114u8, 67u8, 65u8, 77u8],
        ChunkId::Unsupported(value) => value,
    };
    assert(r =~= tag_of(id));
    r
}

/// Whether `value` holds the four given bytes.
fn has_tag(value: &[u8; 4], a: u8, b: u8, c: u8, d: u8) -> (r: bool)
    ensures
        r == tag_is(*value, a, b, c, d),
{
    value[0] == a && value[1] == b && value[2] == c && value[3] == d
}

impl From<[u8; 4]> for ChunkId {
    /// The identity that four bytes stand for.
    fn from(value: [u8; 4]) -> (id: ChunkId) {
        if has_tag(&value, 77, 65, 73, 78) {
            ChunkId::Main
        } else if has_tag(&value, 80, 65, 67, 75) {
            ChunkId::Pack
        } else if has_tag(&value, 83, 73, 90, 69) {
            ChunkId::Size
        } else if has_tag(&value, 88, 89, 90, 73) {
            ChunkId::Xyzi
        } else if has_tag(&value, 82, 71, 66, 65) {
            ChunkId::Rgba
        } else if has_tag(&value, 77, 65, 84, 84) {
            ChunkId::Matt
        } else if has_tag(&value, 78, 79, 84, 69) {
            ChunkId::Note
        } else if has_tag(&value, 86, 79, 88, 32) {
            ChunkId::Vox
        } else if has_tag(&value, 110, 84, 82, 78) {
            ChunkId::NTrn
        } else if has_tag(&value, 110, 71, 82, 80) {
            ChunkId::NGrp
        } else if has_tag(&value, 110, 83, 72, 80) {
            ChunkId::NShp
        } else if has_tag(&value, 76, 65, 89, 82) {
            ChunkId::Layr
        } else if has_tag(&value, 77, 65, 84, 76) {
            ChunkId::Matl
        } else if has_tag(&value, 114, 79, 66, 74) {
            ChunkId::RObj
        } else if has_tag(&value, 114, 67, 65, 77) {
            ChunkId::RCam
        } else {
            ChunkId::Unsupported(value)
        }
    }
}

impl FromSpecImpl<[u8; 4]> for ChunkId {
    open spec fn obeys_from_spec() -> bool {
        true
    }

    open spec fn from_spec(value: [u8; 4]) -> ChunkId {
        chunk_id_of(value)
    }
}

impl From<ChunkId> for [u8; 4] {
    /// The four bytes that stand for an identity.
    fn from(chunk_id: ChunkId) -> (value: [u8; 4]) {
        tag_bytes(chunk_id)
    }
}

impl FromSpecImpl<ChunkId> for [u8; 4] {
    open spec fn obeys_from_spec() -> bool {
        true
    }

    open spec fn from_spec(chunk_id: ChunkId) -> [u8; 4] {
        tag_of(chunk_id)
    }
}

impl ChunkId {
    /// Reads a tag of four bytes.
    pub fn read<R: Read>(reader: &mut R) -> (r: Result<ChunkId, ReadError>)
        ensures
            read_outcome(*old(reader), *final(reader), 4, r is Ok),
            r matches Ok(id) ==> id == chunk_id_of(tag_array(remaining(*old(reader)))),
            r matches Err(e) ==> e@ == ReadErrorView::Io(IoError::UnexpectedEof),
    {
        match read_exact(reader, 4) {
            Ok(bytes) => {
                let value: [u8; 4] = [bytes[0], bytes[1], bytes[2], bytes[3]];
                assert(value =~= tag_array(remaining(*old(reader))));
                Ok(ChunkId::from(value))
            },
            Err(e) => Err(ReadError::Io(e)),
        }
    }

    /// Writes the tag: four bytes.
    pub fn write<W: Write>(&self, writer: &mut W) -> (r: Result<(), WriteError>)
        ensures
            write_outcome(*old(writer), *final(writer), tag_of(*self)@, r is Ok),
            r matches Err(e) ==> e@ == WriteErrorView::Io(IoError::Other),
    {
        let id: [u8; 4] = tag_bytes(*self);
        match writer.write_all(id.as_slice()) {
            Ok(()) => Ok(()),
            Err(e) => Err(WriteError::Io(e)),
        }
    }

    /// Whether the tag is one of the known ones.
    pub fn is_supported(&self) -> (r: bool)
        ensures
            r == !(*self is Unsupported),
    {
        match self {
            ChunkId::Unsupported(_) => false,
            _ => true,
        }
    }

    /// The identity that a string of exactly four bytes stands for.
    pub fn parse(s: &str) -> (r: Result<ChunkId, ChunkIdParseError>)
        ensures
            r is Ok <==> s.spec_bytes().len() == 4,
            r matches Ok(id) ==> id == chunk_id_of(tag_array(s.spec_bytes())),
            r matches Err(e) ==> e.0@ == s@,
    {
        let bytes = s.as_bytes();
        if bytes.len() != 4 {
            return Err(ChunkIdParseError(s.to_owned()));
        }
        let value: [u8; 4] = [bytes[0], bytes[1], bytes[2], bytes[3]];
        assert(value =~= tag_array(s.spec_bytes()));
        Ok(ChunkId::from(value))
    }
}

impl core::str::FromStr for ChunkId {
    type Err = ChunkIdParseError;

    /// The identity that a string of exactly four bytes stands for; a
    /// string of another length is handed back in the error.
    fn from_str(s: &str) -> (r: Result<ChunkId, ChunkIdParseError>)
        ensures
            r is Ok <==> s.spec_bytes().len() == 4,
            r matches Ok(id) ==> id == chunk_id_of(tag_array(s.spec_bytes())),
            r matches Err(e) ==> e.0@ == s@,
    {
        ChunkId::parse(s)
    }
}

/// What a chunk's header says, and where the header stands.
pub struct ChunkView {
    pub offset: u32,
    pub id: ChunkId,
    pub content_len: u32,
    pub children_len: u32,
}

impl ChunkView {
    /// Where the content starts: behind the header of twelve bytes.
    pub open spec fn content_offset(self) -> int {
        self.offset + 12
    }

    /// Where the children start: behind the content.
    pub open spec fn children_offset(self) -> int {
        self.offset + 12 + self.content_len
    }

    /// The length of header, content and children together.
    pub open spec fn len(self) -> int {
        self.content_len + self.children_len + 12
    }

    /// Where the chunk ends.
    pub open spec fn end(self) -> int {
        self.offset + self.len()
    }

    /// Whether every offset of the chunk fits in 32 bits.
    pub open spec fn fits(self) -> bool {
        self.end() <= u32::MAX
    }
}

/// The header of a chunk: what is needed to find its content and its
/// children. It holds no payload.
#[derive(Copy, Clone, Debug)]
pub struct Chunk {
    offset: u32,
    id: ChunkId,
    content_len: u32,
    children_len: u32,
}

impl View for Chunk {
    type V = ChunkView;

    closed spec fn view(&self) -> ChunkView {
        ChunkView {
            offset: self.offset,
            id: self.id,
            content_len: self.content_len,
            children_len: self.children_len,
        }
    }
}

/// The header that stands at `pos` in `bytes`, or why there is none.
pub open spec fn parse_header(bytes: Seq<u8>, pos: u64) -> Result<ChunkView, ReadErrorView> {
    if pos > u32::MAX {
        Err(ReadErrorView::Overflow)
    } else if bytes.len() < pos + 12 {
        Err(ReadErrorView::Io(IoError::UnexpectedEof))
    } else {
        let header = ChunkView {
            offset: pos as u32,
            id: chunk_id_of(tag_array(bytes.subrange(pos as int, pos + 4))),
            content_len: u32_le(bytes.subrange(pos + 4, pos + 8)),
            children_len: u32_le(bytes.subrange(pos + 8, pos + 12)),
        };
        if header.fits() {
            Ok(header)
        } else {
            Err(ReadErrorView::Overflow)
        }
    }
}

impl Chunk {
    #[verifier::type_invariant]
    spec fn fits(self) -> bool {
        self.offset + 12 + self.content_len + self.children_len <= u32::MAX
    }

    /// Reads the header at the reader's position.
    pub fn read(reader: &mut ByteReader) -> (r: Result<Chunk, ReadError>)
        ensures
            final(reader)@ == old(reader)@,
            match parse_header(old(reader)@, old(reader).position()) {
                Ok(header) => r matches Ok(chunk) && chunk@ == header && final(reader).position()
                    == old(reader).position() + 12,
                Err(e) => r matches Err(got) && got@ == e,
            },
    {
        let pos = reader.stream_position();
        if pos > u32::MAX as u64 {
            return Err(ReadError::Overflow);
        }
        let offset = pos as u32;
        let ghost bytes = reader@;
        let header = match read_exact(reader, 12) {
            Ok(header) => header,
            Err(e) => {
                return Err(ReadError::Io(e));
            },
        };
        assert(header@ =~= bytes.subrange(pos as int, pos + 12));
        let tag: [u8; 4] = [header[0], header[1], header[2], header[3]];
        assert(tag =~= tag_array(bytes.subrange(pos as int, pos + 4)));
        let id = ChunkId::from(tag);
        let content_len = crate::endian::u32_of(&header, 4);
        let children_len = crate::endian::u32_of(&header, 8);
        assert(header@.subrange(4, 8) =~= bytes.subrange(pos + 4, pos + 8));
        assert(header@.subrange(8, 12) =~= bytes.subrange(pos + 8, pos + 12));
        if offset > u32::MAX - 12 || content_len > u32::MAX - 12 - offset || children_len
            > u32::MAX - 12 - offset - content_len {
            return Err(ReadError::Overflow);
        }
        Ok(Chunk { offset, id, content_len, children_len })
    }

    /// Where the header stands in the stream.
    pub fn offset(&self) -> (r: u32)
        ensures
            r == self@.offset,
    {
        self.offset
    }

    /// The chunk's identity.
    pub fn id(&self) -> (r: ChunkId)
        ensures
            r == self@.id,
    {
        self.id
    }

    /// Where the content starts.
    pub fn content_offset(&self) -> (r: u32)
        ensures
            r == self@.content_offset(),
    {
        proof {
            use_type_invariant(self);
        }
        self.offset + 12
    }

    /// The length of the content.
    pub fn content_len(&self) -> (r: u32)
        ensures
            r == self@.content_len,
    {
        self.content_len
    }

    /// Where the children start.
    pub fn children_offset(&self) -> (r: u32)
        ensures
            r == self@.children_offset(),
    {
        proof {
            use_type_invariant(self);
        }
        self.offset + 12 + self.content_len
    }

    /// The length of the children.
    pub fn children_len(&self) -> (r: u32)
        ensures
            r == self@.children_len,
    {
        self.children_len
    }

    /// The length of header, content and children together.
    pub fn len(&self) -> (r: u32)
        ensures
            r == self@.len(),
            self@.fits(),
    {
        proof {
            use_type_invariant(self);
        }
        self.content_len + self.children_len + 12
    }

    /// Whether the chunk has neither content nor children.
    pub fn is_empty(&self) -> (r: bool)
        ensures
            r == (self@.content_len == 0 && self@.children_len == 0),
    {
        self.content_len == 0 && self.children_len == 0
    }

    /// Opens a reader on the chunk's content: the window from the content's
    /// offset over the content's length. On a stream in memory this cannot
    /// fail.
    pub fn content<'a>(&self, reader: ByteReader<'a>) -> (r: Result<ContentReader<'a>, ReadError>)
        ensures
            r matches Ok(content) && content.source() == reader@ && content.origin()
                == self@.content_offset() && content.cursor() == self@.content_offset()
                && content.limit() == self@.children_offset(),
            self@.fits(),
    {
        proof {
            use_type_invariant(self);
        }
        let offset = self.content_offset();
        Ok(ContentReader::open(reader, offset, offset + self.content_len))
    }

    /// The bytes of the chunk's content, as far as the stream holds them.
    pub fn read_content_to_vec(&self, reader: ByteReader) -> (r: Result<Vec<u8>, ReadError>)
        ensures
            r matches Ok(bytes) && bytes@ == window(
                reader@,
                self@.content_offset(),
                self@.children_offset(),
            ),
    {
        let mut content = match self.content(reader) {
            Ok(content) => content,
            Err(e) => {
                return Err(e);
            },
        };
        let bytes = content.read(self.content_len as usize);
        assert(bytes@ =~= window(reader@, self@.content_offset(), self@.children_offset()));
        Ok(bytes)
    }

    /// Opens a walk over the headers of the chunk's children.
    pub fn children<'a>(&self, reader: ByteReader<'a>) -> (r: ChildrenReader<'a>)
        ensures
            r.source() == reader@,
            r.offset() == self@.children_offset(),
            r.end() == self@.end(),
            self@.fits(),
    {
        proof {
            use_type_invariant(self);
        }
        let offset = self.children_offset();
        ChildrenReader { reader, offset, end: offset + self.children_len }
    }
}

/// Where a seek leads that is resolved against a window: from `start`, from
/// `current` or from `end`. There is no such place when it lies below zero
/// or does not fit in 32 bits.
pub open spec fn seek_to_spec(current: u32, start: u32, end: u32, pos: SeekFrom) -> Option<u32> {
    let target: int = match pos {
        SeekFrom::Current(d) => current + d,
        SeekFrom::Start(p) => start + p,
        SeekFrom::End(d) => end + d,
    };
    if 0 <= target <= u32::MAX {
        Some(target as u32)
    } else {
        None
    }
}

/// Resolves a seek against a window.
pub fn seek_to(current: u32, start: u32, end: u32, pos: SeekFrom) -> (r: Result<u32, IoError>)
    ensures
        match seek_to_spec(current, start, end, pos) {
            Some(target) => r == Ok::<u32, IoError>(target),
            None => r == Err::<u32, IoError>(
                IoError::InvalidSeek(InvalidSeek { current, start, end, pos }),
            ),
        },
{
    let (offset, delta): (u32, Option<i64>) = match pos {
        SeekFrom::Current(d) => (current, Some(d)),
        SeekFrom::Start(p) => (
            start,
            if p <= i64::MAX as u64 {
                Some(p as i64)
            } else {
                None
            },
        ),
        SeekFrom::End(d) => (end, Some(d)),
    };
    let offset = offset as i64;
    let new_pos: Option<i64> = match delta {
        Some(d) => offset.checked_add(d),
        None => None,
    };
    match new_pos {
        Some(p) => {
            if 0 <= p && p <= u32::MAX as i64 {
                Ok(p as u32)
            } else {
                Err(IoError::InvalidSeek(InvalidSeek { current, start, end, pos }))
            }
        },
        None => Err(IoError::InvalidSeek(InvalidSeek { current, start, end, pos })),
    }
}

/// Where a seek leads inside a window that starts at `start`: as
/// [`seek_to_spec`] says, but nowhere when that lies before the window.
pub open spec fn window_seek(current: u32, start: u32, end: u32, pos: SeekFrom) -> Option<u32> {
    match seek_to_spec(current, start, end, pos) {
        Some(target) => if target >= start {
            Some(target)
        } else {
            None
        },
        None => None,
    }
}

/// A seek inside a window never leads before the window's start.
pub proof fn window_seek_stays_inside(current: u32, start: u32, end: u32, pos: SeekFrom)
    ensures
        window_seek(current, start, end, pos) matches Some(target) ==> start <= target,
{
}

/// What a reader yields whose position is not before its window's start
/// lies inside the window: the byte `k` of what remains is the byte of the
/// stream at the position `cursor + k`, which is neither before `origin` nor
/// at or behind `limit`.
pub proof fn window_stays_inside(source: Seq<u8>, origin: nat, cursor: nat, limit: nat, k: int)
    requires
        origin <= cursor,
        0 <= k < window(source, cursor as int, limit as int).len(),
    ensures
        origin <= cursor + k < limit,
        cursor + k < source.len(),
        window(source, cursor as int, limit as int)[k] == source[cursor + k],
{
}

/// A view for reading that is restricted to the window `[start, end)` of a
/// stream.
#[derive(Copy, Clone, Debug)]
pub struct ContentReader<'a> {
    reader: ByteReader<'a>,
    start: u32,
    end: u32,
}

impl<'a> Read for ContentReader<'a> {
    closed spec fn source(&self) -> Seq<u8> {
        self.reader@
    }

    closed spec fn origin(&self) -> nat {
        self.start as nat
    }

    closed spec fn cursor(&self) -> nat {
        self.reader.position() as nat
    }

    closed spec fn limit(&self) -> nat {
        self.end as nat
    }

    /// Takes the next `len` bytes of the window, or all that are left of it
    /// when there are fewer: never a byte from outside it, since the
    /// position is never before the window's start.
    fn read(&mut self, len: usize) -> (bytes: Vec<u8>)
        ensures
            old(self).origin() <= old(self).cursor(),
    {
        proof {
            use_type_invariant(&*self);
        }
        let offset = self.reader.stream_position() as u32;
        if offset < self.end {
            let left = (self.end - offset) as usize;
            let n_at_most = if left <= len {
                left
            } else {
                len
            };
            let mut reader = self.reader;
            let bytes = reader.read(n_at_most);
            self.reader = reader;
            assert(bytes@ =~= window(
                old(self).reader@,
                old(self).reader.position() as int,
                old(self).end as int,
            ).take(bytes@.len() as int));
            bytes
        } else {
            let bytes = Vec::new();
            assert(bytes@ =~= window(
                old(self).reader@,
                old(self).reader.position() as int,
                old(self).end as int,
            ).take(0));
            bytes
        }
    }
}

impl<'a> ContentReader<'a> {
    #[verifier::type_invariant]
    spec fn inside(self) -> bool {
        self.start <= self.reader.position() <= u32::MAX && self.start <= self.end
    }

    /// Opens the window `[start, end)` on `reader`, positioned at its start.
    fn open(reader: ByteReader<'a>, start: u32, end: u32) -> (r: ContentReader<'a>)
        requires
            start <= end,
        ensures
            r.source() == reader@,
            r.origin() == start,
            r.cursor() == start,
            r.limit() == end,
    {
        let mut reader = reader;
        let _ = reader.seek(SeekFrom::Start(start as u64));
        ContentReader { reader, start, end }
    }

    /// The position never lies before the window, and the window's bounds
    /// fit in 32 bits.
    pub fn position(&self) -> (r: u64)
        ensures
            r == self.cursor() - self.origin(),
            self.origin() <= self.cursor() <= u32::MAX,
            self.origin() <= self.limit() <= u32::MAX,
    {
        proof {
            use_type_invariant(self);
        }
        self.reader.stream_position() - self.start as u64
    }

    /// Moves the position inside the window's own coordinates: `Start`
    /// counts from the window's start, `End` from its end. A place beyond the
    /// end is allowed and yields no bytes. Returns the new position, counted
    /// from the window's start.
    pub fn seek(&mut self, pos: SeekFrom) -> (r: Result<u64, IoError>)
        ensures
            final(self).source() == old(self).source(),
            final(self).origin() == old(self).origin(),
            final(self).limit() == old(self).limit(),
            match window_seek(
                old(self).cursor() as u32,
                old(self).origin() as u32,
                old(self).limit() as u32,
                pos,
            ) {
                Some(target) => r == Ok::<u64, IoError>((target - old(self).origin()) as u64)
                    && final(self).cursor() == target,
                None => r == Err::<u64, IoError>(
                    IoError::InvalidSeek(
                        InvalidSeek {
                            current: old(self).cursor() as u32,
                            start: old(self).origin() as u32,
                            end: old(self).limit() as u32,
                            pos,
                        },
                    ),
                ) && final(self).cursor() == old(self).cursor(),
            },
    {
        proof {
            use_type_invariant(&*self);
        }
        let current = self.reader.stream_position() as u32;
        let target = match seek_to(current, self.start, self.end, pos) {
            Ok(target) => target,
            Err(e) => {
                return Err(e);
            },
        };
        if target < self.start {
            return Err(
                IoError::InvalidSeek(
                    InvalidSeek { current, start: self.start, end: self.end, pos },
                ),
            );
        }
        if target != current {
            let mut reader = self.reader;
            let _ = reader.seek(SeekFrom::Start(target as u64));
            self.reader = reader;
        }
        Ok((target - self.start) as u64)
    }
}

/// The next header among the children that lie in `[offset, end)`: none when
/// `offset` has reached `end`, and a failure when it lies behind `end`,
/// which it does behind a chunk whose declared lengths run past `end`.
pub open spec fn next_child(bytes: Seq<u8>, offset: u32, end: u32) -> Option<
    Result<ChunkView, ReadErrorView>,
> {
    if offset < end {
        Some(parse_header(bytes, offset as u64))
    } else if offset == end {
        None
    } else {
        Some(Err(ReadErrorView::Io(IoError::UnexpectedEof)))
    }
}

/// The headers of the chunks that follow each other in `[offset, end)`, or
/// the first failure on the way. The last chunk has to end at `end`.
pub open spec fn children_from(bytes: Seq<u8>, offset: u32, end: u32) -> Result<
    Seq<ChunkView>,
    ReadErrorView,
>
    decreases
        (if offset < end {
            end - offset
        } else {
            0
        }),
{
    if offset == end {
        Ok(Seq::empty())
    } else if offset > end {
        Err(ReadErrorView::Io(IoError::UnexpectedEof))
    } else {
        match parse_header(bytes, offset as u64) {
            Err(e) => Err(e),
            Ok(first) => match children_from(bytes, first.end() as u32, end) {
                Err(e) => Err(e),
                Ok(rest) => Ok(seq![first] + rest),
            },
        }
    }
}

/// Walks the headers of the chunks that follow each other in a part of a
/// stream.
#[derive(Copy, Clone, Debug)]
pub struct ChildrenReader<'a> {
    reader: ByteReader<'a>,
    offset: u32,
    end: u32,
}

impl<'a> ChildrenReader<'a> {
    /// All the bytes of the underlying stream.
    pub closed spec fn source(&self) -> Seq<u8> {
        self.reader@
    }

    /// Where the next header is looked for.
    pub closed spec fn offset(&self) -> u32 {
        self.offset
    }

    /// Where the walk ends.
    pub closed spec fn end(&self) -> u32 {
        self.end
    }

    /// Reads the next header and moves behind that chunk. There is no next
    /// one once the offset has reached the end. Behind a chunk whose
    /// declared lengths run past the end, the walk fails. A failure leaves
    /// the offset where it was.
    pub fn next(&mut self) -> (r: Option<Result<Chunk, ReadError>>)
        ensures
            final(self).source() == old(self).source(),
            final(self).end() == old(self).end(),
            match next_child(old(self).source(), old(self).offset(), old(self).end()) {
                None => r is None && final(self).offset() == old(self).offset(),
                Some(Ok(header)) => r matches Some(Ok(chunk)) && chunk@ == header
                    && final(self).offset() == header.end(),
                Some(Err(e)) => r matches Some(Err(got)) && got@ == e && final(self).offset()
                    == old(self).offset(),
            },
    {
        if self.offset < self.end {
            Some(read_chunk_at(&mut self.reader, &mut self.offset))
        } else if self.offset == self.end {
            None
        } else {
            Some(Err(ReadError::Io(IoError::UnexpectedEof)))
        }
    }
}

/// Reads the header that stands at `offset`, and moves `offset` behind that
/// chunk.
pub fn read_chunk_at(reader: &mut ByteReader, offset: &mut u32) -> (r: Result<Chunk, ReadError>)
    ensures
        final(reader)@ == old(reader)@,
        match parse_header(old(reader)@, *old(offset) as u64) {
            Ok(header) => r matches Ok(chunk) && chunk@ == header && *final(offset)
                == header.end() && final(reader).position() == *old(offset) + 12,
            Err(e) => r matches Err(got) && got@ == e && *final(offset) == *old(offset),
        },
{
    let _ = reader.seek(SeekFrom::Start(*offset as u64));
    let chunk = match Chunk::read(reader) {
        Ok(chunk) => chunk,
        Err(e) => {
            return Err(e);
        },
    };
    *offset = *offset + chunk.len();
    Ok(chunk)
}

/// The signature that a file starts with.
pub open spec fn magic() -> Seq<u8> {
    seq![86u8, 79u8, 88u8, 32u8]
}

/// What stands at the start of a file, from `pos` on: the signature, the
/// version, which has to be the supported one, and the header of the root
/// chunk, which has to be `MAIN`.
pub open spec fn parse_preamble(bytes: Seq<u8>, pos: u64) -> Result<
    (ChunkView, Version),
    ReadErrorView,
> {
    let rest = window(bytes, pos as int, bytes.len() as int);
    if rest.len() < 4 {
        Err(ReadErrorView::Io(IoError::UnexpectedEof))
    } else if rest.take(4) != magic() {
        Err(ReadErrorView::InvalidMagic { got: tag_array(rest) })
    } else if rest.len() < 8 {
        Err(ReadErrorView::Io(IoError::UnexpectedEof))
    } else if u32_le(rest.skip(4)) != 150 {
        Err(ReadErrorView::UnsupportedFileVersion { version: Version(u32_le(rest.skip(4))) })
    } else {
        match parse_header(bytes, (pos + 8) as u64) {
            Err(e) => Err(e),
            Ok(main) => if main.id == ChunkId::Main {
                Ok((main, Version(150)))
            } else {
                Err(ReadErrorView::ExpectedMainChunk { got: main })
            },
        }
    }
}

/// Reads the signature, the version and the header of the root chunk, and
/// checks all three.
pub fn read_main_chunk(reader: &mut ByteReader) -> (r: Result<(Chunk, Version), ReadError>)
    ensures
        final(reader)@ == old(reader)@,
        match parse_preamble(old(reader)@, old(reader).position()) {
            Ok((main, version)) => r matches Ok((chunk, v)) && chunk@ == main && v == version
                && final(reader).position() == old(reader).position() + 20,
            Err(e) => r matches Err(got) && got@ == e,
        },
{
    let ghost rest = remaining(*reader);
    let buf = match read_exact(reader, 4) {
        Ok(buf) => buf,
        Err(e) => {
            return Err(ReadError::Io(e));
        },
    };
    if !(buf[0] == 86 && buf[1] == 79 && buf[2] == 88 && buf[3] == 32) {
        let got: [u8; 4] = [buf[0], buf[1], buf[2], buf[3]];
        assert(got =~= tag_array(rest));
        assert(rest.take(4) != magic());
        return Err(ReadError::InvalidMagic { got });
    }
    assert(rest.take(4) =~= magic());
    assert(remaining(*reader) =~= rest.skip(4));
    let version = match Version::read(reader) {
        Ok(version) => version,
        Err(e) => {
            return Err(e);
        },
    };
    if !version.is_supported() {
        return Err(ReadError::UnsupportedFileVersion { version });
    }
    let main_chunk = match Chunk::read(reader) {
        Ok(chunk) => chunk,
        Err(e) => {
            return Err(e);
        },
    };
    if main_chunk.id() != ChunkId::Main {
        return Err(ReadError::ExpectedMainChunk { got: main_chunk });
    }
    Ok((main_chunk, version))
}

/// A view for writing that starts at a position of a stream and keeps the
/// highest position that was written up to: the length of what was written
/// is found, not declared. It owns the stream while it is open.
#[derive(Debug)]
pub struct ContentWriter {
    writer: ByteWriter,
    start: u32,
    end: u32,
}

impl Write for ContentWriter {
    closed spec fn contents(&self) -> Seq<u8> {
        self.writer@
    }

    closed spec fn origin(&self) -> nat {
        self.start as nat
    }

    closed spec fn cursor(&self) -> nat {
        self.writer.position() as nat
    }

    closed spec fn mark(&self) -> nat {
        self.end as nat
    }

    open spec fn limit(&self) -> nat {
        u32::MAX as nat
    }

    fn write_all(&mut self, buf: &[u8]) -> (r: Result<(), IoError>)
    {
        proof {
            use_type_invariant(&*self);
        }
        let mut this = ContentWriter { writer: ByteWriter::new(), start: 0, end: 0 };
        core::mem::swap(self, &mut this);
        let ContentWriter { mut writer, start, end } = this;
        let pos = writer.stream_position();
        if buf.len() as u64 > u32::MAX as u64 - pos {
            *self = ContentWriter { writer, start, end };
            return Err(IoError::Other);
        }
        let r = writer.put(buf);
        let offset = writer.stream_position() as u32;
        let end = if offset > end {
            offset
        } else {
            end
        };
        *self = ContentWriter { writer, start, end };
        r
    }
}

impl ContentWriter {
    #[verifier::type_invariant]
    spec fn inside(self) -> bool {
        self.start <= self.writer.position() <= u32::MAX && self.start <= self.end
    }

    /// Opens a window at the position of `writer`.
    pub(crate) fn new(writer: ByteWriter) -> (r: ContentWriter)
        requires
            writer.position() <= u32::MAX,
        ensures
            opened_on(r, writer@, writer.position()),
    {
        let offset = writer.stream_position() as u32;
        ContentWriter { writer, start: offset, end: offset }
    }

    /// Closes the window and gives the stream back.
    pub fn into_inner(self) -> (writer: ByteWriter)
        ensures
            writer@ == self.contents(),
            writer.position() == self.cursor(),
    {
        self.writer
    }

    /// The length of what was written: from the window's start to the highest
    /// position that was written up to.
    pub fn len(&self) -> (n: u32)
        ensures
            n == self.mark() - self.origin(),
            self.origin() <= self.cursor() <= u32::MAX,
            self.mark() <= u32::MAX,
    {
        proof {
            use_type_invariant(self);
        }
        self.end - self.start
    }

    /// Moves the position inside the window's own coordinates: `Start`
    /// counts from the window's start, `End` from the highest position that
    /// was written up to. A place beyond that is allowed. Returns the new
    /// position, counted from the window's start.
    pub fn seek(&mut self, pos: SeekFrom) -> (r: Result<u64, IoError>)
        ensures
            final(self).contents() == old(self).contents(),
            final(self).origin() == old(self).origin(),
            final(self).mark() == old(self).mark(),
            match window_seek(
                old(self).cursor() as u32,
                old(self).origin() as u32,
                old(self).mark() as u32,
                pos,
            ) {
                Some(target) => r == Ok::<u64, IoError>((target - old(self).origin()) as u64)
                    && final(self).cursor() == target,
                None => r == Err::<u64, IoError>(
                    IoError::InvalidSeek(
                        InvalidSeek {
                            current: old(self).cursor() as u32,
                            start: old(self).origin() as u32,
                            end: old(self).mark() as u32,
                            pos,
                        },
                    ),
                ) && final(self).cursor() == old(self).cursor(),
            },
    {
        proof {
            use_type_invariant(&*self);
        }
        let current = self.writer.stream_position() as u32;
        let target = match seek_to(current, self.start, self.end, pos) {
            Ok(target) => target,
            Err(e) => {
                return Err(e);
            },
        };
        if target < self.start {
            return Err(
                IoError::InvalidSeek(
                    InvalidSeek { current, start: self.start, end: self.end, pos },
                ),
            );
        }
        if target != current {
            let mut this = ContentWriter { writer: ByteWriter::new(), start: 0, end: 0 };
            core::mem::swap(self, &mut this);
            let ContentWriter { mut writer, start, end } = this;
            let _ = writer.seek(SeekFrom::Start(target as u64));
            *self = ContentWriter { writer, start, end };
        }
        Ok((target - self.start) as u64)
    }
}

/// `w` is a window that was just opened at `cursor` on a stream that holds
/// `contents`: nothing is written yet.
pub open spec fn opened_on(w: ContentWriter, contents: Seq<u8>, cursor: u64) -> bool {
    &&& w.contents() == contents
    &&& w.cursor() == cursor
    &&& w.origin() == cursor
    &&& w.mark() == cursor
}

/// The state of a [`ChunkWriter`]: what it will put into the header, and the
/// stream that it writes to.
pub struct ChunkWriterView {
    pub id: ChunkId,
    /// Where the chunk's header stands in the stream.
    pub offset: u64,
    pub content_len: u32,
    pub children_len: u32,
    /// All the bytes of the stream.
    pub contents: Seq<u8>,
    /// The position of the stream.
    pub cursor: u64,
}

impl ChunkWriterView {
    /// The state of a writer that was just opened at `cursor` on a stream
    /// that holds `contents`: the tag is written, the two length fields
    /// behind it are left open, and the position is behind the header.
    pub open spec fn opened(contents: Seq<u8>, cursor: u64, id: ChunkId) -> ChunkWriterView {
        ChunkWriterView {
            id,
            offset: cursor,
            content_len: 0,
            children_len: 0,
            contents: written(contents, cursor as int, tag_of(id)@),
            cursor: (cursor + 12) as u64,
        }
    }

    /// The two length fields as they stand in the header.
    pub open spec fn lengths(self) -> Seq<u8> {
        u32_le_bytes(self.content_len) + u32_le_bytes(self.children_len)
    }

    /// The stream's bytes once the two length fields are patched into the
    /// header.
    pub open spec fn patched(self) -> Seq<u8> {
        written(self.contents, self.offset + 4, self.lengths())
    }

    /// The length of header, content and children together.
    pub open spec fn total_len(self) -> int {
        12 + self.content_len + self.children_len
    }

    /// The same writer on a stream that holds `contents` and stands at
    /// `cursor`.
    pub open spec fn on(self, contents: Seq<u8>, cursor: u64) -> ChunkWriterView {
        ChunkWriterView { contents, cursor, ..self }
    }
}

/// Writes one chunk: the tag at once, the two length fields once the content
/// and the children are written and their lengths known. It owns the stream
/// while it is open.
#[derive(Debug)]
pub struct ChunkWriter {
    chunk_id: ChunkId,
    writer: ByteWriter,
    offset: u64,
    content_len: u32,
    children_len: u32,
}

impl View for ChunkWriter {
    type V = ChunkWriterView;

    closed spec fn view(&self) -> ChunkWriterView {
        ChunkWriterView {
            id: self.chunk_id,
            offset: self.offset,
            content_len: self.content_len,
            children_len: self.children_len,
            contents: self.writer@,
            cursor: self.writer.position(),
        }
    }
}

/// What a chunk writer is after a child was written through `child` and the
/// callback returned `ok`: the child's header is patched and the child's
/// total length added to the children's length, unless the callback failed
/// or a length does not fit in 32 bits.
pub open spec fn child_closed(parent: ChunkWriterView, child: ChunkWriterView, ok: bool) -> (
    ChunkWriterView,
    Option<WriteErrorView>,
) {
    if !ok {
        (parent.on(child.contents, child.cursor), None)
    } else if child.total_len() + parent.children_len > u32::MAX {
        (parent.on(child.contents, child.cursor), Some(WriteErrorView::Overflow))
    } else if child.offset + 12 > usize::MAX {
        (parent.on(child.contents, child.cursor), Some(WriteErrorView::Io(IoError::Other)))
    } else {
        (
            ChunkWriterView {
                children_len: (parent.children_len + child.total_len()) as u32,
                ..parent.on(child.patched(), child.cursor)
            },
            None,
        )
    }
}

/// A child that is closed without a failure adds its total length, which is
/// that of its header of twelve bytes, its content and its children, to the
/// length of its parent's children. A child without content and without
/// children counts twelve. The content's length of the parent stays, and
/// the stream holds the child with its header patched.
pub proof fn child_adds_its_length(parent: ChunkWriterView, child: ChunkWriterView)
    requires
        child_closed(parent, child, true).1 is None,
    ensures
        child_closed(parent, child, true).0.children_len == parent.children_len + 12
            + child.content_len + child.children_len,
        child.content_len == 0 && child.children_len == 0 ==> child_closed(
            parent,
            child,
            true,
        ).0.children_len == parent.children_len + 12,
        child_closed(parent, child, true).0.content_len == parent.content_len,
        child_closed(parent, child, true).0.contents == child.patched(),
        child_closed(parent, child, true).0.cursor == child.cursor,
{
}

/// The total lengths of the first `upto` children, added up.
pub open spec fn total_lens(children: Seq<ChunkWriterView>, upto: nat) -> int
    decreases upto,
{
    if upto == 0 {
        0
    } else {
        total_lens(children, (upto - 1) as nat) + children[upto - 1].total_len()
    }
}

/// What a chunk writer is after the first `upto` children were written and
/// closed, one after the other, if none of them failed.
pub open spec fn children_closed(
    parent: ChunkWriterView,
    children: Seq<ChunkWriterView>,
    upto: nat,
) -> Option<ChunkWriterView>
    decreases upto,
{
    if upto == 0 {
        Some(parent)
    } else {
        match children_closed(parent, children, (upto - 1) as nat) {
            None => None,
            Some(before) => if child_closed(before, children[upto - 1], true).1 is None {
                Some(child_closed(before, children[upto - 1], true).0)
            } else {
                None
            },
        }
    }
}

/// After any number of children, the length of the children is the sum of
/// the children's total lengths, and the content's length is as it was.
pub proof fn children_add_up(
    parent: ChunkWriterView,
    children: Seq<ChunkWriterView>,
    upto: nat,
)
    requires
        upto <= children.len(),
        children_closed(parent, children, upto) is Some,
    ensures
        children_closed(parent, children, upto)->Some_0.children_len == parent.children_len
            + total_lens(children, upto),
        children_closed(parent, children, upto)->Some_0.content_len == parent.content_len,
        children_closed(parent, children, upto)->Some_0.id == parent.id,
        children_closed(parent, children, upto)->Some_0.offset == parent.offset,
    decreases upto,
{
    if upto > 0 {
        children_add_up(parent, children, (upto - 1) as nat);
        child_adds_its_length(
            children_closed(parent, children, (upto - 1) as nat)->Some_0,
            children[upto - 1],
        );
    }
}

/// What is written through a content window is counted as the content: its
/// length is that from the window's start to the highest position that was
/// written up to, whatever the content's length was before.
pub proof fn content_sets_its_length(
    chunk: ChunkWriterView,
    contents: Seq<u8>,
    cursor: u64,
    len: u32,
)
    ensures
        content_closed(chunk, contents, cursor, len, true).content_len == len,
        content_closed(chunk, contents, cursor, len, true).children_len == chunk.children_len,
        content_closed(chunk, contents, cursor, len, false).content_len == chunk.content_len,
{
}

/// The header that a chunk writer patches is read back with the lengths
/// that the writer counted.
pub proof fn patched_header_reads_back(chunk: ChunkWriterView)
    requires
        !(chunk.id is Unsupported),
        chunk.offset + chunk.total_len() <= u32::MAX,
        chunk.offset + 4 <= chunk.contents.len(),
        chunk.contents.subrange(chunk.offset as int, chunk.offset + 4) == tag_of(chunk.id)@,
    ensures
        parse_header(chunk.patched(), chunk.offset) == Ok::<ChunkView, ReadErrorView>(
            ChunkView {
                offset: chunk.offset as u32,
                id: chunk.id,
                content_len: chunk.content_len,
                children_len: chunk.children_len,
            },
        ),
{
    let bytes = chunk.patched();
    let at = chunk.offset as int;
    let tag = bytes.subrange(at, at + 4);
    assert(tag =~= tag_of(chunk.id)@) by {
        assert forall|k: int| 0 <= k < 4 implies tag[k] == tag_of(chunk.id)@[k] by {
            assert(chunk.contents.subrange(at, at + 4)[k] == chunk.contents[at + k]);
        }
    }
    assert(tag_array(tag) =~= tag_of(chunk.id));
    assert(bytes.subrange(at + 4, at + 8) =~= u32_le_bytes(chunk.content_len));
    assert(bytes.subrange(at + 8, at + 12) =~= u32_le_bytes(chunk.children_len));
    crate::endian::u32_le_of_bytes(chunk.content_len);
    crate::endian::u32_le_of_bytes(chunk.children_len);
}

/// Why no child can be opened at `cursor`: the child's header has to lie
/// within the first 4 GiB of the stream.
pub open spec fn child_refused(cursor: u64) -> Option<WriteErrorView> {
    if cursor > u32::MAX {
        Some(WriteErrorView::Overflow)
    } else if cursor + 12 > u32::MAX {
        Some(WriteErrorView::Io(IoError::Other))
    } else {
        None
    }
}

/// What a chunk writer is after its content was written through a window
/// that ended up holding `contents`, standing at `cursor`, with `len` bytes
/// written, and the callback returned `ok`.
pub open spec fn content_closed(
    chunk: ChunkWriterView,
    contents: Seq<u8>,
    cursor: u64,
    len: u32,
    ok: bool,
) -> ChunkWriterView {
    ChunkWriterView {
        content_len: if ok {
            len
        } else {
            chunk.content_len
        },
        ..chunk.on(contents, cursor)
    }
}

/// What a stream is after a chunk was written through `chunk` and the
/// callback returned `ok`: its bytes, its position, and the failure, if any.
/// The header is patched unless the callback failed.
pub open spec fn chunk_closed(chunk: ChunkWriterView, ok: bool) -> (
    Seq<u8>,
    u64,
    Option<WriteErrorView>,
) {
    if !ok {
        (chunk.contents, chunk.cursor, None)
    } else if chunk.offset + 12 > usize::MAX {
        (chunk.contents, chunk.cursor, Some(WriteErrorView::Io(IoError::Other)))
    } else {
        (chunk.patched(), chunk.cursor, None)
    }
}

impl ChunkWriter {
    /// Writes the tag at the position of `writer` and leaves the two length
    /// fields open.
    fn new(writer: ByteWriter, chunk_id: ChunkId) -> (r: ChunkWriter)
        requires
            writer.position() + 12 <= usize::MAX,
        ensures
            r@ == ChunkWriterView::opened(writer@, writer.position(), chunk_id),
    {
        let mut writer = writer;
        let offset = writer.stream_position();
        let tag = tag_bytes(chunk_id);
        let _ = writer.put(tag.as_slice());
        let _ = writer.seek(SeekFrom::Start(offset + 12));
        ChunkWriter { chunk_id, writer, offset, content_len: 0, children_len: 0 }
    }

    /// The chunk's identity.
    pub fn id(&self) -> (r: ChunkId)
        ensures
            r == self@.id,
    {
        self.chunk_id
    }

    /// Where the chunk's header stands in the stream.
    pub fn offset(&self) -> (r: u64)
        ensures
            r == self@.offset,
    {
        self.offset
    }

    /// The length of the content that was written.
    pub fn content_len(&self) -> (r: u32)
        ensures
            r == self@.content_len,
    {
        self.content_len
    }

    /// The length of the children that were written.
    pub fn children_len(&self) -> (r: u32)
        ensures
            r == self@.children_len,
    {
        self.children_len
    }

    /// Lets `f` write the chunk's content through a window at the stream's
    /// position, and takes the length of what it wrote as the content's
    /// length. Content comes before children: no child may be written yet.
    pub fn content_writer<F: FnOnce(&mut ContentWriter) -> Result<(), WriteError>>(
        &mut self,
        f: F,
    ) -> (r: Result<(), WriteError>)
        requires
            old(self)@.children_len == 0,
            forall|w: &mut ContentWriter|
                opened_on(*w, old(self)@.contents, old(self)@.cursor) ==> f.requires((w,)),
        ensures
            old(self)@.cursor > u32::MAX ==> (r matches Err(e) && e@ == WriteErrorView::Overflow)
                && final(self)@ == old(self)@,
            old(self)@.cursor <= u32::MAX ==> exists|w: &mut ContentWriter|
                {
                    &&& opened_on(*w, old(self)@.contents, old(self)@.cursor)
                    &&& #[trigger] f.ensures((w,), r)
                    &&& final(w).origin() <= final(w).mark() <= u32::MAX
                    &&& final(w).cursor() <= u32::MAX
                    &&& final(self)@ == ChunkWriterView {
                        content_len: if r is Ok {
                            (final(w).mark() - final(w).origin()) as u32
                        } else {
                            old(self)@.content_len
                        },
                        ..old(self)@.on(final(w).contents(), final(w).cursor() as u64)
                    }
                },
    {
        if self.writer.stream_position() > u32::MAX as u64 {
            return Err(WriteError::Overflow);
        }
        let mut content_writer = ContentWriter::new(self.writer.take());
        assert(opened_on(content_writer, old(self)@.contents, old(self)@.cursor));
        let r = f(&mut content_writer);
        let len = content_writer.len();
        if r.is_ok() {
            self.content_len = len;
        }
        self.writer = content_writer.into_inner();
        r
    }

    /// Writes `data` as the chunk's content.
    pub fn write_content(&mut self, data: &[u8]) -> (r: Result<(), WriteError>)
        requires
            old(self)@.children_len == 0,
        ensures
            old(self)@.cursor > u32::MAX ==> (r matches Err(e) && e@ == WriteErrorView::Overflow)
                && final(self)@ == old(self)@,
            old(self)@.cursor <= u32::MAX < old(self)@.cursor + data@.len() ==> (r matches Err(e)
                && e@ == WriteErrorView::Io(IoError::Other)) && final(self)@ == old(self)@,
            old(self)@.cursor + data@.len() <= u32::MAX ==> r is Ok && final(self)@
                == content_closed(
                old(self)@,
                written(old(self)@.contents, old(self)@.cursor as int, data@),
                (old(self)@.cursor + data@.len()) as u64,
                data@.len() as u32,
                true,
            ),
    {
        let write = |w: &mut ContentWriter| -> (r: Result<(), WriteError>)
            ensures
                write_outcome(*old(w), *final(w), data@, r is Ok),
                r matches Err(e) ==> e@ == WriteErrorView::Io(IoError::Other),
            {
                write_content_bytes(w, data)
            };
        self.content_writer(write)
    }

    /// Takes the stream and opens a child at its position.
    fn open_child(&mut self, chunk_id: ChunkId) -> (child: ChunkWriter)
        requires
            old(self)@.cursor + 12 <= u32::MAX,
        ensures
            child@ == ChunkWriterView::opened(old(self)@.contents, old(self)@.cursor, chunk_id),
            final(self)@.on(old(self)@.contents, old(self)@.cursor) == old(self)@,
    {
        ChunkWriter::new(self.writer.take(), chunk_id)
    }

    /// Takes the stream back from a child, patches the child's header and
    /// counts the child's length, unless the child's callback failed or a
    /// length does not fit.
    fn close_child(&mut self, child: ChunkWriter, ok: bool) -> (e: Option<WriteError>)
        ensures
            final(self)@ == child_closed(old(self)@, child@, ok).0,
            match child_closed(old(self)@, child@, ok).1 {
                Some(failure) => e matches Some(got) && got@ == failure,
                None => e is None,
            },
    {
        let mut child = child;
        if ok {
            let total: u64 = 12 + child.content_len as u64 + child.children_len as u64;
            if total + self.children_len as u64 > u32::MAX as u64 {
                self.writer = child.writer;
                return Some(WriteError::Overflow);
            }
            if child.offset > (usize::MAX - 12) as u64 {
                self.writer = child.writer;
                return Some(WriteError::Io(IoError::Other));
            }
            child.write_header();
            self.children_len = self.children_len + total as u32;
        }
        self.writer = child.writer;
        None
    }

    /// Lets `f` write a child chunk at the stream's position, then patches
    /// the child's header and adds the child's total length to the
    /// children's length. Content and children exclude each other: no
    /// content may be written yet.
    pub fn child_writer<F: FnOnce(&mut ChunkWriter) -> Result<(), WriteError>>(
        &mut self,
        chunk_id: ChunkId,
        f: F,
    ) -> (r: Result<(), WriteError>)
        requires
            old(self)@.content_len == 0,
            forall|c: &mut ChunkWriter|
                c@ == ChunkWriterView::opened(old(self)@.contents, old(self)@.cursor, chunk_id)
                    ==> f.requires((c,)),
        ensures
            match child_refused(old(self)@.cursor) {
                Some(failure) => (r matches Err(got) && got@ == failure) && final(self)@
                    == old(self)@,
                None => exists|c: &mut ChunkWriter, rf: Result<(), WriteError>|
                    {
                        &&& c@ == ChunkWriterView::opened(
                            old(self)@.contents,
                            old(self)@.cursor,
                            chunk_id,
                        )
                        &&& #[trigger] f.ensures((c,), rf)
                        &&& final(self)@ == child_closed(old(self)@, final(c)@, rf is Ok).0
                        &&& match child_closed(old(self)@, final(c)@, rf is Ok).1 {
                            Some(failure) => r matches Err(got) && got@ == failure,
                            None => r == rf,
                        }
                    },
            },
    {
        let pos = self.writer.stream_position();
        if pos > u32::MAX as u64 {
            return Err(WriteError::Overflow);
        }
        if pos > u32::MAX as u64 - 12 {
            return Err(WriteError::Io(IoError::Other));
        }
        let mut child = self.open_child(chunk_id);
        let rf = f(&mut child);
        match self.close_child(child, rf.is_ok()) {
            Some(e) => Err(e),
            None => rf,
        }
    }

    /// Lets `f` write the content of a child chunk that has no children of
    /// its own: a child is opened, and a window on its content.
    pub fn child_content_writer<F: FnOnce(&mut ContentWriter) -> Result<(), WriteError>>(
        &mut self,
        chunk_id: ChunkId,
        f: F,
    ) -> (r: Result<(), WriteError>)
        requires
            old(self)@.content_len == 0,
            forall|w: &mut ContentWriter|
                opened_on(
                    *w,
                    written(old(self)@.contents, old(self)@.cursor as int, tag_of(chunk_id)@),
                    (old(self)@.cursor + 12) as u64,
                ) ==> f.requires((w,)),
        ensures
            match child_refused(old(self)@.cursor) {
                Some(failure) => (r matches Err(got) && got@ == failure) && final(self)@
                    == old(self)@,
                None => exists|w: &mut ContentWriter, rf: Result<(), WriteError>|
                    {
                        &&& opened_on(
                            *w,
                            written(
                                old(self)@.contents,
                                old(self)@.cursor as int,
                                tag_of(chunk_id)@,
                            ),
                            (old(self)@.cursor + 12) as u64,
                        )
                        &&& #[trigger] f.ensures((w,), rf)
                        &&& final(w).origin() <= final(w).mark() <= u32::MAX
                        &&& final(w).cursor() <= u32::MAX
                        &&& final(self)@ == child_closed(
                            old(self)@,
                            content_closed(
                                ChunkWriterView::opened(
                                    old(self)@.contents,
                                    old(self)@.cursor,
                                    chunk_id,
                                ),
                                final(w).contents(),
                                final(w).cursor() as u64,
                                (final(w).mark() - final(w).origin()) as u32,
                                rf is Ok,
                            ),
                            rf is Ok,
                        ).0
                        &&& match child_closed(
                            old(self)@,
                            content_closed(
                                ChunkWriterView::opened(
                                    old(self)@.contents,
                                    old(self)@.cursor,
                                    chunk_id,
                                ),
                                final(w).contents(),
                                final(w).cursor() as u64,
                                (final(w).mark() - final(w).origin()) as u32,
                                rf is Ok,
                            ),
                            rf is Ok,
                        ).1 {
                            Some(failure) => r matches Err(got) && got@ == failure,
                            None => r == rf,
                        }
                    },
            },
    {
        let pos = self.writer.stream_position();
        if pos > u32::MAX as u64 {
            return Err(WriteError::Overflow);
        }
        if pos > u32::MAX as u64 - 12 {
            return Err(WriteError::Io(IoError::Other));
        }
        let mut child = self.open_child(chunk_id);
        let ghost opened = child@;
        let rf = child.content_writer(f);
        proof {
            let w = choose|w: &mut ContentWriter|
                {
                    &&& opened_on(*w, opened.contents, opened.cursor)
                    &&& #[trigger] f.ensures((w,), rf)
                    &&& final(w).origin() <= final(w).mark() <= u32::MAX
                    &&& final(w).cursor() <= u32::MAX
                    &&& child@ == ChunkWriterView {
                        content_len: if rf is Ok {
                            (final(w).mark() - final(w).origin()) as u32
                        } else {
                            opened.content_len
                        },
                        ..opened.on(final(w).contents(), final(w).cursor() as u64)
                    }
                };
            assert(child@ == content_closed(
                opened,
                final(w).contents(),
                final(w).cursor() as u64,
                (final(w).mark() - final(w).origin()) as u32,
                rf is Ok,
            ));
        }
        match self.close_child(child, rf.is_ok()) {
            Some(e) => Err(e),
            None => rf,
        }
    }

    /// Patches the two length fields into the header and leaves the position
    /// where it was.
    fn write_header(&mut self)
        requires
            old(self)@.offset + 12 <= usize::MAX,
        ensures
            final(self)@ == old(self)@.on(old(self)@.patched(), old(self)@.cursor),
    {
        let old_pos = self.writer.stream_position();
        let _ = self.writer.seek(SeekFrom::Start(self.offset + 4));
        let _ = crate::endian::write_u32(&mut self.writer, self.content_len);
        let _ = crate::endian::write_u32(&mut self.writer, self.children_len);
        let _ = self.writer.seek(SeekFrom::Start(old_pos));
        assert(self.writer@ =~= old(self)@.patched());
    }
}

/// Writes all of `data` through a window.
fn write_content_bytes(w: &mut ContentWriter, data: &[u8]) -> (r: Result<(), WriteError>)
    ensures
        write_outcome(*old(w), *final(w), data@, r is Ok),
        r matches Err(e) ==> e@ == WriteErrorView::Io(IoError::Other),
{
    match w.write_all(data) {
        Ok(()) => Ok(()),
        Err(e) => Err(WriteError::Io(e)),
    }
}

/// Writes one chunk at the position of `writer`: the tag, then what `f`
/// writes through the chunk writer, then the two lengths, patched into the
/// header. The position is left where `f` left it.
pub fn chunk_writer<F: FnOnce(&mut ChunkWriter) -> Result<(), WriteError>>(
    writer: &mut ByteWriter,
    chunk_id: ChunkId,
    f: F,
) -> (r: Result<(), WriteError>)
    requires
        forall|c: &mut ChunkWriter|
            c@ == ChunkWriterView::opened(old(writer)@, old(writer).position(), chunk_id)
                ==> f.requires((c,)),
    ensures
        old(writer).position() + 12 > usize::MAX ==> (r matches Err(e) && e@
            == WriteErrorView::Io(IoError::Other)) && final(writer)@ == old(writer)@
            && final(writer).position() == old(writer).position(),
        old(writer).position() + 12 <= usize::MAX ==> exists|
            c: &mut ChunkWriter,
            rf: Result<(), WriteError>,
        |
            {
                &&& c@ == ChunkWriterView::opened(old(writer)@, old(writer).position(), chunk_id)
                &&& #[trigger] f.ensures((c,), rf)
                &&& final(writer)@ == chunk_closed(final(c)@, rf is Ok).0
                &&& final(writer).position() == chunk_closed(final(c)@, rf is Ok).1
                &&& match chunk_closed(final(c)@, rf is Ok).2 {
                    Some(failure) => r matches Err(got) && got@ == failure,
                    None => r == rf,
                }
            },
{
    if writer.stream_position() > (usize::MAX - 12) as u64 {
        return Err(WriteError::Io(IoError::Other));
    }
    let mut chunk = ChunkWriter::new(writer.take(), chunk_id);
    let rf = f(&mut chunk);
    if rf.is_ok() {
        if chunk.offset > (usize::MAX - 12) as u64 {
            *writer = chunk.writer;
            return Err(WriteError::Io(IoError::Other));
        }
        chunk.write_header();
    }
    *writer = chunk.writer;
    rf
}

} // verus!
