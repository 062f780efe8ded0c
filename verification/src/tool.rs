//! Copies of files with some chunks left out or replaced.

use vstd::prelude::*;

use crate::chunk::{
    children_from, parse_preamble, read_main_chunk, Chunk, ChunkId, ChunkView, ChunkWriter,
    ChunkWriterView,
};
use crate::reader::{chunk_views, content_of, Error as ReadError, ErrorView as ReadErrorView};
use crate::stream::{written, written_at_end, ByteReader, ByteWriter, IoError, Write};
use crate::types::{palette_bytes, Palette, Version};
use crate::writer::{
    appended, appended_twice, chunk_bytes, chunk_bytes_len, file_header, main_chunk_writer,
    parent_written, write_child, Error as WriteError, ErrorView as WriteErrorView,
};

verus! {

/// Which chunks are left out of a copy: those of the listed kinds, or all
/// but those.
#[derive(Debug)]
pub enum StripChunks {
    Strip(Vec<ChunkId>),
    Keep(Vec<ChunkId>),
}

/// Whether a chunk of the kind `chunk_id` is left out.
pub open spec fn strips(strip: StripChunks, chunk_id: ChunkId) -> bool {
    match strip {
        StripChunks::Strip(kinds) => kinds@.contains(chunk_id),
        StripChunks::Keep(kinds) => !kinds@.contains(chunk_id),
    }
}

impl Default for StripChunks {
    /// Keeps the chunks that carry voxel data, the palette and the
    /// materials, and leaves out everything else.
    fn default() -> (r: StripChunks)
        ensures
            r matches StripChunks::Keep(kinds) && kinds@ == seq![
                ChunkId::Pack,
                ChunkId::Size,
                ChunkId::Xyzi,
                ChunkId::Rgba,
                ChunkId::Matt,
            ],
    {
        let mut kinds = Vec::new();
        kinds.push(ChunkId::Pack);
        kinds.push(ChunkId::Size);
        kinds.push(ChunkId::Xyzi);
        kinds.push(ChunkId::Rgba);
        kinds.push(ChunkId::Matt);
        assert(kinds@ =~= seq![
            ChunkId::Pack,
            ChunkId::Size,
            ChunkId::Xyzi,
            ChunkId::Rgba,
            ChunkId::Matt,
        ]);
        StripChunks::Keep(kinds)
    }
}

/// Whether `chunk_id` is among `kinds`.
fn is_among(kinds: &Vec<ChunkId>, chunk_id: ChunkId) -> (r: bool)
    ensures
        r == kinds@.contains(chunk_id),
{
    let mut i: usize = 0;
    while i < kinds.len()
        invariant
            i <= kinds@.len(),
            forall|j: int| 0 <= j < i ==> kinds@[j] != chunk_id,
        decreases kinds@.len() - i,
    {
        if kinds[i] == chunk_id {
            return true;
        }
        i = i + 1;
    }
    false
}

impl StripChunks {
    /// Whether a chunk of the kind `chunk_id` is left out.
    pub fn strip(&self, chunk_id: ChunkId) -> (r: bool)
        ensures
            r == strips(*self, chunk_id),
    {
        match self {
            StripChunks::Strip(kinds) => is_among(kinds, chunk_id),
            StripChunks::Keep(kinds) => !is_among(kinds, chunk_id),
        }
    }
}

/// What is done to the chunks of a file that is copied.
#[derive(Debug)]
pub enum CopyRule {
    /// Some chunks are left out.
    Strip(StripChunks),
    /// Each palette chunk is replaced by one that holds this palette.
    SetPalette(Palette),
}

/// Why a file could not be copied.
#[derive(Debug)]
pub enum CopyError {
    /// The file could not be read.
    Read(ReadError),
    /// The copy could not be written.
    Write(WriteError),
    /// A chunk that is to be copied has children: only chunks without
    /// children can be copied.
    HasChildren(Chunk),
}

/// What a [`CopyError`] says.
pub enum CopyErrorView {
    Read(ReadErrorView),
    Write(WriteErrorView),
    HasChildren(ChunkView),
}

impl View for CopyError {
    type V = CopyErrorView;

    open spec fn view(&self) -> CopyErrorView {
        match *self {
            CopyError::Read(e) => CopyErrorView::Read(e@),
            CopyError::Write(e) => CopyErrorView::Write(e@),
            CopyError::HasChildren(chunk) => CopyErrorView::HasChildren(chunk@),
        }
    }
}

/// What becomes of one chunk.
pub enum Copied {
    /// The chunk is left out.
    Dropped,
    /// The chunk is replaced by a palette chunk.
    Replaced,
    /// The chunk is copied with its content.
    Kept,
}

/// What becomes of a chunk under a rule.
pub open spec fn decided(rule: CopyRule, chunk_id: ChunkId) -> Copied {
    match rule {
        CopyRule::Strip(strip) => if strips(strip, chunk_id) {
            Copied::Dropped
        } else {
            Copied::Kept
        },
        CopyRule::SetPalette(palette) => if chunk_id == ChunkId::Rgba {
            Copied::Replaced
        } else {
            Copied::Kept
        },
    }
}

/// The bytes that a chunk of a file amounts to in the copy, or why the file
/// cannot be copied. A chunk that is kept has to have its whole content in
/// the file, and no children.
pub open spec fn copied_chunk(bytes: Seq<u8>, chunk: ChunkView, rule: CopyRule) -> Result<
    Seq<u8>,
    CopyErrorView,
> {
    match decided(rule, chunk.id) {
        Copied::Dropped => Ok(Seq::empty()),
        Copied::Replaced => Ok(
            chunk_bytes(ChunkId::Rgba, palette_bytes(rule->SetPalette_0@), Seq::empty()),
        ),
        Copied::Kept => if content_of(bytes, chunk).len() < chunk.content_len {
            Err(CopyErrorView::Read(ReadErrorView::Io(IoError::UnexpectedEof)))
        } else if chunk.children_len != 0 {
            Err(CopyErrorView::HasChildren(chunk))
        } else {
            Ok(chunk_bytes(chunk.id, content_of(bytes, chunk), Seq::empty()))
        },
    }
}

/// The bytes that the first `upto` chunks amount to in the copy, or why the
/// first of them that cannot be copied cannot.
pub open spec fn copied_chunks(
    bytes: Seq<u8>,
    chunks: Seq<ChunkView>,
    rule: CopyRule,
    upto: nat,
) -> Result<Seq<u8>, CopyErrorView>
    decreases upto,
{
    if upto == 0 {
        Ok(Seq::empty())
    } else {
        match copied_chunks(bytes, chunks, rule, (upto - 1) as nat) {
            Err(e) => Err(e),
            Ok(before) => match copied_chunk(bytes, chunks[upto - 1], rule) {
                Err(e) => Err(e),
                Ok(chunk) => Ok(before + chunk),
            },
        }
    }
}

/// The children of the root chunk of the copy of the file in `bytes`, with
/// the version of the file, or why the file cannot be copied.
pub open spec fn copied_children(bytes: Seq<u8>, rule: CopyRule) -> Result<
    (Version, Seq<u8>),
    CopyErrorView,
> {
    match parse_preamble(bytes, 0) {
        Err(e) => Err(CopyErrorView::Read(e)),
        Ok((main, version)) => match children_from(
            bytes,
            main.children_offset() as u32,
            main.end() as u32,
        ) {
            Err(e) => Err(CopyErrorView::Read(e)),
            Ok(children) => match copied_chunks(bytes, children, rule, children.len()) {
                Err(e) => Err(e),
                Ok(copied) => Ok((version, copied)),
            },
        },
    }
}

/// The copy of the file in `bytes`, or why there is none. Writing the copy
/// fails with an overflow where it does not fit within 4 GiB.
pub open spec fn copied(bytes: Seq<u8>, rule: CopyRule) -> Result<Seq<u8>, CopyErrorView> {
    match copied_children(bytes, rule) {
        Err(e) => Err(e),
        Ok((version, children)) => if children.len() > 0 && 20 + children.len() > u32::MAX {
            Err(CopyErrorView::Write(WriteErrorView::Overflow))
        } else {
            Ok(file_header(version) + chunk_bytes(ChunkId::Main, Seq::empty(), children))
        },
    }
}

/// What becomes of a chunk under a rule.
fn decide(rule: &CopyRule, chunk_id: ChunkId) -> (r: Copied)
    ensures
        r == decided(*rule, chunk_id),
{
    match rule {
        CopyRule::Strip(strip) => if strip.strip(chunk_id) {
            Copied::Dropped
        } else {
            Copied::Kept
        },
        CopyRule::SetPalette(_) => if chunk_id == ChunkId::Rgba {
            Copied::Replaced
        } else {
            Copied::Kept
        },
    }
}

/// Reads the headers of the children of the root chunk.
fn read_all_children(reader: ByteReader, main_chunk: &Chunk) -> (r: Result<Vec<Chunk>, ReadError>)
    ensures
        match children_from(
            reader@,
            main_chunk@.children_offset() as u32,
            main_chunk@.end() as u32,
        ) {
            Ok(children) => r matches Ok(chunks) && chunk_views(chunks@) == children,
            Err(e) => r matches Err(got) && got@ == e,
        },
{
    let mut chunks: Vec<Chunk> = Vec::new();
    let mut children = main_chunk.children(reader);
    let ghost bytes = reader@;
    let ghost start = children.offset();
    let ghost end = children.end();
    assert(chunk_views(chunks@) =~= Seq::empty());
    loop
        invariant
            children.source() == bytes,
            children.end() == end,
            bytes == reader@,
            start == main_chunk@.children_offset(),
            end == main_chunk@.end(),
            main_chunk@.fits(),
            match children_from(bytes, children.offset(), end) {
                Ok(rest) => children_from(bytes, start, end) == Ok::<Seq<ChunkView>, ReadErrorView>(
                    chunk_views(chunks@) + rest,
                ),
                Err(e) => children_from(bytes, start, end) == Err::<Seq<ChunkView>, ReadErrorView>(
                    e,
                ),
            },
        decreases
            (if children.offset() < end {
                end - children.offset()
            } else {
                0
            }),
    {
        let ghost before = chunk_views(chunks@);
        let chunk = match children.next() {
            None => {
                assert(before + Seq::<ChunkView>::empty() =~= before);
                return Ok(chunks);
            },
            Some(Err(e)) => {
                return Err(e);
            },
            Some(Ok(chunk)) => chunk,
        };
        chunks.push(chunk);
        proof {
            assert(chunk_views(chunks@) =~= before.push(chunk@));
            match children_from(bytes, children.offset(), end) {
                Ok(rest) => {
                    assert(before + (seq![chunk@] + rest) =~= before.push(chunk@) + rest);
                },
                Err(e) => {},
            }
        }
    }
}

/// Writes what a chunk amounts to in the copy.
fn copy_chunk(
    reader: ByteReader,
    chunk: &Chunk,
    rule: &CopyRule,
    chunk_writer: &mut ChunkWriter,
) -> (r: Result<(), CopyError>)
    requires
        old(chunk_writer)@.content_len == 0,
        old(chunk_writer)@.children_len <= old(chunk_writer)@.cursor,
    ensures
        final(chunk_writer)@.content_len == 0,
        final(chunk_writer)@.children_len <= final(chunk_writer)@.cursor,
        match copied_chunk(reader@, chunk@, *rule) {
            Err(e) => (r matches Err(got) && got@ == e) && final(chunk_writer)@ == old(
                chunk_writer,
            )@,
            Ok(bytes) => if bytes.len() == 0 || old(chunk_writer)@.cursor + bytes.len()
                <= u32::MAX {
                r is Ok && final(chunk_writer)@ == appended(old(chunk_writer)@, bytes)
            } else {
                r matches Err(got) && got@ == CopyErrorView::Write(WriteErrorView::Overflow)
            },
        },
{
    match decide(rule, chunk.id()) {
        Copied::Dropped => Ok(()),
        Copied::Replaced => {
            let palette = match rule {
                CopyRule::SetPalette(palette) => palette,
                CopyRule::Strip(_) => {
                    return Ok(());
                },
            };
            let mut colors = ByteWriter::new();
            match palette.write(&mut colors) {
                Ok(()) => {},
                Err(_) => {
                    return Err(CopyError::Write(WriteError::Overflow));
                },
            }
            proof {
                written_at_end(Seq::empty(), palette_bytes(palette@));
                chunk_bytes_len(ChunkId::Rgba, palette_bytes(palette@), Seq::empty());
            }
            let colors = colors.into_inner();
            assert(colors@ =~= palette_bytes(palette@));
            match write_child(chunk_writer, ChunkId::Rgba, colors.as_slice()) {
                Ok(()) => Ok(()),
                Err(e) => Err(CopyError::Write(e)),
            }
        },
        Copied::Kept => {
            let content = match chunk.read_content_to_vec(reader) {
                Ok(content) => content,
                Err(e) => {
                    return Err(CopyError::Read(e));
                },
            };
            if content.len() < chunk.content_len() as usize {
                return Err(CopyError::Read(ReadError::Io(IoError::UnexpectedEof)));
            }
            if chunk.children_len() != 0 {
                return Err(CopyError::HasChildren(*chunk));
            }
            proof {
                chunk_bytes_len(chunk@.id, content@, Seq::empty());
            }
            match write_child(chunk_writer, chunk.id(), content.as_slice()) {
                Ok(()) => Ok(()),
                Err(e) => Err(CopyError::Write(e)),
            }
        },
    }
}

/// Why a chunk cannot be copied, if it cannot.
fn check_chunk(reader: ByteReader, chunk: &Chunk, rule: &CopyRule) -> (r: Option<CopyError>)
    ensures
        match copied_chunk(reader@, chunk@, *rule) {
            Ok(bytes) => r is None,
            Err(e) => r matches Some(got) && got@ == e,
        },
{
    match decide(rule, chunk.id()) {
        Copied::Kept => {
            let end = chunk.children_offset();
            let _ = chunk.len();
            if chunk.content_len() != 0 && reader.len() < end as usize {
                Some(CopyError::Read(ReadError::Io(IoError::UnexpectedEof)))
            } else if chunk.children_len() != 0 {
                Some(CopyError::HasChildren(*chunk))
            } else {
                None
            }
        },
        _ => None,
    }
}

/// Once a chunk cannot be copied, the chunks behind it are not looked at.
pub proof fn copied_chunks_failed(
    bytes: Seq<u8>,
    chunks: Seq<ChunkView>,
    rule: CopyRule,
    failed: nat,
    upto: nat,
)
    requires
        failed <= upto,
        copied_chunks(bytes, chunks, rule, failed) is Err,
    ensures
        copied_chunks(bytes, chunks, rule, upto) == copied_chunks(bytes, chunks, rule, failed),
    decreases upto,
{
    if failed < upto {
        copied_chunks_failed(bytes, chunks, rule, failed, (upto - 1) as nat);
    }
}

/// The copies of more chunks are not shorter.
pub proof fn copied_chunks_grow(
    bytes: Seq<u8>,
    chunks: Seq<ChunkView>,
    rule: CopyRule,
    fewer: nat,
    upto: nat,
)
    requires
        fewer <= upto,
        copied_chunks(bytes, chunks, rule, upto) is Ok,
    ensures
        copied_chunks(bytes, chunks, rule, fewer) is Ok,
        copied_chunks(bytes, chunks, rule, fewer)->Ok_0.len() <= copied_chunks(
            bytes,
            chunks,
            rule,
            upto,
        )->Ok_0.len(),
    decreases upto,
{
    if fewer < upto {
        copied_chunks_grow(bytes, chunks, rule, fewer, (upto - 1) as nat);
    }
}

/// Whether all chunks can be copied.
#[verifier::loop_isolation(false)]
fn check_chunks(reader: ByteReader, chunks: &Vec<Chunk>, rule: &CopyRule) -> (r: Option<CopyError>)
    ensures
        match copied_chunks(reader@, chunk_views(chunks@), *rule, chunks@.len()) {
            Ok(bytes) => r is None,
            Err(e) => r matches Some(got) && got@ == e,
        },
{
    let ghost views = chunk_views(chunks@);
    let mut i: usize = 0;
    while i < chunks.len()
        invariant
            i <= chunks@.len(),
            copied_chunks(reader@, views, *rule, i as nat) is Ok,
        decreases chunks@.len() - i,
    {
        assert(views[i as int] == chunks@[i as int]@);
        match check_chunk(reader, &chunks[i], rule) {
            Some(e) => {
                proof {
                    copied_chunks_failed(reader@, views, *rule, (i + 1) as nat, chunks@.len());
                }
                return Some(e);
            },
            None => {},
        }
        i = i + 1;
    }
    None
}

/// Whether the copies of the first `upto` chunks are written behind what
/// `start` had.
pub open spec fn copies_written(
    start: ChunkWriterView,
    bytes: Seq<u8>,
    chunks: Seq<ChunkView>,
    rule: CopyRule,
    upto: nat,
    now: ChunkWriterView,
) -> bool {
    &&& copied_chunks(bytes, chunks, rule, upto) is Ok
    &&& now == appended(start, copied_chunks(bytes, chunks, rule, upto)->Ok_0)
    &&& now.content_len == 0
    &&& now.children_len <= now.cursor
    &&& start.children_len <= start.cursor
    &&& copied_chunks(bytes, chunks, rule, upto)->Ok_0.len() == 0 || start.cursor + copied_chunks(
        bytes,
        chunks,
        rule,
        upto,
    )->Ok_0.len() <= u32::MAX
}

/// Writes the copy of the chunk `at` behind those of the chunks before it.
fn write_copy_at(
    chunk_writer: &mut ChunkWriter,
    reader: ByteReader,
    chunks: &Vec<Chunk>,
    rule: &CopyRule,
    at: usize,
    Ghost(start): Ghost<ChunkWriterView>,
) -> (r: Result<(), WriteError>)
    requires
        at < chunks@.len(),
        copied_chunks(reader@, chunk_views(chunks@), *rule, chunks@.len()) is Ok,
        copies_written(
            start,
            reader@,
            chunk_views(chunks@),
            *rule,
            at as nat,
            old(chunk_writer)@,
        ),
    ensures
        r is Ok ==> copies_written(
            start,
            reader@,
            chunk_views(chunks@),
            *rule,
            (at + 1) as nat,
            final(chunk_writer)@,
        ),
        r matches Err(e) ==> e@ is Overflow,
        r is Err ==> copied_chunks(
            reader@,
            chunk_views(chunks@),
            *rule,
            chunks@.len(),
        )->Ok_0.len() > 0 && start.cursor + copied_chunks(
            reader@,
            chunk_views(chunks@),
            *rule,
            chunks@.len(),
        )->Ok_0.len() > u32::MAX,
{
    let ghost views = chunk_views(chunks@);
    let ghost before = chunk_writer@;
    proof {
        assert(views[at as int] == chunks@[at as int]@);
        copied_chunks_grow(reader@, views, *rule, (at + 1) as nat, chunks@.len());
        copied_chunks_grow(reader@, views, *rule, at as nat, (at + 1) as nat);
    }
    let ghost done = copied_chunks(reader@, views, *rule, at as nat)->Ok_0;
    let ghost next = copied_chunk(reader@, views[at as int], *rule)->Ok_0;
    let r = copy_chunk(reader, &chunks[at], rule, chunk_writer);
    proof {
        if r is Ok {
            appended_twice(start, done, next);
        }
    }
    match r {
        Ok(()) => Ok(()),
        Err(CopyError::Write(e)) => Err(e),
        Err(CopyError::Read(e)) => Err(WriteError::Reader(e)),
        Err(CopyError::HasChildren(_)) => Err(WriteError::Overflow),
    }
}

/// Writes the copies of all chunks, in order.
fn write_copies(
    chunk_writer: &mut ChunkWriter,
    reader: ByteReader,
    chunks: &Vec<Chunk>,
    rule: &CopyRule,
) -> (r: Result<(), WriteError>)
    requires
        old(chunk_writer)@.content_len == 0,
        old(chunk_writer)@.children_len <= old(chunk_writer)@.cursor,
        copied_chunks(reader@, chunk_views(chunks@), *rule, chunks@.len()) is Ok,
    ensures
        r is Ok <==> (copied_chunks(
            reader@,
            chunk_views(chunks@),
            *rule,
            chunks@.len(),
        )->Ok_0.len() == 0 || old(chunk_writer)@.cursor + copied_chunks(
            reader@,
            chunk_views(chunks@),
            *rule,
            chunks@.len(),
        )->Ok_0.len() <= u32::MAX),
        r is Ok ==> final(chunk_writer)@ == appended(
            old(chunk_writer)@,
            copied_chunks(reader@, chunk_views(chunks@), *rule, chunks@.len())->Ok_0,
        ),
        r matches Err(e) ==> e@ is Overflow,
{
    let ghost start = chunk_writer@;
    let mut i: usize = 0;
    while i < chunks.len()
        invariant
            i <= chunks@.len(),
            start == old(chunk_writer)@,
            copied_chunks(reader@, chunk_views(chunks@), *rule, chunks@.len()) is Ok,
            copies_written(start, reader@, chunk_views(chunks@), *rule, i as nat, chunk_writer@),
        decreases chunks@.len() - i,
    {
        match write_copy_at(chunk_writer, reader, chunks, rule, i, Ghost(start)) {
            Ok(()) => {},
            Err(e) => {
                return Err(e);
            },
        }
        i = i + 1;
    }
    Ok(())
}

/// Copies the file in `input`, leaving out or replacing chunks as `rule`
/// says. Each child of the root chunk that is kept is copied with its
/// content; one that has children cannot be copied.
pub fn copy_map_chunks(input: &[u8], rule: &CopyRule) -> (r: Result<Vec<u8>, CopyError>)
    ensures
        match copied(input@, *rule) {
            Ok(bytes) => r matches Ok(got) && got@ == bytes,
            Err(e) => r matches Err(got) && got@ == e,
        },
{
    let reader = ByteReader::new(input);
    let mut cursor = reader;
    let (main_chunk, version) = match read_main_chunk(&mut cursor) {
        Ok(found) => found,
        Err(e) => {
            return Err(CopyError::Read(e));
        },
    };
    let chunks = match read_all_children(reader, &main_chunk) {
        Ok(chunks) => chunks,
        Err(e) => {
            return Err(CopyError::Read(e));
        },
    };
    match check_chunks(reader, &chunks, rule) {
        Some(e) => {
            return Err(e);
        },
        None => {},
    }
    let ghost children = copied_chunks(input@, chunk_views(chunks@), *rule, chunks@.len())->Ok_0;
    let mut writer = ByteWriter::new();
    let write = |c: &mut ChunkWriter| -> (r: Result<(), WriteError>)
        requires
            old(c)@.content_len == 0,
            old(c)@.children_len <= old(c)@.cursor,
        ensures
            r is Ok <==> (children.len() == 0 || old(c)@.cursor + children.len() <= u32::MAX),
            r is Ok ==> final(c)@ == appended(old(c)@, children),
            r matches Err(e) ==> e@ is Overflow,
        {
            write_copies(c, reader, &chunks, rule)
        };
    let r = main_chunk_writer(&mut writer, version, write);
    proof {
        let header = written(Seq::empty(), 0, file_header(version));
        chunk_bytes_len(ChunkId::Main, Seq::empty(), children);
        if children.len() <= u32::MAX {
            parent_written(header, 8, ChunkId::Main, children);
        }
        crate::stream::written_twice(
            Seq::empty(),
            0,
            file_header(version),
            chunk_bytes(ChunkId::Main, Seq::empty(), children),
        );
        written_at_end(
            Seq::empty(),
            file_header(version) + chunk_bytes(ChunkId::Main, Seq::empty(), children),
        );
    }
    match r {
        Ok(()) => Ok(writer.into_inner()),
        Err(e) => Err(CopyError::Write(e)),
    }
}

} // verus!
