//! Encoding of models into a file.

use vstd::prelude::*;

use crate::chunk::{
    chunk_closed, chunk_writer, magic, tag_of, ChunkId, ChunkWriter, ChunkWriterView,
    ContentWriter,
};
use crate::data::{model_views, VoxData, VoxDataView};
use crate::default_palette::default_colors;
use crate::endian::{u32_bytes, u32_le_bytes};
use crate::reader::{Error as ReadError, ErrorView as ReadErrorView};
use crate::stream::{
    same_before, same_before_itself, same_before_twice, write_bytes, write_outcome, written,
    written_at_end, written_same_before, written_twice, ByteWriter, IoError, Write,
};
use crate::types::{
    palette_bytes, size_bytes, voxel_bytes, Color, Model, ModelView, Palette, Size, Version, Voxel,
};

verus! {

/// Why writing failed.
#[derive(Debug)]
pub enum Error {
    /// The stream failed.
    Io(IoError),
    /// A length or an offset does not fit in 32 bits.
    Overflow,
    /// Reading failed while something was written.
    Reader(ReadError),
}

/// What an [`Error`] says, with a reading error taken by its view.
pub enum ErrorView {
    Io(IoError),
    Overflow,
    Reader(ReadErrorView),
}

impl View for Error {
    type V = ErrorView;

    open spec fn view(&self) -> ErrorView {
        match *self {
            Error::Io(e) => ErrorView::Io(e),
            Error::Overflow => ErrorView::Overflow,
            Error::Reader(e) => ErrorView::Reader(e@),
        }
    }
}

/// The bytes of a chunk: the tag, the two lengths, the content and the
/// children.
pub open spec fn chunk_bytes(id: ChunkId, content: Seq<u8>, children: Seq<u8>) -> Seq<u8> {
    tag_of(id)@ + u32_le_bytes(content.len() as u32) + u32_le_bytes(children.len() as u32)
        + content + children
}

/// The records of the voxels, four bytes each, in order.
pub open spec fn voxels_bytes(voxels: Seq<Voxel>) -> Seq<u8> {
    Seq::new(4 * voxels.len(), |k: int| voxel_bytes(voxels[k / 4])[k % 4])
}

/// The content of an `XYZI` chunk: the number of voxels, then their records.
pub open spec fn xyzi_content(voxels: Seq<Voxel>) -> Seq<u8> {
    u32_le_bytes(voxels.len() as u32) + voxels_bytes(voxels)
}

/// The two chunks of a model: `SIZE` with the extent, `XYZI` with the voxels.
pub open spec fn model_bytes(model: ModelView) -> Seq<u8> {
    chunk_bytes(ChunkId::Size, size_bytes(model.size), Seq::empty()) + chunk_bytes(
        ChunkId::Xyzi,
        xyzi_content(model.voxels),
        Seq::empty(),
    )
}

/// The chunks of the first `upto` models, in order.
pub open spec fn models_bytes(models: Seq<ModelView>, upto: nat) -> Seq<u8>
    decreases upto,
{
    if upto == 0 {
        Seq::empty()
    } else {
        models_bytes(models, (upto - 1) as nat) + model_bytes(models[upto - 1])
    }
}

/// The `PACK` chunk with the number of models, which is written only where
/// there is more than one model.
pub open spec fn pack_bytes(models: Seq<ModelView>) -> Seq<u8> {
    if models.len() > 1 {
        chunk_bytes(ChunkId::Pack, u32_le_bytes(models.len() as u32), Seq::empty())
    } else {
        Seq::empty()
    }
}

/// The `RGBA` chunk with the palette, which is written only where the
/// palette is not the built-in one.
pub open spec fn rgba_bytes(palette: Seq<Color>) -> Seq<u8> {
    if palette != default_colors() {
        chunk_bytes(ChunkId::Rgba, palette_bytes(palette), Seq::empty())
    } else {
        Seq::empty()
    }
}

/// The children of the root chunk: `PACK`, the models, and the palette.
pub open spec fn children_bytes(vox: VoxDataView) -> Seq<u8> {
    pack_bytes(vox.models) + models_bytes(vox.models, vox.models.len()) + rgba_bytes(vox.palette)
}

/// The signature and the version that a file starts with.
pub open spec fn file_header(version: Version) -> Seq<u8> {
    magic() + u32_le_bytes(version.0)
}

/// The bytes of a file: the signature, the version, and the root chunk with
/// its children.
pub open spec fn encode(vox: VoxDataView) -> Seq<u8> {
    file_header(vox.version) + chunk_bytes(ChunkId::Main, Seq::empty(), children_bytes(vox))
}

/// Whether the file of `vox` can be written at `pos`: the header of the
/// root chunk has to fit in the stream, and, where the root chunk has
/// children, the whole file within the first 4 GiB of it.
pub open spec fn encodable(vox: VoxDataView, pos: u64) -> bool {
    &&& pos + 20 <= usize::MAX
    &&& children_bytes(vox).len() > 0 ==> pos + 20 + children_bytes(vox).len() <= u32::MAX
}

/// Writes the signature and the version.
pub fn write_file_header<W: Write>(writer: &mut W, version: Version) -> (r: Result<(), Error>)
    ensures
        write_outcome(*old(writer), *final(writer), file_header(version), r is Ok),
        r matches Err(e) ==> e@ == ErrorView::Io(IoError::Other),
{
    let v = u32_bytes(version.0);
    let header: [u8; 8] = [86, 79, 88, 32, v[0], v[1], v[2], v[3]];
    assert(header@ =~= file_header(version));
    match writer.write_all(header.as_slice()) {
        Ok(()) => Ok(()),
        Err(e) => Err(Error::Io(e)),
    }
}

/// Writes a file whose root chunk is filled by `f`: the signature, the
/// version, and the `MAIN` chunk. Nothing is written where the stream
/// cannot hold the header of the root chunk.
pub fn main_chunk_writer<F: FnOnce(&mut ChunkWriter) -> Result<(), Error>>(
    writer: &mut ByteWriter,
    version: Version,
    f: F,
) -> (r: Result<(), Error>)
    requires
        forall|c: &mut ChunkWriter|
            c@ == ChunkWriterView::opened(
                written(old(writer)@, old(writer).position() as int, file_header(version)),
                (old(writer).position() + 8) as u64,
                ChunkId::Main,
            ) ==> f.requires((c,)),
    ensures
        old(writer).position() + 20 > usize::MAX ==> (r matches Err(e) && e@ == ErrorView::Io(
            IoError::Other,
        )) && final(writer)@ == old(writer)@ && final(writer).position()
            == old(writer).position(),
        old(writer).position() + 20 <= usize::MAX ==> exists|
            c: &mut ChunkWriter,
            rf: Result<(), Error>,
        |
            {
                &&& c@ == ChunkWriterView::opened(
                    written(old(writer)@, old(writer).position() as int, file_header(version)),
                    (old(writer).position() + 8) as u64,
                    ChunkId::Main,
                )
                &&& #[trigger] f.ensures((c,), rf)
                &&& final(writer)@ == chunk_closed(final(c)@, rf is Ok).0
                &&& final(writer).position() == chunk_closed(final(c)@, rf is Ok).1
                &&& match chunk_closed(final(c)@, rf is Ok).2 {
                    Some(failure) => r matches Err(got) && got@ == failure,
                    None => r == rf,
                }
            },
{
    if writer.stream_position() > (usize::MAX - 20) as u64 {
        return Err(Error::Io(IoError::Other));
    }
    match write_file_header(writer, version) {
        Ok(()) => {},
        Err(e) => {
            return Err(e);
        },
    }
    chunk_writer(writer, ChunkId::Main, f)
}

/// A chunk is twelve bytes longer than its content and its children.
pub proof fn chunk_bytes_len(id: ChunkId, content: Seq<u8>, children: Seq<u8>)
    ensures
        chunk_bytes(id, content, children).len() == 12 + content.len() + children.len(),
{
}

/// What a chunk writer is once the bytes `more` of whole children are
/// written behind what it has: nothing changes where there are none.
pub open spec fn appended(chunk: ChunkWriterView, more: Seq<u8>) -> ChunkWriterView {
    if more.len() == 0 {
        chunk
    } else {
        ChunkWriterView {
            children_len: (chunk.children_len + more.len()) as u32,
            ..chunk.on(
                written(chunk.contents, chunk.cursor as int, more),
                (chunk.cursor + more.len()) as u64,
            )
        }
    }
}

/// Appending twice is appending both at once.
pub proof fn appended_twice(chunk: ChunkWriterView, x: Seq<u8>, y: Seq<u8>)
    requires
        x.len() > 0 && y.len() > 0 ==> chunk.cursor + x.len() + y.len() <= u32::MAX,
        chunk.children_len <= chunk.cursor,
    ensures
        appended(appended(chunk, x), y) == appended(chunk, x + y),
{
    if x.len() == 0 {
        assert(x + y =~= y);
    } else if y.len() == 0 {
        assert(x + y =~= x);
    } else {
        written_twice(chunk.contents, chunk.cursor as int, x, y);
    }
}

/// A header that is written in two steps, the tag first and the lengths
/// once the content is written behind the space left for them, is the
/// header of the chunk.
pub proof fn child_written(bytes: Seq<u8>, pos: int, id: ChunkId, content: Seq<u8>)
    requires
        0 <= pos,
        content.len() <= u32::MAX,
    ensures
        written(
            written(written(bytes, pos, tag_of(id)@), pos + 12, content),
            pos + 4,
            u32_le_bytes(content.len() as u32) + u32_le_bytes(0),
        ) == written(bytes, pos, chunk_bytes(id, content, Seq::empty())),
{
    assert(written(
        written(written(bytes, pos, tag_of(id)@), pos + 12, content),
        pos + 4,
        u32_le_bytes(content.len() as u32) + u32_le_bytes(0),
    ) =~= written(bytes, pos, chunk_bytes(id, content, Seq::empty())));
}

/// The same for a chunk without content, whose children are written behind
/// the header, if it has any.
pub proof fn parent_written(bytes: Seq<u8>, pos: int, id: ChunkId, children: Seq<u8>)
    requires
        0 <= pos,
        children.len() <= u32::MAX,
    ensures
        children.len() > 0 ==> written(
            written(written(bytes, pos, tag_of(id)@), pos + 12, children),
            pos + 4,
            u32_le_bytes(0) + u32_le_bytes(children.len() as u32),
        ) == written(bytes, pos, chunk_bytes(id, Seq::empty(), children)),
        children.len() == 0 ==> written(
            written(bytes, pos, tag_of(id)@),
            pos + 4,
            u32_le_bytes(0) + u32_le_bytes(0),
        ) == written(bytes, pos, chunk_bytes(id, Seq::empty(), children)),
{
    if children.len() > 0 {
        assert(written(
            written(written(bytes, pos, tag_of(id)@), pos + 12, children),
            pos + 4,
            u32_le_bytes(0) + u32_le_bytes(children.len() as u32),
        ) =~= written(bytes, pos, chunk_bytes(id, Seq::empty(), children)));
    } else {
        assert(written(
            written(bytes, pos, tag_of(id)@),
            pos + 4,
            u32_le_bytes(0) + u32_le_bytes(0),
        ) =~= written(bytes, pos, chunk_bytes(id, Seq::empty(), children)));
    }
}

/// Whether `now` is a later state of the chunk writer `then`, one that has
/// only children: what the stream held before the position of `then` is
/// kept, and the position is not before it.
pub open spec fn grown(then: ChunkWriterView, now: ChunkWriterView) -> bool {
    &&& now.id == then.id
    &&& now.offset == then.offset
    &&& now.content_len == 0
    &&& now.children_len <= now.cursor
    &&& then.cursor <= now.cursor
    &&& same_before(then.contents, now.contents, then.cursor as int)
}

/// A chunk writer that has grown twice has grown.
pub proof fn grown_twice(first: ChunkWriterView, second: ChunkWriterView, third: ChunkWriterView)
    requires
        grown(first, second),
        grown(second, third),
    ensures
        grown(first, third),
{
    same_before_twice(
        first.contents,
        second.contents,
        third.contents,
        first.cursor as int,
        second.cursor as int,
    );
}

/// A chunk writer that has only children has grown from itself.
pub proof fn grown_from_itself(chunk: ChunkWriterView)
    requires
        chunk.content_len == 0,
        chunk.children_len <= chunk.cursor,
    ensures
        grown(chunk, chunk),
{
    same_before_itself(chunk.contents, chunk.cursor as int);
}

/// Whether a child with a content of `len` bytes can be written behind what
/// `chunk` has.
pub open spec fn child_fits(chunk: ChunkWriterView, len: nat) -> bool {
    chunk.cursor + 12 + len <= u32::MAX
}

/// Writes a child chunk that holds `content` and has no children.
pub(crate) fn write_child(chunk_writer: &mut ChunkWriter, id: ChunkId, content: &[u8]) -> (r: Result<
    (),
    Error,
>)
    requires
        old(chunk_writer)@.content_len == 0,
        old(chunk_writer)@.children_len <= old(chunk_writer)@.cursor,
    ensures
        r is Ok <==> child_fits(old(chunk_writer)@, content@.len()),
        r is Ok ==> final(chunk_writer)@ == appended(
            old(chunk_writer)@,
            chunk_bytes(id, content@, Seq::empty()),
        ),
        r matches Err(e) ==> e@ is Overflow,
        grown(old(chunk_writer)@, final(chunk_writer)@),
{
    let ghost before = chunk_writer@;
    let ghost opened = ChunkWriterView::opened(before.contents, before.cursor, id);
    let write = |w: &mut ContentWriter| -> (r: Result<(), Error>)
        ensures
            write_outcome(*old(w), *final(w), content@, r is Ok),
            r matches Err(e) ==> e@ == ErrorView::Io(IoError::Other),
        {
            write_content(w, content)
        };
    let r = chunk_writer.child_content_writer(id, write);
    proof {
        if content@.len() <= u32::MAX {
            child_written(before.contents, before.cursor as int, id, content@);
        }
        chunk_bytes_len(id, content@, Seq::empty());
        same_before_itself(before.contents, before.cursor as int);
        written_same_before(before.contents, before.cursor as int, tag_of(id)@);
        written_same_before(opened.contents, before.cursor + 12, content@);
        same_before_twice(
            before.contents,
            opened.contents,
            written(opened.contents, before.cursor + 12, content@),
            before.cursor as int,
            before.cursor + 12,
        );
        written_same_before(before.contents, before.cursor as int, chunk_bytes(
            id,
            content@,
            Seq::empty(),
        ));
    }
    match r {
        Ok(()) => Ok(()),
        Err(_) => Err(Error::Overflow),
    }
}

/// The records of one voxel more are those of the voxels before it and its
/// own.
pub proof fn voxels_bytes_push(voxels: Seq<Voxel>, upto: int)
    requires
        0 <= upto < voxels.len(),
    ensures
        voxels_bytes(voxels.take(upto + 1)) == voxels_bytes(voxels.take(upto)) + voxel_bytes(
            voxels[upto],
        ),
{
    assert(voxels_bytes(voxels.take(upto + 1)) =~= voxels_bytes(voxels.take(upto)) + voxel_bytes(
        voxels[upto],
    ));
}

/// The chunks of more models are longer, and each model takes 40 bytes at
/// least.
pub proof fn models_bytes_grow(models: Seq<ModelView>, fewer: nat, upto: nat)
    requires
        fewer <= upto,
    ensures
        models_bytes(models, fewer).len() + 40 * (upto - fewer) <= models_bytes(models, upto).len(),
    decreases upto,
{
    if fewer < upto {
        models_bytes_grow(models, fewer, (upto - 1) as nat);
        let model = models[upto - 1];
        chunk_bytes_len(ChunkId::Size, size_bytes(model.size), Seq::empty());
        chunk_bytes_len(ChunkId::Xyzi, xyzi_content(model.voxels), Seq::empty());
    }
}

/// The content of an `XYZI` chunk: the number of voxels and their records.
#[verifier::loop_isolation(false)]
fn xyzi_chunk_content(voxels: &Vec<Voxel>) -> (r: Result<Vec<u8>, Error>)
    ensures
        r is Ok <==> voxels@.len() <= u32::MAX && 4 + 4 * voxels@.len() <= usize::MAX,
        r matches Ok(content) ==> content@ == xyzi_content(voxels@),
        r matches Err(e) ==> e@ is Overflow,
{
    if voxels.len() > u32::MAX as usize {
        return Err(Error::Overflow);
    }
    let count = voxels.len() as u32;
    let mut buffer = ByteWriter::new();
    match write_bytes(&mut buffer, u32_bytes(count).as_slice()) {
        Ok(()) => {},
        Err(_) => {
            return Err(Error::Overflow);
        },
    }
    proof {
        written_at_end(Seq::empty(), u32_le_bytes(count));
        assert(voxels_bytes(voxels@.take(0)) =~= Seq::empty());
        assert(buffer@ =~= u32_le_bytes(count) + voxels_bytes(voxels@.take(0)));
    }
    let mut i: usize = 0;
    while i < voxels.len()
        invariant
            i <= voxels@.len(),
            buffer@ == u32_le_bytes(count) + voxels_bytes(voxels@.take(i as int)),
            buffer.position() == buffer@.len(),
            buffer@.len() == 4 + 4 * i,
            4 + 4 * i <= usize::MAX,
        decreases voxels@.len() - i,
    {
        let ghost before = buffer@;
        match voxels[i].write(&mut buffer) {
            Ok(()) => {},
            Err(_) => {
                return Err(Error::Overflow);
            },
        }
        proof {
            written_at_end(before, voxel_bytes(voxels@[i as int]));
            voxels_bytes_push(voxels@, i as int);
            assert(buffer@ =~= u32_le_bytes(count) + voxels_bytes(voxels@.take(i + 1)));
        }
        i = i + 1;
    }
    assert(voxels@.take(voxels@.len() as int) =~= voxels@);
    Ok(buffer.into_inner())
}

/// Writes the two chunks of a model.
fn write_model(chunk_writer: &mut ChunkWriter, model: &Model) -> (r: Result<(), Error>)
    requires
        old(chunk_writer)@.content_len == 0,
        old(chunk_writer)@.children_len <= old(chunk_writer)@.cursor,
    ensures
        r is Ok <==> old(chunk_writer)@.cursor + model_bytes(model@).len() <= u32::MAX,
        r is Ok ==> final(chunk_writer)@ == appended(old(chunk_writer)@, model_bytes(model@)),
        r matches Err(e) ==> e@ is Overflow,
        grown(old(chunk_writer)@, final(chunk_writer)@),
{
    let ghost start = chunk_writer@;
    proof {
        grown_from_itself(start);
    }
    let ghost size_chunk = chunk_bytes(ChunkId::Size, size_bytes(model.size), Seq::empty());
    let ghost xyzi_chunk = chunk_bytes(ChunkId::Xyzi, xyzi_content(model@.voxels), Seq::empty());
    proof {
        chunk_bytes_len(ChunkId::Size, size_bytes(model.size), Seq::empty());
        chunk_bytes_len(ChunkId::Xyzi, xyzi_content(model@.voxels), Seq::empty());
    }
    let mut extent = ByteWriter::new();
    match model.size.write(&mut extent) {
        Ok(()) => {},
        Err(_) => {
            return Err(Error::Overflow);
        },
    }
    proof {
        written_at_end(Seq::empty(), size_bytes(model.size));
    }
    let extent = extent.into_inner();
    assert(extent@ =~= size_bytes(model.size));
    match write_child(chunk_writer, ChunkId::Size, extent.as_slice()) {
        Ok(()) => {},
        Err(e) => {
            return Err(e);
        },
    }
    let ghost sized = chunk_writer@;
    let records = match xyzi_chunk_content(&model.voxels) {
        Ok(records) => records,
        Err(e) => {
            return Err(e);
        },
    };
    let r = write_child(chunk_writer, ChunkId::Xyzi, records.as_slice());
    proof {
        grown_twice(start, sized, chunk_writer@);
        if r is Ok {
            appended_twice(start, size_chunk, xyzi_chunk);
        }
    }
    r
}

/// One step of writing the models: what holds once the chunks of the model
/// `at` are written behind those of the models before it, or could not be.
proof fn models_step(
    start: ChunkWriterView,
    models: Seq<ModelView>,
    at: nat,
    before: ChunkWriterView,
    after: ChunkWriterView,
    ok: bool,
)
    requires
        at < models.len(),
        start.children_len <= start.cursor,
        before == appended(start, models_bytes(models, at)),
        at == 0 || start.cursor + models_bytes(models, at).len() <= u32::MAX,
        ok <==> before.cursor + model_bytes(models[at as int]).len() <= u32::MAX,
        ok ==> after == appended(before, model_bytes(models[at as int])),
    ensures
        ok ==> after == appended(start, models_bytes(models, at + 1)) && start.cursor
            + models_bytes(models, at + 1).len() <= u32::MAX,
        !ok ==> start.cursor + models_bytes(models, models.len()).len() > u32::MAX,
{
    let done = models_bytes(models, at);
    let next = model_bytes(models[at as int]);
    assert(models_bytes(models, at + 1) == done + next);
    models_bytes_grow(models, at + 1, models.len());
    models_bytes_grow(models, 0, at);
    chunk_bytes_len(ChunkId::Size, size_bytes(models[at as int].size), Seq::empty());
    chunk_bytes_len(ChunkId::Xyzi, xyzi_content(models[at as int].voxels), Seq::empty());
    if ok {
        appended_twice(start, done, next);
    }
}

/// Whether the chunks of the first `upto` models are written behind what
/// `start` had.
pub open spec fn models_written(
    start: ChunkWriterView,
    models: Seq<ModelView>,
    upto: nat,
    now: ChunkWriterView,
) -> bool {
    &&& now == appended(start, models_bytes(models, upto))
    &&& now.content_len == 0
    &&& now.children_len <= now.cursor
    &&& start.children_len <= start.cursor
    &&& upto == 0 || start.cursor + models_bytes(models, upto).len() <= u32::MAX
}

/// Writes the chunks of the model `at` behind those of the models before
/// it.
fn write_model_at(
    chunk_writer: &mut ChunkWriter,
    models: &Vec<Model>,
    at: usize,
    Ghost(start): Ghost<ChunkWriterView>,
) -> (r: Result<(), Error>)
    requires
        at < models@.len(),
        models_written(start, model_views(models@), at as nat, old(chunk_writer)@),
    ensures
        r is Ok ==> models_written(
            start,
            model_views(models@),
            (at + 1) as nat,
            final(chunk_writer)@,
        ),
        r is Err ==> start.cursor + models_bytes(model_views(models@), models@.len()).len()
            > u32::MAX,
        r matches Err(e) ==> e@ is Overflow,
        grown(old(chunk_writer)@, final(chunk_writer)@),
{
    let ghost before = chunk_writer@;
    let r = write_model(chunk_writer, &models[at]);
    proof {
        models_step(start, model_views(models@), at as nat, before, chunk_writer@, r is Ok);
    }
    r
}

/// Writes the chunks of all models, in order.
fn write_models(chunk_writer: &mut ChunkWriter, models: &Vec<Model>) -> (r: Result<(), Error>)
    requires
        old(chunk_writer)@.content_len == 0,
        old(chunk_writer)@.children_len <= old(chunk_writer)@.cursor,
    ensures
        r is Ok <==> (models@.len() == 0 || old(chunk_writer)@.cursor + models_bytes(
            model_views(models@),
            models@.len(),
        ).len() <= u32::MAX),
        r is Ok ==> final(chunk_writer)@ == appended(
            old(chunk_writer)@,
            models_bytes(model_views(models@), models@.len()),
        ),
        r matches Err(e) ==> e@ is Overflow,
        grown(old(chunk_writer)@, final(chunk_writer)@),
{
    let ghost start = chunk_writer@;
    proof {
        grown_from_itself(start);
    }
    let mut i: usize = 0;
    while i < models.len()
        invariant
            i <= models@.len(),
            start == old(chunk_writer)@,
            grown(start, chunk_writer@),
            models_written(start, model_views(models@), i as nat, chunk_writer@),
        decreases models@.len() - i,
    {
        let ghost before = chunk_writer@;
        let r = write_model_at(chunk_writer, models, i, Ghost(start));
        proof {
            grown_twice(start, before, chunk_writer@);
        }
        match r {
            Ok(()) => {},
            Err(e) => {
                return Err(e);
            },
        }
        i = i + 1;
    }
    Ok(())
}

/// Writes the `PACK` chunk, where there is more than one model.
fn write_pack(chunk_writer: &mut ChunkWriter, models: &Vec<Model>) -> (r: Result<(), Error>)
    requires
        old(chunk_writer)@.content_len == 0,
        old(chunk_writer)@.children_len <= old(chunk_writer)@.cursor,
    ensures
        r is Ok <==> (models@.len() <= 1 || (models@.len() <= u32::MAX && old(
            chunk_writer,
        )@.cursor + 16 <= u32::MAX)),
        r is Ok ==> final(chunk_writer)@ == appended(
            old(chunk_writer)@,
            pack_bytes(model_views(models@)),
        ),
        r matches Err(e) ==> e@ is Overflow,
        grown(old(chunk_writer)@, final(chunk_writer)@),
{
    proof {
        grown_from_itself(chunk_writer@);
    }
    let num_models = models.len();
    if num_models > 1 {
        if num_models > u32::MAX as usize {
            return Err(Error::Overflow);
        }
        let count = u32_bytes(num_models as u32);
        write_child(chunk_writer, ChunkId::Pack, count.as_slice())
    } else {
        Ok(())
    }
}

/// Writes the `RGBA` chunk, where the palette is not the built-in one.
fn write_rgba(chunk_writer: &mut ChunkWriter, palette: &Palette) -> (r: Result<(), Error>)
    requires
        old(chunk_writer)@.content_len == 0,
        old(chunk_writer)@.children_len <= old(chunk_writer)@.cursor,
    ensures
        r is Ok <==> (palette@ == default_colors() || old(chunk_writer)@.cursor + 1032
            <= u32::MAX),
        r is Ok ==> final(chunk_writer)@ == appended(old(chunk_writer)@, rgba_bytes(palette@)),
        r matches Err(e) ==> e@ is Overflow,
        grown(old(chunk_writer)@, final(chunk_writer)@),
{
    proof {
        grown_from_itself(chunk_writer@);
    }
    if !palette.is_default() {
        let mut colors = ByteWriter::new();
        match palette.write(&mut colors) {
            Ok(()) => {},
            Err(_) => {
                return Err(Error::Overflow);
            },
        }
        proof {
            written_at_end(Seq::empty(), palette_bytes(palette@));
        }
        let colors = colors.into_inner();
        assert(colors@ =~= palette_bytes(palette@));
        write_child(chunk_writer, ChunkId::Rgba, colors.as_slice())
    } else {
        Ok(())
    }
}

/// Writes the children of the root chunk: `PACK` where there is more than
/// one model, `SIZE` and `XYZI` for each model, and `RGBA` where the palette
/// is not the built-in one.
fn write_children(chunk_writer: &mut ChunkWriter, vox: &VoxData) -> (r: Result<(), Error>)
    requires
        old(chunk_writer)@.content_len == 0,
        old(chunk_writer)@.children_len <= old(chunk_writer)@.cursor,
    ensures
        r is Ok <==> (children_bytes(vox@).len() == 0 || old(chunk_writer)@.cursor
            + children_bytes(vox@).len() <= u32::MAX),
        r is Ok ==> final(chunk_writer)@ == appended(old(chunk_writer)@, children_bytes(vox@)),
        r matches Err(e) ==> e@ is Overflow,
        grown(old(chunk_writer)@, final(chunk_writer)@),
{
    let ghost start = chunk_writer@;
    proof {
        grown_from_itself(start);
    }
    let ghost models = vox@.models;
    let ghost pack = pack_bytes(models);
    let ghost grids = models_bytes(models, models.len());
    let ghost colors = rgba_bytes(vox@.palette);
    proof {
        models_bytes_grow(models, 0, models.len());
        chunk_bytes_len(ChunkId::Pack, u32_le_bytes(models.len() as u32), Seq::empty());
        chunk_bytes_len(ChunkId::Rgba, palette_bytes(vox@.palette), Seq::empty());
    }
    match write_pack(chunk_writer, &vox.models) {
        Ok(()) => {},
        Err(e) => {
            return Err(e);
        },
    }
    let ghost packed = chunk_writer@;
    let r = write_models(chunk_writer, &vox.models);
    let ghost filled = chunk_writer@;
    proof {
        grown_twice(start, packed, filled);
    }
    match r {
        Ok(()) => {},
        Err(e) => {
            return Err(e);
        },
    }
    proof {
        appended_twice(start, pack, grids);
    }
    let r = write_rgba(chunk_writer, &vox.palette);
    proof {
        grown_twice(start, filled, chunk_writer@);
        if r is Ok {
            appended_twice(start, pack + grids, colors);
        }
    }
    r
}

/// What a stream holds once the root chunk of a file is closed: the whole
/// file where its children were written, and in any case what it held
/// before the position at which the file starts.
pub proof fn file_closed(
    bytes: Seq<u8>,
    pos: u64,
    version: Version,
    children: Seq<u8>,
    then: ChunkWriterView,
    now: ChunkWriterView,
    ok: bool,
)
    requires
        pos + 20 <= usize::MAX,
        then == ChunkWriterView::opened(
            written(bytes, pos as int, file_header(version)),
            (pos + 8) as u64,
            ChunkId::Main,
        ),
        grown(then, now),
        ok <==> (children.len() == 0 || then.cursor + children.len() <= u32::MAX),
        ok ==> now == appended(then, children),
    ensures
        chunk_closed(now, ok).2 is None,
        same_before(bytes, chunk_closed(now, ok).0, pos as int),
        ok ==> chunk_closed(now, ok).0 == written(
            bytes,
            pos as int,
            file_header(version) + chunk_bytes(ChunkId::Main, Seq::empty(), children),
        ) && chunk_closed(now, ok).1 == pos + 20 + children.len(),
{
    let header = written(bytes, pos as int, file_header(version));
    let whole = file_header(version) + chunk_bytes(ChunkId::Main, Seq::empty(), children);
    chunk_bytes_len(ChunkId::Main, Seq::empty(), children);
    written_same_before(bytes, pos as int, file_header(version));
    written_same_before(header, pos + 8, tag_of(ChunkId::Main)@);
    same_before_twice(bytes, header, then.contents, pos as int, pos + 8);
    same_before_twice(bytes, then.contents, now.contents, pos as int, pos + 20);
    if ok {
        parent_written(header, pos + 8, ChunkId::Main, children);
        written_twice(
            bytes,
            pos as int,
            file_header(version),
            chunk_bytes(ChunkId::Main, Seq::empty(), children),
        );
        written_same_before(bytes, pos as int, whole);
    }
}

/// Writes the file of `vox` at the position of `writer`: the signature, the
/// version, and the root chunk with a `PACK` chunk where there is
/// more than one model, a `SIZE` and an `XYZI` chunk for each model, and an
/// `RGBA` chunk where the palette is not the built-in one. It fails where
/// the stream cannot hold the header of the root chunk, and with an
/// overflow where the file does not fit within 4 GiB; what the stream held
/// before its position is kept in any case.
pub fn to_writer(writer: &mut ByteWriter, vox: &VoxData) -> (r: Result<(), Error>)
    ensures
        r is Ok <==> encodable(vox@, old(writer).position()),
        r is Ok ==> final(writer)@ == written(
            old(writer)@,
            old(writer).position() as int,
            encode(vox@),
        ) && final(writer).position() == old(writer).position() + encode(vox@).len(),
        r matches Err(e) ==> e@ == if old(writer).position() + 20 <= usize::MAX {
            ErrorView::Overflow
        } else {
            ErrorView::Io(IoError::Other)
        },
        same_before(old(writer)@, final(writer)@, old(writer).position() as int),
        old(writer).position() + 20 > usize::MAX ==> final(writer)@ == old(writer)@
            && final(writer).position() == old(writer).position(),
{
    let ghost bytes = writer@;
    let ghost pos = writer.position();
    let ghost children = children_bytes(vox@);
    let ghost then = ChunkWriterView::opened(
        written(bytes, pos as int, file_header(vox.version)),
        (pos + 8) as u64,
        ChunkId::Main,
    );
    let write = |c: &mut ChunkWriter| -> (r: Result<(), Error>)
        requires
            old(c)@.content_len == 0,
            old(c)@.children_len <= old(c)@.cursor,
        ensures
            r is Ok <==> (children.len() == 0 || old(c)@.cursor + children.len() <= u32::MAX),
            r is Ok ==> final(c)@ == appended(old(c)@, children),
            r matches Err(e) ==> e@ is Overflow,
            grown(old(c)@, final(c)@),
        {
            write_children(c, vox)
        };
    let r = main_chunk_writer(writer, vox.version, write);
    proof {
        chunk_bytes_len(ChunkId::Main, Seq::empty(), children);
        same_before_itself(bytes, pos as int);
        written_same_before(bytes, pos as int, file_header(vox.version));
        if pos + 20 <= usize::MAX {
            assert forall|c: &mut ChunkWriter, rf: Result<(), Error>|
                c@ == then && #[trigger] write.ensures((c,), rf) implies chunk_closed(
                final(c)@,
                rf is Ok,
            ).2 is None && same_before(bytes, chunk_closed(final(c)@, rf is Ok).0, pos as int) && (
            rf is Ok ==> chunk_closed(final(c)@, rf is Ok).0 == written(
                bytes,
                pos as int,
                encode(vox@),
            ) && chunk_closed(final(c)@, rf is Ok).1 == pos + encode(vox@).len()) by {
                file_closed(bytes, pos, vox.version, children, then, final(c)@, rf is Ok);
            }
        }
    }
    r
}

/// The bytes of the file of `vox`.
pub fn to_vec(vox: &VoxData) -> (r: Result<Vec<u8>, Error>)
    ensures
        r is Ok <==> encodable(vox@, 0),
        r matches Ok(bytes) ==> bytes@ == encode(vox@),
        r matches Err(e) ==> e@ is Overflow,
{
    let mut writer = ByteWriter::new();
    match to_writer(&mut writer, vox) {
        Ok(()) => {
            proof {
                written_at_end(Seq::empty(), encode(vox@));
            }
            Ok(writer.into_inner())
        },
        Err(e) => Err(e),
    }
}

/// Writes all of `data` through a window.
fn write_content(w: &mut ContentWriter, data: &[u8]) -> (r: Result<(), Error>)
    ensures
        write_outcome(*old(w), *final(w), data@, r is Ok),
        r matches Err(e) ==> e@ == ErrorView::Io(IoError::Other),
{
    match w.write_all(data) {
        Ok(()) => Ok(()),
        Err(e) => Err(Error::Io(e)),
    }
}

} // verus!
