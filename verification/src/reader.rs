//! Decoding of a file into the calls of a builder.

use vstd::prelude::*;

use crate::chunk::{parse_header, parse_preamble, read_main_chunk, Chunk, ChunkId, ChunkView};
use crate::data::{empty_models, VoxBuffer, VoxData, VoxDataView};
use crate::default_palette::default_colors;
use crate::endian::{read_u32, u32_le};
use crate::stream::{remaining, remaining_advanced, window, ByteReader, IoError};
use crate::types::{
    palette_of, size_of, voxel_of, Color, ModelView, Palette, Size, Version, Voxel,
};

verus! {

/// Why reading failed.
#[derive(Debug)]
#[allow(inconsistent_fields)]
pub enum Error {
    /// The file does not start with the signature.
    InvalidMagic { got: [u8; 4] },
    /// The file declares a version that is not supported.
    UnsupportedFileVersion { version: Version },
    /// The root chunk is not the `MAIN` chunk.
    ExpectedMainChunk { got: Chunk },
    /// The numbers of `SIZE` and of `XYZI` chunks differ.
    InvalidNumberOfSizeAndXyziChunks { size_chunks: Vec<Chunk>, xyzi_chunks: Vec<Chunk> },
    /// A second `RGBA` chunk was found.
    MultipleRgbaChunks { chunks: [Chunk; 2] },
    /// A material record names a kind that does not exist.
    InvalidMaterial { material_type: u8 },
    /// The stream failed.
    Io(IoError),
    /// A string of an attribute is not UTF-8.
    Utf8,
    /// A chunk's offset, or an offset that follows from its declared lengths,
    /// does not fit in 32 bits.
    Overflow,
}

/// What an [`Error`] says, with chunks and lists taken by their views.
#[allow(inconsistent_fields)]
pub enum ErrorView {
    InvalidMagic { got: [u8; 4] },
    UnsupportedFileVersion { version: Version },
    ExpectedMainChunk { got: ChunkView },
    InvalidNumberOfSizeAndXyziChunks { size_chunks: Seq<ChunkView>, xyzi_chunks: Seq<ChunkView> },
    MultipleRgbaChunks { first: ChunkView, second: ChunkView },
    InvalidMaterial { material_type: u8 },
    Io(IoError),
    Utf8,
    Overflow,
}

/// The views of the chunks of a list, in order.
pub open spec fn chunk_views(chunks: Seq<Chunk>) -> Seq<ChunkView> {
    chunks.map_values(|c: Chunk| c@)
}

impl View for Error {
    type V = ErrorView;

    open spec fn view(&self) -> ErrorView {
        match *self {
            Error::InvalidMagic { got } => ErrorView::InvalidMagic { got },
            Error::UnsupportedFileVersion { version } => ErrorView::UnsupportedFileVersion {
                version,
            },
            Error::ExpectedMainChunk { got } => ErrorView::ExpectedMainChunk { got: got@ },
            Error::InvalidNumberOfSizeAndXyziChunks {
                size_chunks,
                xyzi_chunks,
            } => ErrorView::InvalidNumberOfSizeAndXyziChunks {
                size_chunks: chunk_views(size_chunks@),
                xyzi_chunks: chunk_views(xyzi_chunks@),
            },
            Error::MultipleRgbaChunks { chunks } => ErrorView::MultipleRgbaChunks {
                first: chunks[0]@,
                second: chunks[1]@,
            },
            Error::InvalidMaterial { material_type } => ErrorView::InvalidMaterial {
                material_type,
            },
            Error::Io(e) => ErrorView::Io(e),
            Error::Utf8 => ErrorView::Utf8,
            Error::Overflow => ErrorView::Overflow,
        }
    }
}

/// One call of a builder.
pub enum Event {
    Version(Version),
    Palette(Seq<Color>),
    NumModels(usize),
    ModelSize(Size),
    Voxel(Voxel),
}

/// Whether `after` is what one call makes of the builder `before`.
pub open spec fn delivered_one<B: VoxBuffer>(before: B, after: B, event: Event) -> bool {
    match event {
        Event::Version(version) => B::version_set(before, after, version),
        Event::Palette(palette) => B::palette_set(before, after, palette),
        Event::NumModels(num_models) => B::num_models_set(before, after, num_models),
        Event::ModelSize(size) => B::model_begun(before, after, size),
        Event::Voxel(voxel) => B::voxel_set(before, after, voxel),
    }
}

/// Whether `after` is what a sequence of calls, one after the other, makes
/// of the builder `before`.
pub open spec fn delivered<B: VoxBuffer>(before: B, after: B, events: Seq<Event>) -> bool
    decreases events.len(),
{
    if events.len() == 0 {
        after == before
    } else {
        exists|between: B|
            delivered(before, between, events.drop_last()) && #[trigger] delivered_one(
                between,
                after,
                events.last(),
            )
    }
}

/// What the collector holds after one call.
pub open spec fn collect(state: VoxDataView, event: Event) -> VoxDataView {
    match event {
        Event::Version(version) => VoxDataView { version, ..state },
        Event::Palette(palette) => VoxDataView { palette, ..state },
        Event::NumModels(num_models) => state,
        Event::ModelSize(size) => VoxDataView {
            models: state.models.push(ModelView { size, voxels: Seq::empty() }),
            ..state
        },
        Event::Voxel(voxel) => VoxDataView {
            models: state.models.update(
                state.models.len() - 1,
                ModelView {
                    size: state.models.last().size,
                    voxels: state.models.last().voxels.push(voxel),
                },
            ),
            ..state
        },
    }
}

/// What the collector holds after a sequence of calls.
pub open spec fn collect_all(state: VoxDataView, events: Seq<Event>) -> VoxDataView
    decreases events.len(),
{
    if events.len() == 0 {
        state
    } else {
        collect(collect_all(state, events.drop_last()), events.last())
    }
}

/// The children of the root chunk that carry voxel data, by kind and in the
/// order of the file.
pub struct Buckets {
    pub sizes: Seq<ChunkView>,
    pub xyzis: Seq<ChunkView>,
    pub rgba: Option<ChunkView>,
}

/// Puts one child into its bucket. Children of other kinds are passed over;
/// a second `RGBA` chunk is refused.
pub open spec fn sorted_in(buckets: Buckets, chunk: ChunkView) -> Result<Buckets, ErrorView> {
    match chunk.id {
        ChunkId::Size => Ok(Buckets { sizes: buckets.sizes.push(chunk), ..buckets }),
        ChunkId::Xyzi => Ok(Buckets { xyzis: buckets.xyzis.push(chunk), ..buckets }),
        ChunkId::Rgba => match buckets.rgba {
            Some(first) => Err(ErrorView::MultipleRgbaChunks { first, second: chunk }),
            None => Ok(Buckets { rgba: Some(chunk), ..buckets }),
        },
        _ => Ok(buckets),
    }
}

/// Walks the chunks that follow each other in `[offset, end)` and puts each
/// into its bucket; the first failure ends the walk. The last chunk has to
/// end at `end`.
pub open spec fn sort_children(bytes: Seq<u8>, offset: u32, end: u32, buckets: Buckets) -> Result<
    Buckets,
    ErrorView,
>
    decreases
        (if offset < end {
            end - offset
        } else {
            0
        }),
{
    if offset == end {
        Ok(buckets)
    } else if offset > end {
        Err(ErrorView::Io(IoError::UnexpectedEof))
    } else {
        match parse_header(bytes, offset as u64) {
            Err(e) => Err(e),
            Ok(chunk) => match sorted_in(buckets, chunk) {
                Err(e) => Err(e),
                Ok(next) => sort_children(bytes, chunk.end() as u32, end, next),
            },
        }
    }
}

/// The bytes of a chunk's content, as far as the stream holds them.
pub open spec fn content_of(bytes: Seq<u8>, chunk: ChunkView) -> Seq<u8> {
    window(bytes, chunk.content_offset(), chunk.children_offset())
}

/// The call that hands over the palette: that of the `RGBA` chunk, where
/// there is one, and the built-in palette where there is none. It fails
/// when the chunk's content is shorter than a palette.
pub open spec fn palette_trace(bytes: Seq<u8>, rgba: Option<ChunkView>) -> Result<
    Seq<Event>,
    ErrorView,
> {
    match rgba {
        None => Ok(seq![Event::Palette(default_colors())]),
        Some(chunk) => if content_of(bytes, chunk).len() < 1020 {
            Err(ErrorView::Io(IoError::UnexpectedEof))
        } else {
            Ok(seq![Event::Palette(palette_of(content_of(bytes, chunk)))])
        },
    }
}

/// The calls that hand over the first `count` voxels of the records in
/// `body`.
pub open spec fn voxel_events(body: Seq<u8>, count: nat) -> Seq<Event> {
    Seq::new(count, |j: int| Event::Voxel(voxel_of(body.skip(4 * j))))
}

/// The calls that hand over one model, and the failure that ends them, if
/// any: the model is begun with the extent in the `SIZE` chunk; the `XYZI`
/// chunk declares a number of voxels and holds their records, and the
/// voxels are handed over one by one until that number is reached or the
/// content ends.
pub open spec fn model_trace(bytes: Seq<u8>, size: ChunkView, xyzi: ChunkView) -> (
    Seq<Event>,
    Option<ErrorView>,
) {
    let extent = content_of(bytes, size);
    let records = content_of(bytes, xyzi);
    if extent.len() < 12 {
        (Seq::empty(), Some(ErrorView::Io(IoError::UnexpectedEof)))
    } else if records.len() < 4 {
        (seq![Event::ModelSize(size_of(extent))], Some(ErrorView::Io(IoError::UnexpectedEof)))
    } else {
        let declared = u32_le(records) as nat;
        let held = (records.len() - 4) / 4;
        if held < declared {
            (
                seq![Event::ModelSize(size_of(extent))] + voxel_events(
                    records.skip(4),
                    held as nat,
                ),
                Some(ErrorView::Io(IoError::UnexpectedEof)),
            )
        } else {
            (seq![Event::ModelSize(size_of(extent))] + voxel_events(records.skip(4), declared), None)
        }
    }
}

/// The calls that hand over the first `upto` models, and the failure that
/// ends them, if any.
pub open spec fn models_trace(
    bytes: Seq<u8>,
    sizes: Seq<ChunkView>,
    xyzis: Seq<ChunkView>,
    upto: nat,
) -> (Seq<Event>, Option<ErrorView>)
    decreases upto,
{
    if upto == 0 {
        (Seq::empty(), None)
    } else {
        let before = models_trace(bytes, sizes, xyzis, (upto - 1) as nat);
        if before.1 is Some {
            before
        } else {
            let model = model_trace(bytes, sizes[upto - 1], xyzis[upto - 1]);
            (before.0 + model.0, model.1)
        }
    }
}

/// What reading a file amounts to: the calls of the builder, in order, and
/// the failure that ended them, if any.
pub struct Decoded {
    pub events: Seq<Event>,
    pub error: Option<ErrorView>,
}

/// What reading amounts to once the children of the root chunk are sorted:
/// the palette is handed over first, then the number of models, which is
/// the number of `SIZE` chunks and has to be the number of `XYZI` chunks,
/// then the models.
pub open spec fn decode_sorted(bytes: Seq<u8>, head: Seq<Event>, buckets: Buckets) -> Decoded {
    match palette_trace(bytes, buckets.rgba) {
        Err(e) => Decoded { events: head, error: Some(e) },
        Ok(palette) => if buckets.xyzis.len() != buckets.sizes.len() {
            Decoded {
                events: head + palette,
                error: Some(
                    ErrorView::InvalidNumberOfSizeAndXyziChunks {
                        size_chunks: buckets.sizes,
                        xyzi_chunks: buckets.xyzis,
                    },
                ),
            }
        } else {
            let models = models_trace(bytes, buckets.sizes, buckets.xyzis, buckets.sizes.len());
            Decoded {
                events: head + palette + seq![Event::NumModels(buckets.sizes.len() as usize)]
                    + models.0,
                error: models.1,
            }
        },
    }
}

/// What reading the file that starts at `pos` in `bytes` amounts to.
pub open spec fn decode(bytes: Seq<u8>, pos: u64) -> Decoded {
    match parse_preamble(bytes, pos) {
        Err(e) => Decoded { events: Seq::empty(), error: Some(e) },
        Ok((main, version)) => match sort_children(
            bytes,
            main.children_offset() as u32,
            main.end() as u32,
            Buckets { sizes: Seq::empty(), xyzis: Seq::empty(), rgba: None },
        ) {
            Err(e) => Decoded { events: seq![Event::Version(version)], error: Some(e) },
            Ok(buckets) => decode_sorted(bytes, seq![Event::Version(version)], buckets),
        },
    }
}

/// One more call after a sequence of calls.
pub proof fn delivered_one_more<B: VoxBuffer>(
    before: B,
    between: B,
    after: B,
    events: Seq<Event>,
    event: Event,
)
    requires
        delivered(before, between, events),
        delivered_one(between, after, event),
    ensures
        delivered(before, after, events.push(event)),
{
    let all = events.push(event);
    assert(all.drop_last() =~= events);
    assert(delivered(before, between, all.drop_last()) && delivered_one(
        between,
        after,
        all.last(),
    ));
}

/// More calls after a sequence of calls.
pub proof fn delivered_more<B: VoxBuffer>(
    before: B,
    between: B,
    after: B,
    events: Seq<Event>,
    more: Seq<Event>,
)
    requires
        delivered(before, between, events),
        delivered(between, after, more),
    ensures
        delivered(before, after, events + more),
    decreases more.len(),
{
    if more.len() == 0 {
        assert(events + more =~= events);
    } else {
        let last = choose|last: B|
            delivered(between, last, more.drop_last()) && #[trigger] delivered_one(
                last,
                after,
                more.last(),
            );
        delivered_more(before, between, last, events, more.drop_last());
        let all = events + more;
        assert(all.drop_last() =~= events + more.drop_last());
        assert(delivered(before, last, all.drop_last()) && delivered_one(last, after, all.last()));
    }
}

/// One more call of the collector after a sequence of calls.
pub proof fn collect_one_more(state: VoxDataView, events: Seq<Event>, event: Event)
    ensures
        collect_all(state, events.push(event)) == collect(collect_all(state, events), event),
{
    assert(events.push(event).drop_last() =~= events);
}

/// More calls of the collector after a sequence of calls.
pub proof fn collect_more(state: VoxDataView, events: Seq<Event>, more: Seq<Event>)
    ensures
        collect_all(state, events + more) == collect_all(collect_all(state, events), more),
    decreases more.len(),
{
    if more.len() == 0 {
        assert(events + more =~= events);
    } else {
        collect_more(state, events, more.drop_last());
        assert((events + more).drop_last() =~= events + more.drop_last());
    }
}

/// What the collector promises of one call is what `collect` says.
pub proof fn collected_one(before: VoxData, after: VoxData, event: Event)
    requires
        delivered_one(before, after, event),
    ensures
        after@ == collect(before@, event),
{
    match event {
        Event::ModelSize(size) => {
            assert(after.models@.drop_last() == before.models@);
            assert forall|i: int| 0 <= i < before.models@.len() implies after.models@[i]
                == before.models@[i] by {
                assert(after.models@.drop_last()[i] == after.models@[i]);
            }
            assert(after@.models =~= collect(before@, event).models);
        },
        Event::Voxel(voxel) => {
            assert forall|i: int| 0 <= i < before.models@.len() - 1 implies after.models@[i]
                == before.models@[i] by {
                assert(after.models@.drop_last()[i] == after.models@[i]);
                assert(before.models@.drop_last()[i] == before.models@[i]);
            }
            assert(after@.models =~= collect(before@, event).models);
        },
        _ => {
            assert(after@.models =~= before@.models);
        },
    }
}

/// What the collector promises of a sequence of calls is what `collect_all`
/// says.
pub proof fn collected(before: VoxData, after: VoxData, events: Seq<Event>)
    requires
        delivered(before, after, events),
    ensures
        after@ == collect_all(before@, events),
    decreases events.len(),
{
    if events.len() > 0 {
        let between = choose|between: VoxData|
            delivered(before, between, events.drop_last()) && #[trigger] delivered_one(
                between,
                after,
                events.last(),
            );
        collected(before, between, events.drop_last());
        collected_one(between, after, events.last());
    }
}

/// Reads the children of the root chunk and sorts them into buckets.
#[verifier::loop_isolation(false)]
fn read_children(reader: ByteReader, main_chunk: &Chunk) -> (r: Result<
    (Vec<Chunk>, Vec<Chunk>, Option<Chunk>),
    Error,
>)
    ensures
        match sort_children(
            reader@,
            main_chunk@.children_offset() as u32,
            main_chunk@.end() as u32,
            Buckets { sizes: Seq::empty(), xyzis: Seq::empty(), rgba: None },
        ) {
            Ok(buckets) => r matches Ok((sizes, xyzis, rgba)) && chunk_views(sizes@)
                == buckets.sizes && chunk_views(xyzis@) == buckets.xyzis && match buckets.rgba {
                Some(chunk) => rgba matches Some(got) && got@ == chunk,
                None => rgba is None,
            },
            Err(e) => r matches Err(got) && got@ == e,
        },
{
    let mut size_chunks: Vec<Chunk> = Vec::new();
    let mut xyzi_chunks: Vec<Chunk> = Vec::new();
    let mut rgba_chunk: Option<Chunk> = None;
    let mut children = main_chunk.children(reader);
    let ghost bytes = reader@;
    let ghost end = children.end();
    let ghost start = children.offset();
    let ghost empty = Buckets { sizes: Seq::empty(), xyzis: Seq::empty(), rgba: None };
    assert(chunk_views(size_chunks@) =~= empty.sizes);
    assert(chunk_views(xyzi_chunks@) =~= empty.xyzis);
    loop
        invariant
            children.source() == bytes,
            children.end() == end,
            sort_children(bytes, start, end, empty) == sort_children(
                bytes,
                children.offset(),
                end,
                Buckets {
                    sizes: chunk_views(size_chunks@),
                    xyzis: chunk_views(xyzi_chunks@),
                    rgba: match rgba_chunk {
                        Some(chunk) => Some(chunk@),
                        None => None,
                    },
                },
            ),
        decreases
            (if children.offset() < end {
                end - children.offset()
            } else {
                0
            }),
    {
        let ghost before = Buckets {
            sizes: chunk_views(size_chunks@),
            xyzis: chunk_views(xyzi_chunks@),
            rgba: match rgba_chunk {
                Some(chunk) => Some(chunk@),
                None => None,
            },
        };
        let chunk = match children.next() {
            None => {
                return Ok((size_chunks, xyzi_chunks, rgba_chunk));
            },
            Some(Err(e)) => {
                return Err(e);
            },
            Some(Ok(chunk)) => chunk,
        };
        match chunk.id() {
            ChunkId::Size => {
                size_chunks.push(chunk);
                assert(chunk_views(size_chunks@) =~= before.sizes.push(chunk@));
            },
            ChunkId::Xyzi => {
                xyzi_chunks.push(chunk);
                assert(chunk_views(xyzi_chunks@) =~= before.xyzis.push(chunk@));
            },
            ChunkId::Rgba => {
                match rgba_chunk {
                    Some(first) => {
                        return Err(Error::MultipleRgbaChunks { chunks: [first, chunk] });
                    },
                    None => {
                        rgba_chunk = Some(chunk);
                    },
                }
            },
            _ => {},
        }
    }
}

/// Reads one model and hands it over: the extent from the content of the
/// `SIZE` chunk, the voxels from that of the `XYZI` chunk.
#[verifier::loop_isolation(false)]
fn read_model<B: VoxBuffer>(
    reader: ByteReader,
    size_chunk: &Chunk,
    xyzi_chunk: &Chunk,
    buffer: &mut B,
) -> (r: Result<(), Error>)
    ensures
        delivered(
            *old(buffer),
            *final(buffer),
            model_trace(reader@, size_chunk@, xyzi_chunk@).0,
        ),
        match model_trace(reader@, size_chunk@, xyzi_chunk@).1 {
            None => r is Ok,
            Some(e) => r matches Err(got) && got@ == e,
        },
{
    let ghost bytes = reader@;
    let ghost start = *buffer;
    let mut content = match size_chunk.content(reader) {
        Ok(content) => content,
        Err(e) => {
            return Err(e);
        },
    };
    let model_size = match Size::read(&mut content) {
        Ok(size) => size,
        Err(e) => {
            return Err(e);
        },
    };
    buffer.set_model_size(model_size);
    let ghost begun = seq![Event::ModelSize(model_size)];
    proof {
        delivered_one_more(start, start, *buffer, Seq::empty(), Event::ModelSize(model_size));
        assert(Seq::<Event>::empty().push(Event::ModelSize(model_size)) =~= begun);
    }
    let mut content = match xyzi_chunk.content(reader) {
        Ok(content) => content,
        Err(e) => {
            return Err(e);
        },
    };
    let ghost records = content_of(bytes, xyzi_chunk@);
    let ghost opened = content;
    let num_voxels = match read_u32(&mut content) {
        Ok(n) => n,
        Err(e) => {
            return Err(Error::Io(e));
        },
    };
    proof {
        remaining_advanced(opened, content, 4);
    }
    let ghost body = records.skip(4);
    let mut i: u32 = 0;
    while i < num_voxels
        invariant
            i <= num_voxels,
            4 * i <= body.len(),
            remaining(content) == body.skip(4 * i),
            buffer.has_model(),
            delivered(start, *buffer, begun + voxel_events(body, i as nat)),
        decreases num_voxels - i,
    {
        let ghost before = content;
        let ghost made = begun + voxel_events(body, i as nat);
        let ghost earlier = *buffer;
        let voxel = match Voxel::read(&mut content) {
            Ok(voxel) => voxel,
            Err(e) => {
                assert((records.len() - 4) / 4 == i);
                return Err(e);
            },
        };
        buffer.set_voxel(voxel);
        proof {
            remaining_advanced(before, content, 4);
            assert(body.skip(4 * i).skip(4) =~= body.skip(4 * (i + 1)));
            delivered_one_more(start, earlier, *buffer, made, Event::Voxel(voxel));
            assert(made.push(Event::Voxel(voxel)) =~= begun + voxel_events(body, (i + 1) as nat));
        }
        i = i + 1;
    }
    assert((records.len() - 4) / 4 >= num_voxels);
    Ok(())
}

/// Reads the models one by one and hands them over.
#[verifier::loop_isolation(false)]
fn read_models<B: VoxBuffer>(
    reader: ByteReader,
    size_chunks: &Vec<Chunk>,
    xyzi_chunks: &Vec<Chunk>,
    buffer: &mut B,
) -> (r: Result<(), Error>)
    requires
        size_chunks@.len() == xyzi_chunks@.len(),
    ensures
        delivered(
            *old(buffer),
            *final(buffer),
            models_trace(
                reader@,
                chunk_views(size_chunks@),
                chunk_views(xyzi_chunks@),
                size_chunks@.len(),
            ).0,
        ),
        match models_trace(
            reader@,
            chunk_views(size_chunks@),
            chunk_views(xyzi_chunks@),
            size_chunks@.len(),
        ).1 {
            None => r is Ok,
            Some(e) => r matches Err(got) && got@ == e,
        },
{
    let ghost bytes = reader@;
    let ghost start = *buffer;
    let ghost sizes = chunk_views(size_chunks@);
    let ghost xyzis = chunk_views(xyzi_chunks@);
    let num_models = size_chunks.len();
    let mut i: usize = 0;
    while i < num_models
        invariant
            i <= num_models,
            models_trace(bytes, sizes, xyzis, i as nat).1 is None,
            delivered(start, *buffer, models_trace(bytes, sizes, xyzis, i as nat).0),
        decreases num_models - i,
    {
        let ghost before = models_trace(bytes, sizes, xyzis, i as nat).0;
        let ghost model = model_trace(bytes, sizes[i as int], xyzis[i as int]);
        let ghost earlier = *buffer;
        let result = read_model(reader, &size_chunks[i], &xyzi_chunks[i], buffer);
        proof {
            delivered_more(start, earlier, *buffer, before, model.0);
            assert(models_trace(bytes, sizes, xyzis, (i + 1) as nat) == (before + model.0, model.1));
        }
        match result {
            Ok(()) => {},
            Err(e) => {
                proof {
                    models_trace_failed(bytes, sizes, xyzis, (i + 1) as nat, num_models as nat);
                }
                return Err(e);
            },
        }
        i = i + 1;
    }
    Ok(())
}

/// Hands the palette over: that of the `RGBA` chunk, where there is one,
/// and the built-in palette where there is none.
fn read_palette<B: VoxBuffer>(reader: ByteReader, rgba_chunk: Option<Chunk>, buffer: &mut B) -> (r:
    Result<(), Error>)
    ensures
        match palette_trace(
            reader@,
            match rgba_chunk {
                Some(chunk) => Some(chunk@),
                None => None,
            },
        ) {
            Ok(events) => r is Ok && delivered(*old(buffer), *final(buffer), events),
            Err(e) => (r matches Err(got) && got@ == e) && *final(buffer) == *old(buffer),
        },
{
    match rgba_chunk {
        Some(chunk) => {
            let mut content = match chunk.content(reader) {
                Ok(content) => content,
                Err(e) => {
                    return Err(e);
                },
            };
            let palette = match Palette::read(&mut content) {
                Ok(palette) => palette,
                Err(e) => {
                    return Err(e);
                },
            };
            let ghost colors = palette@;
            buffer.set_palette(palette);
            proof {
                delivered_one_more(
                    *old(buffer),
                    *old(buffer),
                    *buffer,
                    Seq::empty(),
                    Event::Palette(colors),
                );
                assert(Seq::<Event>::empty().push(Event::Palette(colors)) =~= seq![
                    Event::Palette(colors),
                ]);
            }
            Ok(())
        },
        None => {
            let palette = Palette::default();
            let ghost colors = palette@;
            buffer.set_palette(palette);
            proof {
                delivered_one_more(
                    *old(buffer),
                    *old(buffer),
                    *buffer,
                    Seq::empty(),
                    Event::Palette(colors),
                );
                assert(Seq::<Event>::empty().push(Event::Palette(colors)) =~= seq![
                    Event::Palette(colors),
                ]);
            }
            Ok(())
        },
    }
}

/// Reads the file that starts at the position of `reader` and hands what it
/// holds over to `buffer`, call by call: the version; the palette, which is
/// the built-in one where the file has none of its own; the number of
/// models; and each model with its voxels. The first failure ends the
/// reading; the calls before it stay made.
pub fn read_vox_into<B: VoxBuffer>(reader: ByteReader, buffer: &mut B) -> (r: Result<(), Error>)
    ensures
        delivered(*old(buffer), *final(buffer), decode(reader@, reader.position()).events),
        match decode(reader@, reader.position()).error {
            None => r is Ok,
            Some(e) => r matches Err(got) && got@ == e,
        },
{
    let ghost bytes = reader@;
    let ghost start = *buffer;
    let mut cursor = reader;
    let (main_chunk, version) = match read_main_chunk(&mut cursor) {
        Ok(found) => found,
        Err(e) => {
            return Err(e);
        },
    };
    buffer.set_version(version);
    let ghost head = seq![Event::Version(version)];
    let ghost versioned = *buffer;
    proof {
        delivered_one_more(start, start, versioned, Seq::empty(), Event::Version(version));
        assert(Seq::<Event>::empty().push(Event::Version(version)) =~= head);
    }
    let (size_chunks, xyzi_chunks, rgba_chunk) = match read_children(reader, &main_chunk) {
        Ok(found) => found,
        Err(e) => {
            return Err(e);
        },
    };
    let ghost buckets = Buckets {
        sizes: chunk_views(size_chunks@),
        xyzis: chunk_views(xyzi_chunks@),
        rgba: match rgba_chunk {
            Some(chunk) => Some(chunk@),
            None => None,
        },
    };
    // The palette goes first, so that the builder has it when the voxels arrive.
    match read_palette(reader, rgba_chunk, buffer) {
        Ok(()) => {},
        Err(e) => {
            return Err(e);
        },
    }
    let ghost palette = palette_trace(bytes, buckets.rgba)->Ok_0;
    let ghost colored = *buffer;
    proof {
        delivered_more(start, versioned, colored, head, palette);
    }
    if xyzi_chunks.len() != size_chunks.len() {
        return Err(Error::InvalidNumberOfSizeAndXyziChunks { size_chunks, xyzi_chunks });
    }
    let num_models = size_chunks.len();
    buffer.set_num_models(num_models);
    let ghost counted = *buffer;
    proof {
        delivered_one_more(start, colored, counted, head + palette, Event::NumModels(num_models));
        assert((head + palette).push(Event::NumModels(num_models)) =~= head + palette + seq![
            Event::NumModels(num_models),
        ]);
    }
    let ghost models = models_trace(bytes, buckets.sizes, buckets.xyzis, num_models as nat);
    let r = read_models(reader, &size_chunks, &xyzi_chunks, buffer);
    proof {
        delivered_more(
            start,
            counted,
            *buffer,
            head + palette + seq![Event::NumModels(num_models)],
            models.0,
        );
    }
    r
}

/// Once a model has failed, the models behind it are not read.
pub proof fn models_trace_failed(
    bytes: Seq<u8>,
    sizes: Seq<ChunkView>,
    xyzis: Seq<ChunkView>,
    failed: nat,
    upto: nat,
)
    requires
        failed <= upto,
        models_trace(bytes, sizes, xyzis, failed).1 is Some,
    ensures
        models_trace(bytes, sizes, xyzis, upto) == models_trace(bytes, sizes, xyzis, failed),
    decreases upto,
{
    if failed < upto {
        models_trace_failed(bytes, sizes, xyzis, failed, (upto - 1) as nat);
    }
}

/// Whether none of the calls begins a model or sets a voxel.
pub open spec fn no_model_events(events: Seq<Event>) -> bool {
    forall|i: int|
        0 <= i < events.len() ==> !(#[trigger] events[i] is ModelSize) && !(events[i] is Voxel)
}

/// Whether none of the calls sets a palette.
pub open spec fn no_palette_events(events: Seq<Event>) -> bool {
    forall|i: int| 0 <= i < events.len() ==> !(#[trigger] events[i] is Palette)
}

/// Where the number of `SIZE` chunks differs from that of `XYZI` chunks in a
/// file that is read up to there, reading fails for that reason, and no
/// model is begun and no voxel is set.
pub proof fn mismatch_hands_over_no_model(
    bytes: Seq<u8>,
    pos: u64,
    main: ChunkView,
    version: Version,
    buckets: Buckets,
)
    requires
        parse_preamble(bytes, pos) == Ok::<(ChunkView, Version), ErrorView>((main, version)),
        sort_children(
            bytes,
            main.children_offset() as u32,
            main.end() as u32,
            Buckets { sizes: Seq::empty(), xyzis: Seq::empty(), rgba: None },
        ) == Ok::<Buckets, ErrorView>(buckets),
        palette_trace(bytes, buckets.rgba) is Ok,
        buckets.sizes.len() != buckets.xyzis.len(),
    ensures
        decode(bytes, pos).error == Some(
            ErrorView::InvalidNumberOfSizeAndXyziChunks {
                size_chunks: buckets.sizes,
                xyzi_chunks: buckets.xyzis,
            },
        ),
        no_model_events(decode(bytes, pos).events),
{
}

/// The calls that hand over models set no palette.
pub proof fn models_set_no_palette(
    bytes: Seq<u8>,
    sizes: Seq<ChunkView>,
    xyzis: Seq<ChunkView>,
    upto: nat,
)
    ensures
        no_palette_events(models_trace(bytes, sizes, xyzis, upto).0),
    decreases upto,
{
    if upto > 0 {
        models_set_no_palette(bytes, sizes, xyzis, (upto - 1) as nat);
    }
}

/// The collector keeps its palette through calls that set none.
pub proof fn palette_is_kept(state: VoxDataView, events: Seq<Event>)
    requires
        no_palette_events(events),
    ensures
        collect_all(state, events).palette == state.palette,
    decreases events.len(),
{
    if events.len() > 0 {
        palette_is_kept(state, events.drop_last());
        assert(!(events[events.len() - 1] is Palette));
    }
}

/// The palette is handed over exactly once, as the second call, behind the
/// version and before the number of models and every model: the palette of
/// the `RGBA` chunk, or the built-in one where the file has no such chunk.
pub proof fn palette_is_handed_over_once(
    bytes: Seq<u8>,
    pos: u64,
    main: ChunkView,
    version: Version,
    buckets: Buckets,
)
    requires
        parse_preamble(bytes, pos) == Ok::<(ChunkView, Version), ErrorView>((main, version)),
        sort_children(
            bytes,
            main.children_offset() as u32,
            main.end() as u32,
            Buckets { sizes: Seq::empty(), xyzis: Seq::empty(), rgba: None },
        ) == Ok::<Buckets, ErrorView>(buckets),
        palette_trace(bytes, buckets.rgba) is Ok,
    ensures
        decode(bytes, pos).events.len() >= 2,
        decode(bytes, pos).events[0] == Event::Version(version),
        decode(bytes, pos).events[1] == Event::Palette(
            match buckets.rgba {
                Some(chunk) => palette_of(content_of(bytes, chunk)),
                None => default_colors(),
            },
        ),
        no_palette_events(decode(bytes, pos).events.skip(2)),
{
    let models = models_trace(bytes, buckets.sizes, buckets.xyzis, buckets.sizes.len());
    models_set_no_palette(bytes, buckets.sizes, buckets.xyzis, buckets.sizes.len());
    let head = seq![Event::Version(version)] + palette_trace(bytes, buckets.rgba)->Ok_0;
    let events = decode(bytes, pos).events;
    if buckets.xyzis.len() != buckets.sizes.len() {
        assert(events.skip(2) =~= Seq::empty());
    } else {
        let tail = seq![Event::NumModels(buckets.sizes.len() as usize)] + models.0;
        assert(events =~= head + tail);
        assert(events.skip(2) =~= tail);
        assert forall|i: int| 0 <= i < tail.len() implies !(#[trigger] tail[i] is Palette) by {
            if i > 0 {
                assert(tail[i] == models.0[i - 1]);
            }
        }
    }
}

/// A file without an `RGBA` chunk leaves the collector with the built-in
/// palette, whatever palette it held before.
pub proof fn without_palette_chunk(
    state: VoxDataView,
    bytes: Seq<u8>,
    pos: u64,
    main: ChunkView,
    version: Version,
    buckets: Buckets,
)
    requires
        parse_preamble(bytes, pos) == Ok::<(ChunkView, Version), ErrorView>((main, version)),
        sort_children(
            bytes,
            main.children_offset() as u32,
            main.end() as u32,
            Buckets { sizes: Seq::empty(), xyzis: Seq::empty(), rgba: None },
        ) == Ok::<Buckets, ErrorView>(buckets),
        buckets.rgba is None,
    ensures
        collect_all(state, decode(bytes, pos).events).palette == default_colors(),
{
    palette_is_handed_over_once(bytes, pos, main, version, buckets);
    let events = decode(bytes, pos).events;
    let head = seq![Event::Version(version), Event::Palette(default_colors())];
    assert(events =~= head + events.skip(2));
    collect_more(state, head, events.skip(2));
    collect_one_more(state, Seq::empty(), Event::Version(version));
    collect_one_more(
        state,
        seq![Event::Version(version)],
        Event::Palette(default_colors()),
    );
    assert(Seq::<Event>::empty().push(Event::Version(version)) =~= seq![Event::Version(version)]);
    assert(seq![Event::Version(version)].push(Event::Palette(default_colors())) =~= head);
    palette_is_kept(collect_all(state, head), events.skip(2));
}

/// Reads a file into a collector that keeps everything in memory.
pub fn from_reader(reader: ByteReader) -> (r: Result<VoxData, Error>)
    ensures
        match decode(reader@, reader.position()).error {
            None => r matches Ok(vox) && vox@ == collect_all(
                empty_models(Version(150)),
                decode(reader@, reader.position()).events,
            ),
            Some(e) => r matches Err(got) && got@ == e,
        },
{
    let mut buffer = VoxData::default();
    let ghost start = buffer;
    assert(start@.models =~= Seq::empty());
    match read_vox_into(reader, &mut buffer) {
        Ok(()) => {
            proof {
                collected(start, buffer, decode(reader@, reader.position()).events);
            }
            Ok(buffer)
        },
        Err(e) => Err(e),
    }
}

/// Reads the file that `slice` holds.
pub fn from_slice(slice: &[u8]) -> (r: Result<VoxData, Error>)
    ensures
        match decode(slice@, 0).error {
            None => r matches Ok(vox) && vox@ == collect_all(
                empty_models(Version(150)),
                decode(slice@, 0).events,
            ),
            Some(e) => r matches Err(got) && got@ == e,
        },
{
    from_reader(ByteReader::new(slice))
}

} // verus!
