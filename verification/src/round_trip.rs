//! What is written is what is read back.

use vstd::prelude::*;

use crate::chunk::{
    chunk_id_of, magic, parse_header, parse_preamble, tag_array, tag_of, ChunkId, ChunkView,
};
use crate::data::{empty_models, VoxDataView};
use crate::default_palette::default_colors;
use crate::endian::{u32_le, u32_le_bytes, u32_le_of_bytes};
use crate::reader::{
    collect, collect_all, collect_more, collect_one_more, content_of, decode, decode_sorted,
    model_trace, models_trace, palette_trace, sort_children, sorted_in, voxel_events, Buckets,
    Decoded, ErrorView, Event,
};
use crate::stream::window;
use crate::types::{
    palette_bytes, palette_round_trip, size_bytes, size_round_trip, voxel_bytes, voxel_of,
    voxel_round_trip, Color, ModelView, Size, Version, Voxel,
};
use crate::writer::{
    children_bytes, chunk_bytes, chunk_bytes_len, encodable, encode, file_header, model_bytes,
    models_bytes, pack_bytes, rgba_bytes, voxels_bytes, xyzi_content,
};

verus! {

/// The header of a chunk with a known tag, a content of `content_len` bytes
/// and children of `children_len` bytes, standing at `offset`.
pub open spec fn header_of(offset: int, id: ChunkId, content_len: nat, children_len: nat) -> ChunkView {
    ChunkView {
        offset: offset as u32,
        id,
        content_len: content_len as u32,
        children_len: children_len as u32,
    }
}

/// The parts of a chunk's bytes.
pub proof fn chunk_bytes_parts(id: ChunkId, content: Seq<u8>, children: Seq<u8>)
    ensures
        chunk_bytes(id, content, children).len() == 12 + content.len() + children.len(),
        chunk_bytes(id, content, children).subrange(0, 4) == tag_of(id)@,
        chunk_bytes(id, content, children).subrange(4, 8) == u32_le_bytes(content.len() as u32),
        chunk_bytes(id, content, children).subrange(8, 12) == u32_le_bytes(
            children.len() as u32,
        ),
        chunk_bytes(id, content, children).subrange(12, 12 + content.len() as int) == content,
        chunk_bytes(id, content, children).subrange(
            12 + content.len() as int,
            12 + content.len() as int + children.len() as int,
        ) == children,
{
    let whole = chunk_bytes(id, content, children);
    assert(whole.subrange(0, 4) =~= tag_of(id)@);
    assert(whole.subrange(4, 8) =~= u32_le_bytes(content.len() as u32));
    assert(whole.subrange(8, 12) =~= u32_le_bytes(children.len() as u32));
    assert(whole.subrange(12, 12 + content.len() as int) =~= content);
    assert(whole.subrange(
        12 + content.len() as int,
        12 + content.len() as int + children.len() as int,
    )
        =~= children);
}

/// A part of a part of a sequence is a part of the sequence.
pub proof fn part_of_part(bytes: Seq<u8>, from: int, to: int, a: int, b: int)
    requires
        0 <= from <= to <= bytes.len(),
        0 <= a <= b <= to - from,
    ensures
        bytes.subrange(from, to).subrange(a, b) == bytes.subrange(from + a, from + b),
{
    assert(bytes.subrange(from, to).subrange(a, b) =~= bytes.subrange(from + a, from + b));
}

/// The tag of a known identity stands for that identity.
pub proof fn known_tag_reads_back(id: ChunkId, tag: Seq<u8>)
    requires
        !(id is Unsupported),
        tag == tag_of(id)@,
    ensures
        chunk_id_of(tag_array(tag)) == id,
{
    assert(tag_array(tag) =~= tag_of(id));
}

/// Where the bytes of a chunk with a known tag stand in a stream, its
/// header is read as it was written, and its content is found behind it.
pub proof fn chunk_reads_back(
    bytes: Seq<u8>,
    offset: int,
    id: ChunkId,
    content: Seq<u8>,
    children: Seq<u8>,
)
    requires
        !(id is Unsupported),
        0 <= offset,
        offset + 12 + content.len() + children.len() <= bytes.len(),
        offset + 12 + content.len() + children.len() <= u32::MAX,
        bytes.subrange(offset, offset + 12 + content.len() + children.len()) == chunk_bytes(
            id,
            content,
            children,
        ),
    ensures
        parse_header(bytes, offset as u64) == Ok::<ChunkView, ErrorView>(
            header_of(offset, id, content.len(), children.len()),
        ),
        content_of(bytes, header_of(offset, id, content.len(), children.len())) == content,
{
    let end = offset + 12 + content.len() + children.len();
    chunk_bytes_parts(id, content, children);
    part_of_part(bytes, offset, end, 0, 4);
    part_of_part(bytes, offset, end, 4, 8);
    part_of_part(bytes, offset, end, 8, 12);
    part_of_part(bytes, offset, end, 12, 12 + content.len() as int);
    known_tag_reads_back(id, bytes.subrange(offset, offset + 4));
    u32_le_of_bytes(content.len() as u32);
    u32_le_of_bytes(children.len() as u32);
    let header = header_of(offset, id, content.len(), children.len());
    assert(header.fits());
    assert(content_of(bytes, header) == bytes.subrange(offset + 12, offset + 12 + content.len()));
}

/// The calls that hand over a model: it is begun, then its voxels are set
/// in order.
pub open spec fn model_events(model: ModelView) -> Seq<Event> {
    seq![Event::ModelSize(model.size)] + Seq::new(
        model.voxels.len(),
        |j: int| Event::Voxel(model.voxels[j]),
    )
}

/// The voxel records that are written are read back as the voxels.
pub proof fn voxels_read_back(voxels: Seq<Voxel>)
    ensures
        voxels_bytes(voxels).len() == 4 * voxels.len(),
        voxel_events(voxels_bytes(voxels), voxels.len()) == Seq::new(
            voxels.len(),
            |j: int| Event::Voxel(voxels[j]),
        ),
{
    let records = voxels_bytes(voxels);
    assert forall|j: int| 0 <= j < voxels.len() implies voxel_of(records.skip(4 * j))
        == voxels[j] by {
        let v = voxels[j];
        voxel_round_trip(v);
        let part = records.skip(4 * j);
        assert(part[0] == voxel_bytes(voxels[(4 * j) / 4])[(4 * j) % 4]);
        assert(part[1] == voxel_bytes(voxels[(4 * j + 1) / 4])[(4 * j + 1) % 4]);
        assert(part[2] == voxel_bytes(voxels[(4 * j + 2) / 4])[(4 * j + 2) % 4]);
        assert(part[3] == voxel_bytes(voxels[(4 * j + 3) / 4])[(4 * j + 3) % 4]);
    }
    assert(voxel_events(records, voxels.len()) =~= Seq::new(
        voxels.len(),
        |j: int| Event::Voxel(voxels[j]),
    ));
}

/// Where the two chunks of a model stand in a stream, both headers are read
/// as they were written, and reading the model hands over its extent and
/// its voxels.
pub proof fn model_reads_back(bytes: Seq<u8>, offset: int, model: ModelView)
    requires
        0 <= offset,
        offset + model_bytes(model).len() <= bytes.len(),
        offset + model_bytes(model).len() <= u32::MAX,
        bytes.subrange(offset, offset + model_bytes(model).len()) == model_bytes(model),
    ensures
        model_bytes(model).len() == 40 + 4 * model.voxels.len(),
        parse_header(bytes, offset as u64) == Ok::<ChunkView, ErrorView>(
            header_of(offset, ChunkId::Size, 12, 0),
        ),
        parse_header(bytes, (offset + 24) as u64) == Ok::<ChunkView, ErrorView>(
            header_of(offset + 24, ChunkId::Xyzi, 4 + 4 * model.voxels.len(), 0),
        ),
        model_trace(
            bytes,
            header_of(offset, ChunkId::Size, 12, 0),
            header_of(offset + 24, ChunkId::Xyzi, 4 + 4 * model.voxels.len(), 0),
        ) == (model_events(model), None::<ErrorView>),
{
    let extent = size_bytes(model.size);
    let records = xyzi_content(model.voxels);
    let first = chunk_bytes(ChunkId::Size, extent, Seq::empty());
    let second = chunk_bytes(ChunkId::Xyzi, records, Seq::empty());
    let count = model.voxels.len() as int;
    size_round_trip(model.size);
    voxels_read_back(model.voxels);
    chunk_bytes_len(ChunkId::Size, extent, Seq::empty());
    chunk_bytes_len(ChunkId::Xyzi, records, Seq::empty());
    let end = offset + model_bytes(model).len();
    part_of_part(bytes, offset, end, 0, 24);
    part_of_part(bytes, offset, end, 24, 40 + 4 * count);
    assert(model_bytes(model).subrange(0, 24) =~= first);
    assert(model_bytes(model).subrange(24, 40 + 4 * count) =~= second);
    chunk_reads_back(bytes, offset, ChunkId::Size, extent, Seq::empty());
    chunk_reads_back(bytes, offset + 24, ChunkId::Xyzi, records, Seq::empty());
    u32_le_of_bytes(count as u32);
    assert(records.take(4) =~= u32_le_bytes(count as u32));
    assert(u32_le(records) == u32_le(u32_le_bytes(count as u32)));
    assert(records.skip(4) =~= voxels_bytes(model.voxels));
}

/// Walking over the two chunks of a model puts both into their buckets.
pub proof fn model_is_sorted(
    bytes: Seq<u8>,
    offset: int,
    end: int,
    model: ModelView,
    buckets: Buckets,
)
    requires
        0 <= offset,
        offset + model_bytes(model).len() <= end <= u32::MAX,
        end <= bytes.len(),
        bytes.subrange(offset, offset + model_bytes(model).len()) == model_bytes(model),
    ensures
        sort_children(bytes, offset as u32, end as u32, buckets) == sort_children(
            bytes,
            (offset + model_bytes(model).len()) as u32,
            end as u32,
            Buckets {
                sizes: buckets.sizes.push(header_of(offset, ChunkId::Size, 12, 0)),
                xyzis: buckets.xyzis.push(
                    header_of(offset + 24, ChunkId::Xyzi, 4 + 4 * model.voxels.len(), 0),
                ),
                rgba: buckets.rgba,
            },
        ),
{
    model_reads_back(bytes, offset, model);
    let first = header_of(offset, ChunkId::Size, 12, 0);
    let second = header_of(offset + 24, ChunkId::Xyzi, 4 + 4 * model.voxels.len(), 0);
    let between = Buckets { sizes: buckets.sizes.push(first), ..buckets };
    assert(sorted_in(buckets, first) == Ok::<Buckets, ErrorView>(between));
    assert(sort_children(bytes, offset as u32, end as u32, buckets) == sort_children(
        bytes,
        (offset + 24) as u32,
        end as u32,
        between,
    ));
}

/// Where the chunks of the model `at` start in the file of `models`.
pub open spec fn model_offset(models: Seq<ModelView>, at: nat) -> int {
    20 + pack_bytes(models).len() as int + models_bytes(models, at).len() as int
}

/// The header of the `SIZE` chunk of the model `at`, as it stands in the
/// file.
pub open spec fn size_chunk(models: Seq<ModelView>, at: int) -> ChunkView {
    header_of(model_offset(models, at as nat), ChunkId::Size, 12, 0)
}

/// The header of the `XYZI` chunk of the model `at`, as it stands in the
/// file.
pub open spec fn xyzi_chunk(models: Seq<ModelView>, at: int) -> ChunkView {
    header_of(
        model_offset(models, at as nat) + 24,
        ChunkId::Xyzi,
        4 + 4 * models[at].voxels.len(),
        0,
    )
}

/// The headers of the `SIZE` chunks of the first `upto` models.
pub open spec fn size_chunks(models: Seq<ModelView>, upto: nat) -> Seq<ChunkView> {
    Seq::new(upto, |i: int| size_chunk(models, i))
}

/// The headers of the `XYZI` chunks of the first `upto` models.
pub open spec fn xyzi_chunks(models: Seq<ModelView>, upto: nat) -> Seq<ChunkView> {
    Seq::new(upto, |i: int| xyzi_chunk(models, i))
}

/// The buckets after the first `upto` models are walked over.
pub open spec fn model_buckets(models: Seq<ModelView>, upto: nat) -> Buckets {
    Buckets { sizes: size_chunks(models, upto), xyzis: xyzi_chunks(models, upto), rgba: None }
}

/// The chunks of the model `at` stand in the chunks of all models behind
/// those of the models before it.
pub proof fn model_within_models(models: Seq<ModelView>, at: nat, upto: nat)
    requires
        at < upto,
    ensures
        models_bytes(models, at).len() + model_bytes(models[at as int]).len() == models_bytes(
            models,
            at + 1,
        ).len(),
        models_bytes(models, at + 1).len() <= models_bytes(models, upto).len(),
        models_bytes(models, upto).subrange(
            models_bytes(models, at).len() as int,
            models_bytes(models, at + 1).len() as int,
        ) == model_bytes(models[at as int]),
    decreases upto,
{
    let whole = models_bytes(models, upto);
    let before = models_bytes(models, (upto - 1) as nat);
    assert(whole == before + model_bytes(models[upto - 1]));
    if at + 1 == upto {
        assert(whole.subrange(before.len() as int, whole.len() as int) =~= model_bytes(
            models[at as int],
        ));
    } else {
        model_within_models(models, at, (upto - 1) as nat);
        assert(whole.subrange(
            models_bytes(models, at).len() as int,
            models_bytes(models, at + 1).len() as int,
        ) =~= before.subrange(
            models_bytes(models, at).len() as int,
            models_bytes(models, at + 1).len() as int,
        ));
    }
}

/// The parts of a file: the header, the root chunk, and in it the chunks of
/// the children.
pub proof fn file_parts(vox: VoxDataView)
    ensures
        encode(vox).len() == 20 + children_bytes(vox).len(),
        encode(vox).subrange(0, 8) == file_header(vox.version),
        encode(vox).subrange(8, 20 + children_bytes(vox).len() as int) == chunk_bytes(
            ChunkId::Main,
            Seq::empty(),
            children_bytes(vox),
        ),
        encode(vox).subrange(20, 20 + children_bytes(vox).len() as int) == children_bytes(vox),
        children_bytes(vox).len() == pack_bytes(vox.models).len() + models_bytes(
            vox.models,
            vox.models.len(),
        ).len() + rgba_bytes(vox.palette).len(),
{
    let children = children_bytes(vox);
    let main = chunk_bytes(ChunkId::Main, Seq::empty(), children);
    chunk_bytes_parts(ChunkId::Main, Seq::empty(), children);
    assert(encode(vox).subrange(0, 8) =~= file_header(vox.version));
    assert(encode(vox).subrange(8, 20 + children.len() as int) =~= main);
    part_of_part(encode(vox), 8, 20 + children.len() as int, 12, 12 + children.len() as int);
}

/// The chunks of the model `at` stand in the file where they are expected.
pub proof fn model_in_file(vox: VoxDataView, at: nat)
    requires
        at < vox.models.len(),
    ensures
        model_offset(vox.models, at) + model_bytes(vox.models[at as int]).len() == model_offset(
            vox.models,
            at + 1,
        ),
        model_offset(vox.models, at + 1) <= encode(vox).len(),
        encode(vox).subrange(model_offset(vox.models, at), model_offset(vox.models, at + 1))
            == model_bytes(vox.models[at as int]),
{
    let models = vox.models;
    let children = children_bytes(vox);
    let pack = pack_bytes(models);
    let grids = models_bytes(models, models.len());
    file_parts(vox);
    model_within_models(models, at, models.len());
    let from = pack.len() as int + models_bytes(models, at).len() as int;
    let to = pack.len() as int + models_bytes(models, at + 1).len() as int;
    part_of_part(encode(vox), 20, 20 + children.len() as int, from, to);
    assert(children.subrange(from, to) =~= grids.subrange(
        models_bytes(models, at).len() as int,
        models_bytes(models, at + 1).len() as int,
    ));
}

/// The buckets after one model more.
pub proof fn model_buckets_push(models: Seq<ModelView>, upto: nat)
    ensures
        model_buckets(models, upto + 1) == (Buckets {
            sizes: model_buckets(models, upto).sizes.push(size_chunk(models, upto as int)),
            xyzis: model_buckets(models, upto).xyzis.push(xyzi_chunk(models, upto as int)),
            rgba: None,
        }),
{
    assert(size_chunks(models, upto).push(size_chunk(models, upto as int)) =~= size_chunks(
        models,
        upto + 1,
    ));
    assert(xyzi_chunks(models, upto).push(xyzi_chunk(models, upto as int)) =~= xyzi_chunks(
        models,
        upto + 1,
    ));
}

/// Walking over the two chunks of the model `at` of a file puts them into
/// their buckets.
pub proof fn model_is_sorted_in_file(vox: VoxDataView, at: nat)
    requires
        at < vox.models.len(),
        encode(vox).len() <= u32::MAX,
    ensures
        sort_children(
            encode(vox),
            model_offset(vox.models, at) as u32,
            encode(vox).len() as u32,
            model_buckets(vox.models, at),
        ) == sort_children(
            encode(vox),
            model_offset(vox.models, at + 1) as u32,
            encode(vox).len() as u32,
            model_buckets(vox.models, at + 1),
        ),
{
    let models = vox.models;
    let bytes = encode(vox);
    let end = bytes.len() as int;
    let offset = model_offset(models, at);
    let model = models[at as int];
    let before = model_buckets(models, at);
    model_in_file(vox, at);
    model_buckets_push(models, at);
    model_is_sorted(bytes, offset, end, model, before);
}

/// Walking over the chunks of the models from `from` on puts each `SIZE`
/// and each `XYZI` chunk into its bucket.
pub proof fn models_are_sorted(vox: VoxDataView, from: nat)
    requires
        from <= vox.models.len(),
        encode(vox).len() <= u32::MAX,
    ensures
        sort_children(
            encode(vox),
            model_offset(vox.models, from) as u32,
            encode(vox).len() as u32,
            model_buckets(vox.models, from),
        ) == sort_children(
            encode(vox),
            model_offset(vox.models, vox.models.len()) as u32,
            encode(vox).len() as u32,
            model_buckets(vox.models, vox.models.len()),
        ),
    decreases vox.models.len() - from,
{
    if from < vox.models.len() {
        model_is_sorted_in_file(vox, from);
        models_are_sorted(vox, from + 1);
    }
}

/// The calls that hand over the first `upto` models.
pub open spec fn models_events(models: Seq<ModelView>, upto: nat) -> Seq<Event>
    decreases upto,
{
    if upto == 0 {
        Seq::empty()
    } else {
        models_events(models, (upto - 1) as nat) + model_events(models[upto - 1])
    }
}

/// Reading the first `upto` models of a file hands them over as they were
/// written.
pub proof fn models_read_back(vox: VoxDataView, upto: nat)
    requires
        upto <= vox.models.len(),
        encode(vox).len() <= u32::MAX,
    ensures
        models_trace(
            encode(vox),
            size_chunks(vox.models, vox.models.len()),
            xyzi_chunks(vox.models, vox.models.len()),
            upto,
        ) == (models_events(vox.models, upto), None::<ErrorView>),
    decreases upto,
{
    if upto > 0 {
        let at = (upto - 1) as nat;
        models_read_back(vox, at);
        model_in_file(vox, at);
        model_reads_back(encode(vox), model_offset(vox.models, at), vox.models[at as int]);
    }
}

/// The header of the `RGBA` chunk as it stands in the file, where the
/// palette is not the built-in one.
pub open spec fn rgba_chunk(vox: VoxDataView) -> Option<ChunkView> {
    if vox.palette != default_colors() {
        Some(header_of(model_offset(vox.models, vox.models.len()), ChunkId::Rgba, 1020, 0))
    } else {
        None
    }
}

/// The signature and the version stand at the start of a file.
pub proof fn header_in_file(vox: VoxDataView)
    ensures
        encode(vox).len() >= 20,
        window(encode(vox), 0, encode(vox).len() as int) == encode(vox),
        encode(vox).take(4) == magic(),
        u32_le(encode(vox).skip(4)) == vox.version.0,
{
    let bytes = encode(vox);
    file_parts(vox);
    assert(window(bytes, 0, bytes.len() as int) =~= bytes);
    assert(file_header(vox.version).subrange(0, 4) =~= magic());
    assert(file_header(vox.version).subrange(4, 8) =~= u32_le_bytes(vox.version.0));
    part_of_part(bytes, 0, 8, 0, 4);
    part_of_part(bytes, 0, 8, 4, 8);
    assert(bytes.take(4) =~= bytes.subrange(0, 4));
    u32_le_of_bytes(vox.version.0);
    let version = bytes.subrange(4, 8);
    assert(bytes.skip(4)[0] == version[0]);
    assert(bytes.skip(4)[1] == version[1]);
    assert(bytes.skip(4)[2] == version[2]);
    assert(bytes.skip(4)[3] == version[3]);
}

/// A file of another version than the supported one is refused when it is
/// read, before anything is handed over.
pub proof fn other_version_is_refused(vox: VoxDataView)
    requires
        vox.version != Version(150),
    ensures
        decode(encode(vox), 0) == (Decoded {
            events: Seq::empty(),
            error: Some(ErrorView::UnsupportedFileVersion { version: vox.version }),
        }),
{
    header_in_file(vox);
}

/// The start of a file of the supported version is read as it was written.
pub proof fn preamble_reads_back(vox: VoxDataView)
    requires
        vox.version == Version(150),
        encode(vox).len() <= u32::MAX,
    ensures
        parse_preamble(encode(vox), 0) == Ok::<(ChunkView, Version), ErrorView>(
            (header_of(8, ChunkId::Main, 0, children_bytes(vox).len()), vox.version),
        ),
{
    let bytes = encode(vox);
    let children = children_bytes(vox);
    file_parts(vox);
    header_in_file(vox);
    chunk_reads_back(bytes, 8, ChunkId::Main, Seq::empty(), children);
}

/// The `PACK` chunk stands at the start of the children, where there is
/// one.
pub proof fn pack_in_file(vox: VoxDataView)
    requires
        vox.models.len() > 1,
    ensures
        encode(vox).len() >= 36,
        encode(vox).subrange(20, 36) == chunk_bytes(
            ChunkId::Pack,
            u32_le_bytes(vox.models.len() as u32),
            Seq::empty(),
        ),
{
    let count = u32_le_bytes(vox.models.len() as u32);
    let pack = chunk_bytes(ChunkId::Pack, count, Seq::empty());
    file_parts(vox);
    chunk_bytes_len(ChunkId::Pack, count, Seq::empty());
    assert(pack_bytes(vox.models) == pack);
    assert(children_bytes(vox).subrange(0, 16) =~= pack);
    part_of_part(encode(vox), 20, 20 + children_bytes(vox).len() as int, 0, 16);
}

/// Walking over a chunk that is neither `SIZE`, `XYZI` nor `RGBA` leaves
/// the buckets as they are.
pub proof fn other_chunk_is_passed_over(
    bytes: Seq<u8>,
    offset: int,
    end: int,
    id: ChunkId,
    content: Seq<u8>,
    buckets: Buckets,
)
    requires
        !(id is Unsupported),
        !(id is Size),
        !(id is Xyzi),
        !(id is Rgba),
        0 <= offset,
        offset + 12 + content.len() <= end <= u32::MAX,
        end <= bytes.len(),
        bytes.subrange(offset, offset + 12 + content.len()) == chunk_bytes(
            id,
            content,
            Seq::empty(),
        ),
    ensures
        sort_children(bytes, offset as u32, end as u32, buckets) == sort_children(
            bytes,
            (offset + 12 + content.len()) as u32,
            end as u32,
            buckets,
        ),
{
    chunk_reads_back(bytes, offset, id, content, Seq::empty());
    let header = header_of(offset, id, content.len(), 0);
    assert(sorted_in(buckets, header) == Ok::<Buckets, ErrorView>(buckets));
}

/// Walking over the `PACK` chunk, where there is one, leaves the buckets
/// empty.
pub proof fn pack_is_passed_over(vox: VoxDataView)
    requires
        encode(vox).len() <= u32::MAX,
    ensures
        sort_children(
            encode(vox),
            20,
            encode(vox).len() as u32,
            Buckets { sizes: Seq::empty(), xyzis: Seq::empty(), rgba: None },
        ) == sort_children(
            encode(vox),
            model_offset(vox.models, 0) as u32,
            encode(vox).len() as u32,
            model_buckets(vox.models, 0),
        ),
{
    let bytes = encode(vox);
    let models = vox.models;
    let empty = Buckets { sizes: Seq::empty(), xyzis: Seq::empty(), rgba: None };
    assert(model_buckets(models, 0).sizes =~= empty.sizes);
    assert(model_buckets(models, 0).xyzis =~= empty.xyzis);
    assert(model_buckets(models, 0) == empty);
    assert(models_bytes(models, 0).len() == 0);
    if models.len() > 1 {
        let count = u32_le_bytes(models.len() as u32);
        pack_in_file(vox);
        chunk_bytes_len(ChunkId::Pack, count, Seq::empty());
        assert(model_offset(models, 0) == 36);
        other_chunk_is_passed_over(bytes, 20, bytes.len() as int, ChunkId::Pack, count, empty);
    } else {
        assert(model_offset(models, 0) == 20);
    }
}

/// Walking over the `RGBA` chunk, where there is one, puts it into its
/// bucket and ends the walk.
pub proof fn rgba_is_sorted(vox: VoxDataView)
    requires
        vox.palette.len() == 256,
        encode(vox).len() <= u32::MAX,
    ensures
        sort_children(
            encode(vox),
            model_offset(vox.models, vox.models.len()) as u32,
            encode(vox).len() as u32,
            model_buckets(vox.models, vox.models.len()),
        ) == Ok::<Buckets, ErrorView>(
            Buckets { rgba: rgba_chunk(vox), ..model_buckets(vox.models, vox.models.len()) },
        ),
        palette_trace(encode(vox), rgba_chunk(vox)) == Ok::<Seq<Event>, ErrorView>(
            palette_events(vox.palette),
        ),
{
    let bytes = encode(vox);
    let models = vox.models;
    let offset = model_offset(models, models.len());
    file_parts(vox);
    palette_round_trip(vox.palette);
    if vox.palette == default_colors() {
        assert(vox.palette.update(0, default_colors()[0]) =~= default_colors());
    }
    if vox.palette != default_colors() {
        let colors = palette_bytes(vox.palette);
        let chunk = chunk_bytes(ChunkId::Rgba, colors, Seq::empty());
        chunk_bytes_len(ChunkId::Rgba, colors, Seq::empty());
        part_of_part(
            bytes,
            20,
            20 + children_bytes(vox).len() as int,
            offset - 20,
            offset - 20 + 1032,
        );
        assert(children_bytes(vox).subrange(offset - 20, offset - 20 + 1032) =~= chunk);
        chunk_reads_back(bytes, offset, ChunkId::Rgba, colors, Seq::empty());
        let header = header_of(offset, ChunkId::Rgba, 1020, 0);
        let before = model_buckets(models, models.len());
        let after = Buckets { rgba: Some(header), ..before };
        assert(sorted_in(before, header) == Ok::<Buckets, ErrorView>(after));
        assert(sort_children(bytes, (offset + 1032) as u32, bytes.len() as u32, after) == Ok::<
            Buckets,
            ErrorView,
        >(after));
    }
}

/// The call that hands over the palette of a file: the colours as they
/// were written, but for slot 0, which is not written. For a file of the
/// built-in palette, which is not written at all, that is the built-in
/// palette.
pub open spec fn palette_events(palette: Seq<Color>) -> Seq<Event> {
    seq![Event::Palette(palette.update(0, default_colors()[0]))]
}

/// The calls that reading the file of `vox` amounts to.
pub open spec fn file_events(vox: VoxDataView) -> Seq<Event> {
    seq![Event::Version(vox.version)] + palette_events(vox.palette) + seq![
        Event::NumModels(vox.models.len() as usize),
    ] + models_events(vox.models, vox.models.len())
}

/// The children of the root chunk of a file are sorted into the buckets that
/// are expected.
pub proof fn children_are_sorted(vox: VoxDataView)
    requires
        vox.palette.len() == 256,
        encode(vox).len() <= u32::MAX,
    ensures
        sort_children(
            encode(vox),
            20,
            encode(vox).len() as u32,
            Buckets { sizes: Seq::empty(), xyzis: Seq::empty(), rgba: None },
        ) == Ok::<Buckets, ErrorView>(
            Buckets { rgba: rgba_chunk(vox), ..model_buckets(vox.models, vox.models.len()) },
        ),
{
    pack_is_passed_over(vox);
    models_are_sorted(vox, 0);
    rgba_is_sorted(vox);
}

/// Reading the file of `vox` does not fail, and makes the calls that are
/// expected.
pub proof fn file_reads_back(vox: VoxDataView)
    requires
        vox.version == Version(150),
        vox.palette.len() == 256,
        encode(vox).len() <= u32::MAX,
    ensures
        decode(encode(vox), 0) == (Decoded { events: file_events(vox), error: None }),
{
    let bytes = encode(vox);
    let models = vox.models;
    let head = seq![Event::Version(vox.version)];
    let main = header_of(8, ChunkId::Main, 0, children_bytes(vox).len());
    let buckets = Buckets { rgba: rgba_chunk(vox), ..model_buckets(models, models.len()) };
    file_parts(vox);
    preamble_reads_back(vox);
    children_are_sorted(vox);
    assert(main.children_offset() == 20);
    assert(main.end() == bytes.len());
    assert(decode(bytes, 0) == decode_sorted(bytes, head, buckets));
    rgba_is_sorted(vox);
    models_read_back(vox, models.len());
    assert(buckets.sizes.len() == models.len());
    assert(buckets.xyzis.len() == models.len());
    assert(decode_sorted(bytes, head, buckets) == (Decoded {
        events: file_events(vox),
        error: None,
    }));
}

/// The calls that begin a model and set its first `upto` voxels.
pub open spec fn model_events_upto(model: ModelView, upto: nat) -> Seq<Event> {
    seq![Event::ModelSize(model.size)] + Seq::new(upto, |j: int| Event::Voxel(model.voxels[j]))
}

/// The collector after a model was begun and its first `upto` voxels were
/// set.
pub open spec fn model_collected_upto(
    state: VoxDataView,
    model: ModelView,
    upto: nat,
) -> VoxDataView {
    VoxDataView {
        models: state.models.push(
            ModelView { size: model.size, voxels: model.voxels.take(upto as int) },
        ),
        ..state
    }
}

/// Handing a model over to the collector, voxel by voxel.
pub proof fn model_is_collected_upto(
    state: VoxDataView,
    model: ModelView,
    upto: nat,
)
    requires
        upto <= model.voxels.len(),
    ensures
        collect_all(state, model_events_upto(model, upto)) == model_collected_upto(
            state,
            model,
            upto,
        ),
    decreases upto,
{
    if upto == 0 {
        collect_one_more(state, Seq::empty(), Event::ModelSize(model.size));
        assert(Seq::<Event>::empty().push(Event::ModelSize(model.size)) =~= model_events_upto(
            model,
            0,
        ));
        assert(model.voxels.take(0) =~= Seq::empty());
    } else {
        let before = (upto - 1) as nat;
        let voxel = model.voxels[before as int];
        model_is_collected_upto(state, model, before);
        collect_one_more(state, model_events_upto(model, before), Event::Voxel(voxel));
        assert(model_events_upto(model, before).push(Event::Voxel(voxel)) =~= model_events_upto(
            model,
            upto,
        ));
        let earlier = model_collected_upto(state, model, before);
        assert(model.voxels.take(before as int).push(voxel) =~= model.voxels.take(upto as int));
        assert(collect(earlier, Event::Voxel(voxel)).models =~= model_collected_upto(
            state,
            model,
            upto,
        ).models);
    }
}

/// Handing a model over to the collector adds the model.
pub proof fn model_is_collected(state: VoxDataView, model: ModelView)
    ensures
        collect_all(state, model_events(model)) == (VoxDataView {
            models: state.models.push(model),
            ..state
        }),
{
    model_is_collected_upto(state, model, model.voxels.len());
    assert(model.voxels.take(model.voxels.len() as int) =~= model.voxels);
    assert(model_events(model) =~= model_events_upto(model, model.voxels.len()));
}

/// Handing the first `upto` models over to the collector adds them in
/// order.
pub proof fn models_are_collected(
    state: VoxDataView,
    models: Seq<ModelView>,
    upto: nat,
)
    requires
        upto <= models.len(),
    ensures
        collect_all(state, models_events(models, upto)) == (VoxDataView {
            models: state.models + models.take(upto as int),
            ..state
        }),
    decreases upto,
{
    if upto == 0 {
        assert(state.models + models.take(0) =~= state.models);
    } else {
        let before = (upto - 1) as nat;
        let model = models[before as int];
        models_are_collected(state, models, before);
        collect_more(state, models_events(models, before), model_events(model));
        let earlier = VoxDataView { models: state.models + models.take(before as int), ..state };
        model_is_collected(earlier, model);
        assert((state.models + models.take(before as int)).push(model) =~= state.models
            + models.take(upto as int));
    }
}

/// The calls that come before the models leave an empty collector with the
/// version and the palette of the file.
pub proof fn head_is_collected(version: Version, palette: Seq<Color>, count: usize)
    requires
        palette.len() == 256,
    ensures
        collect_all(
            empty_models(Version(150)),
            seq![Event::Version(version)] + palette_events(palette) + seq![
                Event::NumModels(count),
            ],
        ) == (VoxDataView {
            palette: palette.update(0, default_colors()[0]),
            ..empty_models(version)
        }),
{
    let start = empty_models(Version(150));
    let head = seq![Event::Version(version)];
    let colors = palette_events(palette);
    let event = Event::Palette(palette.update(0, default_colors()[0]));
    collect_one_more(start, Seq::empty(), Event::Version(version));
    assert(Seq::<Event>::empty().push(Event::Version(version)) =~= head);
    assert(collect_all(start, head) == empty_models(version));
    collect_one_more(start, head, event);
    assert(head.push(event) =~= head + colors);
    collect_one_more(start, head + colors, Event::NumModels(count));
    assert((head + colors).push(Event::NumModels(count)) =~= head + colors + seq![
        Event::NumModels(count),
    ]);
}

/// What is written is what is read back. The file of a collector of the
/// supported version whose file fits is read without a failure, and a
/// collector that is filled from it holds the same version, the same
/// models, in the same order and with the same voxels, and the same colours
/// in the slots 1 to 255 of the palette. Slot 0 of the palette is not
/// written, and is read as that of the built-in palette. A file of another
/// version is written with that version, and refused when it is read.
pub proof fn round_trip(vox: VoxDataView)
    requires
        vox.version == Version(150),
        vox.palette.len() == 256,
        encodable(vox, 0),
    ensures
        decode(encode(vox), 0).error is None,
        collect_all(empty_models(Version(150)), decode(encode(vox), 0).events) == (VoxDataView {
            version: vox.version,
            models: vox.models,
            palette: vox.palette.update(0, default_colors()[0]),
        }),
{
    let start = empty_models(Version(150));
    let models = vox.models;
    let head = seq![Event::Version(vox.version)] + palette_events(vox.palette) + seq![
        Event::NumModels(models.len() as usize),
    ];
    let colored = VoxDataView { palette: vox.palette.update(0, default_colors()[0]), ..start };
    file_parts(vox);
    file_reads_back(vox);
    head_is_collected(vox.version, vox.palette, models.len() as usize);
    collect_more(start, head, models_events(models, models.len()));
    models_are_collected(colored, models, models.len());
    assert(colored.models + models.take(models.len() as int) =~= models);
}

} // verus!
