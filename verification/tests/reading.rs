use vox_format::chunk::{read_main_chunk, Chunk, ChunkId};
use vox_format::data::{VoxBuffer, VoxData};
use vox_format::reader::{from_reader, from_slice, read_vox_into, Error};
use vox_format::stream::{ByteReader, IoError};
use vox_format::types::{Color, ColorIndex, Model, Palette, Point, Size, Vector, Version, Voxel};

fn glider() -> Vec<Voxel> {
    vec![
        Voxel::new([0, 0, 1], 79),
        Voxel::new([1, 0, 0], 79),
        Voxel::new([2, 0, 0], 79),
        Voxel::new([2, 0, 1], 69),
        Voxel::new([2, 0, 2], 69),
    ]
}

fn glider2() -> Vec<Voxel> {
    vec![
        Voxel::new([0, 2, 0], 79),
        Voxel::new([1, 1, 0], 79),
        Voxel::new([2, 1, 0], 79),
        Voxel::new([1, 0, 0], 79),
        Voxel::new([0, 0, 0], 79),
    ]
}

fn le(n: u32) -> Vec<u8> {
    vec![n as u8, (n >> 8) as u8, (n >> 16) as u8, (n >> 24) as u8]
}

fn chunk(tag: &[u8; 4], content: &[u8], children: &[u8]) -> Vec<u8> {
    let mut bytes = tag.to_vec();
    bytes.extend(le(content.len() as u32));
    bytes.extend(le(children.len() as u32));
    bytes.extend_from_slice(content);
    bytes.extend_from_slice(children);
    bytes
}

fn size_chunk(x: u32, y: u32, z: u32) -> Vec<u8> {
    let mut content = le(x);
    content.extend(le(y));
    content.extend(le(z));
    chunk(b"SIZE", &content, &[])
}

fn xyzi_chunk(voxels: &[Voxel]) -> Vec<u8> {
    let mut content = le(voxels.len() as u32);
    for voxel in voxels {
        content.push(voxel.point.x as u8);
        content.push(voxel.point.y as u8);
        content.push(voxel.point.z as u8);
        content.push(voxel.color_index.0);
    }
    chunk(b"XYZI", &content, &[])
}

fn rgba_chunk(palette: &Palette) -> Vec<u8> {
    let mut content = vec![];
    for color in &palette.colors[1..] {
        content.extend_from_slice(&[color.r, color.g, color.b, color.a]);
    }
    chunk(b"RGBA", &content, &[])
}

fn file(version: u32, children: &[u8]) -> Vec<u8> {
    let mut bytes = b"VOX ".to_vec();
    bytes.extend(le(version));
    bytes.extend(chunk(b"MAIN", &[], children));
    bytes
}

fn no_models_file() -> Vec<u8> {
    file(150, &chunk(b"nTRN", &[1, 2, 3, 4, 5], &[]))
}

fn single_model_file() -> Vec<u8> {
    let mut children = size_chunk(3, 1, 3);
    children.extend(xyzi_chunk(&glider()));
    children.extend(chunk(b"LAYR", &[0; 7], &[]));
    file(150, &children)
}

fn multiple_models_file() -> Vec<u8> {
    let mut children = chunk(b"PACK", &le(2), &[]);
    children.extend(size_chunk(3, 3, 1));
    children.extend(xyzi_chunk(&glider2()));
    children.extend(size_chunk(3, 1, 3));
    children.extend(xyzi_chunk(&glider()));
    file(150, &children)
}

fn custom_palette() -> Palette {
    let mut palette = Palette::default();
    palette.colors[69] = Color::new(108, 0, 204, 255);
    palette
}

fn custom_palette_file() -> Vec<u8> {
    let mut children = size_chunk(3, 1, 3);
    children.extend(xyzi_chunk(&glider()));
    children.extend(rgba_chunk(&custom_palette()));
    file(150, &children)
}

fn assert_voxels(model: &Model, expected: &[Voxel]) {
    for expected_voxel in expected {
        let voxel = model.get_voxel(expected_voxel.point).map(|voxel| voxel.color_index);
        assert_eq!(
            voxel,
            Some(expected_voxel.color_index),
            "Expected right at {:?}",
            expected_voxel.point
        );
    }
}

#[test]
fn it_reads_files_without_models() {
    let vox = from_slice(&no_models_file()).unwrap();
    assert!(vox.models.is_empty());
}

#[test]
fn it_reads_a_single_model() {
    let vox = from_slice(&single_model_file()).unwrap();

    assert_eq!(vox.models.len(), 1);
    assert!(vox.palette.is_default());

    let model = &vox.models[0];
    assert_eq!(model.size, Vector::new(3, 1, 3));
    assert_voxels(model, &glider());
}

#[test]
fn it_reads_multiple_models() {
    let vox = from_slice(&multiple_models_file()).unwrap();

    assert_eq!(vox.models.len(), 2);

    let model2 = &vox.models[0];
    assert_eq!(model2.size, Vector::new(3, 3, 1));
    assert_voxels(model2, &glider2());

    let model1 = &vox.models[1];
    assert_eq!(model1.size, Vector::new(3, 1, 3));
    assert_voxels(model1, &glider());
}

#[test]
fn it_reads_a_custom_palette() {
    let vox = from_slice(&custom_palette_file()).unwrap();

    assert!(!vox.palette.is_default());
    assert_eq!(vox.palette.get(79.into()), Color::light_blue());
    assert_eq!(vox.palette.get(69.into()), Color::new(108, 0, 204, 255));
}

#[test]
fn color_indices_work_as_expected() {
    let vox = from_slice(&single_model_file()).unwrap();

    let color_index = vox.models.get(0).unwrap().voxels.first().unwrap().color_index;
    assert_eq!(vox.palette.get(color_index), Color::light_blue());
}

#[test]
fn a_single_model_keeps_its_voxels_in_file_order() {
    let vox = from_slice(&single_model_file()).unwrap();
    assert_eq!(vox.version, Version(150));
    assert_eq!(vox.models.len(), 1);
    assert_eq!(vox.models[0].size, Size::new(3, 1, 3));
    assert_eq!(vox.models[0].voxels, glider());
    let default = Palette::default();
    for voxel in &vox.models[0].voxels {
        assert_eq!(vox.palette.get(voxel.color_index), default.get(voxel.color_index));
    }
}

#[test]
fn two_models_do_not_mix_their_voxels() {
    let vox = from_slice(&multiple_models_file()).unwrap();
    assert_eq!(vox.models.len(), 2);
    assert_eq!(vox.models[0].voxels, glider2());
    assert_eq!(vox.models[1].voxels, glider());
}

#[test]
fn a_file_without_palette_chunk_has_the_default_palette() {
    let vox = from_slice(&multiple_models_file()).unwrap();
    assert!(vox.palette.is_default());
    assert_eq!(vox.palette.get(ColorIndex(0)), Color::new(0, 0, 0, 0));
}

#[test]
fn a_palette_chunk_fills_the_slots_from_one_on() {
    let mut palette = Palette::default();
    for i in 0..256 {
        palette.colors[i] = Color::new(i as u8, 1, 2, 3);
    }
    let mut children = rgba_chunk(&palette);
    children.extend(size_chunk(1, 1, 1));
    children.extend(xyzi_chunk(&[]));
    let vox = from_slice(&file(150, &children)).unwrap();
    assert_eq!(vox.palette.get(ColorIndex(0)), Color::new(0, 0, 0, 0));
    for i in 1..256 {
        assert_eq!(vox.palette.get(ColorIndex(i as u8)), Color::new(i as u8, 1, 2, 3));
    }
}

#[test]
fn a_wrong_signature_is_refused() {
    let mut bytes = single_model_file();
    bytes[3] = b'X';
    match from_slice(&bytes) {
        Err(Error::InvalidMagic { got }) => assert_eq!(&got, b"VOXX"),
        other => panic!("unexpected: {:?}", other),
    }
}

#[test]
fn an_unsupported_version_is_refused() {
    let bytes = file(200, &[]);
    match from_slice(&bytes) {
        Err(Error::UnsupportedFileVersion { version }) => assert_eq!(version, Version(200)),
        other => panic!("unexpected: {:?}", other),
    }
}

#[test]
fn a_root_chunk_that_is_not_main_is_refused() {
    let mut bytes = b"VOX ".to_vec();
    bytes.extend(le(150));
    bytes.extend(chunk(b"PACK", &le(1), &[]));
    match from_slice(&bytes) {
        Err(Error::ExpectedMainChunk { got }) => {
            assert_eq!(got.id(), ChunkId::Pack);
            assert_eq!(got.offset(), 8);
            assert_eq!(got.content_len(), 4);
        }
        other => panic!("unexpected: {:?}", other),
    }
}

#[test]
fn a_second_palette_chunk_is_refused() {
    let mut children = rgba_chunk(&custom_palette());
    children.extend(size_chunk(1, 1, 1));
    children.extend(rgba_chunk(&custom_palette()));
    match from_slice(&file(150, &children)) {
        Err(Error::MultipleRgbaChunks { chunks }) => {
            assert_eq!(chunks[0].offset(), 20);
            assert_eq!(chunks[1].offset(), 20 + 1032 + 24);
        }
        other => panic!("unexpected: {:?}", other),
    }
}

#[derive(Default)]
struct Recorder {
    calls: Vec<String>,
}

impl VoxBuffer for Recorder {
    fn set_version(&mut self, version: Version) {
        self.calls.push(format!("version {}", version.0));
    }

    fn set_num_models(&mut self, num_models: usize) {
        self.calls.push(format!("models {}", num_models));
    }

    fn set_model_size(&mut self, model_size: Size) {
        self.calls.push(format!("size {} {} {}", model_size.x, model_size.y, model_size.z));
    }

    fn set_voxel(&mut self, voxel: Voxel) {
        self.calls.push(format!("voxel {}", voxel.color_index.0));
    }

    fn set_palette(&mut self, palette: Palette) {
        if palette.is_default() {
            self.calls.push("palette default".to_string());
        } else {
            self.calls.push("palette".to_string());
        }
    }
}

#[test]
fn mismatched_chunk_counts_are_refused_before_any_model() {
    let mut children = size_chunk(3, 1, 3);
    children.extend(xyzi_chunk(&glider()));
    children.extend(size_chunk(3, 3, 1));
    children.extend(rgba_chunk(&custom_palette()));
    let bytes = file(150, &children);
    let mut recorder = Recorder::default();
    match read_vox_into(ByteReader::new(&bytes), &mut recorder) {
        Err(Error::InvalidNumberOfSizeAndXyziChunks { size_chunks, xyzi_chunks }) => {
            assert_eq!(size_chunks.len(), 2);
            assert_eq!(xyzi_chunks.len(), 1);
            assert_eq!(size_chunks[1].offset(), 20 + 24 + 36);
        }
        other => panic!("unexpected: {:?}", other),
    }
    assert_eq!(recorder.calls, vec!["version 150".to_string(), "palette".to_string()]);
}

#[test]
fn the_builder_is_called_in_order() {
    let bytes = custom_palette_file();
    let mut recorder = Recorder::default();
    read_vox_into(ByteReader::new(&bytes), &mut recorder).unwrap();
    assert_eq!(
        recorder.calls,
        vec![
            "version 150", "palette", "models 1", "size 3 1 3", "voxel 79", "voxel 79",
            "voxel 79", "voxel 69", "voxel 69",
        ]
    );
}

#[test]
fn a_truncated_voxel_list_fails_after_the_voxels_that_are_there() {
    let mut children = size_chunk(3, 1, 3);
    let mut content = le(5);
    content.extend_from_slice(&[0, 0, 1, 79, 1, 0, 0, 79, 2, 0]);
    children.extend(chunk(b"XYZI", &content, &[]));
    let bytes = file(150, &children);
    let mut recorder = Recorder::default();
    match read_vox_into(ByteReader::new(&bytes), &mut recorder) {
        Err(Error::Io(IoError::UnexpectedEof)) => {}
        other => panic!("unexpected: {:?}", other),
    }
    assert_eq!(
        recorder.calls,
        vec!["version 150", "palette default", "models 1", "size 3 1 3", "voxel 79", "voxel 79"]
    );
}

#[test]
fn a_truncated_file_fails_at_the_missing_header() {
    let mut bytes = single_model_file();
    bytes.truncate(20 + 24 + 5);
    match from_slice(&bytes) {
        Err(Error::Io(IoError::UnexpectedEof)) => {}
        other => panic!("unexpected: {:?}", other.map(|_| ())),
    }
}

#[test]
fn a_header_whose_lengths_overflow_is_refused() {
    let mut children = b"SIZE".to_vec();
    children.extend(le(u32::MAX));
    children.extend(le(7));
    let mut bytes = b"VOX ".to_vec();
    bytes.extend(le(150));
    bytes.extend(b"MAIN");
    bytes.extend(le(0));
    bytes.extend(le(100));
    bytes.extend(children);
    match from_slice(&bytes) {
        Err(Error::Overflow) => {}
        other => panic!("unexpected: {:?}", other.map(|_| ())),
    }
}

#[test]
fn the_main_chunk_is_read_with_its_version() {
    let bytes = single_model_file();
    let mut reader = ByteReader::new(&bytes);
    let (main, version): (Chunk, Version) = read_main_chunk(&mut reader).unwrap();
    assert_eq!(version, Version(150));
    assert_eq!(main.id(), ChunkId::Main);
    assert_eq!(main.offset(), 8);
    assert_eq!(main.content_offset(), 20);
    assert_eq!(main.children_offset(), 20);
    assert_eq!(main.content_len(), 0);
    assert_eq!(main.children_len() as usize, bytes.len() - 20);
    assert_eq!(main.len() as usize, bytes.len() - 8);
    assert!(!main.is_empty());
    assert_eq!(reader.stream_position(), 20);
}

#[test]
fn from_reader_reads_from_the_position_of_the_reader() {
    let mut bytes = vec![9u8; 5];
    bytes.extend(file(150, &[]));
    let mut reader = ByteReader::new(&bytes);
    assert!(from_reader(reader).is_err());
    reader.seek(vox_format::stream::SeekFrom::Start(5)).unwrap();
    // Offsets of chunks count from the start of the stream.
    let vox: VoxData = from_reader(reader).unwrap();
    assert!(vox.models.is_empty());
}

#[test]
fn points_hold_signed_coordinates() {
    let voxel = Voxel::new(Point::new(-1, -128, 127), ColorIndex(255));
    let bytes = file(150, &[size_chunk(1, 1, 1), xyzi_chunk(&[voxel])].concat());
    let vox = from_slice(&bytes).unwrap();
    assert_eq!(vox.models[0].voxels, vec![voxel]);
}

#[test]
fn a_child_that_runs_past_the_main_chunk_is_refused() {
    let mut bytes = b"VOX ".to_vec();
    bytes.extend(le(150));
    bytes.extend(b"MAIN");
    bytes.extend(le(0));
    bytes.extend(le(30));
    bytes.extend(size_chunk(1, 1, 1));
    bytes.extend(xyzi_chunk(&[]));
    match from_slice(&bytes) {
        Err(Error::Io(IoError::UnexpectedEof)) => {}
        other => panic!("unexpected: {:?}", other.map(|_| ())),
    }
}

#[test]
fn a_file_without_palette_chunk_hands_over_the_built_in_palette_once() {
    let bytes = multiple_models_file();
    let mut recorder = Recorder::default();
    read_vox_into(ByteReader::new(&bytes), &mut recorder).unwrap();
    assert_eq!(
        recorder.calls[..4],
        ["version 150", "palette default", "models 2", "size 3 3 1"]
    );
    assert_eq!(recorder.calls.iter().filter(|call| call.starts_with("palette")).count(), 1);

    let mut collector = VoxData::default();
    collector.palette = custom_palette();
    read_vox_into(ByteReader::new(&bytes), &mut collector).unwrap();
    assert!(collector.palette.is_default());

    let mut recorder = Recorder::default();
    read_vox_into(ByteReader::new(&no_models_file()), &mut recorder).unwrap();
    assert_eq!(recorder.calls, vec!["version 150", "palette default", "models 0"]);
}

#[test]
fn a_palette_chunk_behind_the_models_is_handed_over_before_them() {
    let mut children = size_chunk(3, 1, 3);
    children.extend(xyzi_chunk(&glider()));
    children.extend(rgba_chunk(&custom_palette()));
    let mut recorder = Recorder::default();
    read_vox_into(ByteReader::new(&file(150, &children)), &mut recorder).unwrap();
    assert_eq!(recorder.calls[..4], ["version 150", "palette", "models 1", "size 3 1 3"]);
    assert_eq!(recorder.calls.iter().filter(|call| call.starts_with("palette")).count(), 1);
}
