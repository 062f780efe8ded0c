use vox_format::chunk::{chunk_writer, ChunkId, ChunkWriter, ContentWriter};
use vox_format::data::VoxData;
use vox_format::reader::from_slice;
use vox_format::stream::{ByteWriter, IoError, SeekFrom, Write};
use vox_format::types::{Color, ColorIndex, Model, Palette, Size, Version, Voxel};
use vox_format::writer::{main_chunk_writer, to_vec, to_writer, write_file_header, Error};

fn le(n: u32) -> [u8; 4] {
    [n as u8, (n >> 8) as u8, (n >> 16) as u8, (n >> 24) as u8]
}

fn model(size: [u32; 3], voxels: Vec<Voxel>) -> Model {
    Model { size: Size::new(size[0], size[1], size[2]), voxels }
}

fn vox(models: Vec<Model>, palette: Palette) -> VoxData {
    VoxData { version: Version(150), models, palette }
}

fn glider() -> Vec<Voxel> {
    vec![
        Voxel::new([0, 0, 1], 79),
        Voxel::new([1, 0, 0], 79),
        Voxel::new([2, 0, 0], 79),
        Voxel::new([2, 0, 1], 69),
        Voxel::new([2, 0, 2], 69),
    ]
}

fn assert_same(back: &VoxData, models: &[Model], palette: &Palette) {
    assert_eq!(back.version, Version(150));
    assert_eq!(back.models.len(), models.len());
    for (a, b) in back.models.iter().zip(models) {
        assert_eq!(a.size, b.size);
        assert_eq!(a.voxels, b.voxels);
    }
    for i in 1..256 {
        assert_eq!(back.palette.colors[i], palette.colors[i]);
    }
    assert_eq!(back.palette.colors[0], Color::new(0, 0, 0, 0));
}

#[test]
fn no_models_are_written_as_an_empty_main_chunk() {
    let bytes = to_vec(&vox(vec![], Palette::default())).unwrap();
    let mut expected = b"VOX ".to_vec();
    expected.extend(le(150));
    expected.extend(b"MAIN");
    expected.extend(le(0));
    expected.extend(le(0));
    assert_eq!(bytes, expected);
    let back = from_slice(&bytes).unwrap();
    assert!(back.models.is_empty());
    assert!(back.palette.is_default());
}

#[test]
fn a_single_model_is_written_without_pack() {
    let voxels = vec![Voxel::new([1, -2, 3], 7)];
    let bytes = to_vec(&vox(vec![model([4, 5, 6], voxels)], Palette::default())).unwrap();
    let mut expected = b"VOX ".to_vec();
    expected.extend(le(150));
    expected.extend(b"MAIN");
    expected.extend(le(0));
    expected.extend(le(24 + 20));
    expected.extend(b"SIZE");
    expected.extend(le(12));
    expected.extend(le(0));
    expected.extend(le(4));
    expected.extend(le(5));
    expected.extend(le(6));
    expected.extend(b"XYZI");
    expected.extend(le(8));
    expected.extend(le(0));
    expected.extend(le(1));
    expected.extend([1u8, 0xfe, 3, 7]);
    assert_eq!(bytes, expected);
}

#[test]
fn several_models_are_written_with_their_number() {
    let models = vec![model([3, 1, 3], glider()), model([1, 1, 1], vec![]), model([2, 2, 2], glider())];
    let bytes = to_vec(&vox(models.clone(), Palette::default())).unwrap();
    assert_eq!(&bytes[20..24], b"PACK");
    assert_eq!(&bytes[24..28], &le(4));
    assert_eq!(&bytes[28..32], &le(0));
    assert_eq!(&bytes[32..36], &le(3));
    assert_eq!(&bytes[36..40], b"SIZE");
    let children_len = u32::from_le_bytes([bytes[16], bytes[17], bytes[18], bytes[19]]);
    assert_eq!(children_len as usize, bytes.len() - 20);
    let back = from_slice(&bytes).unwrap();
    assert_same(&back, &models, &Palette::default());
}

#[test]
fn a_palette_of_its_own_is_written_without_slot_zero() {
    let mut palette = Palette::default();
    palette.colors[0] = Color::new(9, 9, 9, 9);
    palette.colors[1] = Color::new(1, 2, 3, 4);
    palette.colors[255] = Color::new(5, 6, 7, 8);
    let models = vec![model([3, 1, 3], glider())];
    let bytes = to_vec(&vox(models.clone(), palette.clone())).unwrap();
    let at = 20 + 24 + 12 + 4 + 20;
    assert_eq!(&bytes[at..at + 4], b"RGBA");
    assert_eq!(&bytes[at + 4..at + 8], &le(1020));
    assert_eq!(&bytes[at + 12..at + 16], &[1, 2, 3, 4]);
    assert_eq!(&bytes[bytes.len() - 4..], &[5, 6, 7, 8]);
    assert_eq!(bytes.len(), at + 12 + 1020);
    let back = from_slice(&bytes).unwrap();
    assert_same(&back, &models, &palette);
    assert!(!back.palette.is_default());
}

#[test]
fn the_default_palette_is_not_written() {
    let bytes = to_vec(&vox(vec![model([3, 1, 3], glider())], Palette::default())).unwrap();
    assert_eq!(bytes.len(), 20 + 24 + 12 + 4 + 20);
    assert!(from_slice(&bytes).unwrap().palette.is_default());
}

#[test]
fn the_version_of_the_data_is_written() {
    let mut data = vox(vec![model([3, 1, 3], glider())], Palette::default());
    let bytes = to_vec(&data).unwrap();
    assert_eq!(&bytes[..4], b"VOX ");
    assert_eq!(&bytes[4..8], &le(150));
    assert_eq!(&bytes[8..12], b"MAIN");
    assert_eq!(from_slice(&bytes).unwrap().version, data.version);

    data.version = Version(0x0102_0304);
    let bytes = to_vec(&data).unwrap();
    assert_eq!(&bytes[..4], b"VOX ");
    assert_eq!(&bytes[4..8], &[4, 3, 2, 1]);
    assert_eq!(&bytes[8..12], b"MAIN");
    match from_slice(&bytes) {
        Err(vox_format::reader::Error::UnsupportedFileVersion { version }) => {
            assert_eq!(version, Version(0x0102_0304))
        }
        other => panic!("unexpected: {:?}", other.map(|_| ())),
    }
}

#[test]
fn writing_goes_on_from_the_position_of_the_stream() {
    let mut writer = ByteWriter::from_vec(vec![7u8; 40]);
    writer.seek(SeekFrom::Start(3)).unwrap();
    to_writer(&mut writer, &vox(vec![], Palette::default())).unwrap();
    assert_eq!(writer.stream_position(), 23);
    let bytes = writer.into_inner();
    assert_eq!(bytes.len(), 40);
    assert_eq!(&bytes[..3], &[7, 7, 7]);
    assert_eq!(&bytes[3..7], b"VOX ");
    assert_eq!(&bytes[11..15], b"MAIN");
    assert_eq!(&bytes[15..23], &[0u8; 8]);
    assert_eq!(&bytes[23..], &[7u8; 17][..]);
}

#[test]
fn the_file_header_holds_signature_and_version() {
    let mut writer = ByteWriter::new();
    write_file_header(&mut writer, Version(0x01020304)).unwrap();
    assert_eq!(writer.into_inner(), vec![b'V', b'O', b'X', b' ', 4, 3, 2, 1]);
}

#[test]
fn lengths_are_patched_into_the_headers() {
    let mut writer = ByteWriter::new();
    chunk_writer(&mut writer, ChunkId::Main, |main: &mut ChunkWriter| {
        assert_eq!(main.id(), ChunkId::Main);
        assert_eq!(main.offset(), 0);
        main.child_writer(ChunkId::Note, |note: &mut ChunkWriter| {
            assert_eq!(note.offset(), 12);
            note.write_content(b"Hello World")?;
            assert_eq!(note.content_len(), 11);
            Ok(())
        })?;
        assert_eq!(main.children_len(), 23);
        main.child_content_writer(ChunkId::Unsupported(*b"abcd"), |w: &mut ContentWriter| {
            w.write_all(&[1, 2, 3]).map_err(Error::Io)?;
            w.write_all(&[4, 5]).map_err(Error::Io)?;
            assert_eq!(w.len(), 5);
            Ok(())
        })?;
        assert_eq!(main.children_len(), 23 + 17);
        assert_eq!(main.content_len(), 0);
        Ok(())
    })
    .unwrap();
    let mut expected = b"MAIN".to_vec();
    expected.extend(le(0));
    expected.extend(le(40));
    expected.extend(b"NOTE");
    expected.extend(le(11));
    expected.extend(le(0));
    expected.extend(b"Hello World");
    expected.extend(b"abcd");
    expected.extend(le(5));
    expected.extend(le(0));
    expected.extend([1u8, 2, 3, 4, 5]);
    assert_eq!(writer.stream_position(), expected.len() as u64);
    assert_eq!(writer.into_inner(), expected);
}

#[test]
fn nested_children_add_up() {
    let mut writer = ByteWriter::new();
    main_chunk_writer(&mut writer, Version(150), |main: &mut ChunkWriter| {
        main.child_writer(ChunkId::NGrp, |group: &mut ChunkWriter| {
            group.child_content_writer(ChunkId::NShp, |w: &mut ContentWriter| {
                w.write_all(&[9; 4]).map_err(Error::Io)
            })?;
            group.child_content_writer(ChunkId::NShp, |w: &mut ContentWriter| {
                w.write_all(&[8; 2]).map_err(Error::Io)
            })
        })
    })
    .unwrap();
    let bytes = writer.into_inner();
    // MAIN: children are the group with its header and its two children.
    assert_eq!(&bytes[12..16], &le(0));
    assert_eq!(&bytes[16..20], &le(12 + 16 + 14));
    assert_eq!(&bytes[20..24], b"nGRP");
    assert_eq!(&bytes[24..28], &le(0));
    assert_eq!(&bytes[28..32], &le(16 + 14));
    assert_eq!(bytes.len(), 20 + 12 + 16 + 14);
}

#[test]
fn a_failing_callback_leaves_the_header_unpatched() {
    let mut writer = ByteWriter::new();
    let result = chunk_writer(&mut writer, ChunkId::Main, |main: &mut ChunkWriter| {
        main.write_content(&[1, 2, 3])?;
        Err(Error::Overflow)
    });
    assert!(matches!(result, Err(Error::Overflow)));
    let bytes = writer.into_inner();
    assert_eq!(&bytes[..4], b"MAIN");
    assert_eq!(&bytes[4..12], &[0u8; 8]);
    assert_eq!(&bytes[12..], &[1, 2, 3]);
}

#[test]
fn a_content_window_counts_what_was_written_up_to() {
    let mut writer = ByteWriter::from_vec(vec![0xaa; 4]);
    writer.seek(SeekFrom::End(0)).unwrap();
    chunk_writer(&mut writer, ChunkId::Pack, |pack: &mut ChunkWriter| {
        pack.content_writer(|w: &mut ContentWriter| {
            w.write_all(&[1, 2, 3, 4, 5, 6]).map_err(Error::Io)?;
            assert_eq!(w.seek(SeekFrom::Start(2)).unwrap(), 2);
            w.write_all(&[9]).map_err(Error::Io)?;
            assert_eq!(w.len(), 6);
            assert_eq!(w.seek(SeekFrom::Current(-1)).unwrap(), 2);
            assert_eq!(w.seek(SeekFrom::End(0)).unwrap(), 6);
            assert!(matches!(
                w.seek(SeekFrom::Start(u64::MAX)),
                Err(IoError::InvalidSeek(_))
            ));
            assert!(matches!(w.seek(SeekFrom::Current(-7)), Err(IoError::InvalidSeek(_))));
            assert_eq!(w.seek(SeekFrom::End(2)).unwrap(), 8);
            w.write_all(&[7]).map_err(Error::Io)?;
            assert_eq!(w.len(), 9);
            Ok(())
        })
    })
    .unwrap();
    let bytes = writer.into_inner();
    assert_eq!(&bytes[..4], &[0xaa; 4]);
    assert_eq!(&bytes[4..8], b"PACK");
    assert_eq!(&bytes[8..12], &le(9));
    assert_eq!(&bytes[12..16], &le(0));
    assert_eq!(&bytes[16..], &[1, 2, 9, 4, 5, 6, 0, 0, 7]);
}

#[test]
fn colour_indices_cover_the_whole_byte() {
    let voxels: Vec<Voxel> = (0..=255u8).map(|i| Voxel::new([i as i8, 0, 0], i)).collect();
    let models = vec![model([256, 1, 1], voxels)];
    let bytes = to_vec(&vox(models.clone(), Palette::default())).unwrap();
    let back = from_slice(&bytes).unwrap();
    assert_same(&back, &models, &Palette::default());
    assert_eq!(back.models[0].voxels[200].color_index, ColorIndex(200));
}

#[test]
fn a_stream_that_cannot_hold_the_header_refuses_the_file() {
    let mut writer = ByteWriter::from_vec(vec![1, 2, 3]);
    writer.seek(SeekFrom::Start(u64::MAX - 10)).unwrap();
    match to_writer(&mut writer, &vox(vec![], Palette::default())) {
        Err(Error::Io(IoError::Other)) => {}
        other => panic!("unexpected: {:?}", other),
    }
    assert_eq!(writer.into_inner(), vec![1, 2, 3]);
}

#[test]
fn a_stream_that_cannot_hold_a_chunk_header_refuses_the_chunk() {
    let mut writer = ByteWriter::new();
    writer.seek(SeekFrom::Start(u64::MAX - 11)).unwrap();
    let result = chunk_writer(&mut writer, ChunkId::Main, |_: &mut ChunkWriter| Ok(()));
    assert!(matches!(result, Err(Error::Io(IoError::Other))));
    assert_eq!(writer.stream_position(), u64::MAX - 11);
    assert!(writer.into_inner().is_empty());
}

#[test]
fn a_write_behind_the_largest_position_fails() {
    let mut writer = ByteWriter::from_vec(vec![5]);
    writer.seek(SeekFrom::Start(u64::MAX)).unwrap();
    assert_eq!(writer.write_all(&[1]), Err(IoError::Other));
    assert_eq!(writer.put(&[1, 2]), Err(IoError::Other));
    assert_eq!(writer.stream_position(), u64::MAX);
    assert_eq!(writer.seek(SeekFrom::Current(1)), Err(IoError::InvalidInput));
    assert_eq!(writer.seek(SeekFrom::End(-2)), Err(IoError::InvalidInput));
    assert_eq!(writer.seek(SeekFrom::End(-1)), Ok(0));
    assert_eq!(writer.into_inner(), vec![5]);
}
