use vox_format::chunk::ChunkId;
use vox_format::reader::{from_slice, Error as ReadError};
use vox_format::stream::IoError;
use vox_format::tool::{copy_map_chunks, CopyError, CopyRule, StripChunks};
use vox_format::types::{Color, Palette};

fn le(n: u32) -> Vec<u8> {
    n.to_le_bytes().to_vec()
}

fn chunk(tag: &[u8; 4], content: &[u8], children: &[u8]) -> Vec<u8> {
    let mut bytes = tag.to_vec();
    bytes.extend(le(content.len() as u32));
    bytes.extend(le(children.len() as u32));
    bytes.extend_from_slice(content);
    bytes.extend_from_slice(children);
    bytes
}

fn file(children: &[Vec<u8>]) -> Vec<u8> {
    let mut bytes = b"VOX ".to_vec();
    bytes.extend(le(150));
    bytes.extend(chunk(b"MAIN", &[], &children.concat()));
    bytes
}

fn rgba(palette: &Palette) -> Vec<u8> {
    let mut content = vec![];
    for color in &palette.colors[1..] {
        content.extend_from_slice(&[color.r, color.g, color.b, color.a]);
    }
    chunk(b"RGBA", &content, &[])
}

fn sample() -> Vec<Vec<u8>> {
    vec![
        chunk(b"PACK", &le(1), &[]),
        chunk(b"SIZE", &[1, 0, 0, 0, 1, 0, 0, 0, 1, 0, 0, 0], &[]),
        chunk(b"XYZI", &[1, 0, 0, 0, 0, 0, 0, 79], &[]),
        chunk(b"nTRN", &[1, 2, 3], &[]),
        rgba(&Palette::default()),
        chunk(b"MATT", &[], &[]),
        chunk(b"zzzz", &[9; 5], &[]),
        chunk(b"LAYR", &[4], &[]),
    ]
}

#[test]
fn by_default_the_chunks_that_carry_data_are_kept() {
    let strip = StripChunks::default();
    for id in [ChunkId::Pack, ChunkId::Size, ChunkId::Xyzi, ChunkId::Rgba, ChunkId::Matt] {
        assert!(!strip.strip(id));
    }
    for id in [ChunkId::Main, ChunkId::Note, ChunkId::NTrn, ChunkId::Matl, ChunkId::Unsupported(*b"zzzz")] {
        assert!(strip.strip(id));
    }
    let parts = sample();
    let copy = copy_map_chunks(&file(&parts), &CopyRule::Strip(strip)).unwrap();
    let kept = vec![
        parts[0].clone(),
        parts[1].clone(),
        parts[2].clone(),
        parts[4].clone(),
        parts[5].clone(),
    ];
    assert_eq!(copy, file(&kept));
}

#[test]
fn listed_chunks_are_left_out_or_kept() {
    let parts = sample();
    let strip = StripChunks::Strip(vec![ChunkId::NTrn, ChunkId::Unsupported(*b"zzzz")]);
    assert!(strip.strip(ChunkId::NTrn));
    assert!(!strip.strip(ChunkId::Layr));
    let copy = copy_map_chunks(&file(&parts), &CopyRule::Strip(strip)).unwrap();
    let mut kept = parts.clone();
    kept.remove(6);
    kept.remove(3);
    assert_eq!(copy, file(&kept));

    let keep = StripChunks::Keep(vec![ChunkId::Layr]);
    assert!(!keep.strip(ChunkId::Layr));
    assert!(keep.strip(ChunkId::Size));
    let copy = copy_map_chunks(&file(&parts), &CopyRule::Strip(keep)).unwrap();
    assert_eq!(copy, file(&[parts[7].clone()]));

    let none = copy_map_chunks(&file(&parts), &CopyRule::Strip(StripChunks::Keep(vec![]))).unwrap();
    assert_eq!(none, file(&[]));
    let all = copy_map_chunks(&file(&parts), &CopyRule::Strip(StripChunks::Strip(vec![]))).unwrap();
    assert_eq!(all, file(&parts));
}

#[test]
fn a_palette_chunk_is_replaced() {
    let mut palette = Palette::default();
    palette.colors[5] = Color::new(1, 2, 3, 4);
    let parts = sample();
    let copy = copy_map_chunks(&file(&parts), &CopyRule::SetPalette(palette.clone())).unwrap();
    let mut expected = parts.clone();
    expected[4] = rgba(&palette);
    assert_eq!(copy, file(&expected));
    assert_eq!(from_slice(&copy).unwrap().palette.colors[5], Color::new(1, 2, 3, 4));
}

#[test]
fn a_file_without_palette_chunk_gets_none() {
    let parts = vec![sample()[1].clone(), sample()[2].clone()];
    let mut palette = Palette::default();
    palette.colors[5] = Color::new(1, 2, 3, 4);
    let copy = copy_map_chunks(&file(&parts), &CopyRule::SetPalette(palette)).unwrap();
    assert_eq!(copy, file(&parts));
}

#[test]
fn a_chunk_with_children_cannot_be_copied() {
    let parts = vec![sample()[1].clone(), chunk(b"nGRP", &[1], &chunk(b"nSHP", &[], &[]))];
    match copy_map_chunks(&file(&parts), &CopyRule::Strip(StripChunks::Strip(vec![]))) {
        Err(CopyError::HasChildren(found)) => {
            assert_eq!(found.id(), ChunkId::NGrp);
            assert_eq!(found.children_len(), 12);
        }
        other => panic!("unexpected: {:?}", other),
    }
    // It can be left out.
    let copy = copy_map_chunks(&file(&parts), &CopyRule::Strip(StripChunks::default())).unwrap();
    assert_eq!(copy, file(&parts[..1]));
}

#[test]
fn a_file_that_cannot_be_read_is_not_copied() {
    let rule = CopyRule::Strip(StripChunks::default());
    let mut bytes = file(&sample());
    bytes[0] = b'v';
    assert!(matches!(
        copy_map_chunks(&bytes, &rule),
        Err(CopyError::Read(ReadError::InvalidMagic { .. }))
    ));
    let bytes = file(&sample());
    assert!(matches!(
        copy_map_chunks(&bytes[..bytes.len() - 3], &rule),
        Err(CopyError::Read(ReadError::Io(IoError::UnexpectedEof)))
    ));
    let mut cut = b"VOX ".to_vec();
    cut.extend(le(150));
    cut.extend(b"MAIN");
    cut.extend(le(0));
    cut.extend(le(16));
    cut.extend(b"SIZE");
    cut.extend(le(12));
    cut.extend(le(0));
    cut.extend(le(1));
    assert!(matches!(
        copy_map_chunks(&cut, &CopyRule::Strip(StripChunks::Strip(vec![]))),
        Err(CopyError::Read(ReadError::Io(IoError::UnexpectedEof)))
    ));
}
