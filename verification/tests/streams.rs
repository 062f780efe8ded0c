use vox_format::chunk::{read_chunk_at, seek_to, Chunk, ChunkId};
use vox_format::endian::{read_i32, read_u32, read_u8, write_u32};
use vox_format::reader::Error;
use vox_format::stream::{
    read_exact, write_bytes, ByteReader, ByteWriter, InvalidSeek, IoError, Read, SeekFrom, Write,
};

fn le(n: u32) -> [u8; 4] {
    [n as u8, (n >> 8) as u8, (n >> 16) as u8, (n >> 24) as u8]
}

fn chunk(tag: &[u8; 4], content: &[u8], children: &[u8]) -> Vec<u8> {
    let mut bytes = tag.to_vec();
    bytes.extend(le(content.len() as u32));
    bytes.extend(le(children.len() as u32));
    bytes.extend_from_slice(content);
    bytes.extend_from_slice(children);
    bytes
}

#[test]
fn a_reader_yields_its_bytes_in_order() {
    let data = [1u8, 2, 3, 4, 5];
    let mut reader = ByteReader::new(&data);
    assert_eq!(reader.read(2), vec![1, 2]);
    assert_eq!(reader.stream_position(), 2);
    assert_eq!(reader.read(10), vec![3, 4, 5]);
    assert_eq!(reader.read(10), Vec::<u8>::new());
    assert_eq!(reader.stream_position(), 5);
}

#[test]
fn an_exact_read_fails_when_too_little_is_left() {
    let data = [1u8, 2, 3];
    let mut reader = ByteReader::new(&data);
    assert_eq!(read_exact(&mut reader, 2), Ok(vec![1, 2]));
    assert_eq!(read_exact(&mut reader, 2), Err(IoError::UnexpectedEof));
    assert_eq!(reader.stream_position(), 3);
    assert_eq!(read_exact(&mut reader, 0), Ok(vec![]));
}

#[test]
fn a_reader_seeks_from_all_three_places() {
    let data = [0u8; 10];
    let mut reader = ByteReader::new(&data);
    assert_eq!(reader.seek(SeekFrom::Start(4)), Ok(4));
    assert_eq!(reader.seek(SeekFrom::Current(-3)), Ok(1));
    assert_eq!(reader.seek(SeekFrom::End(-2)), Ok(8));
    assert_eq!(reader.seek(SeekFrom::End(5)), Ok(15));
    assert_eq!(reader.read(1), Vec::<u8>::new());
    assert_eq!(reader.seek(SeekFrom::Current(-16)), Err(IoError::InvalidInput));
    assert_eq!(reader.stream_position(), 15);
    assert_eq!(reader.seek(SeekFrom::Start(u64::MAX)), Ok(u64::MAX));
    assert_eq!(reader.seek(SeekFrom::Current(1)), Err(IoError::InvalidInput));
}

#[test]
fn integers_are_little_endian() {
    let data = [0x78u8, 0x56, 0x34, 0x12, 0xff, 0xff, 0xff, 0xff, 0xfe, 0xff, 0xff, 0x7f, 9];
    let mut reader = ByteReader::new(&data);
    assert_eq!(read_u32(&mut reader), Ok(0x12345678));
    assert_eq!(read_i32(&mut reader), Ok(-1));
    assert_eq!(read_i32(&mut reader), Ok(0x7ffffffe));
    assert_eq!(read_u8(&mut reader), Ok(9));
    assert_eq!(read_u8(&mut reader), Err(IoError::UnexpectedEof));
    let mut writer = ByteWriter::new();
    write_u32(&mut writer, 0x12345678).unwrap();
    write_u32(&mut writer, 1).unwrap();
    assert_eq!(writer.into_inner(), vec![0x78, 0x56, 0x34, 0x12, 1, 0, 0, 0]);
}

#[test]
fn a_writer_overwrites_and_extends() {
    let mut writer = ByteWriter::from_vec(vec![1, 2, 3, 4]);
    writer.seek(SeekFrom::Start(2)).unwrap();
    writer.write_all(&[9, 8, 7]).unwrap();
    assert_eq!(writer.stream_position(), 5);
    writer.seek(SeekFrom::Start(7)).unwrap();
    write_bytes(&mut writer, &[6]).unwrap();
    writer.put(&[5]).unwrap();
    assert_eq!(writer.into_inner(), vec![1, 2, 9, 8, 7, 0, 0, 6, 5]);
}

#[test]
fn an_empty_write_behind_the_end_fills_the_gap() {
    let mut writer = ByteWriter::new();
    writer.seek(SeekFrom::Start(3)).unwrap();
    writer.write_all(&[]).unwrap();
    assert_eq!(writer.into_inner(), vec![0, 0, 0]);
}

#[test]
fn take_leaves_an_empty_stream() {
    let mut writer = ByteWriter::from_vec(vec![1, 2]);
    writer.seek(SeekFrom::End(0)).unwrap();
    let taken = writer.take();
    assert_eq!(taken.stream_position(), 2);
    assert_eq!(taken.into_inner(), vec![1, 2]);
    assert_eq!(writer.stream_position(), 0);
    assert_eq!(writer.into_inner(), Vec::<u8>::new());
}

#[test]
fn seeks_are_resolved_against_the_window() {
    assert_eq!(seek_to(15, 10, 20, SeekFrom::Start(3)), Ok(13));
    assert_eq!(seek_to(15, 10, 20, SeekFrom::Current(-5)), Ok(10));
    assert_eq!(seek_to(15, 10, 20, SeekFrom::Current(-6)), Ok(9));
    assert_eq!(seek_to(15, 10, 20, SeekFrom::End(-20)), Ok(0));
    assert_eq!(seek_to(15, 10, 20, SeekFrom::End(7)), Ok(27));
    let failed = |pos| Err(IoError::InvalidSeek(InvalidSeek { current: 15, start: 10, end: 20, pos }));
    assert_eq!(seek_to(15, 10, 20, SeekFrom::End(-21)), failed(SeekFrom::End(-21)));
    assert_eq!(seek_to(15, 10, 20, SeekFrom::Start(u64::MAX)), failed(SeekFrom::Start(u64::MAX)));
    assert_eq!(
        seek_to(15, 10, 20, SeekFrom::Current(i64::MAX)),
        failed(SeekFrom::Current(i64::MAX))
    );
    assert_eq!(
        seek_to(15, 10, 20, SeekFrom::Start(u32::MAX as u64 - 9)),
        failed(SeekFrom::Start(u32::MAX as u64 - 9))
    );
    assert_eq!(seek_to(15, 10, 20, SeekFrom::Start(u32::MAX as u64 - 10)), Ok(u32::MAX));
}

#[test]
fn a_content_reader_stays_inside_its_window() {
    let mut bytes = vec![0xee; 3];
    bytes.extend(chunk(b"NOTE", &[1, 2, 3, 4, 5], &[]));
    bytes.extend([0xdd; 4]);
    let mut reader = ByteReader::new(&bytes);
    reader.seek(SeekFrom::Start(3)).unwrap();
    let header = Chunk::read(&mut reader).unwrap();
    assert_eq!(header.id(), ChunkId::Note);
    assert_eq!(header.offset(), 3);
    let mut content = header.content(reader).unwrap();
    assert_eq!(content.position(), 0);
    assert_eq!(content.read(2), vec![1, 2]);
    assert_eq!(content.read(100), vec![3, 4, 5]);
    assert_eq!(content.read(100), Vec::<u8>::new());
    assert_eq!(content.seek(SeekFrom::Start(1)), Ok(1));
    assert_eq!(content.read(1), vec![2]);
    assert_eq!(content.seek(SeekFrom::End(-1)), Ok(4));
    assert_eq!(content.read(9), vec![5]);
    assert_eq!(content.seek(SeekFrom::End(3)), Ok(8));
    assert_eq!(content.read(9), Vec::<u8>::new());
    assert_eq!(content.seek(SeekFrom::Current(-8)), Ok(0));
    assert!(matches!(content.seek(SeekFrom::Current(-1)), Err(IoError::InvalidSeek(_))));
    assert_eq!(content.position(), 0);
    assert_eq!(read_exact(&mut content, 6), Err(IoError::UnexpectedEof));
    assert_eq!(content.position(), 5);
    assert_eq!(header.read_content_to_vec(reader).unwrap(), vec![1, 2, 3, 4, 5]);
}

#[test]
fn content_that_the_stream_does_not_hold_is_not_read() {
    let mut bytes = chunk(b"NOTE", &[1, 2, 3, 4, 5], &[]);
    bytes.truncate(bytes.len() - 2);
    let mut reader = ByteReader::new(&bytes);
    let header = Chunk::read(&mut reader).unwrap();
    assert_eq!(header.content_len(), 5);
    assert_eq!(header.read_content_to_vec(reader).unwrap(), vec![1, 2, 3]);
}

#[test]
fn children_are_walked_in_order() {
    let inner = [chunk(b"SIZE", &[0; 12], &[]), chunk(b"abcd", &[1], &chunk(b"NOTE", &[], &[]))].concat();
    let bytes = [chunk(b"MAIN", &[7, 7], &inner), chunk(b"PACK", &[], &[])].concat();
    let mut reader = ByteReader::new(&bytes);
    let main = Chunk::read(&mut reader).unwrap();
    assert_eq!(main.children_offset(), 14);
    let mut children = main.children(reader);
    let first = children.next().unwrap().unwrap();
    assert_eq!((first.id(), first.offset(), first.len()), (ChunkId::Size, 14, 24));
    assert!(!first.is_empty());
    let second = children.next().unwrap().unwrap();
    assert_eq!(second.id(), ChunkId::Unsupported(*b"abcd"));
    assert_eq!((second.offset(), second.content_len(), second.children_len()), (38, 1, 12));
    assert!(children.next().is_none());
    assert!(children.next().is_none());
    let mut grandchildren = second.children(reader);
    let note = grandchildren.next().unwrap().unwrap();
    assert_eq!(note.id(), ChunkId::Note);
    assert!(note.is_empty());
    assert!(grandchildren.next().is_none());
}

#[test]
fn a_cut_off_child_fails_the_walk() {
    let inner = [chunk(b"SIZE", &[0; 12], &[]), b"XYZ".to_vec()].concat();
    let bytes = chunk(b"MAIN", &[], &inner);
    let mut reader = ByteReader::new(&bytes);
    let main = Chunk::read(&mut reader).unwrap();
    let mut children = main.children(reader);
    assert!(children.next().unwrap().is_ok());
    assert!(matches!(children.next(), Some(Err(Error::Io(IoError::UnexpectedEof)))));
}

#[test]
fn a_chunk_is_read_at_an_offset() {
    let bytes = [vec![0u8; 5], chunk(b"RGBA", &[1, 2], &[])].concat();
    let mut reader = ByteReader::new(&bytes);
    let mut offset = 5u32;
    let found = read_chunk_at(&mut reader, &mut offset).unwrap();
    assert_eq!(found.id(), ChunkId::Rgba);
    assert_eq!(found.offset(), 5);
    assert_eq!(offset, 19);
    assert!(matches!(
        read_chunk_at(&mut reader, &mut offset),
        Err(Error::Io(IoError::UnexpectedEof))
    ));
    assert_eq!(offset, 19);
}

#[test]
fn chunk_ids_stand_for_their_tags() {
    let tags: [(&[u8; 4], ChunkId); 15] = [
        (b"MAIN", ChunkId::Main),
        (b"PACK", ChunkId::Pack),
        (b"SIZE", ChunkId::Size),
        (b"XYZI", ChunkId::Xyzi),
        (b"RGBA", ChunkId::Rgba),
        (b"MATT", ChunkId::Matt),
        (b"NOTE", ChunkId::Note),
        (b"VOX ", ChunkId::Vox),
        (b"nTRN", ChunkId::NTrn),
        (b"nGRP", ChunkId::NGrp),
        (b"nSHP", ChunkId::NShp),
        (b"LAYR", ChunkId::Layr),
        (b"MATL", ChunkId::Matl),
        (b"rOBJ", ChunkId::RObj),
        (b"rCAM", ChunkId::RCam),
    ];
    for (tag, id) in tags {
        assert_eq!(ChunkId::from(*tag), id);
        assert_eq!(<[u8; 4]>::from(id), *tag);
        assert!(id.is_supported());
        assert_eq!(std::str::from_utf8(tag).unwrap().parse::<ChunkId>().unwrap(), id);
        let mut writer = ByteWriter::new();
        id.write(&mut writer).unwrap();
        let bytes = writer.into_inner();
        assert_eq!(bytes, tag.to_vec());
        assert_eq!(ChunkId::read(&mut ByteReader::new(&bytes)).unwrap(), id);
    }
    let other = ChunkId::from(*b"main");
    assert_eq!(other, ChunkId::Unsupported(*b"main"));
    assert!(!other.is_supported());
    assert_eq!(<[u8; 4]>::from(other), *b"main");
    assert_ne!(ChunkId::Unsupported(*b"MAIN"), ChunkId::Main);
    assert_ne!(ChunkId::Unsupported(*b"main"), ChunkId::Unsupported(*b"maim"));
    assert_ne!(ChunkId::Main, ChunkId::Matl);
}

#[test]
fn a_tag_has_four_bytes() {
    assert!("PACK".parse::<ChunkId>().is_ok());
    assert_eq!("PAC".parse::<ChunkId>().unwrap_err().0, "PAC");
    assert_eq!("PACKS".parse::<ChunkId>().unwrap_err().0, "PACKS");
    assert_eq!(ChunkId::parse("").unwrap_err().0, "");
    assert!(ChunkId::parse("äbc").is_ok());
    assert!(ChunkId::parse("äbcd").is_err());
}

#[test]
fn a_child_that_runs_past_the_window_fails_the_next_step() {
    let child = chunk(b"SIZE", &[0; 12], &[]);
    let mut bytes = b"MAIN".to_vec();
    bytes.extend(le(0));
    bytes.extend(le(20));
    bytes.extend(&child);
    let mut reader = ByteReader::new(&bytes);
    let main = Chunk::read(&mut reader).unwrap();
    let mut children = main.children(reader);
    let first = children.next().unwrap().unwrap();
    assert_eq!((first.id(), first.len()), (ChunkId::Size, 24));
    assert!(matches!(children.next(), Some(Err(Error::Io(IoError::UnexpectedEof)))));
    assert!(matches!(children.next(), Some(Err(Error::Io(IoError::UnexpectedEof)))));
}
