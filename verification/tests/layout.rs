//! The layout of containers.

use vostok_pdb_parser::msf_layout::{MsfError, MsfLayout};

const BIG_MAGIC: &[u8] = b"Microsoft C/C++ MSF 7.00\r\n\x1a\x44\x53\x00\x00\x00";

fn put_u32(bytes: &mut [u8], offset: usize, value: u32) {
    bytes[offset..offset + 4].copy_from_slice(&value.to_le_bytes());
}

fn container() -> Vec<u8> {
    let page_size = 0x100usize;
    let mut bytes = vec![0u8; page_size * 8];
    bytes[..BIG_MAGIC.len()].copy_from_slice(BIG_MAGIC);
    put_u32(&mut bytes, 32, page_size as u32);
    put_u32(&mut bytes, 36, 7);
    put_u32(&mut bytes, 40, 8);
    put_u32(&mut bytes, 44, 28);
    put_u32(&mut bytes, 52, 1); // directory-map page
    put_u32(&mut bytes, page_size, 2); // directory page

    let directory = page_size * 2;
    put_u32(&mut bytes, directory, 3);
    put_u32(&mut bytes, directory + 4, 0);
    put_u32(&mut bytes, directory + 8, 4);
    put_u32(&mut bytes, directory + 12, 300);
    put_u32(&mut bytes, directory + 16, 3);
    put_u32(&mut bytes, directory + 20, 4);
    put_u32(&mut bytes, directory + 24, 5);
    bytes[page_size * 3..page_size * 3 + 4].copy_from_slice(b"info");
    bytes[page_size * 4..page_size * 4 + 256].fill(0xa5);
    bytes[page_size * 5..page_size * 5 + 44].fill(0x5a);
    bytes
}

#[test]
fn parses_big_msf_stream_slots_and_physical_pages() {
    let bytes = container();
    let layout = MsfLayout::parse(&bytes).unwrap();
    assert_eq!(layout.format, "MSF 7.00");
    assert_eq!(layout.directory_map_pages, [1]);
    assert_eq!(layout.directory_pages, [2]);
    assert_eq!(layout.streams.len(), 3);
    assert_eq!(layout.streams[0].size, Some(0));
    assert!(layout.streams[0].pages.is_empty());
    assert_eq!(layout.streams[1].pages, [3]);
    assert_eq!(layout.streams[2].pages, [4, 5]);
    assert_eq!(layout.streams[2].page_runs(), 1);
    let stream = layout.read_stream(&bytes, 2).unwrap().unwrap();
    assert_eq!(stream.len(), 300);
    assert!(stream[..256].iter().all(|byte| *byte == 0xa5));
    assert!(stream[256..].iter().all(|byte| *byte == 0x5a));
}

#[test]
fn a_stream_that_is_not_there_is_nothing() {
    let bytes = container();
    let layout = MsfLayout::parse(&bytes).unwrap();
    assert!(layout.stream(3).is_none());
    assert_eq!(layout.stream(1).unwrap().size, Some(4));
    assert!(matches!(layout.read_stream(&bytes, 3), Ok(None)));
    assert_eq!(layout.read_stream(&bytes, 0).unwrap().unwrap().len(), 0);
}

#[test]
fn a_file_of_another_kind_is_refused() {
    let bytes = vec![0u8; 64];
    let error = MsfLayout::parse(&bytes).err().unwrap();
    let text = error.message("x.pdb");
    assert!(text.contains("x.pdb"), "{text}");
}

#[test]
fn a_page_beyond_the_file_is_refused() {
    let mut bytes = container();
    put_u32(&mut bytes, 0x200 + 20, 9);
    let error: Option<MsfError> = MsfLayout::parse(&bytes).err();
    assert!(error.is_some());
}

#[test]
fn a_page_size_that_is_no_power_is_refused() {
    let mut bytes = container();
    put_u32(&mut bytes, 32, 0x180);
    assert!(MsfLayout::parse(&bytes).is_err());
}
