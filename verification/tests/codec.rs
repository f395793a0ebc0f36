use mtf::cursor::ByteCursor;
use mtf::datetime::DateTime;
use mtf::dblk::{DBLKSets, DBLKSpecific, DBLKType, MediaBasedCatalogType, OS, DBLK};
use mtf::error::MtfError;
use mtf::stream::Stream;
use mtf::strings::{StringType, TapeAddress};

fn xor_words(data: &[u8], nwords: usize) -> u16 {
    let mut c = 0u16;
    for i in 0..nwords {
        c ^= u16::from_le_bytes([data[2 * i], data[2 * i + 1]]);
    }
    c
}

fn dblk_header(tag: &[u8; 4], attrs: u32, offset_to_first_event: u16, string_type: u8) -> Vec<u8> {
    let mut h = vec![0u8; 52];
    h[0..4].copy_from_slice(tag);
    h[4..8].copy_from_slice(&attrs.to_le_bytes());
    h[8..10].copy_from_slice(&offset_to_first_event.to_le_bytes());
    h[48] = string_type;
    let c = xor_words(&h, 25);
    h[50..52].copy_from_slice(&c.to_le_bytes());
    h
}

fn tape_block() -> Vec<u8> {
    // header + the 42-byte TAPE body; the stream list begins right after
    let mut b = dblk_header(b"TAPE", 0, 94, 1);
    let mut body = Vec::new();
    body.extend_from_slice(&7u32.to_le_bytes()); // media_family_id
    body.extend_from_slice(&0u32.to_le_bytes()); // tape attrs
    body.extend_from_slice(&1u16.to_le_bytes()); // media_sequence_number
    body.extend_from_slice(&0u16.to_le_bytes()); // password encryption
    body.extend_from_slice(&4u16.to_le_bytes()); // soft filemark blocks (2048 bytes)
    body.extend_from_slice(&0u16.to_le_bytes()); // media based catalog type
    body.extend_from_slice(&0u32.to_le_bytes()); // media_name (absent)
    body.extend_from_slice(&0u32.to_le_bytes()); // media_description
    body.extend_from_slice(&0u32.to_le_bytes()); // media_password
    body.extend_from_slice(&0u32.to_le_bytes()); // software_name
    body.extend_from_slice(&512u16.to_le_bytes()); // format logical block size
    body.extend_from_slice(&0u16.to_le_bytes()); // software vendor
    body.extend_from_slice(&[0u8; 5]); // media date
    body.push(1); // major version
    assert_eq!(body.len(), 42);
    b.extend_from_slice(&body);
    b
}

fn sfmb_block() -> Vec<u8> {
    // 2048 bytes in all, per the TAPE soft filemark size of 4 blocks
    let mut b = dblk_header(b"SFMB", 0, 2048, 0);
    b.extend_from_slice(&497u32.to_le_bytes());
    b.extend_from_slice(&3u32.to_le_bytes());
    for i in 0..497u32 {
        b.extend_from_slice(&(i * 2).to_le_bytes());
    }
    assert_eq!(b.len(), 2048);
    b
}

fn stream_header(id: &[u8; 4], length: u64) -> Vec<u8> {
    let mut h = vec![0u8; 22];
    h[0..4].copy_from_slice(id);
    h[8..16].copy_from_slice(&length.to_le_bytes());
    let c = xor_words(&h, 10);
    h[20..22].copy_from_slice(&c.to_le_bytes());
    h
}

#[test]
fn cursor_little_endian_reads() {
    let data = [0x01u8, 0x02, 0x03, 0x04, 0x05, 0x06, 0x07, 0x08, 0xFF];
    let mut cur = ByteCursor::new(&data);
    assert_eq!(cur.read_u16().unwrap(), 0x0201);
    cur.set_position(0);
    assert_eq!(cur.read_u32().unwrap(), 0x04030201);
    cur.set_position(0);
    assert_eq!(cur.read_u64().unwrap(), 0x0807060504030201);
    assert_eq!(cur.position(), 8);
    assert_eq!(cur.read_i8().unwrap(), -1i8);
    assert_eq!(cur.read_u8(), Err(MtfError::Io));
    cur.set_position(100);
    assert_eq!(cur.read_u16(), Err(MtfError::Io));
}

#[test]
fn datetime_bit_layout() {
    let all = DateTime::parse([0xFF; 5]);
    assert_eq!(
        (all.year, all.month, all.day, all.hour, all.minute, all.second),
        (16383, 15, 31, 31, 63, 63)
    );
    let zero = DateTime::parse([0; 5]);
    assert_eq!(
        (zero.year, zero.month, zero.day, zero.hour, zero.minute, zero.second),
        (0, 0, 0, 0, 0, 0)
    );
    let mixed = DateTime::parse([0x12, 0x34, 0x56, 0x78, 0x9A]);
    assert_eq!(
        (
            mixed.year,
            mixed.month,
            mixed.day,
            mixed.hour,
            mixed.minute,
            mixed.second
        ),
        (1165, 1, 11, 7, 34, 26)
    );
}

#[test]
fn string_decoding() {
    let ansi = StringType::ANSI_STR;
    assert_eq!(ansi.bytes_to_string(b"abc".to_vec()).unwrap(), "abc");
    // 8-bit-clean: every byte is the character of its value
    assert_eq!(ansi.bytes_to_string(vec![0xFF]).unwrap(), "\u{FF}");
    assert_eq!(ansi.bytes_to_string(vec![0x80, 0x31]).unwrap(), "\u{80}1");
    let uni = StringType::UNICODE_STR;
    assert_eq!(
        uni.bytes_to_string(vec![0x61, 0, 0x62, 0]).unwrap(),
        "ab"
    );
    // a lone surrogate does not decode
    assert_eq!(
        uni.bytes_to_string(vec![0x00, 0xD8]),
        Err(MtfError::Encoding)
    );
    assert_eq!(
        StringType::NO_STRINGS.bytes_to_string(vec![1]),
        Err(MtfError::Encoding)
    );
    assert_eq!(StringType::parse(3), Err(MtfError::BadTag));
}

#[test]
fn tape_address_resolution() {
    // size 3, offset 4, base 0: the bytes "xyz" at position 4
    let data = b"....xyz...";
    let mut cur = ByteCursor::new(data);
    cur.set_position(9);
    let ta = TapeAddress::parse(3 | (4 << 16), 0);
    let s = ta.read_str(&StringType::ANSI_STR, &mut cur).unwrap();
    assert_eq!(s.as_deref(), Some("xyz"));
    assert_eq!(cur.position(), 9);
    // size 0 denotes an absent string
    let none = TapeAddress::parse(0, 0);
    assert_eq!(none.read_str(&StringType::ANSI_STR, &mut cur).unwrap(), None);
    // out of range fails with Io
    let far = TapeAddress::parse(3 | (400 << 16), 0);
    assert_eq!(
        far.read_str(&StringType::ANSI_STR, &mut cur),
        Err(MtfError::Io)
    );
}

#[test]
fn empty_header_is_unknown() {
    // 52 zero bytes: tag 0 routes to UNKNOWN, and 0 XOR ... = 0 passes the
    // checksum
    let data = [0u8; 52];
    let mut cur = ByteCursor::new(&data);
    let d = DBLK::parse(&mut cur, &DBLKSets::new()).unwrap();
    match d.body {
        DBLKSpecific::UNKNOWN(id) => assert_eq!(id, "\0\0\0\0"),
        other => panic!("wrong body {:?}", other),
    }
}

#[test]
fn header_checksum_is_checked() {
    let mut h = dblk_header(b"VOLB", 0, 52, 0);
    h[50] ^= 0x01;
    let mut cur = ByteCursor::new(&h);
    assert_eq!(
        DBLK::parse(&mut cur, &DBLKSets::new()).unwrap_err(),
        MtfError::Checksum
    );
}

#[test]
fn undefined_attribute_bits_are_refused() {
    let h = dblk_header(b"VOLB", 1 << 1, 52, 0);
    let mut cur = ByteCursor::new(&h);
    assert_eq!(
        DBLK::parse(&mut cur, &DBLKSets::new()).unwrap_err(),
        MtfError::BadFlags
    );
}

#[test]
fn bad_string_type_is_refused() {
    let h = dblk_header(b"DIRB", 0, 52, 3);
    let mut cur = ByteCursor::new(&h);
    assert_eq!(
        DBLK::parse(&mut cur, &DBLKSets::new()).unwrap_err(),
        MtfError::BadTag
    );
}

#[test]
fn tape_zero_field_rule() {
    let mut b = tape_block();
    // plant a nonzero format_logical_address and fix the checksum up
    b[20] = 1;
    let c = xor_words(&b[0..50], 25);
    b[50..52].copy_from_slice(&c.to_le_bytes());
    let mut cur = ByteCursor::new(&b);
    assert_eq!(
        DBLK::parse(&mut cur, &DBLKSets::new()).unwrap_err(),
        MtfError::Invariant
    );
}

#[test]
fn tape_then_sfmb() {
    let mut data = tape_block();
    data.extend_from_slice(&sfmb_block());
    data.extend_from_slice(&stream_header(b"VOLB", 0));
    let mut it = mtf::iter::DBLKIterator::new(&data);
    let first = it.next().unwrap().unwrap();
    match &first.dblk.body {
        DBLKSpecific::TAPE {
            media_family_id,
            soft_filemark_block_size,
            ..
        } => {
            assert_eq!(*media_family_id, 7);
            assert_eq!(soft_filemark_block_size.blocks, 4);
        }
        other => panic!("wrong body {:?}", other),
    }
    assert_eq!(first.streams.len(), 0);
    let second = it.next().unwrap().unwrap();
    match &second.dblk.body {
        DBLKSpecific::SFMB {
            number_of_entries,
            used_entries,
            entries,
        } => {
            assert_eq!(*number_of_entries, 497);
            assert_eq!(*used_entries, 3);
            assert_eq!(entries.len(), 497);
            assert_eq!(entries[10], 20);
        }
        other => panic!("wrong body {:?}", other),
    }
    // the trailing sentinel is too short to be another block
    match it.next() {
        Some(Err(MtfError::Io)) => {}
        other => panic!("expected Io, got {:?}", other),
    }
}

#[test]
fn sfmb_without_tape_fails() {
    let b = sfmb_block();
    let mut cur = ByteCursor::new(&b);
    assert_eq!(
        DBLK::parse(&mut cur, &DBLKSets::new()).unwrap_err(),
        MtfError::Dependency
    );
}

#[test]
fn stream_sentinel_rewinds() {
    let mut data = stream_header(b"VOLB", 0);
    data.extend_from_slice(&[0u8; 30]);
    let mut cur = ByteCursor::new(&data);
    let streams = Stream::parse_all(&mut cur).unwrap();
    assert_eq!(streams.len(), 0);
    assert_eq!(cur.position(), 0);
}

#[test]
fn stream_padding_advance() {
    // a 5-byte payload advances 22 + 5 + 3 bytes; the next header reads
    // cleanly
    let mut data = stream_header(b"XDAT", 5);
    data.extend_from_slice(b"hello");
    data.extend_from_slice(&[0u8; 3]);
    data.extend_from_slice(&stream_header(b"SPAD", 4));
    data.extend_from_slice(&[0u8; 4]);
    let mut cur = ByteCursor::new(&data);
    let streams = Stream::parse_all(&mut cur).unwrap();
    assert_eq!(streams.len(), 2);
    assert_eq!(streams[0].header.id, "XDAT");
    assert_eq!(streams[0].header.length, 5);
    assert_eq!(streams[0].base, 22);
    assert_eq!(streams[1].base, streams[0].base + 22 + 5 + 3);
    assert_eq!(streams[1].header.id, "SPAD");
    assert_eq!(streams[0].data(&data), b"hello");
}

#[test]
fn stream_checksum_is_checked() {
    let mut h = stream_header(b"XDAT", 0);
    h[20] ^= 0x80;
    let mut cur = ByteCursor::new(&h);
    assert_eq!(Stream::parse(&mut cur).unwrap_err(), MtfError::Checksum);
}

#[test]
fn stream_short_header_fails() {
    let data = [0u8; 10];
    let mut cur = ByteCursor::new(&data);
    assert_eq!(Stream::parse(&mut cur).unwrap_err(), MtfError::Io);
}

#[test]
fn stream_read_copies_payload() {
    let mut data = stream_header(b"XDAT", 5);
    data.extend_from_slice(b"hello");
    let mut cur = ByteCursor::new(&data);
    let s = Stream::parse(&mut cur).unwrap().unwrap();
    assert_eq!(s.read(&mut cur).unwrap(), b"hello");
}

#[test]
fn dblk_type_tags() {
    assert_eq!(DBLKType::parse(0x45504154), DBLKType::TAPE);
    assert_eq!(DBLKType::parse(0x424D4653), DBLKType::SFMB);
    assert_eq!(DBLKType::parse(0x12345678), DBLKType::UNKNOWN);
}

#[test]
fn os_and_catalog_tags() {
    assert_eq!(OS::parse(14), OS::WindowsNT);
    assert_eq!(OS::parse(50), OS::ToBeAssigned);
    assert_eq!(OS::parse(200), OS::VendorSpecific);
    assert_eq!(
        MediaBasedCatalogType::parse(2).unwrap(),
        MediaBasedCatalogType::TYPE_2
    );
    assert_eq!(MediaBasedCatalogType::parse(4), Err(MtfError::BadTag));
}

#[test]
fn volb_with_strings() {
    // VOLB whose device name points back into the block
    let mut b = dblk_header(b"VOLB", 0, 90, 1);
    let mut body = Vec::new();
    body.extend_from_slice(&0u32.to_le_bytes()); // volb attrs
    // device_name: size 3, offset 73 (just after the fixed body)
    body.extend_from_slice(&(3u32 | (73 << 16)).to_le_bytes());
    body.extend_from_slice(&0u32.to_le_bytes()); // volume_name absent
    body.extend_from_slice(&0u32.to_le_bytes()); // machine_name absent
    body.extend_from_slice(&[0u8; 5]); // write date
    b.extend_from_slice(&body);
    b.extend_from_slice(b"dev");
    let mut cur = ByteCursor::new(&b);
    let d = DBLK::parse(&mut cur, &DBLKSets::new()).unwrap();
    match d.body {
        DBLKSpecific::VOLB { device_name, volume_name, .. } => {
            assert_eq!(device_name.as_deref(), Some("dev"));
            assert_eq!(volume_name, None);
        }
        other => panic!("wrong body {:?}", other),
    }
}

#[test]
fn sset_with_utf16_string() {
    // SSET whose data set name is UTF-16, stored after the fixed body
    let mut b = dblk_header(b"SSET", 0, 102, 2);
    let mut body = Vec::new();
    body.extend_from_slice(&0u32.to_le_bytes()); // sset attrs
    body.extend_from_slice(&0u16.to_le_bytes()); // password encryption
    body.extend_from_slice(&0u16.to_le_bytes()); // software compression
    body.extend_from_slice(&9u16.to_le_bytes()); // software vendor
    body.extend_from_slice(&3u16.to_le_bytes()); // data set number
    body.extend_from_slice(&(4u32 | (98 << 16)).to_le_bytes()); // data_set_name
    body.extend_from_slice(&0u32.to_le_bytes()); // description absent
    body.extend_from_slice(&0u32.to_le_bytes()); // password absent
    body.extend_from_slice(&0u32.to_le_bytes()); // username absent
    body.extend_from_slice(&42u64.to_le_bytes()); // physical block address
    body.extend_from_slice(&[0u8; 5]); // write date
    body.push(2); // software major version
    body.push(1); // software minor version
    body.push(0xFB); // timezone -5
    body.push(0); // minor version
    body.push(1); // media catalog version
    assert_eq!(body.len(), 46);
    b.extend_from_slice(&body);
    b.extend_from_slice(&[0x68, 0x00, 0x69, 0x00]); // "hi" in UTF-16LE
    let mut cur = ByteCursor::new(&b);
    let d = DBLK::parse(&mut cur, &DBLKSets::new()).unwrap();
    match d.body {
        DBLKSpecific::SSET {
            data_set_name,
            data_set_number,
            physical_block_address,
            timezone,
            ..
        } => {
            assert_eq!(data_set_name.as_deref(), Some("hi"));
            assert_eq!(data_set_number, 3);
            assert_eq!(physical_block_address, 42);
            assert_eq!(timezone, -5);
        }
        other => panic!("wrong body {:?}", other),
    }
}

#[test]
fn tape_with_spad_stream_and_clean_end() {
    let mut data = tape_block();
    data.extend_from_slice(&stream_header(b"SPAD", 4));
    data.extend_from_slice(&[0u8; 4]);
    let mut it = mtf::iter::DBLKIterator::new(&data);
    let first = it.next().unwrap().unwrap();
    assert_eq!(first.streams.len(), 1);
    assert_eq!(first.streams[0].stream.header.id, "SPAD");
    assert_eq!(first.streams[0].stream.header.length, 4);
    assert_eq!(first.streams[0].data, &[0u8; 4]);
    // the walk stops exactly at the end of the input
    assert!(it.next().is_none());
}

#[test]
fn tape_string_resolution() {
    let mut b = tape_block();
    // point media_name at three bytes just after the body (the header
    // checksum covers only the first 50 bytes, so it still holds)
    b[68..72].copy_from_slice(&(3u32 | (94 << 16)).to_le_bytes());
    b.extend_from_slice(b"abc");
    let mut cur = ByteCursor::new(&b);
    let d = DBLK::parse(&mut cur, &DBLKSets::new()).unwrap();
    match d.body {
        DBLKSpecific::TAPE {
            media_name,
            media_description,
            ..
        } => {
            assert_eq!(media_name.as_deref(), Some("abc"));
            assert_eq!(media_description, None);
        }
        other => panic!("wrong body {:?}", other),
    }
}
