use mcd::binary_reader::BinaryReader;

fn sequence(limit: u8) -> Vec<u8> {
    (1..=limit).collect()
}

#[test]
fn valid_nesting() {
    let size: u8 = 10;

    let seq = sequence(size);
    let mut binreader = BinaryReader::new(&seq, size as u64);

    assert_eq!(binreader.read_u8().unwrap(), 1);
    assert_eq!(binreader.read_u8().unwrap(), 2);

    {
        let mut view1 = binreader.mut_slice(6);
        {
            let mut view11 = view1.mut_slice(2);
            assert_eq!(view11.read_u8().unwrap(), 3);
        }
        {
            let mut view11 = view1.mut_slice(3);
            assert_eq!(view11.read_u8().unwrap(), 5);
        }
        assert_eq!(view1.read_u8().unwrap(), 8);
    }
    assert_eq!(binreader.read_u8().unwrap(), 9);
}

#[test]
fn valid_slice() {
    let size: u8 = 10;
    let seq = sequence(size);
    let mut binreader = BinaryReader::new(&seq, size as u64);
    binreader.mut_slice(size as u64);
}

#[test]
#[should_panic]
fn read_too_many() {
    let size: u8 = 10;
    let seq = sequence(size);
    let mut binreader = BinaryReader::new(&seq, size as u64);
    (1..=size + 1).for_each(|_| drop(binreader.read_u8().unwrap()));
}

#[test]
fn reads_big_endian_values() {
    let bytes: Vec<u8> = vec![0x12, 0x34, 0xff, 0xff, 0xff, 0xfe, 0x00, 0x00, 0x00, 0x00, 0x00, 0x00, 0x01, 0x00];
    let mut r = BinaryReader::new(&bytes, bytes.len() as u64);
    assert_eq!(r.read_u16().unwrap(), 0x1234);
    assert_eq!(r.read_i32().unwrap(), -2);
    assert_eq!(r.read_u64().unwrap(), 0x100);
    assert_eq!(r.get_remaining(), 0);
    assert_eq!(r.get_local_position(), 14);
}

#[test]
fn read_past_the_end_is_an_error() {
    let bytes: Vec<u8> = vec![1, 2, 3];
    let mut r = BinaryReader::new(&bytes, 3);
    assert_eq!(
        r.read_u32(),
        Err(mcd::error::ParseError::UnexpectedEof { requested: 4, remaining: 3 })
    );
}

#[test]
fn declared_length_beyond_storage_is_stream_end() {
    let bytes: Vec<u8> = vec![1, 2];
    let mut r = BinaryReader::new(&bytes, 4);
    assert_eq!(r.read_u32(), Err(mcd::error::ParseError::StreamEnded));
}

#[test]
fn strings_must_be_utf8() {
    let bytes: Vec<u8> = vec![b'h', b'i', 0xff, 0xfe];
    let mut r = BinaryReader::new(&bytes, 4);
    assert_eq!(r.new_string(2).unwrap(), "hi");
    assert_eq!(r.new_string(2), Err(mcd::error::ParseError::InvalidUtf8));
}

#[test]
fn window_reads_parent_bytes_and_parent_skips_it() {
    let bytes: Vec<u8> = (1..=8).collect();
    let mut r = BinaryReader::new(&bytes, 8);
    let mut w = r.mut_slice(3);
    assert_eq!(w.get_local_position(), 0);
    assert_eq!(w.read_n_bytes(3).unwrap(), vec![1, 2, 3]);
    assert_eq!(r.read_u8().unwrap(), 4);
    assert_eq!(r.get_local_position(), 4);
}

#[test]
fn position_plus_remaining_stays_the_declared_length() {
    let bytes: Vec<u8> = (0..20).collect();
    let mut r = BinaryReader::new(&bytes, 12);
    let mut last = 0;
    let check = |r: &BinaryReader, last: &mut u64| {
        assert_eq!(r.get_local_position() + r.get_remaining(), 12);
        assert!(r.get_local_position() >= *last);
        *last = r.get_local_position();
    };
    check(&r, &mut last);
    r.read_u16().unwrap();
    check(&r, &mut last);
    {
        let mut w = r.mut_slice(4);
        w.read_u8().unwrap();
    }
    check(&r, &mut last);
    assert!(r.read_u64().is_err());
    check(&r, &mut last);
    r.consume(3).unwrap();
    check(&r, &mut last);
    assert!(r.consume(9).is_err());
    check(&r, &mut last);
    r.read_n_bytes(3).unwrap();
    check(&r, &mut last);
    assert_eq!(r.get_remaining(), 0);
}
