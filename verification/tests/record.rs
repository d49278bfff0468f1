use fanwatch::record::{
    decode, write_i32, write_u32, ByteOrder, ProtocolError, RawRecord, RECORD_LEN, RECORD_VERSION,
};

fn put(bytes: &mut Vec<u8>, order: ByteOrder, little: &[u8]) {
    match order {
        ByteOrder::Little => bytes.extend(little.iter()),
        ByteOrder::Big => bytes.extend(little.iter().rev()),
    }
}

fn encode(order: ByteOrder, record: &RawRecord) -> Vec<u8> {
    let mut bytes = Vec::new();
    put(&mut bytes, order, &record.event_len.to_le_bytes());
    bytes.push(record.vers);
    bytes.push(0);
    put(&mut bytes, order, &24u16.to_le_bytes());
    put(&mut bytes, order, &record.mask.to_le_bytes());
    put(&mut bytes, order, &record.fd.to_le_bytes());
    put(&mut bytes, order, &record.pid.to_le_bytes());
    while bytes.len() < record.event_len as usize {
        bytes.push(0xee);
    }
    bytes
}

fn plain(mask: u64, fd: i32, pid: i32) -> RawRecord {
    RawRecord { event_len: 24, vers: 3, mask, fd, pid }
}

fn both() -> [ByteOrder; 2] {
    [ByteOrder::Little, ByteOrder::Big]
}

#[test]
fn the_record_has_the_size_and_version_of_the_kernel() {
    assert_eq!(RECORD_LEN, std::mem::size_of::<libc::fanotify_event_metadata>());
    assert_eq!(RECORD_LEN, 24);
    assert_eq!(RECORD_VERSION, libc::FANOTIFY_METADATA_VERSION);
    assert_eq!(RECORD_VERSION, 3);
}

#[test]
fn decode_of_nothing_is_empty() {
    for order in both() {
        assert_eq!(decode(&[], 0, order), Ok(vec![]));
        assert_eq!(decode(&[0u8; 4800], 0, order), Ok(vec![]));
    }
}

#[test]
fn decode_of_one_record() {
    for order in both() {
        let record = plain(0x20, 5, 123);
        let bytes = encode(order, &record);
        assert_eq!(bytes.len(), 24);
        assert_eq!(decode(&bytes, 24, order), Ok(vec![record]));
    }
}

#[test]
fn decode_reads_the_fields_at_their_offsets() {
    let bytes: Vec<u8> = vec![
        24, 0, 0, 0, // length
        3,  // version
        0, 24, 0, // reserved, length of the header
        0x20, 0, 1, 0, 0, 0, 0, 0x80, // mask
        9, 0, 0, 0, // descriptor
        0x7b, 0, 0, 0, // process
    ];
    assert_eq!(
        decode(&bytes, 24, ByteOrder::Little),
        Ok(vec![RawRecord {
            event_len: 24,
            vers: 3,
            mask: 0x8000_0000_0001_0020,
            fd: 9,
            pid: 123
        }])
    );
    let bytes: Vec<u8> = vec![
        0, 0, 0, 24, 3, 0, 0, 24, 0x80, 0, 0, 0, 0, 1, 0, 0x20, 0xff, 0xff, 0xff, 0xff, 0, 0, 1, 0,
    ];
    assert_eq!(
        decode(&bytes, 24, ByteOrder::Big),
        Ok(vec![RawRecord {
            event_len: 24,
            vers: 3,
            mask: 0x8000_0000_0001_0020,
            fd: -1,
            pid: 256
        }])
    );
}

#[test]
fn decode_of_many_records_keeps_their_order() {
    for order in both() {
        for n in [1usize, 2, 3, 10, 200] {
            let records: Vec<RawRecord> =
                (0..n).map(|i| plain(1 << (i % 40), i as i32 - 1, 1000 + i as i32)).collect();
            let mut bytes = Vec::new();
            for record in &records {
                bytes.extend(encode(order, record));
            }
            assert_eq!(bytes.len(), 24 * n);
            assert_eq!(decode(&bytes, bytes.len(), order), Ok(records));
        }
    }
}

#[test]
fn decode_reads_only_what_was_read() {
    for order in both() {
        let first = plain(1, 3, 10);
        let second = plain(2, 4, 11);
        let mut bytes = encode(order, &first);
        bytes.extend(encode(order, &second));
        bytes.resize(4800, 0);
        assert_eq!(decode(&bytes, 48, order), Ok(vec![first, second]));
        assert_eq!(decode(&bytes, 24, order), Ok(vec![first]));
        assert_eq!(decode(&bytes, 47, order), Ok(vec![first]));
        assert_eq!(decode(&bytes, 23, order), Ok(vec![]));
        assert_eq!(decode(&bytes, 4800, order), Ok(vec![first, second]));
    }
}

#[test]
fn decode_leaves_out_a_record_that_is_cut_off() {
    for order in both() {
        let first = plain(1, 3, 10);
        let second = plain(2, 4, 11);
        let mut bytes = encode(order, &first);
        bytes.extend(encode(order, &second));
        for cut in 24..48 {
            assert_eq!(decode(&bytes[..cut], cut, order), Ok(vec![first]));
        }
        for cut in 0..24 {
            assert_eq!(decode(&bytes[..cut], cut, order), Ok(vec![]));
        }
    }
}

#[test]
fn decode_stops_at_a_record_that_declares_too_much_or_too_little() {
    for order in both() {
        let first = plain(1, 3, 10);
        let long = RawRecord { event_len: 25, vers: 3, mask: 2, fd: 4, pid: 11 };
        let mut bytes = encode(order, &first);
        bytes.extend(&encode(order, &long)[..24]);
        assert_eq!(decode(&bytes, 48, order), Ok(vec![first]));

        let short = RawRecord { event_len: 23, vers: 3, mask: 2, fd: 4, pid: 11 };
        let mut bytes = encode(order, &first);
        bytes.extend(encode(order, &short));
        bytes.extend(encode(order, &first));
        assert_eq!(decode(&bytes, bytes.len(), order), Ok(vec![first]));

        let none = RawRecord { event_len: 0, vers: 3, mask: 2, fd: 4, pid: 11 };
        let bytes = encode(order, &none);
        assert_eq!(decode(&bytes, bytes.len(), order), Ok(vec![]));
    }
}

#[test]
fn decode_stops_before_it_looks_at_the_version_of_a_cut_record() {
    for order in both() {
        let first = plain(1, 3, 10);
        let cut = RawRecord { event_len: 40, vers: 9, mask: 2, fd: 4, pid: 11 };
        let mut bytes = encode(order, &first);
        bytes.extend(&encode(order, &cut)[..30]);
        assert_eq!(decode(&bytes, bytes.len(), order), Ok(vec![first]));
    }
}

#[test]
fn decode_moves_on_by_the_declared_length() {
    for order in both() {
        let first = RawRecord { event_len: 40, vers: 3, mask: 1, fd: 3, pid: 10 };
        let second = plain(2, 4, 11);
        let third = RawRecord { event_len: 31, vers: 3, mask: 4, fd: 5, pid: 12 };
        let mut bytes = encode(order, &first);
        bytes.extend(encode(order, &second));
        bytes.extend(encode(order, &third));
        assert_eq!(bytes.len(), 40 + 24 + 31);
        assert_eq!(decode(&bytes, bytes.len(), order), Ok(vec![first, second, third]));
        assert_eq!(decode(&bytes, bytes.len() - 1, order), Ok(vec![first, second]));
    }
}

#[test]
fn decode_fails_on_another_version() {
    for order in both() {
        for vers in [0u8, 1, 2, 4, 255] {
            let bad = RawRecord { event_len: 24, vers, mask: 1, fd: 3, pid: 10 };
            let bytes = encode(order, &bad);
            assert_eq!(
                decode(&bytes, 24, order),
                Err(ProtocolError::UnsupportedVersion { found: vers })
            );
        }
    }
}

#[test]
fn decode_fails_on_another_version_anywhere() {
    for order in both() {
        let good = plain(1, 3, 10);
        let bad = RawRecord { event_len: 24, vers: 2, mask: 1, fd: 3, pid: 10 };
        for at in 0..4 {
            let mut bytes = Vec::new();
            for i in 0..4 {
                bytes.extend(encode(order, if i == at { &bad } else { &good }));
            }
            assert_eq!(
                decode(&bytes, bytes.len(), order),
                Err(ProtocolError::UnsupportedVersion { found: 2 })
            );
        }
    }
}

#[test]
fn decode_in_the_wrong_order_misreads() {
    let record = plain(0x20, 5, 123);
    let bytes = encode(ByteOrder::Little, &record);
    assert_eq!(decode(&bytes, 24, ByteOrder::Big), Ok(vec![]));
}

#[test]
fn integers_are_written_in_the_named_order() {
    let mut out = vec![0xaa];
    write_u32(&mut out, 0x0102_0304, ByteOrder::Little);
    assert_eq!(out, vec![0xaa, 4, 3, 2, 1]);
    write_u32(&mut out, 0x0102_0304, ByteOrder::Big);
    assert_eq!(out, vec![0xaa, 4, 3, 2, 1, 1, 2, 3, 4]);
    let mut out = Vec::new();
    write_i32(&mut out, -2, ByteOrder::Little);
    assert_eq!(out, vec![0xfe, 0xff, 0xff, 0xff]);
    let mut out = Vec::new();
    write_i32(&mut out, i32::MIN, ByteOrder::Big);
    assert_eq!(out, vec![0x80, 0, 0, 0]);
}

#[test]
fn integers_are_written_as_the_standard_library_writes_them() {
    for value in [0u32, 1, 255, 256, 65535, 65536, 0x00ff_ffff, 0x0100_0000, 0x7fff_ffff, 0x8000_0000, u32::MAX] {
        let mut little = Vec::new();
        write_u32(&mut little, value, ByteOrder::Little);
        assert_eq!(little, value.to_le_bytes());
        let mut big = Vec::new();
        write_u32(&mut big, value, ByteOrder::Big);
        assert_eq!(big, value.to_be_bytes());
    }
    for value in [0i32, 1, -1, 7, -7, 255, -256, i32::MAX, i32::MIN, i32::MIN + 1] {
        let mut little = Vec::new();
        write_i32(&mut little, value, ByteOrder::Little);
        assert_eq!(little, value.to_le_bytes());
        let mut big = Vec::new();
        write_i32(&mut big, value, ByteOrder::Big);
        assert_eq!(big, value.to_be_bytes());
    }
}

#[test]
fn decode_reads_signed_fields() {
    for order in both() {
        for fd in [0, 1, -1, i32::MAX, i32::MIN, -2, 0x0102_0304, -0x0102_0304] {
            let record = plain(u64::MAX, fd, -fd.max(i32::MIN + 1));
            let bytes = encode(order, &record);
            assert_eq!(decode(&bytes, 24, order), Ok(vec![record]));
        }
    }
}
