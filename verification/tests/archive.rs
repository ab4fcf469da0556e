use std::io::Read;

use ssbt::crc::ChecksumAccumulator;
use ssbt::encoder::{encode_entries, CompressionMethod, ZipEncoder, ZipEntry};
use ssbt::records::{append_central_record, DirectoryRecord};

fn entry(name: &str, data: &[u8]) -> ZipEntry {
    ZipEntry {
        name: name.as_bytes().to_vec(),
        mod_time: 0x6000,
        mod_date: 0x58cf,
        data: data.to_vec(),
    }
}

fn le32(bytes: &[u8], at: usize) -> u32 {
    u32::from_le_bytes([bytes[at], bytes[at + 1], bytes[at + 2], bytes[at + 3]])
}

fn le64(bytes: &[u8], at: usize) -> u64 {
    let mut b = [0u8; 8];
    b.copy_from_slice(&bytes[at..at + 8]);
    u64::from_le_bytes(b)
}

#[test]
fn empty_archive_is_terminator_only() {
    let out = encode_entries(&Vec::new(), CompressionMethod::Store).unwrap();
    assert_eq!(out.len(), 22);
    assert_eq!(le32(&out, 0), 0x06054b50);
    // entry counts
    assert_eq!(out[8], 0);
    assert_eq!(out[9], 0);
    assert_eq!(out[10], 0);
    assert_eq!(out[11], 0);
    // directory size and offset
    assert_eq!(le32(&out, 12), 0);
    assert_eq!(le32(&out, 16), 0);
}

#[test]
fn store_round_trip_with_standard_reader() {
    let entries = vec![
        entry("alpha.txt", b"first entry body"),
        entry("dir/beta.bin", &[0u8, 1, 2, 3, 255, 254]),
        entry("gamma", b""),
    ];
    let out = encode_entries(&entries, CompressionMethod::Store).unwrap();
    let mut archive = zip::ZipArchive::new(std::io::Cursor::new(out)).unwrap();
    assert_eq!(archive.len(), 3);
    let expected_names = ["alpha.txt", "dir/beta.bin", "gamma"];
    let expected_data: [&[u8]; 3] = [b"first entry body", &[0u8, 1, 2, 3, 255, 254], b""];
    for i in 0..3 {
        let mut f = archive.by_index(i).unwrap();
        assert_eq!(f.name(), expected_names[i]);
        let mut data = Vec::new();
        f.read_to_end(&mut data).unwrap();
        assert_eq!(data.as_slice(), expected_data[i]);
    }
}

#[test]
fn deflate_round_trip_with_standard_reader() {
    let body: Vec<u8> = (0..40000u32).map(|i| (i % 251) as u8).collect();
    let entries = vec![entry("compressible.dat", &body), entry("note.txt", b"hello")];
    let out = encode_entries(&entries, CompressionMethod::Deflate).unwrap();
    // A run of repetitive bytes must actually shrink.
    assert!(out.len() < body.len());
    let mut archive = zip::ZipArchive::new(std::io::Cursor::new(out)).unwrap();
    assert_eq!(archive.len(), 2);
    let mut f = archive.by_index(0).unwrap();
    assert_eq!(f.name(), "compressible.dat");
    let mut data = Vec::new();
    f.read_to_end(&mut data).unwrap();
    assert_eq!(data, body);
    drop(f);
    let mut g = archive.by_index(1).unwrap();
    let mut data2 = Vec::new();
    g.read_to_end(&mut data2).unwrap();
    assert_eq!(data2.as_slice(), b"hello");
}

#[test]
fn crc_accumulator_matches_reference() {
    // The classic check value of the reflected CRC-32.
    let mut acc = ChecksumAccumulator::new();
    acc.update(b"123456789");
    assert_eq!(acc.crc(), 0xcbf43926);
    assert_eq!(acc.byte_count(), 9);

    // Chunked feeding equals one-shot hashing of the concatenation.
    let mut acc2 = ChecksumAccumulator::new();
    acc2.update(b"streaming ");
    acc2.update(b"archive ");
    acc2.update(b"checksum");
    assert_eq!(acc2.crc(), crc32fast::hash(b"streaming archive checksum"));
    assert_eq!(acc2.byte_count(), 26);

    let empty = ChecksumAccumulator::new();
    assert_eq!(empty.crc(), 0);
}

#[test]
fn descriptor_and_directory_record_checksums() {
    let body = b"checksummed body";
    let entries = vec![entry("a.txt", body)];
    let out = encode_entries(&entries, CompressionMethod::Store).unwrap();
    let crc = crc32fast::hash(body);
    let name_len = "a.txt".len();
    // [local header 30+5][payload 16][descriptor sig 4 | crc 4 | sizes 8+8]
    let desc = 30 + name_len + body.len();
    assert_eq!(le32(&out, desc), 0x08074b50);
    assert_eq!(le32(&out, desc + 4), crc);
    assert_eq!(le64(&out, desc + 8), body.len() as u64);
    assert_eq!(le64(&out, desc + 16), body.len() as u64);
    // Directory record: crc at offset 16 of the record.
    let cd = desc + 24;
    assert_eq!(le32(&out, cd), 0x02014b50);
    assert_eq!(le32(&out, cd + 16), crc);
}

#[test]
fn zip64_sentinel_and_extension_block() {
    // A record whose sizes pass the 32-bit threshold (as a simulated large
    // entry) writes the sentinel in the narrow fields and the true values in
    // the trailing typed block.
    let rec = DirectoryRecord {
        name: b"huge.bin".to_vec(),
        crc: 0x12345678,
        compressed_size: 0x1_0000_0001,
        uncompressed_size: 0x1_0000_0002,
        local_offset: 7,
        method_code: 0,
        mod_time: 0,
        mod_date: 0,
    };
    assert!(rec.needs_large_extension());
    let mut out = Vec::new();
    append_central_record(&mut out, &rec);
    let nl = 8;
    assert_eq!(out.len(), 46 + nl + 28);
    assert_eq!(le32(&out, 20), 0xffffffff); // compressed
    assert_eq!(le32(&out, 24), 0xffffffff); // uncompressed
    assert_eq!(le32(&out, 42), 0xffffffff); // local offset
    assert_eq!(&out[46..46 + nl], b"huge.bin");
    let extra = 46 + nl;
    assert_eq!(u16::from_le_bytes([out[extra], out[extra + 1]]), 0x0001);
    assert_eq!(u16::from_le_bytes([out[extra + 2], out[extra + 3]]), 24);
    assert_eq!(le64(&out, extra + 4), 0x1_0000_0002); // uncompressed
    assert_eq!(le64(&out, extra + 12), 0x1_0000_0001); // compressed
    assert_eq!(le64(&out, extra + 20), 7); // offset
}

#[test]
fn small_record_has_no_extension_block() {
    let rec = DirectoryRecord {
        name: b"small".to_vec(),
        crc: 1,
        compressed_size: 10,
        uncompressed_size: 10,
        local_offset: 0,
        method_code: 0,
        mod_time: 0,
        mod_date: 0,
    };
    assert!(!rec.needs_large_extension());
    let mut out = Vec::new();
    append_central_record(&mut out, &rec);
    assert_eq!(out.len(), 46 + 5);
    assert_eq!(le32(&out, 20), 10);
    assert_eq!(le32(&out, 24), 10);
    assert_eq!(le32(&out, 42), 0);
}

#[test]
fn entries_in_input_order_with_increasing_offsets() {
    let entries = vec![entry("A", b"aaa"), entry("B", b"bbbbbb"), entry("C", b"c")];
    let out = encode_entries(&entries, CompressionMethod::Store).unwrap();
    let mut archive = zip::ZipArchive::new(std::io::Cursor::new(out)).unwrap();
    assert_eq!(archive.len(), 3);
    let mut offsets = Vec::new();
    for (i, want) in ["A", "B", "C"].iter().enumerate() {
        let f = archive.by_index(i).unwrap();
        assert_eq!(f.name(), *want);
        offsets.push(f.header_start());
    }
    assert!(offsets[0] < offsets[1]);
    assert!(offsets[1] < offsets[2]);
}

#[test]
fn streaming_encoder_matches_one_shot() {
    let data: Vec<u8> = (0..10000u32).map(|i| (i * 7 % 256) as u8).collect();
    let entries = vec![entry("x/stream.bin", &data)];
    let one_shot = encode_entries(&entries, CompressionMethod::Store).unwrap();

    let mut enc = ZipEncoder::new(CompressionMethod::Store);
    let mut out = Vec::new();
    out.extend_from_slice(&enc.begin_entry(&b"x/stream.bin".to_vec(), 0x6000, 0x58cf).unwrap());
    for chunk in data.chunks(1024) {
        out.extend_from_slice(&enc.append_chunk(chunk).unwrap());
    }
    out.extend_from_slice(&enc.finish_entry().unwrap());
    out.extend_from_slice(&enc.finish_archive());
    assert_eq!(out, one_shot);
}

#[test]
fn streaming_deflate_matches_one_shot() {
    let data: Vec<u8> = (0..50000u32).map(|i| (i % 17) as u8).collect();
    let entries = vec![entry("d.bin", &data)];
    let one_shot = encode_entries(&entries, CompressionMethod::Deflate).unwrap();

    let mut enc = ZipEncoder::new(CompressionMethod::Deflate);
    let mut out = Vec::new();
    out.extend_from_slice(&enc.begin_entry(&b"d.bin".to_vec(), 0x6000, 0x58cf).unwrap());
    for chunk in data.chunks(777) {
        out.extend_from_slice(&enc.append_chunk(chunk).unwrap());
    }
    out.extend_from_slice(&enc.finish_entry().unwrap());
    out.extend_from_slice(&enc.finish_archive());
    assert_eq!(out, one_shot);
}

#[test]
fn incompressible_chunked_deflate_round_trip() {
    // Pseudo-random bytes do not compress, so compressed blocks outgrow
    // small feeding chunks and the compressor's parked output must be
    // drained between them; the stream must come out the same however the
    // bytes were handed over, and decode back exactly.
    let mut x: u64 = 0x2545f4914f6cdd1d;
    let data: Vec<u8> = (0..120_000)
        .map(|_| {
            x ^= x << 13;
            x ^= x >> 7;
            x ^= x << 17;
            (x >> 56) as u8
        })
        .collect();
    let entries = vec![entry("noise.bin", &data)];
    let one_shot = encode_entries(&entries, CompressionMethod::Deflate).unwrap();

    let mut enc = ZipEncoder::new(CompressionMethod::Deflate);
    let mut out = Vec::new();
    out.extend_from_slice(&enc.begin_entry(&b"noise.bin".to_vec(), 0x6000, 0x58cf).unwrap());
    for chunk in data.chunks(1024) {
        out.extend_from_slice(&enc.append_chunk(chunk).unwrap());
    }
    out.extend_from_slice(&enc.finish_entry().unwrap());
    out.extend_from_slice(&enc.finish_archive());
    assert_eq!(out, one_shot);

    let mut archive = zip::ZipArchive::new(std::io::Cursor::new(out)).unwrap();
    let mut f = archive.by_index(0).unwrap();
    let mut back = Vec::new();
    f.read_to_end(&mut back).unwrap();
    assert_eq!(back, data);
}

#[test]
fn terminator_locates_directory() {
    let entries = vec![entry("one", b"11"), entry("two", b"2222")];
    let out = encode_entries(&entries, CompressionMethod::Store).unwrap();
    let t = out.len() - 22;
    assert_eq!(le32(&out, t), 0x06054b50);
    let count = u16::from_le_bytes([out[t + 10], out[t + 11]]);
    assert_eq!(count, 2);
    let dir_size = le32(&out, t + 12) as usize;
    let dir_offset = le32(&out, t + 16) as usize;
    assert_eq!(dir_offset + dir_size, t);
    // A directory record opens right at the recorded offset.
    assert_eq!(le32(&out, dir_offset), 0x02014b50);
}

#[test]
fn local_header_defers_sizes() {
    let entries = vec![entry("defer.txt", b"0123456789")];
    let out = encode_entries(&entries, CompressionMethod::Store).unwrap();
    assert_eq!(le32(&out, 0), 0x04034b50);
    // The sizes-deferred flag bit.
    assert_eq!(u16::from_le_bytes([out[6], out[7]]), 0x0008);
    // CRC and both size placeholders are zero at header time.
    assert_eq!(le32(&out, 14), 0);
    assert_eq!(le32(&out, 18), 0);
    assert_eq!(le32(&out, 22), 0);
}
