use gbam_writer::columns::Inner;
use gbam_writer::compressor::{compress_bytes, decompress_bytes};
use gbam_writer::fields::{field_index, Fields};
use gbam_writer::meta::{calc_crc_for_meta_bytes, Codecs, FileInfo, RefSeq};
use gbam_writer::writer::Writer;
use gbam_writer::{FILE_INFO_SIZE, SIZE_LIMIT};

fn zero_record() -> Vec<u8> {
    vec![0u8; 32]
}

fn new_writer(codec: Codecs, threads: usize) -> Writer {
    Writer::new_no_stats(vec![codec], threads, Vec::new())
}

#[test]
fn test_writer() {
    let raw_records = vec![zero_record(); 2];
    let mut writer = new_writer(Codecs::Gzip, 8);
    for rec in raw_records.iter() {
        writer.push_record(rec.as_slice()).unwrap();
    }
    let (buf, total_bytes_written) = writer.finish().unwrap();
    assert_eq!(total_bytes_written as usize, buf.len());
    let fi = FileInfo::parse(buf.as_slice()).unwrap();
    assert_eq!(fi.version, [1, 0]);
    // Recover Pos and Mapq for both records from the file body.
    let pos_blocks = &writer.file_meta.field_blocks[field_index(&Fields::Pos)];
    assert_eq!(pos_blocks.len(), 1);
    let b = &pos_blocks[0];
    let raw = &buf[b.seekpos as usize..(b.seekpos + b.block_size as u64) as usize];
    let pos_bytes = decompress_bytes(Codecs::Gzip, raw).unwrap();
    assert_eq!(b.numitems, 2);
    for i in 0..2usize {
        let orig_pos = u32::from_le_bytes(raw_records[i][4..8].try_into().unwrap());
        let got = u32::from_le_bytes(pos_bytes[4 * i..4 * i + 4].try_into().unwrap());
        assert_eq!(got, orig_pos);
    }
    let mapq_blocks = &writer.file_meta.field_blocks[field_index(&Fields::Mapq)];
    let mb = &mapq_blocks[0];
    let mraw = &buf[mb.seekpos as usize..(mb.seekpos + mb.block_size as u64) as usize];
    let mapq_bytes = decompress_bytes(Codecs::Gzip, mraw).unwrap();
    assert_eq!(mapq_bytes, vec![0u8, 0u8]);
}

#[test]
fn empty_stream_catalog_is_empty() {
    let mut writer = new_writer(Codecs::Gzip, 2);
    let (buf, total) = writer.finish().unwrap();
    let fi = FileInfo::parse(buf.as_slice()).unwrap();
    assert_eq!(fi.seekpos as usize, FILE_INFO_SIZE);
    assert_eq!(total as usize, FILE_INFO_SIZE + (buf.len() - FILE_INFO_SIZE));
    for bl in writer.file_meta.field_blocks.iter() {
        assert!(bl.is_empty());
    }
    // catalog json parses and has empty block lists
    let v: serde_json::Value = serde_json::from_slice(&buf[fi.seekpos as usize..]).unwrap();
    assert_eq!(v["field_to_blocks"]["Pos"].as_array().unwrap().len(), 0);
    assert_eq!(v["field_to_codec"]["Pos"].as_str().unwrap(), "Gzip");
}

#[test]
fn crc_matches_and_detects_corruption() {
    let mut writer = new_writer(Codecs::Lz4, 3);
    writer.push_record(zero_record().as_slice()).unwrap();
    let (mut buf, _total) = writer.finish().unwrap();
    let fi = FileInfo::parse(buf.as_slice()).unwrap();
    let crc = calc_crc_for_meta_bytes(&buf[fi.seekpos as usize..]);
    assert_eq!(crc, fi.crc32);
    // flip one byte inside the JSON region: the check must fail
    let at = fi.seekpos as usize + 3;
    buf[at] ^= 0xFF;
    let crc2 = calc_crc_for_meta_bytes(&buf[fi.seekpos as usize..]);
    assert_ne!(crc2, fi.crc32);
}

#[test]
fn flush_boundary_makes_two_pos_blocks() {
    let n = SIZE_LIMIT / 4 + 1;
    let mut writer = new_writer(Codecs::NoCompression, 2);
    for _ in 0..n {
        writer.push_record(zero_record().as_slice()).unwrap();
    }
    let (_buf, _total) = writer.finish().unwrap();
    let pos_blocks = &writer.file_meta.field_blocks[field_index(&Fields::Pos)];
    assert_eq!(pos_blocks.len(), 2);
    assert_eq!(pos_blocks[0].numitems as usize, SIZE_LIMIT / 4);
    assert_eq!(pos_blocks[1].numitems, 1);
}

#[test]
fn oversized_variable_record_single_block() {
    // one record whose sequence region spans twice the block cap
    let l_seq: u32 = (2 * SIZE_LIMIT) as u32 * 2; // bases; packed two to a byte
    let seq_bytes = (l_seq as usize + 1) / 2;
    let mut rec = vec![0u8; 32 + seq_bytes + l_seq as usize];
    rec[16..20].copy_from_slice(&l_seq.to_le_bytes());
    let mut writer = new_writer(Codecs::NoCompression, 2);
    writer.push_record(rec.as_slice()).unwrap();
    let (_buf, _total) = writer.finish().unwrap();
    let blocks = &writer.file_meta.field_blocks[field_index(&Fields::RawSequence)];
    assert_eq!(blocks.len(), 1);
    assert_eq!(blocks[0].numitems, 1);
    assert!(blocks[0].block_size as usize >= SIZE_LIMIT);
    let pos_blocks = &writer.file_meta.field_blocks[field_index(&Fields::Pos)];
    assert_eq!(pos_blocks.len(), 1);
}

#[test]
fn parallel_ordering_counts_and_content() {
    let n: u32 = 10000;
    let mut writer = new_writer(Codecs::NoCompression, 8);
    for i in 0..n {
        let mut rec = zero_record();
        rec[4..8].copy_from_slice(&i.to_le_bytes());
        writer.push_record(rec.as_slice()).unwrap();
    }
    let (buf, _total) = writer.finish().unwrap();
    // every field covers all records
    for bl in writer.file_meta.field_blocks.iter() {
        let sum: u64 = bl.iter().map(|m| m.numitems as u64).sum();
        assert_eq!(sum, n as u64);
    }
    // decoded Pos stream equals the input concatenation, in order
    let pos_blocks = &writer.file_meta.field_blocks[field_index(&Fields::Pos)];
    let mut stream: Vec<u8> = Vec::new();
    for m in pos_blocks.iter() {
        let raw = &buf[m.seekpos as usize..(m.seekpos + m.block_size as u64) as usize];
        stream.extend_from_slice(&decompress_bytes(Codecs::NoCompression, raw).unwrap());
    }
    for i in 0..n {
        let got = u32::from_le_bytes(stream[4 * i as usize..4 * i as usize + 4].try_into().unwrap());
        assert_eq!(got, i);
    }
    // adjacent blocks of one field never overlap and move forward
    for bl in writer.file_meta.field_blocks.iter() {
        for w in bl.windows(2) {
            assert!(w[0].seekpos + w[0].block_size as u64 <= w[1].seekpos);
        }
    }
}

#[test]
fn variable_index_matches_payload() {
    let mut writer = new_writer(Codecs::NoCompression, 2);
    // two records with read names of different lengths
    for ln in [4u8, 7u8] {
        let mut rec = vec![0u8; 32 + ln as usize];
        rec[8] = ln;
        for k in 0..ln as usize {
            rec[32 + k] = b'a' + k as u8;
        }
        writer.push_record(rec.as_slice()).unwrap();
    }
    let (buf, _total) = writer.finish().unwrap();
    let name_blocks = &writer.file_meta.field_blocks[field_index(&Fields::ReadName)];
    let idx_blocks = &writer.file_meta.field_blocks[field_index(&Fields::LName)];
    assert_eq!(name_blocks.len(), 1);
    assert_eq!(idx_blocks.len(), 1);
    assert_eq!(name_blocks[0].numitems, idx_blocks[0].numitems);
    let m = &idx_blocks[0];
    let idx = decompress_bytes(
        Codecs::NoCompression,
        &buf[m.seekpos as usize..(m.seekpos + m.block_size as u64) as usize],
    )
    .unwrap();
    let end0 = u32::from_le_bytes(idx[0..4].try_into().unwrap());
    let end1 = u32::from_le_bytes(idx[4..8].try_into().unwrap());
    assert_eq!(end0, 4);
    assert_eq!(end1, 11);
    let p = &name_blocks[0];
    let payload = decompress_bytes(
        Codecs::NoCompression,
        &buf[p.seekpos as usize..(p.seekpos + p.block_size as u64) as usize],
    )
    .unwrap();
    assert_eq!(&payload[0..end0 as usize], b"abcd");
    assert_eq!(&payload[end0 as usize..end1 as usize], b"abcdefg");
}

#[test]
fn codec_round_trips() {
    let data: Vec<u8> = (0..200u8).cycle().take(5000).collect();
    for codec in [Codecs::Gzip, Codecs::Lz4, Codecs::NoCompression] {
        let enc = compress_bytes(codec, data.as_slice());
        let dec = decompress_bytes(codec, enc.as_slice()).unwrap();
        assert_eq!(dec, data);
    }
    // a compressing codec must actually change repetitive bytes
    let enc = compress_bytes(Codecs::Gzip, &vec![7u8; 4096]);
    assert!(enc.len() < 4096);
}

#[test]
fn stats_track_min_and_max() {
    let mut writer = Writer::new(
        vec![Codecs::NoCompression],
        2,
        vec![Fields::Pos],
        vec![RefSeq { name: b"chr1".to_vec(), length: 1000 }],
    );
    for pos in [5u32, 2, 9] {
        let mut rec = zero_record();
        rec[4..8].copy_from_slice(&pos.to_le_bytes());
        writer.push_record(rec.as_slice()).unwrap();
    }
    let (buf, _total) = writer.finish().unwrap();
    let pos_blocks = &writer.file_meta.field_blocks[field_index(&Fields::Pos)];
    let m = &pos_blocks[0];
    // lexicographic over little-endian bytes: 2 -> [2,0,0,0] is the minimum
    assert_eq!(m.min_value.as_ref().unwrap(), &vec![2u8, 0, 0, 0]);
    assert_eq!(m.max_value.as_ref().unwrap(), &vec![9u8, 0, 0, 0]);
    let fi = FileInfo::parse(buf.as_slice()).unwrap();
    let v: serde_json::Value = serde_json::from_slice(&buf[fi.seekpos as usize..]).unwrap();
    let refs = v["sam_header"]["reference_sequences"].as_array().unwrap();
    assert_eq!(refs[0]["name"].as_str().unwrap(), "chr1");
    assert_eq!(refs[0]["length"].as_i64().unwrap(), 1000);
    assert_eq!(
        v["field_to_blocks"]["Pos"][0]["min_value"][0].as_u64().unwrap(),
        2
    );
}

#[test]
fn inner_buffer_accepts_and_counts() {
    let mut inner = Inner::new(Fields::Pos, false);
    assert!(!inner.flush_required(&[0u8; 4]));
    inner.write_data(&[1, 2, 3, 4]);
    assert_eq!(inner.rec_count, 1);
    assert_eq!(inner.buffer, vec![1, 2, 3, 4]);
    inner.reset_for_new_block();
    assert_eq!(inner.rec_count, 0);
    assert_eq!(inner.block_num, 1);
    assert!(inner.buffer.is_empty());
    // resetting again only advances the block number
    inner.reset_for_new_block();
    assert_eq!(inner.rec_count, 0);
    assert_eq!(inner.block_num, 2);
    assert!(inner.buffer.is_empty());
}

#[test]
fn reference_names_are_escaped() {
    let mut writer = Writer::new_no_stats(
        vec![Codecs::NoCompression],
        1,
        vec![RefSeq { name: b"chr\"1\\x\x01".to_vec(), length: 7 }],
    );
    let (buf, _total) = writer.finish().unwrap();
    let fi = FileInfo::parse(buf.as_slice()).unwrap();
    let v: serde_json::Value = serde_json::from_slice(&buf[fi.seekpos as usize..]).unwrap();
    let refs = v["sam_header"]["reference_sequences"].as_array().unwrap();
    assert_eq!(refs[0]["name"].as_str().unwrap(), "chr\"1\\x\u{1}");
    assert_eq!(refs[0]["length"].as_i64().unwrap(), 7);
}
