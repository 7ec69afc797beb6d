use mcrizzledizzle::config::WorldConfig;
use mcrizzledizzle::level::{
    is_chunkable, level_chunk_packets, level_data_payload, send_level_data, sent_chunk_count_of,
};
use mcrizzledizzle::protocol::{read_short, stream_write_short};
use mcrizzledizzle::world::{World, WorldError};

fn config(x: i16, y: i16, z: i16) -> WorldConfig {
    WorldConfig { world: "w.wrld".to_string(), size_x: x, size_y: y, size_z: z }
}

#[test]
fn build_lays_dirt_grass_and_air() {
    let data = World::build(2, 17, 3);
    assert_eq!(data.len(), 2 * 17 * 3);
    for (i, b) in data.iter().enumerate() {
        let layer = i / 6;
        let expected = if layer < 15 { 3 } else if layer == 15 { 2 } else { 0 };
        assert_eq!(*b, expected);
    }
}

#[test]
fn build_of_empty_or_negative_size_is_empty() {
    assert!(World::build(0, 5, 5).is_empty());
    assert!(World::build(-3, 5, 5).is_empty());
    assert!(World::build(5, -1, 5).is_empty());
}

#[test]
fn load_without_file_generates() {
    let w = World::load(&config(4, 20, 3), None).unwrap();
    assert_eq!((w.size_x, w.size_y, w.size_z), (4, 20, 3));
    assert_eq!(w.data, World::build(4, 20, 3));
}

#[test]
fn saved_world_loads_back() {
    let mut w = World::generate(&config(4, 20, 3));
    w.data[5] = 9;
    let data = w.data.clone();
    let bytes = w.save();
    assert_eq!(&bytes[..6], &[0, 4, 0, 20, 0, 3]);
    assert!(w.data.is_empty());
    assert!(!World::header_overflows(&bytes));
    let back = World::load(&config(1, 1, 1), Some(bytes)).unwrap();
    assert_eq!((back.size_x, back.size_y, back.size_z), (4, 20, 3));
    assert_eq!(back.data, data);
}

#[test]
fn world_file_errors() {
    assert_eq!(World::decode(&[0, 1, 0, 1]).unwrap_err(), WorldError::InvalidWorldFile);
    // size_x = 513 is beyond the limit
    assert_eq!(World::decode(&[2, 1, 0, 1, 0, 1, 0]).unwrap_err(), WorldError::InvalidWorldFile);
    // one cell declared, two given
    assert_eq!(World::decode(&[0, 1, 0, 1, 0, 1, 7, 7]).unwrap_err(), WorldError::InvalidWorldFile);
    let ok = World::decode(&[0, 1, 0, 1, 0, 1, 7]).unwrap();
    assert_eq!(ok.data, vec![7]);
    // two negative sizes multiply to a positive volume
    let neg = World::decode(&[0xFF, 0xFF, 0xFF, 0xFF, 0, 1, 9]).unwrap();
    assert_eq!((neg.size_x, neg.size_y, neg.size_z), (-1, -1, 1));
}

#[test]
fn header_overflow_is_detected() {
    assert!(World::header_overflows(&[0x80, 0x00, 0x80, 0x00, 0x02, 0x00]));
    assert!(!World::header_overflows(&[0x02, 0x00, 0x01, 0x00, 0x02, 0x00]));
    assert!(!World::header_overflows(&[0x80, 0x00]));
}

#[test]
fn block_offsets() {
    let w = World::generate(&config(4, 4, 4));
    assert_eq!(w.block_offset(1, 2, 3), Some(1 + 3 * 4 + 2 * 16));
    assert_eq!(w.block_offset(3, 3, 3), Some(63));
    assert_eq!(w.block_offset(4, 3, 3), None);
    assert_eq!(w.block_offset(-1, 0, 0), None);
    assert_eq!(w.block_offset(0, 0, -1), None);
}

#[test]
fn short_roundtrip_for_every_value() {
    for x in i16::MIN..=i16::MAX {
        let b = stream_write_short(x);
        assert_eq!(read_short(b[0], b[1]), x);
    }
}

#[test]
fn level_prefix_counts_inserted_bytes() {
    let p = level_data_payload(&vec![0u8; 300]);
    assert_eq!(&p[..4], &[0, 0, 1, 44]);
    assert_eq!(p.len(), 304);
    let q = level_data_payload(&vec![5u8; 255]);
    assert_eq!(&q[..4], &[0, 0, 1, 255]);
}

#[test]
fn level_chunks_are_padded() {
    let z = vec![1u8; 1500];
    let packets = level_chunk_packets(&z);
    assert_eq!(packets.len(), 2 * 1028);
    assert_eq!(&packets[..3], &[3, 4, 0]);
    assert!(packets[3..1027].iter().all(|b| *b == 1));
    assert_eq!(packets[1027], 0);
    assert_eq!(&packets[1028..1031], &[3, 1, 220]);
    assert!(packets[1031..1031 + 476].iter().all(|b| *b == 1));
    assert!(packets[1031 + 476..2055].iter().all(|b| *b == 0));
    assert_eq!(packets[2055], 100);
}

#[test]
fn single_chunk_level() {
    let packets = level_chunk_packets(&vec![9u8; 1024]);
    assert_eq!(packets.len(), 1028);
    assert_eq!(&packets[..3], &[3, 4, 0]);
    assert_eq!(packets[1027], 100);
}

#[test]
fn level_data_is_gzip_in_chunks() {
    let w = World::generate(&config(16, 16, 16));
    let packets = send_level_data(&w).unwrap();
    assert_eq!(packets.len() % 1028, 0);
    assert_eq!(packets[0], 3);
    assert_eq!(&packets[3..5], &[0x1f, 0x8b]);
    assert_eq!(*packets.last().unwrap(), 100);
}

#[test]
fn level_packets_reassemble() {
    let z: Vec<u8> = (0..3000u32).map(|i| (i % 251) as u8).collect();
    let packets = level_chunk_packets(&z);
    let mut back = Vec::new();
    for packet in packets.chunks(1028) {
        assert_eq!(packet[0], 3);
        let size = u16::from_be_bytes([packet[1], packet[2]]) as usize;
        back.extend_from_slice(&packet[3..3 + size]);
    }
    assert_eq!(back, z);
}

#[test]
fn bytes_roundtrip_for_every_pair() {
    for hi in 0..=255u8 {
        for lo in 0..=255u8 {
            assert_eq!(stream_write_short(read_short(hi, lo)), vec![hi, lo]);
        }
    }
}

#[test]
fn world_file_rewrites_unchanged() {
    let raw = vec![0xFF, 0xFF, 0xFF, 0xFF, 0, 2, 4, 5];
    let mut w = World::decode(&raw).unwrap();
    assert_eq!(w.save(), raw);
}

#[test]
fn chunk_count_follows_single_precision() {
    assert_eq!(sent_chunk_count_of(0), 0);
    assert_eq!(sent_chunk_count_of(1), 1);
    assert_eq!(sent_chunk_count_of(1024), 1);
    assert_eq!(sent_chunk_count_of(1025), 2);
    assert_eq!(sent_chunk_count_of(0x100_0000), 16384);
    // 2^24 + 1 rounds down to 2^24 as a float: one chunk short.
    assert_eq!(sent_chunk_count_of(0x100_0001), 16384);
    assert_eq!(sent_chunk_count_of(0x100_0002), 16385);
    // 2^34 + 3072 rounds up to 2^34 + 4096: one chunk more than the bytes fill.
    assert_eq!(sent_chunk_count_of(17_179_872_256), 16_777_220);
}

#[test]
fn chunkable_lengths() {
    assert!(!is_chunkable(0));
    assert!(is_chunkable(1));
    assert!(is_chunkable(0x100_0000));
    assert!(!is_chunkable(0x100_0001));
    assert!(is_chunkable(0x100_0002));
    // All bytes fit in the full chunks, so no last packet is needed.
    assert!(is_chunkable(17_179_872_256));
    // 2^34 + 1024 rounds down to 2^34: one chunk short.
    assert!(!is_chunkable(17_179_870_208));
}

#[test]
fn level_data_decompresses_to_payload() {
    assert_level_roundtrip(&World::generate(&config(16, 16, 16)));
    assert_level_roundtrip(&World::generate(&config(64, 32, 64)));
}

fn assert_level_roundtrip(w: &World) {
    let packets = send_level_data(w).unwrap();
    let mut stream = Vec::new();
    for packet in packets.chunks(1028) {
        let size = u16::from_be_bytes([packet[1], packet[2]]) as usize;
        stream.extend_from_slice(&packet[3..3 + size]);
    }
    let mut decoded = Vec::new();
    std::io::Read::read_to_end(&mut flate2::read::GzDecoder::new(&stream[..]), &mut decoded).unwrap();
    assert_eq!(decoded, level_data_payload(&w.data));
}
