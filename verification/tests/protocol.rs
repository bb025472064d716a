use torrent_engine::bitfield::bitfield_expected_length;
use torrent_engine::bitfield::bitfield_has_piece;
use torrent_engine::framer::Framer;
use torrent_engine::framer::FramerStatus;
use torrent_engine::messages::create_interested_msg;
use torrent_engine::messages::create_request_msg;
use torrent_engine::messages::create_unchoke_msg;
use torrent_engine::messages::read_message;
use torrent_engine::messages::MessageError;
use torrent_engine::text::u64_to_decimal;
use torrent_engine::torrent::FileInfo;
use torrent_engine::torrent::TorrentData;
use torrent_engine::tracker::bytes_to_url;
use torrent_engine::tracker::create_tcp_tracker_url;
use torrent_engine::tracker::parse_compact_peers;
use torrent_engine::tracker::u8_decimal_to_hex;
use torrent_engine::BLOCK_SIZE;

/// A full `piece` frame carrying `payload` for `index` at offset `begin`.
fn piece_frame(index: u32, begin: u32, payload: &[u8]) -> Vec<u8> {
    let len = (payload.len() + 9) as u32;
    let mut v = Vec::new();
    v.extend_from_slice(&len.to_be_bytes());
    v.push(7u8);
    v.extend_from_slice(&index.to_be_bytes());
    v.extend_from_slice(&begin.to_be_bytes());
    v.extend_from_slice(payload);
    v
}

#[test]
fn decode_choke() {
    let msg = vec![0u8, 0, 0, 1, 0];
    let (choked, payload) = read_message(&msg).unwrap();
    assert!(choked);
    assert!(payload.is_none());
}

#[test]
fn decode_unchoke_and_friends() {
    for id in [1u8, 2, 4, 8] {
        let msg = vec![0u8, 0, 0, 1, id];
        let (choked, payload) = read_message(&msg).unwrap();
        assert!(!choked);
        assert!(payload.is_none());
    }
}

#[test]
fn decode_keep_alive() {
    let msg = vec![0u8, 0, 0, 0];
    let (choked, payload) = read_message(&msg).unwrap();
    assert!(!choked);
    assert!(payload.is_none());
}

#[test]
fn decode_piece_strips_prefix() {
    let msg = piece_frame(3, 0, &[9u8, 8, 7, 6]);
    let (choked, payload) = read_message(&msg).unwrap();
    assert!(!choked);
    assert_eq!(payload.unwrap(), vec![9u8, 8, 7, 6]);
}

#[test]
fn decode_unknown_id() {
    let msg = vec![0u8, 0, 0, 1, 9];
    assert_eq!(read_message(&msg).unwrap_err(), MessageError::UnknownId);
    let msg = vec![0u8, 0, 0, 1, 3];
    assert_eq!(read_message(&msg).unwrap_err(), MessageError::UnknownId);
}

#[test]
fn decode_truncated() {
    let msg = vec![0u8, 0, 0];
    assert_eq!(read_message(&msg).unwrap_err(), MessageError::Truncated);
    let msg = vec![0u8, 0, 0, 9, 7, 0, 0];
    assert_eq!(read_message(&msg).unwrap_err(), MessageError::Truncated);
}

#[test]
fn request_frame_bytes() {
    let msg = create_request_msg(1, 16384, 16384);
    assert_eq!(
        msg,
        vec![0u8, 0, 0, 13, 6, 0, 0, 0, 1, 0, 0, 0x40, 0, 0, 0, 0x40, 0]
    );
}

#[test]
fn control_frame_bytes() {
    assert_eq!(create_unchoke_msg(), vec![0u8, 0, 0, 1, 1]);
    assert_eq!(create_interested_msg(), vec![0u8, 0, 0, 1, 2]);
}

#[test]
fn bitfield_bit_positions() {
    let b = vec![0x01u8];
    assert!(bitfield_has_piece(&b, 0));
    for i in 1..8 {
        assert!(!bitfield_has_piece(&b, i));
    }
    let b = vec![0x02u8];
    assert!(!bitfield_has_piece(&b, 0));
    assert!(bitfield_has_piece(&b, 1));
    let b = vec![0x00u8, 0x10];
    assert!(bitfield_has_piece(&b, 12));
    assert!(!bitfield_has_piece(&b, 11));
}

#[test]
fn bitfield_length() {
    assert_eq!(bitfield_expected_length(1), 1);
    assert_eq!(bitfield_expected_length(8), 1);
    assert_eq!(bitfield_expected_length(9), 2);
    assert_eq!(bitfield_expected_length(16), 2);
}

#[test]
fn hex_pairs() {
    assert_eq!(u8_decimal_to_hex(&0xAB), "AB");
    assert_eq!(u8_decimal_to_hex(&0x05), "05");
    assert_eq!(u8_decimal_to_hex(&0x00), "00");
    assert_eq!(u8_decimal_to_hex(&0xFF), "FF");
}

#[test]
fn percent_encoding_single_bytes() {
    assert_eq!(bytes_to_url(&vec![0x00]), "%00");
    assert_eq!(bytes_to_url(&vec![0xFF]), "%FF");
    assert_eq!(bytes_to_url(&vec![0x7E]), "%7E");
}

#[test]
fn percent_encoding_sequence() {
    assert_eq!(bytes_to_url(&vec![0x12, 0x34, 0xAB]), "%12%34%AB");
}

#[test]
fn decimal_rendering() {
    assert_eq!(u64_to_decimal(0), "0");
    assert_eq!(u64_to_decimal(10), "10");
    assert_eq!(u64_to_decimal(65535), "65535");
}

#[test]
fn tracker_url_contains_encoded_hash() {
    let mut info_hash = vec![0x12u8, 0x34, 0xAB, 0xCD, 0xEF, 0x00];
    info_hash.resize(20, 0x11);
    let peer_id: Vec<u8> = vec![0x41; 20];
    let td = TorrentData {
        piece_length: 16384,
        pieces: vec![vec![0u8; 20]],
        files: vec![FileInfo { path: String::from("a.txt"), size: 16384 }],
    };
    let url = create_tcp_tracker_url(String::from("http://tracker.example/announce"), &td, &peer_id, 7878, &info_hash);
    assert!(url.contains("%12%34%AB%CD%EF%00"));
    assert!(url.starts_with("http://tracker.example/announce?compact=1&downloaded=0&info_hash=%12%34%AB%CD%EF%00"));
    assert!(url.contains("&left=16384&"));
    assert!(url.contains("&port=7878&"));
    assert!(url.ends_with("&uploaded=0"));
}

#[test]
fn tracker_url_sums_file_sizes() {
    let td = TorrentData {
        piece_length: 4,
        pieces: vec![],
        files: vec![
            FileInfo { path: String::from("a"), size: 100 },
            FileInfo { path: String::from("b"), size: 23 },
        ],
    };
    let url = create_tcp_tracker_url(String::from("t"), &td, &vec![0u8; 20], 1, &vec![0u8; 20]);
    assert!(url.contains("&left=123&"));
}

#[test]
fn compact_peers() {
    let bytes = vec![127u8, 0, 0, 1, 0x1B, 0x39, 10, 0, 0, 2, 0, 80];
    let peers = parse_compact_peers(&bytes);
    assert_eq!(peers, vec![String::from("127.0.0.1:6969"), String::from("10.0.0.2:80")]);
}

#[test]
fn compact_peers_empty() {
    let peers = parse_compact_peers(&Vec::new());
    assert!(peers.is_empty());
}

#[test]
fn framer_split_read() {
    // One piece frame fed in reads of 7000 + 7000 + 2397 bytes.
    let payload = vec![0x41u8; BLOCK_SIZE];
    let frame = piece_frame(0, 0, &payload);
    assert_eq!(frame.len(), BLOCK_SIZE + 13);
    let mut f = Framer::new();
    let st = f.push_chunk(&frame[0..7000].to_vec());
    assert_eq!(st, FramerStatus::NeedMore);
    let st = f.push_chunk(&frame[7000..14000].to_vec());
    assert_eq!(st, FramerStatus::NeedMore);
    let st = f.push_chunk(&frame[14000..].to_vec());
    assert_eq!(st, FramerStatus::Complete);
    let msgs = f.messages();
    assert_eq!(msgs.len(), 1);
    let (choked, got) = read_message(&msgs[0]).unwrap();
    assert!(!choked);
    assert_eq!(got.unwrap(), payload);
}

#[test]
fn framer_byte_at_a_time_matches_whole() {
    let frame = vec![0u8, 0, 0, 1, 0];
    let mut f = Framer::new();
    let mut last = FramerStatus::NeedMore;
    for b in &frame {
        last = f.push_chunk(&vec![*b]);
    }
    assert_eq!(last, FramerStatus::Complete);
    let split_fed = f.messages();
    let mut g = Framer::new();
    assert_eq!(g.push_chunk(&frame), FramerStatus::Complete);
    let whole_fed = g.messages();
    assert_eq!(split_fed, whole_fed);
}

#[test]
fn framer_coalesced_control_and_piece() {
    let control = vec![0u8, 0, 0, 1, 1];
    let payload = vec![0x42u8; BLOCK_SIZE];
    let frame = piece_frame(0, 0, &payload);
    let mut f = Framer::new();
    let st = f.push_chunk(&control);
    assert_eq!(st, FramerStatus::Complete);
    let st = f.push_chunk(&frame);
    assert_eq!(st, FramerStatus::Coalesced);
    let msgs = f.messages();
    assert_eq!(msgs.len(), 2);
    assert_eq!(msgs[0], control);
    assert_eq!(msgs[1], frame);
}

#[test]
fn framer_overflow() {
    let mut f = Framer::new();
    let st = f.push_chunk(&vec![0u8; BLOCK_SIZE + 19]);
    assert_eq!(st, FramerStatus::Overflow);
    f.reset();
    assert_eq!(f.status(), FramerStatus::NeedMore);
}
