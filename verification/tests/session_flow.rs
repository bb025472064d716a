use sha1::Digest;
use sha1::Sha1;
use torrent_engine::coordinator::generate_peer_id;
use torrent_engine::coordinator::seed_queue;
use torrent_engine::coordinator::worker_mode;
use torrent_engine::coordinator::WorkerMode;
use torrent_engine::integrity::check_piece;
use torrent_engine::queue::PieceQueue;
use torrent_engine::session::block_request_length;
use torrent_engine::session::number_of_blocks;
use torrent_engine::session::piece_byte_length;
use torrent_engine::session::NextPiece;
use torrent_engine::session::PieceOutcome;
use torrent_engine::session::SessionState;
use torrent_engine::session::StepOutcome;
use torrent_engine::status::DownloadStatus;
use torrent_engine::BLOCK_SIZE;

fn sha1_of(data: &[u8]) -> Vec<u8> {
    Sha1::digest(data).to_vec()
}

/// Delivers `payload` to the session the way a peer frame exchange does.
fn serve_block(session: &mut SessionState, queue: &mut PieceQueue, payload: &[u8]) -> StepOutcome {
    session.on_messages(queue, &piece_msgs(payload))
}

/// One decoded-frame vector holding a single `piece` frame for `payload`.
fn piece_msgs(payload: &[u8]) -> Vec<Vec<u8>> {
    let len = (payload.len() + 9) as u32;
    let mut v = Vec::new();
    v.extend_from_slice(&len.to_be_bytes());
    v.push(7u8);
    v.extend_from_slice(&0u32.to_be_bytes());
    v.extend_from_slice(&0u32.to_be_bytes());
    v.extend_from_slice(payload);
    vec![v]
}

fn choke_msgs() -> Vec<Vec<u8>> {
    vec![vec![0u8, 0, 0, 1, 0]]
}

#[test]
fn single_piece_download() {
    // One 16384-byte piece of 'A', one cooperative peer with bitfield [0x01].
    let content = vec![0x41u8; 16384];
    let expected = sha1_of(&content);
    let mut queue = PieceQueue::new();
    queue.push_back(0);
    let mut status = DownloadStatus::new(1);
    let mut session = SessionState::new(vec![0x01], 1, 16384);

    assert_eq!(session.next_piece(&mut queue), NextPiece::Download(0));
    assert_eq!(number_of_blocks(16384), 1);
    let outcome = session.on_messages(&mut queue, &piece_msgs(&content));
    assert_eq!(outcome, StepOutcome::Continue);
    match session.finish_piece(&mut queue, &expected) {
        PieceOutcome::Verified(index, bytes) => {
            assert_eq!(index, 0);
            assert_eq!(bytes, content);
        }
        _ => panic!("piece did not verify"),
    }
    assert!(status.record_piece());
    assert_eq!(status.pieces_downloaded, 1);
    assert_eq!(session.next_piece(&mut queue), NextPiece::QueueEmpty);
    assert!(session.terminated);
}

#[test]
fn corrupt_piece_is_requeued_until_budget() {
    // Two pieces; piece 0 serves correctly, piece 1 arrives corrupted.
    let good = vec![0x41u8; BLOCK_SIZE];
    let mut bad = vec![0x42u8; BLOCK_SIZE];
    bad[17] ^= 0xFF;
    let hashes = [sha1_of(&good), sha1_of(&vec![0x42u8; BLOCK_SIZE])];
    let mut queue = PieceQueue::new();
    queue.push_back(0);
    queue.push_back(1);
    let mut status = DownloadStatus::new(2);
    let mut session = SessionState::new(vec![0x03], 2, BLOCK_SIZE);

    assert_eq!(session.next_piece(&mut queue), NextPiece::Download(0));
    serve_block(&mut session, &mut queue, &good);
    assert!(matches!(
        session.finish_piece(&mut queue, &hashes[0]),
        PieceOutcome::Verified(0, _)
    ));
    assert!(status.record_piece());

    // The corrupted piece fails, goes back to the tail, and after five
    // failures in all the session terminates.
    for round in 0..5 {
        assert_eq!(session.next_piece(&mut queue), NextPiece::Download(1));
        serve_block(&mut session, &mut queue, &bad);
        let out = session.finish_piece(&mut queue, &hashes[1]);
        if round < 4 {
            assert!(matches!(out, PieceOutcome::HashMismatch));
            assert!(!session.terminated);
        } else {
            assert!(matches!(out, PieceOutcome::FailBudget));
            assert!(session.terminated);
        }
    }
    assert_eq!(status.pieces_downloaded, 1);
    assert_eq!(queue.len(), 1);
    assert_eq!(queue.pop_front(), Some(1));
}

#[test]
fn bitfield_miss_rotates_and_exhausts_budget() {
    // The peer has only piece 1 of two.
    let mut queue = PieceQueue::new();
    queue.push_back(0);
    queue.push_back(1);
    let mut session = SessionState::new(vec![0x02], 2, BLOCK_SIZE);

    // Index 0 misses once and goes to the tail; index 1 is downloadable.
    assert_eq!(session.next_piece(&mut queue), NextPiece::Download(1));
    assert_eq!(session.fails, 1);
    let content = vec![0x43u8; BLOCK_SIZE];
    serve_block(&mut session, &mut queue, &content);
    assert!(matches!(
        session.finish_piece(&mut queue, &sha1_of(&content)),
        PieceOutcome::Verified(1, _)
    ));

    // Only the missing index remains: four more misses exhaust the budget.
    assert_eq!(session.next_piece(&mut queue), NextPiece::FailBudget);
    assert_eq!(session.fails, 5);
    assert!(session.terminated);
    assert_eq!(queue.len(), 1);
    assert_eq!(queue.pop_front(), Some(0));
}

#[test]
fn misses_rotate_to_tail_in_order() {
    // Peer has only piece 2: indices 0 and 1 each cost a failure and rotate
    // to the tail, in order, before 2 is checked out.
    let mut queue = PieceQueue::new();
    queue.push_back(0);
    queue.push_back(1);
    queue.push_back(2);
    let mut session = SessionState::new(vec![0x04], 3, BLOCK_SIZE);
    assert_eq!(session.next_piece(&mut queue), NextPiece::Download(2));
    assert_eq!(session.fails, 2);
    assert_eq!(queue.pop_front(), Some(0));
    assert_eq!(queue.pop_front(), Some(1));
    assert_eq!(queue.pop_front(), None);
}

#[test]
fn four_chokes_requeue_and_terminate() {
    let mut queue = PieceQueue::new();
    queue.push_back(0);
    let mut session = SessionState::new(vec![0x01], 1, BLOCK_SIZE);
    assert_eq!(session.next_piece(&mut queue), NextPiece::Download(0));

    for round in 0..4 {
        let out = session.on_messages(&mut queue, &choke_msgs());
        if round < 3 {
            assert_eq!(out, StepOutcome::Continue);
            assert!(!session.terminated);
        } else {
            assert_eq!(out, StepOutcome::Terminate);
            assert!(session.terminated);
        }
    }
    assert_eq!(session.times_choked, 4);
    // The held index went back to the queue; nothing was delivered.
    assert_eq!(queue.len(), 1);
    assert_eq!(queue.pop_front(), Some(0));
}

#[test]
fn coalesced_unchoke_does_not_count_as_choke() {
    // An `unchoke` control frame coalesced with a full piece frame.
    let content = vec![0x44u8; BLOCK_SIZE];
    let mut msgs = piece_msgs(&content);
    msgs.insert(0, vec![0u8, 0, 0, 1, 1]);
    let mut queue = PieceQueue::new();
    queue.push_back(0);
    let mut session = SessionState::new(vec![0x01], 1, BLOCK_SIZE);
    assert_eq!(session.next_piece(&mut queue), NextPiece::Download(0));
    assert_eq!(session.on_messages(&mut queue, &msgs), StepOutcome::Continue);
    assert_eq!(session.times_choked, 0);
    assert!(matches!(
        session.finish_piece(&mut queue, &sha1_of(&content)),
        PieceOutcome::Verified(0, _)
    ));
}

#[test]
fn undecodable_frame_is_fatal_and_requeues() {
    let mut queue = PieceQueue::new();
    queue.push_back(0);
    let mut session = SessionState::new(vec![0x01], 1, BLOCK_SIZE);
    assert_eq!(session.next_piece(&mut queue), NextPiece::Download(0));
    let out = session.on_messages(&mut queue, &vec![vec![0u8, 0, 0, 1, 9]]);
    assert_eq!(out, StepOutcome::Terminate);
    assert!(session.terminated);
    assert_eq!(queue.pop_front(), Some(0));
}

#[test]
fn overflow_abandons_piece_but_continues() {
    let mut queue = PieceQueue::new();
    queue.push_back(0);
    let mut session = SessionState::new(vec![0x01], 1, BLOCK_SIZE);
    assert_eq!(session.next_piece(&mut queue), NextPiece::Download(0));
    let out = session.piece_failed(&mut queue);
    assert_eq!(out, StepOutcome::Continue);
    assert!(!session.terminated);
    assert_eq!(session.fails, 1);
    assert_eq!(queue.len(), 1);
}

#[test]
fn multi_block_piece_assembles_in_order() {
    let piece_size = BLOCK_SIZE + 100;
    assert_eq!(number_of_blocks(piece_size), 2);
    let first = vec![0x45u8; BLOCK_SIZE];
    let second = vec![0x46u8; 100];
    let mut content = first.clone();
    content.extend_from_slice(&second);
    let mut queue = PieceQueue::new();
    queue.push_back(0);
    let mut session = SessionState::new(vec![0x01], 1, piece_size);
    assert_eq!(session.next_piece(&mut queue), NextPiece::Download(0));
    serve_block(&mut session, &mut queue, &first);
    serve_block(&mut session, &mut queue, &second);
    match session.finish_piece(&mut queue, &sha1_of(&content)) {
        PieceOutcome::Verified(0, bytes) => assert_eq!(bytes, content),
        _ => panic!("piece did not verify"),
    }
}

#[test]
fn queue_is_fifo() {
    let mut q = PieceQueue::new();
    q.push_back(3);
    q.push_back(1);
    q.push_back(2);
    assert_eq!(q.len(), 3);
    assert_eq!(q.pop_front(), Some(3));
    assert_eq!(q.pop_front(), Some(1));
    assert_eq!(q.pop_front(), Some(2));
    assert_eq!(q.pop_front(), None);
}

#[test]
fn seeded_queue_holds_every_index_once() {
    let mut q = seed_queue(16);
    assert_eq!(q.len(), 16);
    let mut got = Vec::new();
    while let Some(i) = q.pop_front() {
        got.push(i);
    }
    got.sort();
    let expected: Vec<usize> = (0..16).collect();
    assert_eq!(got, expected);
}

#[test]
fn peer_id_is_twenty_bytes() {
    assert_eq!(generate_peer_id().len(), 20);
}

#[test]
fn worker_mode_thresholds() {
    assert_eq!(worker_mode(0), WorkerMode::Done);
    assert_eq!(worker_mode(1), WorkerMode::Inline);
    assert_eq!(worker_mode(9), WorkerMode::Inline);
    assert_eq!(worker_mode(10), WorkerMode::Spawn);
    assert_eq!(worker_mode(50), WorkerMode::Spawn);
}

#[test]
fn status_counts_each_piece_once() {
    let mut status = DownloadStatus::new(1);
    assert!(status.record_piece());
    assert!(!status.record_piece());
    assert_eq!(status.pieces_downloaded, 1);
}

#[test]
fn progress_line_format() {
    let mut status = DownloadStatus::new(4);
    assert!(status.record_piece());
    assert_eq!(status.progress_line(2), "[1/4, 25%] Piece 2 downloaded");
}

#[test]
fn check_piece_against_known_digest() {
    // SHA-1 of "abc", written out independently of the hashing crate.
    let expected = vec![
        0xa9u8, 0x99, 0x3e, 0x36, 0x47, 0x06, 0x81, 0x6a, 0xba, 0x3e, 0x25, 0x71, 0x78, 0x50,
        0xc2, 0x6c, 0x9c, 0xd0, 0xd8, 0x9d,
    ];
    assert!(check_piece(&vec![0x61, 0x62, 0x63], &expected));
    assert!(!check_piece(&vec![0x61, 0x62, 0x64], &expected));
    assert!(!check_piece(&Vec::new(), &expected));
}

#[test]
fn final_piece_and_block_are_shorter() {
    // 3 pieces of 16384 bytes over 40000 bytes of content: the last piece
    // holds 7232 bytes, and its only block is requested at that length.
    assert_eq!(piece_byte_length(16384, 40000, 0), 16384);
    assert_eq!(piece_byte_length(16384, 40000, 1), 16384);
    assert_eq!(piece_byte_length(16384, 40000, 2), 7232);
    assert_eq!(block_request_length(7232, 0), 7232);
    assert_eq!(block_request_length(BLOCK_SIZE + 100, 0), BLOCK_SIZE);
    assert_eq!(block_request_length(BLOCK_SIZE + 100, 1), 100);
}

#[test]
fn number_of_blocks_rounds_up() {
    assert_eq!(number_of_blocks(BLOCK_SIZE), 1);
    assert_eq!(number_of_blocks(BLOCK_SIZE + 1), 2);
    assert_eq!(number_of_blocks(4 * BLOCK_SIZE), 4);
}
