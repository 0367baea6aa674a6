use watchtower::spillover::{encode_frame, Replay, Step, Verdict, HEADER_SIZE};

fn replay_all(bytes: Vec<u8>) -> (Vec<Vec<u8>>, usize, bool) {
    let mut replay = Replay::new(bytes);
    let mut batches = Vec::new();
    let mut skipped = 0;
    loop {
        match replay.next() {
            Step::Batch(data) => {
                assert_eq!(replay.settle(data.len(), true), Verdict::Continue);
                batches.push(data);
            }
            Step::Corrupt { expected, actual } => {
                assert_ne!(expected, actual);
                skipped += 1;
            }
            Step::Finished { replayed } => {
                assert_eq!(replayed, batches.iter().map(|b| b.len()).sum::<usize>());
                return (batches, skipped, true);
            }
            Step::Cut => return (batches, skipped, false),
        }
    }
}

fn file(batches: &[&[u8]]) -> Vec<u8> {
    batches.iter().flat_map(|b| encode_frame(b)).collect()
}

#[test]
fn frames_hold_length_checksum_and_bytes() {
    let frame = encode_frame(b"123456789");
    assert_eq!(frame[..4], [9, 0, 0, 0]);
    assert_eq!(frame[4..8], 0xcbf43926u32.to_le_bytes());
    assert_eq!(&frame[8..], b"123456789");
    assert_eq!(encode_frame(b""), vec![0; HEADER_SIZE]);
}

#[test]
fn test_spillover_write_and_replay() {
    let bytes = file(&[b"aaaaa", b"bbb", b"cc"]);
    assert!(!bytes.is_empty());
    let (batches, skipped, whole) = replay_all(bytes);
    assert_eq!(batches.iter().map(|b| b.len()).sum::<usize>(), 10);
    assert_eq!(batches, vec![b"aaaaa".to_vec(), b"bbb".to_vec(), b"cc".to_vec()]);
    assert_eq!(skipped, 0);
    assert!(whole);
}

#[test]
fn test_spillover_crc_integrity() {
    let mut bytes = file(&[b"one record", b"two"]);
    bytes[HEADER_SIZE + 1] ^= 0xFF;
    let (batches, skipped, whole) = replay_all(bytes);
    assert_eq!(batches, vec![b"two".to_vec()]);
    assert_eq!(skipped, 1);
    assert!(whole);
}

#[test]
fn every_changed_byte_is_noticed() {
    let whole = file(&[b"first", b"second", b"third"]);
    let start = file(&[b"first"]).len() + HEADER_SIZE;
    for at in start..start + 6 {
        for flip in 1..=255u8 {
            let mut bytes = whole.clone();
            bytes[at] ^= flip;
            let (batches, skipped, _) = replay_all(bytes);
            assert_eq!(batches, vec![b"first".to_vec(), b"third".to_vec()]);
            assert_eq!(skipped, 1);
        }
    }
}

#[test]
fn interrupted_appends_lose_nothing_else() {
    let bytes = file(&[b"first", b"second"]);
    let first = file(&[b"first"]).len();
    for end in first..bytes.len() {
        let (batches, skipped, whole) = replay_all(bytes[..end].to_vec());
        assert_eq!(batches, vec![b"first".to_vec()]);
        assert_eq!(skipped, 0);
        assert_eq!(whole, end - first < HEADER_SIZE);
    }
    assert_eq!(replay_all(bytes).0.len(), 2);
    assert_eq!(replay_all(Vec::new()), (vec![], 0, true));
}

#[test]
fn a_refused_batch_pauses_the_replay() {
    let mut replay = Replay::new(file(&[b"a", b"b"]));
    assert!(matches!(replay.next(), Step::Batch(_)));
    assert_eq!(replay.settle(4, true), Verdict::Continue);
    assert!(matches!(replay.next(), Step::Batch(_)));
    assert_eq!(replay.settle(3, false), Verdict::Paused { replayed: 7 });
    assert_eq!(replay.count(), 7);
}
