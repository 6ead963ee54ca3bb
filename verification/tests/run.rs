use file_splitter::chunks::calculate_num_chunks;
use file_splitter::crc::crc32;
use file_splitter::naming::get_part_name;
use file_splitter::splitter::{Action, Event, Phase, SplitError, Splitter};

/// Drives a splitter over a source held in memory. A read returns what is
/// left of the source, up to one chunk. Parts go to the returned list; where
/// `reference` is given, each part is held against the entry with its index.
fn run_in_memory(
    source: &[u8],
    chunk_size: usize,
    reference: Option<&[Vec<u8>]>,
) -> (Vec<(String, Vec<u8>)>, Action, Splitter) {
    let mut splitter = Splitter::new(chunk_size).expect("the chunk size is positive");
    let mut parts: Vec<(String, Vec<u8>)> = Vec::new();
    let mut buffer = vec![0u8; chunk_size];
    let mut offset = 0usize;
    let mut action = splitter.action();
    loop {
        let event = match action {
            Action::OpenSource => Event::Opened {
                file_name: "source".to_string(),
                file_size: source.len(),
            },
            Action::ReadChunk => {
                let count = chunk_size.min(source.len() - offset);
                buffer[..count].copy_from_slice(&source[offset..offset + count]);
                offset += count;
                Event::Read(count)
            }
            Action::WritePart { index, name, length } => {
                assert_eq!(index, parts.len());
                let mut written = buffer[..length].to_vec();
                let checksum = crc32(&mut written);
                parts.push((name, written));
                let reference = reference.map(|dir| crc32(&mut dir[index].clone()));
                Event::PartWritten { checksum, reference }
            }
            Action::Finish | Action::Abort(_) => return (parts, action, splitter),
        };
        assert!(splitter.accepts(&event));
        action = splitter.step(event);
    }
}

fn sample(length: usize) -> Vec<u8> {
    (0..length).map(|i| (i * 31 + 7) as u8).collect()
}

#[test]
fn zero_chunk_size_is_refused() {
    assert_eq!(Splitter::new(0).err(), Some(SplitError::ZeroChunkSize));
}

#[test]
fn positive_chunk_size_starts_by_opening_the_source() {
    let splitter = Splitter::new(2048).unwrap();
    assert_eq!(splitter.phase(), Phase::Opening);
    assert_eq!(splitter.chunk_size(), 2048);
    assert_eq!(splitter.part_number(), 0);
    assert_eq!(splitter.bytes_consumed(), 0);
    assert_eq!(splitter.action(), Action::OpenSource);
}

#[test]
fn ten_bytes_in_chunks_of_four() {
    let source = sample(10);
    let (parts, action, splitter) = run_in_memory(&source, 4, None);

    assert_eq!(action, Action::Finish);
    assert_eq!(splitter.phase(), Phase::Finished);
    assert_eq!(splitter.part_number(), 3);
    assert_eq!(splitter.bytes_consumed(), 10);
    assert_eq!(
        parts,
        vec![
            ("source.0".to_string(), source[0..4].to_vec()),
            ("source.1".to_string(), source[4..8].to_vec()),
            ("source.2".to_string(), source[8..10].to_vec()),
        ]
    );
}

#[test]
fn parts_joined_in_index_order_are_the_source() {
    for chunk_size in [1usize, 2, 3, 7, 16, 64, 100, 101, 4096] {
        for length in [0usize, 1, 2, 15, 16, 17, 99, 100, 101, 1000] {
            let source = sample(length);
            let (parts, action, _) = run_in_memory(&source, chunk_size, None);

            assert_eq!(action, Action::Finish);
            assert_eq!(parts.len(), calculate_num_chunks(length, chunk_size));
            let joined: Vec<u8> = parts.iter().flat_map(|(_, bytes)| bytes.clone()).collect();
            assert_eq!(joined, source);
            for (index, (name, bytes)) in parts.iter().enumerate() {
                assert_eq!(
                    *name,
                    get_part_name("source".to_string(), index, chunk_size, length)
                );
                if index + 1 < parts.len() {
                    assert_eq!(bytes.len(), chunk_size);
                } else if length % chunk_size == 0 {
                    assert_eq!(bytes.len(), chunk_size);
                } else {
                    assert_eq!(bytes.len(), length % chunk_size);
                }
            }
        }
    }
}

#[test]
fn empty_source_writes_no_part() {
    let (parts, action, splitter) = run_in_memory(&[], 2048, None);

    assert!(parts.is_empty());
    assert_eq!(action, Action::Finish);
    assert_eq!(splitter.part_number(), 0);
}

#[test]
fn run_over_more_than_a_thousand_chunks_names_parts_in_order() {
    let source = sample(1001);
    let (parts, action, _) = run_in_memory(&source, 1, None);

    assert_eq!(action, Action::Finish);
    assert_eq!(parts.len(), 1001);
    assert_eq!(parts[0].0, "source.0000");
    assert_eq!(parts[999].0, "source.0999");
    assert_eq!(parts[1000].0, "source.1000");
    let names: Vec<String> = parts.iter().map(|(name, _)| name.clone()).collect();
    let mut sorted = names.clone();
    sorted.sort();
    assert_eq!(sorted, names);
}

#[test]
fn identical_reference_lets_the_run_finish() {
    let source = sample(50);
    let (reference, _, _) = run_in_memory(&source, 8, None);
    let reference: Vec<Vec<u8>> = reference.into_iter().map(|(_, bytes)| bytes).collect();

    let (parts, action, splitter) = run_in_memory(&source, 8, Some(&reference));

    assert_eq!(action, Action::Finish);
    assert_eq!(parts.len(), 7);
    assert_eq!(splitter.bytes_consumed(), 50);
}

#[test]
fn changed_reference_stops_the_run_at_that_part() {
    let source = sample(50);
    let (good, _, _) = run_in_memory(&source, 8, None);
    let mut reference: Vec<Vec<u8>> = good.into_iter().map(|(_, bytes)| bytes).collect();
    reference[3][5] ^= 0x01;

    let (parts, action, mut splitter) = run_in_memory(&source, 8, Some(&reference));

    let part_checksum = crc32(&mut source[24..32].to_vec());
    let reference_checksum = crc32(&mut reference[3].clone());
    let error = SplitError::ChecksumMismatch { part_index: 3, part_checksum, reference_checksum };
    assert_ne!(part_checksum, reference_checksum);
    assert_eq!(action, Action::Abort(error));
    assert_eq!(splitter.phase(), Phase::Failed(error));
    // Parts 0 to 3 were written; the run never asked for part 4.
    assert_eq!(parts.len(), 4);
    assert_eq!(splitter.part_number(), 3);
    assert_eq!(splitter.bytes_consumed(), 24);
    // Nothing brings the run back.
    assert_eq!(splitter.step(Event::Read(8)), Action::Abort(error));
    assert_eq!(
        splitter.step(Event::PartWritten { checksum: 1, reference: Some(1) }),
        Action::Abort(error)
    );
    assert_eq!(splitter.part_number(), 3);
}

#[test]
fn mismatch_in_the_first_part_writes_nothing_more() {
    let mut splitter = Splitter::new(4).unwrap();
    splitter.step(Event::Opened { file_name: "f".to_string(), file_size: 8 });
    assert_eq!(
        splitter.step(Event::Read(4)),
        Action::WritePart { index: 0, name: "f.0".to_string(), length: 4 }
    );
    let error = SplitError::ChecksumMismatch {
        part_index: 0,
        part_checksum: 0xAAAA_AAAA,
        reference_checksum: 0xAAAA_AAAB,
    };
    assert_eq!(
        splitter.step(Event::PartWritten { checksum: 0xAAAA_AAAA, reference: Some(0xAAAA_AAAB) }),
        Action::Abort(error)
    );
    assert_eq!(splitter.action(), Action::Abort(error));
}

#[test]
fn part_without_reference_is_not_compared() {
    let mut splitter = Splitter::new(4).unwrap();
    splitter.step(Event::Opened { file_name: "f".to_string(), file_size: 4 });
    splitter.step(Event::Read(4));
    assert_eq!(
        splitter.step(Event::PartWritten { checksum: 123, reference: None }),
        Action::ReadChunk
    );
    assert_eq!(splitter.part_number(), 1);
    assert_eq!(splitter.bytes_consumed(), 4);
    assert_eq!(splitter.step(Event::Read(0)), Action::Finish);
}

#[test]
fn short_read_makes_a_short_part() {
    let mut splitter = Splitter::new(4).unwrap();
    splitter.step(Event::Opened { file_name: "f".to_string(), file_size: 8 });
    assert_eq!(
        splitter.step(Event::Read(1)),
        Action::WritePart { index: 0, name: "f.0".to_string(), length: 1 }
    );
    splitter.step(Event::PartWritten { checksum: 0, reference: None });
    assert_eq!(
        splitter.step(Event::Read(4)),
        Action::WritePart { index: 1, name: "f.1".to_string(), length: 4 }
    );
    splitter.step(Event::PartWritten { checksum: 0, reference: None });
    assert_eq!(splitter.bytes_consumed(), 5);
}

#[test]
fn failed_open_ends_the_run() {
    let mut splitter = Splitter::new(4).unwrap();
    assert_eq!(splitter.step(Event::OpenFailed), Action::Abort(SplitError::OpenFailed));
    assert_eq!(splitter.phase(), Phase::Failed(SplitError::OpenFailed));
    assert_eq!(
        splitter.step(Event::Opened { file_name: "f".to_string(), file_size: 8 }),
        Action::Abort(SplitError::OpenFailed)
    );
}

#[test]
fn failed_read_ends_the_run() {
    let mut splitter = Splitter::new(4).unwrap();
    splitter.step(Event::Opened { file_name: "f".to_string(), file_size: 8 });
    splitter.step(Event::Read(4));
    splitter.step(Event::PartWritten { checksum: 0, reference: None });
    assert_eq!(splitter.step(Event::ReadFailed), Action::Abort(SplitError::ReadFailed));
    assert_eq!(splitter.step(Event::Read(4)), Action::Abort(SplitError::ReadFailed));
    assert_eq!(splitter.part_number(), 1);
}

#[test]
fn failed_write_ends_the_run() {
    let mut splitter = Splitter::new(4).unwrap();
    splitter.step(Event::Opened { file_name: "f".to_string(), file_size: 8 });
    splitter.step(Event::Read(4));
    assert_eq!(splitter.step(Event::WriteFailed), Action::Abort(SplitError::WriteFailed));
    assert_eq!(splitter.part_number(), 0);
    assert_eq!(splitter.bytes_consumed(), 0);
}

#[test]
fn unreadable_reference_ends_the_run() {
    let mut splitter = Splitter::new(4).unwrap();
    splitter.step(Event::Opened { file_name: "f".to_string(), file_size: 8 });
    splitter.step(Event::Read(4));
    assert_eq!(splitter.step(Event::OpenFailed), Action::Abort(SplitError::OpenFailed));
}

#[test]
fn event_that_is_not_awaited_changes_nothing() {
    let mut splitter = Splitter::new(4).unwrap();
    assert_eq!(splitter.step(Event::Read(4)), Action::OpenSource);
    assert_eq!(
        splitter.step(Event::PartWritten { checksum: 1, reference: Some(2) }),
        Action::OpenSource
    );
    assert_eq!(
        splitter.step(Event::Opened { file_name: "f".to_string(), file_size: 8 }),
        Action::ReadChunk
    );
    assert_eq!(
        splitter.step(Event::Opened { file_name: "g".to_string(), file_size: 80 }),
        Action::ReadChunk
    );
    assert_eq!(
        splitter.step(Event::PartWritten { checksum: 1, reference: Some(2) }),
        Action::ReadChunk
    );
    let write = Action::WritePart { index: 0, name: "f.0".to_string(), length: 3 };
    assert_eq!(splitter.step(Event::Read(3)), write);
    assert_eq!(splitter.step(Event::Read(4)), write);
    assert_eq!(splitter.action(), write);
}

#[test]
fn finished_run_stays_finished() {
    let mut splitter = Splitter::new(4).unwrap();
    splitter.step(Event::Opened { file_name: "f".to_string(), file_size: 0 });
    assert_eq!(splitter.step(Event::Read(0)), Action::Finish);
    assert_eq!(splitter.step(Event::Read(4)), Action::Finish);
    assert_eq!(splitter.step(Event::ReadFailed), Action::Finish);
    assert_eq!(splitter.phase(), Phase::Finished);
}

#[test]
fn read_that_cannot_be_counted_is_not_accepted() {
    let mut splitter = Splitter::new(usize::MAX).unwrap();
    splitter.step(Event::Opened { file_name: "f".to_string(), file_size: usize::MAX });
    assert!(splitter.accepts(&Event::Read(usize::MAX)));
    splitter.step(Event::Read(usize::MAX - 1));
    splitter.step(Event::PartWritten { checksum: 0, reference: None });
    assert_eq!(splitter.bytes_consumed(), usize::MAX - 1);
    assert!(splitter.accepts(&Event::Read(1)));
    assert!(!splitter.accepts(&Event::Read(2)));
    assert!(splitter.accepts(&Event::ReadFailed));
    assert!(splitter.accepts(&Event::PartWritten { checksum: 0, reference: None }));
}
