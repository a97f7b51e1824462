//! Content in memory and on disk.

use tagnetd::file_bytes::{
    is_cross_device, libc_exdev, reaches_end, FileBytes, FileBytesError, MaterializeStep,
    StreamHasher,
};

#[test]
fn in_memory_hash_matches_blake3() {
    let bytes = b"hello world".to_vec();
    let file_bytes = FileBytes::InMemory(bytes.clone());
    assert_eq!(
        file_bytes.hash().unwrap(),
        blake3::hash(&bytes).to_hex().to_string()
    );
}

#[test]
fn the_hash_of_nothing_is_known() {
    assert_eq!(
        FileBytes::InMemory(Vec::new()).hash().unwrap(),
        "af1349b9f5f9a1a6a0404dea36dcc9499bcb25c9adc112b7cc9a93cae41f3262"
    );
}

/// Hashing piece by piece gives the hash of the whole and its size.
#[test]
fn file_hash_matches_in_memory_hash() {
    let bytes: Vec<u8> = (0..(64 * 1024 * 3 + 7)).map(|i| i as u8).collect();
    let mut hasher = StreamHasher::new();
    for piece in bytes.chunks(64 * 1024) {
        hasher.update(piece);
    }
    let (hash, size) = hasher.finish();
    let length = bytes.len() as u64;
    assert_eq!(hash, FileBytes::InMemory(bytes).hash().unwrap());
    assert_eq!(size, length);
}

#[test]
fn a_file_on_disk_has_no_hash_of_its_own() {
    assert_eq!(FileBytes::FileToCopy("/a".to_owned()).hash(), None);
}

#[test]
fn materialize_in_memory_writes_bytes() {
    assert_eq!(
        FileBytes::InMemory(b"payload".to_vec()).materialize_to(),
        MaterializeStep::Write(b"payload".to_vec())
    );
}

#[test]
fn materialize_copy_preserves_source() {
    assert_eq!(
        FileBytes::FileToCopy("/source.bin".to_owned()).materialize_to(),
        MaterializeStep::Copy { source: "/source.bin".to_owned() }
    );
}

#[test]
fn materialize_move_consumes_source() {
    assert_eq!(
        FileBytes::FileToMove("/source.bin".to_owned()).materialize_to(),
        MaterializeStep::Rename { source: "/source.bin".to_owned() }
    );
}

#[test]
fn moves_and_copies_are_told_apart() {
    let copy = FileBytes::FileToCopy("/a".to_owned());
    assert_eq!(copy.path(), Some("/a"));
    let moved = copy.into_move();
    assert_eq!(moved, FileBytes::FileToMove("/a".to_owned()));
    // Several consumers share a content by copying it.
    assert_eq!(moved.share(), FileBytes::FileToCopy("/a".to_owned()));
    let memory = FileBytes::InMemory(vec![1, 2]);
    assert_eq!(memory.path(), None);
    assert_eq!(memory.share(), FileBytes::InMemory(vec![1, 2]));
    assert_eq!(memory.into_move(), FileBytes::InMemory(vec![1, 2]));
}

#[test]
fn lengths_come_from_memory_or_from_the_file() {
    assert_eq!(FileBytes::InMemory(vec![0; 5]).byte_len(99), 5);
    assert_eq!(FileBytes::FileToCopy("/a".to_owned()).byte_len(99), 99);
}

/// The chunks of a content, one after the other, are the content.
#[test]
fn chunks_make_up_the_content() {
    let bytes: Vec<u8> = (0..10).collect();
    let content = FileBytes::InMemory(bytes.clone());
    let mut back = Vec::new();
    let mut offset = 0;
    loop {
        let (chunk, last) = content.memory_chunk_at(offset, 4).unwrap();
        offset += chunk.len() as u64;
        back.extend(chunk);
        if last {
            break;
        }
    }
    assert_eq!(back, bytes);
    // Past the end there is nothing, and it is the end.
    assert_eq!(content.memory_chunk_at(50, 4), Some((Vec::new(), true)));
    assert_eq!(FileBytes::FileToCopy("/a".to_owned()).memory_chunk_at(0, 4), None);
}

#[test]
fn the_end_is_reached_without_overflow() {
    assert!(reaches_end(5, 5, 10));
    assert!(!reaches_end(5, 4, 10));
    assert!(reaches_end(u64::MAX, 10, 10));
}

#[test]
fn only_the_cross_device_code_falls_back_to_copying() {
    assert_eq!(libc_exdev(), 18);
    assert!(is_cross_device(Some(18)));
    assert!(!is_cross_device(Some(2)));
    assert!(!is_cross_device(None));
}

#[test]
fn errors_name_their_path() {
    let at = FileBytesError::Io { path: Some("/a".to_owned()), source: "gone".to_owned() };
    assert_eq!(at.to_string(), "I/O error for /a: gone");
    let nowhere = FileBytesError::Io { path: None, source: "gone".to_owned() };
    assert_eq!(nowhere.to_string(), "I/O error: gone");
}

/// Reading on until the last chunk gives the whole content.
#[test]
fn reading_through_gives_the_content() {
    for length in [0usize, 1, 5, 6, 7] {
        let bytes: Vec<u8> = (0..length as u8).collect();
        let content = FileBytes::InMemory(bytes.clone());
        for step in 1..9usize {
            let mut read = Vec::new();
            let mut offset: u64 = 0;
            loop {
                let (chunk, last) = content.memory_chunk_at(offset, step).unwrap();
                assert_eq!(last, reaches_end(offset, chunk.len(), length as u64));
                read.extend(chunk);
                if last {
                    break;
                }
                offset += step as u64;
            }
            assert_eq!(read, bytes);
        }
    }
}
