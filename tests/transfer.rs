use mojika::response::ResponseBody;
use mojika::transfer::{
    download_file_name, file_progress, info_file_name, new_download, plain_file_name, ChunkAction,
    FileChunk, FileError, InfoFile, SendJob, BUFFER_LEN,
};

fn sidecar(offset: u64, length: u64) -> InfoFile {
    InfoFile {
        id: "f1".to_string(),
        filename: "note.txt".to_string(),
        content_offset: offset,
        file_length: length,
    }
}

fn chunk(offset: u64, len: usize) -> FileChunk {
    FileChunk::new("f1".to_string(), offset, vec![7u8; len])
}

/// Runs the receiver over the chunks that a sender produces for a file.
fn send_and_receive(length: u64) -> (Vec<usize>, InfoFile, bool) {
    let mut job = SendJob::new("f1".to_string(), 0, length);
    let mut info = InfoFile::new("f1".to_string(), "note.txt".to_string(), length);
    let mut sizes = vec![];
    let mut finalized = false;
    while !job.is_done() {
        let n = job.next_read_len();
        let c = job.chunk(vec![1u8; n]);
        info.check_chunk(&c).unwrap();
        let answer = match info.after_write(c.content.len(), c.content.len()).unwrap() {
            ChunkAction::UpdateSidecar(next) => {
                info = next;
                ResponseBody::Success
            }
            ChunkAction::Finalize(next) => {
                info = next;
                info.check_final_size(length).unwrap();
                finalized = true;
                ResponseBody::Success
            }
        };
        sizes.push(n);
        assert!(job.on_response(n, &answer));
    }
    (sizes, info, finalized)
}

#[test]
fn multi_chunk_file_sends_three_chunks() {
    let (sizes, info, finalized) = send_and_receive(500_000);
    assert_eq!(sizes, vec![200_000, 200_000, 100_000]);
    assert_eq!(info.content_offset, 500_000);
    assert!(finalized);
}

#[test]
fn small_file_is_one_chunk() {
    let (sizes, info, finalized) = send_and_receive(150_000);
    assert_eq!(sizes, vec![150_000]);
    assert_eq!(info.content_offset, 150_000);
    assert!(finalized);
}

#[test]
fn exact_multiple_of_buffer() {
    let (sizes, _, finalized) = send_and_receive(2 * BUFFER_LEN as u64);
    assert_eq!(sizes, vec![BUFFER_LEN, BUFFER_LEN]);
    assert!(finalized);
}

#[test]
fn empty_file_sends_nothing() {
    let job = SendJob::new("f1".to_string(), 0, 0);
    assert!(job.is_done());
    assert_eq!(job.next_read_len(), 0);
}

#[test]
fn offset_mismatch_is_refused() {
    let info = sidecar(0, 500_000);
    let err = info.check_chunk(&chunk(200_000, 200_000)).unwrap_err();
    assert_eq!(err, FileError::OffsetMismatch { chunk: 200_000, sidecar: 0 });
    let text = err.message();
    assert!(text.contains("offset missmatch"));
    assert_eq!(text, "file chunk and info file offset missmatch file_chunk:200000, info_file:0");
    // the sidecar is untouched
    assert_eq!(info.content_offset, 0);
}

#[test]
fn chunk_at_sidecar_offset_is_accepted() {
    assert!(sidecar(0, 500_000).check_chunk(&chunk(0, 200_000)).is_ok());
    assert!(sidecar(200_000, 500_000).check_chunk(&chunk(200_000, 200_000)).is_ok());
}

#[test]
fn chunk_of_other_file_is_refused() {
    let c = FileChunk::new("f2".to_string(), 0, vec![1]);
    assert_eq!(sidecar(0, 10).check_chunk(&c).unwrap_err(), FileError::IdMismatch);
}

#[test]
fn chunk_past_the_end_is_refused() {
    assert_eq!(sidecar(0, 10).check_chunk(&chunk(0, 11)).unwrap_err(), FileError::Overrun);
}

#[test]
fn short_write_fails() {
    assert_eq!(sidecar(0, 10).after_write(5, 4).unwrap_err(), FileError::ShortWrite);
}

#[test]
fn shutdown_after_first_chunk_leaves_sidecar_at_chunk_end() {
    let info = sidecar(0, 500_000);
    match info.after_write(200_000, 200_000).unwrap() {
        ChunkAction::UpdateSidecar(next) => {
            assert_eq!(next.content_offset, 200_000);
            assert_eq!(next.file_length, 500_000);
            assert_eq!(next.id, "f1");
        }
        ChunkAction::Finalize(_) => panic!("not complete yet"),
    }
}

#[test]
fn final_size_is_checked() {
    assert!(sidecar(10, 10).check_final_size(10).is_ok());
    let err = sidecar(10, 10).check_final_size(9).unwrap_err();
    assert_eq!(err, FileError::SizeMismatch { expected: 10, actual: 9 });
    assert_eq!(err.message(), "file size missmatch, expected:10, actual:9");
}

#[test]
fn failure_answer_stops_sender() {
    let mut job = SendJob::new("f1".to_string(), 0, 500_000);
    let c = job.chunk(vec![0u8; 200_000]);
    assert_eq!(c.content_offset, 0);
    assert_eq!(c.file_id, "f1");
    assert!(!job.on_response(200_000, &ResponseBody::Failure("bad".to_string())));
    assert_eq!(job.content_offset, 0);
    assert!(job.on_response(200_000, &ResponseBody::Success));
    assert_eq!(job.content_offset, 200_000);
    assert_eq!(job.chunk(vec![]).content_offset, 200_000);
}

#[test]
fn artifact_names() {
    assert_eq!(info_file_name("abc"), "abc.info.mojika");
    assert_eq!(download_file_name("abc"), "abc.mojika");
}

#[test]
fn plain_names_only() {
    assert!(plain_file_name("note.txt"));
    assert!(plain_file_name("..hidden"));
    assert!(!plain_file_name(""));
    assert!(!plain_file_name("."));
    assert!(!plain_file_name(".."));
    assert!(!plain_file_name("../etc/passwd"));
    assert!(!plain_file_name("a\\b"));
}

#[test]
fn new_download_starts_at_zero() {
    let info = new_download("note.txt".to_string(), 150_000).unwrap();
    assert_eq!(info.filename, "note.txt");
    assert_eq!(info.content_offset, 0);
    assert_eq!(info.file_length, 150_000);
    assert_eq!(info.id.len(), 36);
    assert_eq!(info.id.as_bytes()[14], b'4');
    let other = new_download("note.txt".to_string(), 1).unwrap();
    assert_ne!(info.id, other.id);
    assert_eq!(new_download("a/b".to_string(), 1).unwrap_err(), FileError::InvalidName);
}

#[test]
fn progress_in_percent() {
    assert_eq!(file_progress(0, 500_000), 0);
    assert_eq!(file_progress(200_000, 500_000), 40);
    assert_eq!(file_progress(500_000, 500_000), 100);
    assert_eq!(file_progress(1, 3), 33);
    assert_eq!(file_progress(0, 0), 100);
    assert_eq!(file_progress(u64::MAX - 1, u64::MAX), 99);
}

#[test]
fn error_messages() {
    assert_eq!(FileError::Exists.message(), "there is an existing file");
    assert_eq!(FileError::Missing.message(), "info file not found");
    assert_eq!(FileError::Io("disk full".to_string()).message(), "disk full");
}
