//! Chunked file transfer: the records exchanged, the receiving side's
//! sidecar and its checks, and the sending side's progress.

use vstd::prelude::*;

use crate::ids::{is_uuid_v4_text, new_id};
use crate::response::ResponseBody;
use crate::text::{decimal, push_decimal, push_str};

verus! {

/// Bytes per chunk.
pub const BUFFER_LEN: usize = 200_000;

/// Asks the receiver to prepare for a file.
#[derive(Debug)]
pub struct CreateFile {
    pub filename: String,
    pub file_length: u64,
}

/// Tells the sender under which id the receiver expects the file.
#[derive(Debug)]
pub struct FileCreated {
    pub file_id: String,
}

/// A run of a file's bytes, at its offset.
#[derive(Debug)]
pub struct FileChunk {
    pub file_id: String,
    pub content_offset: u64,
    pub content: Vec<u8>,
}

impl FileChunk {
    pub fn new(file_id: String, content_offset: u64, content: Vec<u8>) -> (r: FileChunk)
        ensures
            r.file_id == file_id,
            r.content_offset == content_offset,
            r.content == content,
    {
        FileChunk { file_id, content_offset, content }
    }
}

/// The sidecar of a download in progress.
#[derive(Debug)]
pub struct InfoFile {
    pub id: String,
    pub filename: String,
    pub content_offset: u64,
    pub file_length: u64,
}

impl InfoFile {
    /// The sidecar's invariant: the offset lies within the file.
    pub open spec fn wf(&self) -> bool {
        self.content_offset <= self.file_length
    }
}

/// Why a file could not be created, written or finished.
#[derive(Debug, PartialEq, Eq)]
pub enum FileError {
    /// An artifact of that name is already there.
    Exists,
    /// The sidecar or the download is not there.
    Missing,
    /// The sidecar belongs to another file id.
    IdMismatch,
    /// The chunk does not start where the download stands.
    OffsetMismatch { chunk: u64, sidecar: u64 },
    /// The chunk runs past the announced file length.
    Overrun,
    /// Fewer bytes were written than the chunk holds.
    ShortWrite,
    /// The finished download's size is not the announced length.
    SizeMismatch { expected: u64, actual: u64 },
    /// The file name is not a plain name inside the download directory.
    InvalidName,
    /// The file system failed, with its account.
    Io(String),
}

/// The account of an error, as sent back to the peer.
pub open spec fn error_text(e: FileError) -> Seq<char> {
    match e {
        FileError::Exists => "there is an existing file"@,
        FileError::Missing => "info file not found"@,
        FileError::IdMismatch => "info file name and content doesn't match"@,
        FileError::OffsetMismatch { chunk, sidecar } => "file chunk and info file offset missmatch file_chunk:"@
            + decimal(chunk as nat) + ", info_file:"@ + decimal(sidecar as nat),
        FileError::Overrun => "file chunk runs past the file length"@,
        FileError::ShortWrite => "error in writing file chunk to file size missmatch"@,
        FileError::SizeMismatch { expected, actual } => "file size missmatch, expected:"@ + decimal(
            expected as nat,
        ) + ", actual:"@ + decimal(actual as nat),
        FileError::InvalidName => "file name is not a plain file name"@,
        FileError::Io(detail) => detail@,
    }
}

impl FileError {
    /// The account of the error, as sent back to the peer.
    pub fn message(&self) -> (r: String)
        ensures
            r@ == error_text(*self),
    {
        let mut r = String::new();
        match self {
            FileError::Exists => push_str(&mut r, "there is an existing file"),
            FileError::Missing => push_str(&mut r, "info file not found"),
            FileError::IdMismatch => push_str(&mut r, "info file name and content doesn't match"),
            FileError::OffsetMismatch { chunk, sidecar } => {
                push_str(&mut r, "file chunk and info file offset missmatch file_chunk:");
                push_decimal(&mut r, *chunk);
                push_str(&mut r, ", info_file:");
                push_decimal(&mut r, *sidecar);
            },
            FileError::Overrun => push_str(&mut r, "file chunk runs past the file length"),
            FileError::ShortWrite => push_str(
                &mut r,
                "error in writing file chunk to file size missmatch",
            ),
            FileError::SizeMismatch { expected, actual } => {
                push_str(&mut r, "file size missmatch, expected:");
                push_decimal(&mut r, *expected);
                push_str(&mut r, ", actual:");
                push_decimal(&mut r, *actual);
            },
            FileError::InvalidName => push_str(&mut r, "file name is not a plain file name"),
            FileError::Io(detail) => {
                r = detail.clone();
            },
        }
        proof {
            assert(r@ =~= error_text(*self));
        }
        r
    }
}

/// Whether a received chunk may be written: it belongs to the sidecar's file,
/// starts where the download stands, and stays within the file length.
pub open spec fn chunk_check(
    id: Seq<char>,
    offset: u64,
    length: u64,
    chunk_id: Seq<char>,
    chunk_offset: u64,
    chunk_len: nat,
) -> Result<(), FileError> {
    if chunk_id != id {
        Err(FileError::IdMismatch)
    } else if chunk_offset != offset {
        Err(FileError::OffsetMismatch { chunk: chunk_offset, sidecar: offset })
    } else if chunk_len > length - offset {
        Err(FileError::Overrun)
    } else {
        Ok(())
    }
}

/// What a write of `written` bytes out of a `chunk_len`-byte chunk at
/// `offset` leads to: the new offset, and whether the download is complete.
pub open spec fn write_outcome(offset: u64, length: u64, chunk_len: nat, written: nat) -> Result<
    (u64, bool),
    FileError,
> {
    if written != chunk_len {
        Err(FileError::ShortWrite)
    } else {
        Ok(((offset + written) as u64, offset + written == length))
    }
}

/// What the receiver does after a chunk was written in full.
#[derive(Debug)]
pub enum ChunkAction {
    /// Rewrite the sidecar with this content and report success.
    UpdateSidecar(InfoFile),
    /// The file is complete: check the download's size, sync it, rename it to
    /// its final name, then remove the sidecar.
    Finalize(InfoFile),
}

impl InfoFile {
    /// The sidecar of a new download of `file_length` bytes: nothing received.
    pub fn new(id: String, filename: String, file_length: u64) -> (r: InfoFile)
        ensures
            r.id == id,
            r.filename == filename,
            r.content_offset == 0,
            r.file_length == file_length,
            r.wf(),
    {
        InfoFile { id, filename, content_offset: 0, file_length }
    }

    /// Checks a received chunk against the sidecar before it is written.
    pub fn check_chunk(&self, chunk: &FileChunk) -> (r: Result<(), FileError>)
        requires
            self.wf(),
        ensures
            r == chunk_check(
                self.id@,
                self.content_offset,
                self.file_length,
                chunk.file_id@,
                chunk.content_offset,
                chunk.content@.len(),
            ),
    {
        if !crate::text::same_text(chunk.file_id.as_str(), self.id.as_str()) {
            return Err(FileError::IdMismatch);
        }
        if chunk.content_offset != self.content_offset {
            return Err(
                FileError::OffsetMismatch {
                    chunk: chunk.content_offset,
                    sidecar: self.content_offset,
                },
            );
        }
        if chunk.content.len() as u64 > self.file_length - self.content_offset {
            return Err(FileError::Overrun);
        }
        Ok(())
    }

    /// The next step once `written` bytes of a checked `chunk_len`-byte chunk
    /// were written: a short write fails; otherwise the offset advances, and
    /// the download is finalized when it reaches the file length.
    pub fn after_write(&self, chunk_len: usize, written: usize) -> (r: Result<ChunkAction, FileError>)
        requires
            self.wf(),
            chunk_len <= self.file_length - self.content_offset,
        ensures
            match write_outcome(self.content_offset, self.file_length, chunk_len as nat, written as nat) {
                Err(e) => r == Err::<ChunkAction, FileError>(e),
                Ok((offset, done)) => r matches Ok(a) && {
                    let next = match a {
                        ChunkAction::UpdateSidecar(n) => n,
                        ChunkAction::Finalize(n) => n,
                    };
                    &&& (a is Finalize <==> done)
                    &&& next.id == self.id
                    &&& next.filename == self.filename
                    &&& next.file_length == self.file_length
                    &&& next.content_offset == offset
                    &&& next.wf()
                },
            },
    {
        if written != chunk_len {
            return Err(FileError::ShortWrite);
        }
        let offset = self.content_offset + written as u64;
        let next = InfoFile {
            id: self.id.clone(),
            filename: self.filename.clone(),
            content_offset: offset,
            file_length: self.file_length,
        };
        if offset == self.file_length {
            Ok(ChunkAction::Finalize(next))
        } else {
            Ok(ChunkAction::UpdateSidecar(next))
        }
    }

    /// Checks the finished download's size against the announced length.
    pub fn check_final_size(&self, actual: u64) -> (r: Result<(), FileError>)
        ensures
            actual == self.file_length ==> r is Ok,
            actual != self.file_length ==> r == Err::<(), FileError>(
                FileError::SizeMismatch { expected: self.file_length, actual },
            ),
    {
        if actual != self.file_length {
            Err(FileError::SizeMismatch { expected: self.file_length, actual })
        } else {
            Ok(())
        }
    }
}

/// A name that stays inside the download directory: not empty, not `.` or
/// `..`, and free of path separators and NUL.
pub open spec fn is_plain_file_name(name: Seq<char>) -> bool {
    &&& name.len() > 0
    &&& name != seq!['.']
    &&& name != seq!['.', '.']
    &&& forall|i: int|
        0 <= i < name.len() ==> #[trigger] name[i] != '/' && name[i] != '\\' && name[i] != '\0'
}

/// Whether `name` is a plain file name.
pub fn plain_file_name(name: &str) -> (r: bool)
    ensures
        r == is_plain_file_name(name@),
{
    let cs = crate::text::chars_of(name);
    if cs.len() == 0 {
        return false;
    }
    if cs.len() == 1 && cs[0] == '.' {
        proof {
            assert(name@ =~= seq!['.']);
        }
        return false;
    }
    if cs.len() == 2 && cs[0] == '.' && cs[1] == '.' {
        proof {
            assert(name@ =~= seq!['.', '.']);
        }
        return false;
    }
    let mut i: usize = 0;
    while i < cs.len()
        invariant
            i <= cs@.len(),
            cs@ == name@,
            forall|k: int| 0 <= k < i ==> #[trigger] cs@[k] != '/' && cs@[k] != '\\' && cs@[k] != '\0',
        decreases cs@.len() - i,
    {
        if cs[i] == '/' || cs[i] == '\\' || cs[i] == '\0' {
            return false;
        }
        i += 1;
    }
    true
}

/// The sidecar of a new download of `filename`, under a fresh file id. A
/// name that would leave the download directory is refused.
pub fn new_download(filename: String, file_length: u64) -> (r: Result<InfoFile, FileError>)
    ensures
        !is_plain_file_name(filename@) ==> r == Err::<InfoFile, FileError>(FileError::InvalidName),
        is_plain_file_name(filename@) ==> (r matches Ok(info) && {
            &&& is_uuid_v4_text(info.id@)
            &&& info.filename == filename
            &&& info.content_offset == 0
            &&& info.file_length == file_length
        }),
{
    if !plain_file_name(filename.as_str()) {
        return Err(FileError::InvalidName);
    }
    Ok(InfoFile::new(new_id(), filename, file_length))
}

/// The name of the sidecar of download `file_id`.
pub fn info_file_name(file_id: &str) -> (r: String)
    ensures
        r@ == file_id@ + ".info.mojika"@,
{
    let mut r = String::new();
    push_str(&mut r, file_id);
    push_str(&mut r, ".info.mojika");
    proof {
        assert(r@ =~= file_id@ + ".info.mojika"@);
    }
    r
}

/// The name of the in-flight download `file_id`.
pub fn download_file_name(file_id: &str) -> (r: String)
    ensures
        r@ == file_id@ + ".mojika"@,
{
    let mut r = String::new();
    push_str(&mut r, file_id);
    push_str(&mut r, ".mojika");
    proof {
        assert(r@ =~= file_id@ + ".mojika"@);
    }
    r
}

/// How far a transfer has come, in whole percent; an empty file is complete.
pub fn file_progress(content_offset: u64, file_length: u64) -> (r: u64)
    requires
        content_offset <= file_length,
    ensures
        file_length == 0 ==> r == 100,
        file_length > 0 ==> r == content_offset * 100 / file_length as int,
        r <= 100,
{
    if file_length == 0 {
        return 100;
    }
    let scaled = content_offset as u128 * 100;
    let r = scaled / file_length as u128;
    proof {
        assert(r <= 100) by (nonlinear_arith)
            requires
                r as int == scaled as int / file_length as int,
                scaled as int == content_offset * 100,
                content_offset <= file_length,
                file_length > 0,
        ;
    }
    r as u64
}

/// The sending side of one transfer: the file id on the receiver, where
/// the sender stands, and the file's length.
#[derive(Debug)]
pub struct SendJob {
    pub file_id: String,
    pub content_offset: u64,
    pub file_length: u64,
}

/// The size of the chunk that starts at `offset`.
pub open spec fn chunk_len_at(offset: u64, length: u64) -> nat {
    if length - offset < BUFFER_LEN {
        (length - offset) as nat
    } else {
        BUFFER_LEN as nat
    }
}

impl SendJob {
    pub open spec fn wf(&self) -> bool {
        self.content_offset <= self.file_length
    }

    /// A job that sends file `file_id` from `content_offset` on.
    pub fn new(file_id: String, content_offset: u64, file_length: u64) -> (r: SendJob)
        requires
            content_offset <= file_length,
        ensures
            r.file_id == file_id,
            r.content_offset == content_offset,
            r.file_length == file_length,
            r.wf(),
    {
        SendJob { file_id, content_offset, file_length }
    }

    /// Whether every byte was sent.
    pub fn is_done(&self) -> (r: bool)
        ensures
            r == (self.content_offset == self.file_length),
    {
        self.content_offset == self.file_length
    }

    /// How many bytes to read for the next chunk: a full buffer, or what is
    /// left of the file.
    pub fn next_read_len(&self) -> (r: usize)
        requires
            self.wf(),
        ensures
            r == chunk_len_at(self.content_offset, self.file_length),
            r <= BUFFER_LEN,
    {
        let left = self.file_length - self.content_offset;
        if left < BUFFER_LEN as u64 {
            left as usize
        } else {
            BUFFER_LEN
        }
    }

    /// The chunk that carries `content` from where the job stands.
    pub fn chunk(&self, content: Vec<u8>) -> (r: FileChunk)
        ensures
            r.file_id == self.file_id,
            r.content_offset == self.content_offset,
            r.content == content,
    {
        FileChunk::new(self.file_id.clone(), self.content_offset, content)
    }

    /// Takes in the answer to a chunk of `sent` bytes. A failure stops the
    /// job where it stands; any other answer moves it past the chunk.
    /// Returns whether the job goes on.
    pub fn on_response(&mut self, sent: usize, body: &ResponseBody) -> (go_on: bool)
        requires
            old(self).wf(),
            sent <= old(self).file_length - old(self).content_offset,
        ensures
            final(self).wf(),
            final(self).file_id == old(self).file_id,
            final(self).file_length == old(self).file_length,
            go_on == !(body is Failure),
            go_on ==> final(self).content_offset == old(self).content_offset + sent,
            !go_on ==> final(self).content_offset == old(self).content_offset,
    {
        match body {
            ResponseBody::Failure(_) => false,
            _ => {
                self.content_offset = self.content_offset + sent as u64;
                true
            },
        }
    }
}

/// For a chunk of the sidecar's file that lies within the file length, the
/// check fails exactly when the chunk does not start where the sidecar
/// stands, and then it reports the two offsets.
pub proof fn lemma_chunk_order(
    id: Seq<char>,
    offset: u64,
    length: u64,
    chunk_offset: u64,
    chunk_len: nat,
)
    requires
        offset <= length,
        chunk_offset <= length,
        chunk_len <= length - chunk_offset,
    ensures
        chunk_check(id, offset, length, id, chunk_offset, chunk_len) is Err <==> chunk_offset
            != offset,
        chunk_offset != offset ==> chunk_check(id, offset, length, id, chunk_offset, chunk_len)
            == Err::<(), FileError>(FileError::OffsetMismatch { chunk: chunk_offset, sidecar: offset }),
{
}

/// The total of a run of chunk sizes.
pub open spec fn total_len(lens: Seq<nat>) -> nat
    decreases lens.len(),
{
    if lens.len() == 0 {
        0
    } else {
        total_len(lens.drop_last()) + lens.last()
    }
}

proof fn lemma_total_len_prefix(lens: Seq<nat>, j: int)
    requires
        0 <= j <= lens.len(),
        forall|i: int| 0 <= i < lens.len() ==> #[trigger] lens[i] > 0,
    ensures
        total_len(lens.take(j)) <= total_len(lens),
        j < lens.len() ==> total_len(lens.take(j)) < total_len(lens),
    decreases lens.len() - j,
{
    if j == lens.len() {
        assert(lens.take(j) =~= lens);
    } else {
        let d = lens.drop_last();
        assert(d.take(j) =~= lens.take(j));
        assert(lens.last() == lens[lens.len() - 1]);
        lemma_total_len_prefix(d, j);
    }
}

/// A file received as chunks whose sizes are all positive and add up to its
/// length, each sent where the previous one ended: every chunk passes the
/// check, every write of a whole chunk advances the sidecar by its size, and
/// the download is finalized after the last chunk and after no other.
pub proof fn lemma_finalizes_after_last_chunk(id: Seq<char>, length: u64, lens: Seq<nat>, k: int)
    requires
        forall|i: int| 0 <= i < lens.len() ==> #[trigger] lens[i] > 0,
        total_len(lens) == length,
        0 <= k < lens.len(),
    ensures
        ({
            let o = total_len(lens.take(k));
            &&& o + lens[k] == total_len(lens.take(k + 1))
            &&& chunk_check(id, o as u64, length, id, o as u64, lens[k]) is Ok
            &&& write_outcome(o as u64, length, lens[k], lens[k]) == Ok::<(u64, bool), FileError>(
                ((o + lens[k]) as u64, k == lens.len() - 1),
            )
        }),
{
    let o = total_len(lens.take(k));
    assert(lens.take(k + 1).drop_last() =~= lens.take(k));
    assert(lens.take(k + 1).last() == lens[k]);
    lemma_total_len_prefix(lens, k + 1);
    lemma_total_len_prefix(lens, k);
}

} // verus!
