//! A file's content in transit: where it lies and how a consumer may obtain it.

use vstd::prelude::*;
use crate::text::joined;

verus! {

/// The BLAKE3 digest of a content, as hexadecimal digits: what `blake3::hash` and
/// `Hash::to_hex` give for it.
pub uninterp spec fn blake3_hex(content: Seq<u8>) -> Seq<char>;

/// `blake3::hash` and `Hash::to_hex`: the digest of `content`, 64 characters long.
#[verifier::external_body]
pub(crate) fn hash_hex(content: &[u8]) -> (r: String)
    ensures
        r@ == blake3_hex(content@),
        r@.len() == 64,
{
    blake3::hash(content).to_hex().to_string()
}

/// `blake3::Hasher`, which takes content in piece by piece.
#[verifier::external_type_specification]
#[verifier::external_body]
pub struct ExHasher(blake3::Hasher);

/// The content that a hasher has taken in so far.
pub uninterp spec fn hashed(hasher: blake3::Hasher) -> Seq<u8>;

/// `blake3::Hasher::new`: a hasher that has taken in nothing.
#[verifier::external_body]
pub(crate) fn new_hasher() -> (r: blake3::Hasher)
    ensures
        hashed(r) == Seq::<u8>::empty(),
{
    blake3::Hasher::new()
}

/// `blake3::Hasher::update`: takes in `content` behind what was taken in before.
#[verifier::external_body]
pub(crate) fn update_hasher(hasher: &mut blake3::Hasher, content: &[u8])
    ensures
        hashed(*final(hasher)) == hashed(*old(hasher)) + content@,
{
    hasher.update(content);
}

/// `blake3::Hasher::finalize` and `Hash::to_hex`: the digest of all that was taken
/// in. It is the digest that `blake3::hash` gives for the whole.
#[verifier::external_body]
pub(crate) fn finish_hasher(hasher: &blake3::Hasher) -> (r: String)
    ensures
        r@ == blake3_hex(hashed(*hasher)),
        r@.len() == 64,
{
    hasher.finalize().to_hex().to_string()
}

/// Where a file's content lies and how a consumer may obtain it.
#[derive(Debug, PartialEq, Eq)]
pub enum FileBytes {
    /// Content in memory.
    InMemory(Vec<u8>),
    /// Content at a path that its producer keeps: to be copied, never removed.
    FileToCopy(String),
    /// Content at a path that is handed over: it may be renamed into place, by one
    /// consumer.
    FileToMove(String),
}

/// The mathematical value of [`FileBytes`].
#[verifier::ext_equal]
pub enum BytesView {
    InMemory(Seq<u8>),
    FileToCopy(Seq<char>),
    FileToMove(Seq<char>),
}

impl View for FileBytes {
    type V = BytesView;

    open spec fn view(&self) -> BytesView {
        match *self {
            FileBytes::InMemory(bytes) => BytesView::InMemory(bytes@),
            FileBytes::FileToCopy(path) => BytesView::FileToCopy(path@),
            FileBytes::FileToMove(path) => BytesView::FileToMove(path@),
        }
    }
}

impl BytesView {
    /// The path of a content on disk.
    pub open spec fn path(self) -> Option<Seq<char>> {
        match self {
            BytesView::InMemory(_) => None,
            BytesView::FileToCopy(path) => Some(path),
            BytesView::FileToMove(path) => Some(path),
        }
    }

    /// The content as one whose source does not survive.
    pub open spec fn moved(self) -> BytesView {
        match self {
            BytesView::FileToCopy(path) => BytesView::FileToMove(path),
            other => other,
        }
    }

    /// The content as each of several consumers gets it: a copy.
    pub open spec fn shared(self) -> BytesView {
        match self {
            BytesView::FileToMove(path) => BytesView::FileToCopy(path),
            other => other,
        }
    }
}

/// Why content could not be read, hashed or placed.
#[derive(Debug, PartialEq, Eq)]
pub enum FileBytesError {
    /// An I/O error at `path`, or in memory.
    Io { path: Option<String>, source: String },
}

impl FileBytesError {
    /// The error in words.
    pub open spec fn text(self) -> Seq<char> {
        match self {
            FileBytesError::Io { path: Some(path), source } => "I/O error for "@ + path@ + ": "@
                + source@,
            FileBytesError::Io { path: None, source } => "I/O error: "@ + source@,
        }
    }

    /// The error in words.
    pub fn to_string(&self) -> (r: String)
        ensures
            r@ == self.text(),
    {
        match self {
            FileBytesError::Io { path: Some(path), source } => {
                let start = joined("I/O error for ", path.as_str());
                let middle = joined(start.as_str(), ": ");
                joined(middle.as_str(), source.as_str())
            },
            FileBytesError::Io { path: None, source } => joined("I/O error: ", source.as_str()),
        }
    }
}

/// A copy of a list of bytes.
pub fn copy_bytes(bytes: &Vec<u8>) -> (r: Vec<u8>)
    ensures
        r@ == bytes@,
{
    assert(bytes@.subrange(0, bytes@.len() as int) =~= bytes@);
    copy_range(bytes, 0, bytes.len())
}

fn copy_range(bytes: &Vec<u8>, from: usize, to: usize) -> (r: Vec<u8>)
    requires
        from <= to <= bytes.len(),
    ensures
        r@ == bytes@.subrange(from as int, to as int),
{
    let mut out: Vec<u8> = Vec::new();
    let mut i: usize = from;
    assert(bytes@.subrange(from as int, from as int) =~= Seq::<u8>::empty());
    while i < to
        invariant
            from <= i <= to <= bytes.len(),
            out@ == bytes@.subrange(from as int, i as int),
        decreases to - i,
    {
        out.push(bytes[i]);
        i = i + 1;
        assert(bytes@.subrange(from as int, i as int) =~= bytes@.subrange(from as int, i - 1).push(
            bytes@[i - 1],
        ));
    }
    out
}

/// The position that a request for `offset` starts at.
pub open spec fn chunk_start(total: int, offset: int) -> int {
    if offset < total {
        offset
    } else {
        total
    }
}

/// The position that a chunk of at most `max_len` bytes from `offset` ends at.
pub open spec fn chunk_end(total: int, offset: int, max_len: int) -> int {
    if chunk_start(total, offset) + max_len < total {
        chunk_start(total, offset) + max_len
    } else {
        total
    }
}

/// The bytes of a content from `offset` on, at most `max_len` of them.
pub open spec fn chunk_at(content: Seq<u8>, offset: int, max_len: int) -> Seq<u8> {
    content.subrange(
        chunk_start(content.len() as int, offset),
        chunk_end(content.len() as int, offset, max_len),
    )
}

/// Whether a chunk of `filled` bytes from `offset` reaches the end of a file.
pub fn reaches_end(offset: u64, filled: usize, total: u64) -> (r: bool)
    ensures
        r == (offset + filled >= total),
{
    offset >= total || filled as u64 >= total - offset
}

/// How a content is put at its destination.
#[derive(Debug, PartialEq, Eq)]
pub enum MaterializeStep {
    /// Write these bytes there.
    Write(Vec<u8>),
    /// Copy this file there and leave it in place.
    Copy { source: String },
    /// Rename this file there. Where the two lie on different file systems, copy it
    /// and remove it.
    Rename { source: String },
}

impl FileBytes {
    /// How the content is put at its destination, which takes it over.
    pub fn materialize_to(self) -> (r: MaterializeStep)
        ensures
            r == match self {
                FileBytes::InMemory(bytes) => MaterializeStep::Write(bytes),
                FileBytes::FileToCopy(source) => MaterializeStep::Copy { source },
                FileBytes::FileToMove(source) => MaterializeStep::Rename { source },
            },
    {
        match self {
            FileBytes::InMemory(bytes) => MaterializeStep::Write(bytes),
            FileBytes::FileToCopy(source) => MaterializeStep::Copy { source },
            FileBytes::FileToMove(source) => MaterializeStep::Rename { source },
        }
    }

    /// The path of a content on disk.
    pub fn path(&self) -> (r: Option<&str>)
        ensures
            match r {
                Some(path) => self@.path() == Some(path@),
                None => self@.path() is None,
            },
    {
        match self {
            FileBytes::InMemory(_) => None,
            FileBytes::FileToCopy(path) => Some(path.as_str()),
            FileBytes::FileToMove(path) => Some(path.as_str()),
        }
    }

    /// The content as one whose source does not survive.
    pub fn into_move(self) -> (r: FileBytes)
        ensures
            r@ == self@.moved(),
    {
        match self {
            FileBytes::FileToCopy(path) => FileBytes::FileToMove(path),
            other => other,
        }
    }

    /// The content as one of several consumers gets it: a copy.
    pub fn share(&self) -> (r: FileBytes)
        ensures
            r@ == self@.shared(),
    {
        match self {
            FileBytes::InMemory(bytes) => FileBytes::InMemory(copy_bytes(bytes)),
            FileBytes::FileToCopy(path) => FileBytes::FileToCopy(path.clone()),
            FileBytes::FileToMove(path) => FileBytes::FileToCopy(path.clone()),
        }
    }

    /// The length of a content: in memory its own, on disk that of the file.
    pub fn byte_len(&self, file_len: u64) -> (r: u64)
        ensures
            match self@ {
                BytesView::InMemory(bytes) => r == bytes.len(),
                _ => r == file_len,
            },
    {
        match self {
            FileBytes::InMemory(bytes) => bytes.len() as u64,
            _ => file_len,
        }
    }

    /// The chunk at `offset` of a content in memory, at most `max_len` bytes long,
    /// and whether it reaches the end. `None` for a content on disk.
    pub fn memory_chunk_at(&self, offset: u64, max_len: usize) -> (r: Option<(Vec<u8>, bool)>)
        ensures
            match self@ {
                BytesView::InMemory(bytes) => r matches Some((chunk, last)) && chunk@ == chunk_at(
                    bytes,
                    offset as int,
                    max_len as int,
                ) && last == is_last_chunk(bytes, offset as int, max_len as int),
                _ => r is None,
            },
    {
        match self {
            FileBytes::InMemory(bytes) => {
                let total: usize = bytes.len();
                let start: usize = if offset < total as u64 {
                    offset as usize
                } else {
                    total
                };
                let end: usize = if max_len < total - start {
                    start + max_len
                } else {
                    total
                };
                Some((copy_range(bytes, start, end), end >= total))
            },
            _ => None,
        }
    }

    /// The digest of a content in memory. `None` for a content on disk.
    pub fn hash(&self) -> (r: Option<String>)
        ensures
            match self@ {
                BytesView::InMemory(bytes) => r matches Some(digest) && digest@ == blake3_hex(
                    bytes,
                ),
                _ => r is None,
            },
    {
        match self {
            FileBytes::InMemory(bytes) => Some(hash_hex(bytes.as_slice())),
            _ => None,
        }
    }
}

/// A digest computed from pieces as they are read.
pub struct StreamHasher {
    hasher: blake3::Hasher,
    size: u64,
}

impl StreamHasher {
    /// All that was read so far.
    pub closed spec fn content(&self) -> Seq<u8> {
        hashed(self.hasher)
    }

    /// The number of bytes read so far.
    pub closed spec fn size(&self) -> u64 {
        self.size
    }

    pub fn new() -> (r: Self)
        ensures
            r.content() == Seq::<u8>::empty(),
            r.size() == 0,
    {
        StreamHasher { hasher: new_hasher(), size: 0 }
    }

    /// Takes in a piece.
    pub fn update(&mut self, piece: &[u8])
        requires
            old(self).size() + piece@.len() <= u64::MAX,
        ensures
            final(self).content() == old(self).content() + piece@,
            final(self).size() == old(self).size() + piece@.len(),
    {
        update_hasher(&mut self.hasher, piece);
        self.size = self.size + piece.len() as u64;
    }

    /// The digest and the size of all that was read.
    pub fn finish(&self) -> (r: (String, u64))
        ensures
            r.0@ == blake3_hex(self.content()),
            r.1 == self.size(),
    {
        (finish_hasher(&self.hasher), self.size)
    }
}

/// The error code of a rename across file systems.
pub fn libc_exdev() -> (r: i32)
    ensures
        r == 18,
{
    18
}

/// Whether a failed rename crossed file systems, by its error code. Such a move is
/// made by copying the source and removing it.
pub fn is_cross_device(code: Option<i32>) -> (r: bool)
    ensures
        r == (code == Some(18i32)),
{
    match code {
        Some(code) => code == libc_exdev(),
        None => false,
    }
}

/// Chunks of `max_len` bytes, taken one behind the other, make up the whole content.
pub proof fn law_chunks_make_up_the_content(content: Seq<u8>, offset: int, max_len: int)
    requires
        0 <= offset <= content.len(),
        max_len > 0,
    ensures
        content.take(offset) + chunk_at(content, offset, max_len) == content.take(
            chunk_end(content.len() as int, offset, max_len),
        ),
        offset < content.len() ==> chunk_end(content.len() as int, offset, max_len) > offset,
{
    let end = chunk_end(content.len() as int, offset, max_len);
    assert(content.take(offset) + chunk_at(content, offset, max_len) =~= content.take(end));
}

/// Whether a chunk is the last: it reaches the end of the content.
pub open spec fn is_last_chunk(content: Seq<u8>, offset: int, max_len: int) -> bool {
    chunk_end(content.len() as int, offset, max_len) == content.len()
}

/// What a reader gets who takes chunks of at most `max_len` bytes from `offset` on, each
/// `max_len` behind the one before, until one is the last.
pub open spec fn read_through(content: Seq<u8>, offset: int, max_len: int) -> Seq<u8>
    decreases content.len() - offset,
{
    let chunk = chunk_at(content, offset, max_len);
    if max_len <= 0 || is_last_chunk(content, offset, max_len) {
        chunk
    } else {
        chunk + read_through(content, offset + max_len, max_len)
    }
}

/// Reading at 0, `max_len`, twice `max_len` and so on until the first chunk that is the
/// last gives the whole content.
pub proof fn law_reading_through_gives_the_content(content: Seq<u8>, max_len: int)
    requires
        max_len > 0,
    ensures
        read_through(content, 0, max_len) == content,
{
    lemma_read_through(content, 0, max_len);
    assert(content.skip(0) =~= content);
}

proof fn lemma_read_through(content: Seq<u8>, offset: int, max_len: int)
    requires
        0 <= offset <= content.len(),
        max_len > 0,
    ensures
        read_through(content, offset, max_len) == content.skip(offset),
    decreases content.len() - offset,
{
    if is_last_chunk(content, offset, max_len) {
        assert(chunk_at(content, offset, max_len) =~= content.skip(offset));
    } else {
        lemma_read_through(content, offset + max_len, max_len);
        assert(chunk_at(content, offset, max_len) + content.skip(offset + max_len)
            =~= content.skip(offset));
    }
}

/// A file on disk is read as the same content in memory: where a chunk holds what the
/// content has at `offset`, it reaches the end of the file, by its length, just where it
/// is the last.
pub proof fn law_disk_and_memory_agree(content: Seq<u8>, offset: int, max_len: int)
    requires
        0 <= offset,
        0 <= max_len,
    ensures
        (offset + chunk_at(content, offset, max_len).len() >= content.len()) == is_last_chunk(
            content,
            offset,
            max_len,
        ),
{
}

/// A content that several get is shared without being used up: it lies where it lay, or is
/// the same bytes, and no one is told to move it.
pub proof fn law_sharing_uses_nothing_up(content: BytesView)
    ensures
        !(content.shared() is FileToMove),
        content.shared().path() == content.path(),
        content matches BytesView::InMemory(bytes) ==> content.shared() == BytesView::InMemory(
            bytes,
        ),
        content.shared().shared() == content.shared(),
{
}

/// A content that is to be moved lies where it lay, or is the same bytes; on disk it is used
/// up.
pub proof fn law_moving_uses_the_source_up(content: BytesView)
    ensures
        content.moved() is FileToMove <==> content.path() is Some,
        content.moved().path() == content.path(),
        content matches BytesView::InMemory(bytes) ==> content.moved() == BytesView::InMemory(
            bytes,
        ),
{
}

} // verus!
