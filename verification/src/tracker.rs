//! The position tracker of a tailed file and the incremental reader.
//!
//! The tracker remembers up to which byte a file has been read. A read
//! returns the lines that stand behind that byte and moves the tracker to the
//! end of the file. A file that has become shorter than the remembered offset
//! was rotated or truncated: it is read again from its first byte.

use vstd::prelude::*;
use crate::lines::{collect_lines, text_lines, texts_of};

verus! {

/// The byte at which a read starts: the offset, or 0 where the file is
/// shorter than the offset.
pub open spec fn read_start(offset: nat, size: nat) -> nat {
    if size < offset {
        0
    } else {
        offset
    }
}

/// The lines that a read of a file holding `content` returns when the
/// tracker stands at `offset`.
pub open spec fn lines_after(content: Seq<u8>, offset: nat) -> Seq<Seq<char>> {
    text_lines(content.skip(read_start(offset, content.len()) as int))
}

/// The offset at which the tracker stands after a read of a file holding
/// `content`: the end of the file.
pub open spec fn offset_after(content: Seq<u8>, offset: nat) -> nat {
    content.len()
}

/// What a read has to do, decided from the offset and the file's size alone.
#[derive(Clone, Copy, Debug, PartialEq, Eq, Structural)]
pub enum ReadPlan {
    /// Nothing stands behind the offset: no seek, no read.
    UpToDate,
    /// Read from this byte to the end of the file.
    ReadFrom(u64),
}

/// The plan for a tracker at `offset` and a file of `size` bytes.
pub open spec fn plan_for(offset: nat, size: nat) -> ReadPlan {
    if size == read_start(offset, size) {
        ReadPlan::UpToDate
    } else {
        ReadPlan::ReadFrom(read_start(offset, size) as u64)
    }
}

/// Decides what a read has to do for a tracker at `offset` and a file of
/// `size` bytes.
pub fn plan_read(offset: u64, size: u64) -> (plan: ReadPlan)
    ensures
        plan == plan_for(offset as nat, size as nat),
{
    let start: u64 = if size < offset { 0 } else { offset };
    if size == start {
        ReadPlan::UpToDate
    } else {
        ReadPlan::ReadFrom(start)
    }
}

/// Why a read failed.
#[derive(Clone, Copy, Debug, PartialEq, Eq, Structural)]
pub enum ReadError {
    /// The file is missing or cannot be opened.
    CannotOpen,
}

/// Reads the new lines of a file for a tracker that stands at `last_pos`,
/// and moves the tracker to the end of the file. `file` holds the bytes of
/// the file, or nothing where the file is missing or cannot be opened: the
/// read then fails and leaves the tracker where it stands.
pub fn read_new_lines(file: Option<&[u8]>, last_pos: &mut u64) -> (res: Result<
    Vec<String>,
    ReadError,
>)
    ensures
        file is None <==> res is Err,
        file is None ==> *final(last_pos) == *old(last_pos),
        file is Some ==> {
            &&& texts_of(res->Ok_0@) == lines_after(file->Some_0@, *old(last_pos) as nat)
            &&& *final(last_pos) as nat == offset_after(file->Some_0@, *old(last_pos) as nat)
        },
{
    let content = match file {
        Some(bytes) => bytes,
        None => {
            return Err(ReadError::CannotOpen);
        },
    };
    let size: u64 = content.len() as u64;
    match plan_read(*last_pos, size) {
        ReadPlan::UpToDate => {
            *last_pos = size;
            let lines: Vec<String> = Vec::new();
            proof {
                lemma_no_bytes_no_lines();
                assert(content@.skip(content@.len() as int) =~= Seq::<u8>::empty());
                assert(texts_of(lines@) =~= Seq::<Seq<char>>::empty());
            }
            Ok(lines)
        },
        ReadPlan::ReadFrom(start) => {
            let tail = vstd::slice::slice_subrange(content, start as usize, content.len());
            let lines = collect_lines(tail);
            *last_pos = size;
            Ok(lines)
        },
    }
}

/// Bytes that are not there hold no line.
pub proof fn lemma_no_bytes_no_lines()
    ensures
        text_lines(Seq::<u8>::empty()) == Seq::<Seq<char>>::empty(),
{
    assert(crate::lines::byte_lines(Seq::<u8>::empty()) =~= Seq::<Seq<u8>>::empty());
}

/// A read that follows a read, with nothing written in between, returns no
/// line and leaves the offset where it is; so does any read of a tracker
/// that stands at the end of the file.
pub proof fn lemma_reread_returns_nothing(content: Seq<u8>, offset: nat)
    ensures
        lines_after(content, offset_after(content, offset)) == Seq::<Seq<char>>::empty(),
        offset_after(content, offset_after(content, offset)) == offset_after(content, offset),
        offset == content.len() ==> lines_after(content, offset) == Seq::<Seq<char>>::empty()
            && offset_after(content, offset) == offset,
{
    lemma_no_bytes_no_lines();
    assert(content.skip(content.len() as int) =~= Seq::<u8>::empty());
}

/// Where the file has not shrunk below the offset, a read does not move the
/// offset back; and a read after a further write does not move it back
/// either, whatever was written.
pub proof fn lemma_read_moves_offset_forward(content: Seq<u8>, offset: nat, written: Seq<u8>)
    requires
        offset <= content.len(),
    ensures
        offset <= offset_after(content, offset),
        offset_after(content, offset) <= offset_after(
            content + written,
            offset_after(content, offset),
        ),
{
}

/// What the file holds after the first `k` of the writes `writes` to a file
/// that held `content`: nothing is taken away, each write is added behind.
pub open spec fn content_after(content: Seq<u8>, writes: Seq<Seq<u8>>, k: nat) -> Seq<u8>
    decreases k,
{
    if k == 0 || k > writes.len() {
        content
    } else {
        content_after(content, writes, (k - 1) as nat) + writes[k - 1]
    }
}

/// The offset that the read after the first `k` writes returns, where a read
/// follows every write and one came before the first.
pub open spec fn offset_at(content: Seq<u8>, offset: nat, writes: Seq<Seq<u8>>, k: nat) -> nat
    decreases k,
{
    if k == 0 || k > writes.len() {
        offset_after(content, offset)
    } else {
        offset_after(
            content_after(content, writes, k),
            offset_at(content, offset, writes, (k - 1) as nat),
        )
    }
}

/// Over any run of writes that only add to the file, with a read after each,
/// the offsets that the reads return never fall.
pub proof fn lemma_offsets_never_fall(
    content: Seq<u8>,
    offset: nat,
    writes: Seq<Seq<u8>>,
    k: nat,
)
    requires
        offset <= content.len(),
        k < writes.len(),
    ensures
        offset <= offset_at(content, offset, writes, 0),
        offset_at(content, offset, writes, k) <= offset_at(content, offset, writes, k + 1),
        offset_at(content, offset, writes, k) == content_after(content, writes, k).len(),
{
    let next = (k + 1) as nat;
    assert(content_after(content, writes, next) == content_after(content, writes, k)
        + writes[k as int]);
    assert(offset_at(content, offset, writes, next) == content_after(content, writes, next).len());
}

/// A file that has shrunk below the offset is read as a fresh file: the read
/// returns all the lines that it holds now, as a read from offset 0 does, and
/// the offset comes to stand at its end.
pub proof fn lemma_rotation_recovery(content: Seq<u8>, offset: nat)
    requires
        content.len() < offset,
    ensures
        read_start(offset, content.len()) == 0,
        lines_after(content, offset) == text_lines(content),
        lines_after(content, offset) == lines_after(content, 0),
        offset_after(content, offset) == content.len(),
{
    assert(content.skip(0) =~= content);
}

/// A read returns the lines of what was written since the last read, and
/// nothing of what was there before: for a tracker that stands at the end of
/// `before`, the lines after a write of `written` are the lines of `written`.
pub proof fn lemma_read_returns_what_was_written(before: Seq<u8>, written: Seq<u8>)
    ensures
        lines_after(before + written, before.len()) == text_lines(written),
        offset_after(before + written, before.len()) == before.len() + written.len(),
{
    assert((before + written).skip(before.len() as int) =~= written);
}

/// A read returns its lines in the order in which they stand in the file:
/// the segments of the bytes read, put end to end, are those bytes; each line
/// returned is the text of one segment; and a later line comes from a later
/// segment.
pub proof fn lemma_read_keeps_file_order(content: Seq<u8>, offset: nat)
    ensures
        ({
            let read = content.skip(read_start(offset, content.len()) as int);
            let places = crate::lines::kept(crate::lines::byte_lines(read));
            let lines = lines_after(content, offset);
            &&& crate::lines::segments(read).flatten() == read
            &&& lines.len() == places.len()
            &&& forall|j: int|
                0 <= j < lines.len() ==> {
                    &&& 0 <= (#[trigger] places[j]) < crate::lines::segments(read).len()
                    &&& lines[j] == vstd::utf8::decode_utf8(
                        crate::lines::line_text(crate::lines::segments(read)[places[j]]),
                    )
                }
            &&& forall|j: int, k: int| 0 <= j < k < lines.len() ==> places[j] < places[k]
        }),
{
    crate::lines::lemma_text_lines_keep_order(
        content.skip(read_start(offset, content.len()) as int),
    );
}

/// A tick that was skipped loses nothing: what two reads would have returned
/// one after the other, the later read returns alone, in the same order,
/// where the first write ended with a line feed.
pub proof fn lemma_skipped_tick_loses_nothing(before: Seq<u8>, first: Seq<u8>, second: Seq<u8>)
    requires
        first.len() == 0 || first.last() == crate::lines::LF,
    ensures
        lines_after(before + first + second, before.len()) == lines_after(
            before + first,
            before.len(),
        ) + lines_after(before + first + second, (before + first).len()),
{
    lemma_read_returns_what_was_written(before, first);
    lemma_read_returns_what_was_written(before + first, second);
    lemma_read_returns_what_was_written(before, first + second);
    assert(before + first + second =~= before + (first + second));
    crate::lines::lemma_lines_of_appended(first, second);
}

/// Position tracker of one tailed file: its path and the offset up to which
/// it has been read.
pub struct FileTracker {
    log_path: String,
    position: u64,
}

impl FileTracker {
    /// The path of the tracked file.
    pub closed spec fn path(&self) -> Seq<char> {
        self.log_path@
    }

    /// The offset up to which the file has been read.
    pub closed spec fn offset(&self) -> nat {
        self.position as nat
    }

    /// A tracker of no file yet, at offset 0.
    pub fn new() -> (t: Self)
        ensures
            t.offset() == 0,
            t.path() == Seq::<char>::empty(),
    {
        FileTracker { log_path: String::new(), position: 0 }
    }

    /// The offset up to which the file has been read.
    pub fn read_offset(&self) -> (o: u64)
        ensures
            o as nat == self.offset(),
    {
        self.position
    }

    /// The path of the tracked file.
    pub fn log_path(&self) -> (p: &String)
        ensures
            p@ == self.path(),
    {
        &self.log_path
    }

    /// Starts tracking the file at `path`, which holds `size` bytes now:
    /// whatever it holds already is taken as read.
    pub fn track(&mut self, path: String, size: u64)
        ensures
            final(self).path() == path@,
            final(self).offset() == size as nat,
    {
        self.log_path = path;
        self.position = size;
    }

    /// Moves the offset forward to `new_offset`.
    pub fn advance(&mut self, new_offset: u64)
        requires
            new_offset as nat >= old(self).offset(),
        ensures
            final(self).offset() == new_offset as nat,
            final(self).path() == old(self).path(),
    {
        self.position = new_offset;
    }

    /// Puts the offset back to the first byte, as after a rotation.
    pub fn reset(&mut self)
        ensures
            final(self).offset() == 0,
            final(self).path() == old(self).path(),
    {
        self.position = 0;
    }

    /// First half of a read, given the file's current size: puts the offset
    /// back to 0 where the file has shrunk, and says whether and from where
    /// to read.
    pub fn begin_read(&mut self, size: u64) -> (plan: ReadPlan)
        ensures
            plan == plan_for(old(self).offset(), size as nat),
            final(self).offset() == read_start(old(self).offset(), size as nat),
            final(self).path() == old(self).path(),
    {
        if size < self.position {
            self.position = 0;
        }
        plan_read(self.position, size)
    }

    /// Second half of a read: `tail` holds the bytes from the planned start
    /// to the end of a file of `size` bytes. Returns their lines and moves the
    /// offset forward to `size`. After the first half with the same size the
    /// offset is never beyond it.
    pub fn finish_read(&mut self, size: u64, tail: &[u8]) -> (lines: Vec<String>)
        requires
            size as nat >= old(self).offset(),
        ensures
            texts_of(lines@) == text_lines(tail@),
            final(self).offset() == size as nat,
            final(self).path() == old(self).path(),
    {
        let lines = collect_lines(tail);
        self.position = size;
        lines
    }

    /// A whole read of a file whose bytes are `content`.
    pub fn read_new(&mut self, content: &[u8]) -> (lines: Vec<String>)
        ensures
            texts_of(lines@) == lines_after(content@, old(self).offset()),
            final(self).offset() == offset_after(content@, old(self).offset()),
            final(self).path() == old(self).path(),
    {
        let mut pos: u64 = self.position;
        let res = read_new_lines(Some(content), &mut pos);
        self.position = pos;
        match res {
            Ok(lines) => lines,
            Err(_) => Vec::new(),
        }
    }
}

} // verus!
