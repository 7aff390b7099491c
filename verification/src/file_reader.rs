//! A reader over what was read of a text file, for assertions in tests.
use crate::debug_text::{
    assemble_debug_text, assembled, ending, lemma_flatten_holds, message_of, texts_of, DebugText,
};
use crate::text::{chunk_text, decode_lossy, lemma_decode_concat, REPLACEMENT};
use vstd::prelude::*;
use vstd::slice::slice_subrange;
use vstd::utf8::{decode_utf8, valid_utf8};

verus! {

/// The number of bytes that one read asks for.
pub const CHUNK_SIZE: usize = 1024;

/// What a [`TextFileReader`] stands for.
pub struct FileView {
    /// The text of the file's path.
    pub filepath: Seq<char>,
    /// The byte length that was recorded when the file was opened.
    pub size: u64,
    /// The bytes that reading the file delivers, in order.
    pub contents: Seq<u8>,
    /// The failure that ends the stream after `contents`, if reading fails.
    pub read_error: Option<Seq<char>>,
}

/// How the comparison of two files ended.
#[derive(Clone, Copy, Debug, PartialEq, Eq, Structural)]
pub enum Comparison {
    /// Both streams ended together and every chunk before that matched.
    Equal,
    /// The recorded lengths, the sizes of two chunks or their bytes differ.
    NotEqual,
    /// A read failed before any difference was found.
    ReadError,
}

/// The number of bytes that a read at `position` delivers from `contents`.
pub open spec fn chunk_len(contents: Seq<u8>, position: int) -> int {
    if position < 0 || position >= contents.len() {
        0
    } else if contents.len() - position < CHUNK_SIZE {
        contents.len() - position
    } else {
        CHUNK_SIZE as int
    }
}

/// The bytes that a read at `position` delivers from `contents`.
pub open spec fn chunk_at(contents: Seq<u8>, position: int) -> Seq<u8> {
    if chunk_len(contents, position) == 0 {
        Seq::empty()
    } else {
        contents.subrange(position, position + chunk_len(contents, position))
    }
}

/// The number of reads that deliver bytes from a file of `len` bytes.
pub open spec fn chunks_in(len: int) -> int {
    (len + CHUNK_SIZE - 1) / (CHUNK_SIZE as int)
}

/// What a read at `position` delivers: the next chunk while bytes are left,
/// then nothing where reading fails, else no bytes at the end of the stream.
pub open spec fn delivered(file: FileView, position: int) -> Option<Seq<u8>> {
    if chunk_len(file.contents, position) == 0 && file.read_error is Some {
        None
    } else {
        Some(chunk_at(file.contents, position))
    }
}

/// The bytes of a read, where it did not fail.
pub open spec fn bytes_of(read: Option<&[u8]>) -> Option<Seq<u8>> {
    match read {
        Some(bytes) => Some(bytes@),
        None => None,
    }
}

/// What the recorded lengths of two files decide by themselves: that the
/// files are unequal where the lengths differ, and nothing where they agree.
pub open spec fn decided_by_lengths(my_size: u64, their_size: u64) -> Option<Comparison> {
    if my_size != their_size {
        Some(Comparison::NotEqual)
    } else {
        None
    }
}

/// What one read on each side decides. A failed read on either side ends the
/// comparison as [`Comparison::ReadError`]; chunks of different sizes or
/// bytes end it as [`Comparison::NotEqual`]; two empty reads end it as
/// [`Comparison::Equal`]; two equal chunks decide nothing.
pub open spec fn decided_by_reads(mine: Option<Seq<u8>>, theirs: Option<Seq<u8>>) -> Option<
    Comparison,
> {
    match (mine, theirs) {
        (Some(my_bytes), Some(their_bytes)) => {
            if my_bytes.len() != their_bytes.len() {
                Some(Comparison::NotEqual)
            } else if my_bytes.len() == 0 {
                Some(Comparison::Equal)
            } else if my_bytes != their_bytes {
                Some(Comparison::NotEqual)
            } else {
                None
            }
        },
        _ => Some(Comparison::ReadError),
    }
}

/// The result of reading both files chunk by chunk from `position` on, until
/// a pair of reads decides.
pub open spec fn compared_from(mine: FileView, theirs: FileView, position: int) -> Comparison
    decreases mine.contents.len() - position,
{
    match decided_by_reads(delivered(mine, position), delivered(theirs, position)) {
        Some(verdict) => verdict,
        None => compared_from(mine, theirs, position + chunk_len(mine.contents, position)),
    }
}

/// The result of comparing two files: what the recorded lengths decide, else
/// what reading both from the start gives.
pub open spec fn compared(mine: FileView, theirs: FileView) -> Comparison {
    match decided_by_lengths(mine.size, theirs.size) {
        Some(verdict) => verdict,
        None => compared_from(mine, theirs, 0),
    }
}

/// Two files are the same: equal recorded lengths, equal bytes, and no read
/// failed on either side.
pub open spec fn same_file(mine: FileView, theirs: FileView) -> bool {
    &&& mine.size == theirs.size
    &&& mine.contents == theirs.contents
    &&& mine.read_error is None
    &&& theirs.read_error is None
}

/// A record that is true to a file on disk: the recorded length is that of
/// the bytes, and no read failed.
pub open spec fn intact(file: FileView) -> bool {
    file.size == file.contents.len() && file.read_error is None
}

/// Decides from the recorded lengths alone, before anything is read, whether
/// two files are unequal.
pub fn compare_lengths(my_size: u64, their_size: u64) -> (verdict: Option<Comparison>)
    ensures
        verdict == decided_by_lengths(my_size, their_size),
{
    if my_size != their_size {
        Some(Comparison::NotEqual)
    } else {
        None
    }
}

/// Whether `mine` and `theirs` hold the same bytes.
pub fn slices_match(mine: &[u8], theirs: &[u8]) -> (matched: bool)
    ensures
        matched == (mine@ == theirs@),
{
    if mine.len() != theirs.len() {
        return false;
    }
    let mut seen: usize = 0;
    while seen < mine.len()
        invariant
            seen <= mine.len(),
            mine.len() == theirs.len(),
            forall|i: int| 0 <= i < seen ==> mine@[i] == theirs@[i],
        decreases mine.len() - seen,
    {
        if mine[seen] != theirs[seen] {
            return false;
        }
        seen = seen + 1;
    }
    assert(mine@ == theirs@);
    true
}

/// Decides what one read on each side means for the comparison: its end and
/// how it ended, or nothing yet, and then both sides are read again. A read
/// is the bytes that came, none at the end of the stream, or nothing where it
/// failed. Only the bytes that came are compared.
pub fn compare_reads(mine: Option<&[u8]>, theirs: Option<&[u8]>) -> (verdict: Option<Comparison>)
    ensures
        verdict == decided_by_reads(bytes_of(mine), bytes_of(theirs)),
{
    match (mine, theirs) {
        (Some(my_bytes), Some(their_bytes)) => {
            if my_bytes.len() != their_bytes.len() {
                Some(Comparison::NotEqual)
            } else if my_bytes.len() == 0 {
                Some(Comparison::Equal)
            } else if !slices_match(my_bytes, their_bytes) {
                Some(Comparison::NotEqual)
            } else {
                None
            }
        },
        _ => Some(Comparison::ReadError),
    }
}

/// What was read of a file: its path, the length recorded on opening, the
/// bytes that reading delivered and the failure that cut it short, if any.
pub struct TextFileReader {
    filepath: String,
    size: u64,
    contents: Vec<u8>,
    read_error: Option<String>,
}

impl View for TextFileReader {
    type V = FileView;

    closed spec fn view(&self) -> FileView {
        FileView {
            filepath: self.filepath@,
            size: self.size,
            contents: self.contents@,
            read_error: message_of(self.read_error),
        }
    }
}

/// The text of each chunk that reading `contents` from `position` on
/// delivers, in order.
pub open spec fn decoded_chunks(contents: Seq<u8>, position: int) -> Seq<Seq<char>>
    decreases contents.len() - position,
{
    let count = chunk_len(contents, position);
    if count == 0 {
        Seq::empty()
    } else {
        seq![chunk_text(chunk_at(contents, position))] + decoded_chunks(contents, position + count)
    }
}

/// Every chunk that reading `contents` from `position` on delivers is valid
/// UTF-8 by itself: the bytes are text, and no chunk ends inside a character.
pub open spec fn chunks_are_text(contents: Seq<u8>, position: int) -> bool
    decreases contents.len() - position,
{
    let count = chunk_len(contents, position);
    count == 0 || (valid_utf8(chunk_at(contents, position)) && chunks_are_text(
        contents,
        position + count,
    ))
}

/// The debug text of a file: its path on a line of its own, the text of its
/// chunks, and a note of the failure where reading failed.
pub open spec fn debug_text(file: FileView) -> Seq<char> {
    assembled(file.filepath, decoded_chunks(file.contents, 0), file.read_error)
}

/// Reading `contents` from `position` on delivers as many chunks as the bytes
/// that are left fill, the last one counted though it may be short.
pub proof fn lemma_number_of_chunks(contents: Seq<u8>, position: int)
    requires
        0 <= position <= contents.len(),
    ensures
        decoded_chunks(contents, position).len() == chunks_in(contents.len() - position),
    decreases contents.len() - position,
{
    let count = chunk_len(contents, position);
    if count != 0 {
        lemma_number_of_chunks(contents, position + count);
    }
}

impl TextFileReader {
    /// Records a file: the text of its path, the length found on opening it,
    /// the bytes read from it, and the failure that ended reading, if any.
    pub fn new(filepath: &str, size: u64, contents: Vec<u8>, read_error: Option<String>) -> (reader:
        Self)
        ensures
            reader@ == (FileView {
                filepath: filepath@,
                size,
                contents: contents@,
                read_error: message_of(read_error),
            }),
    {
        TextFileReader { filepath: String::from_str(filepath), size, contents, read_error }
    }

    /// Reads at `position`: the bytes of the next chunk, none at the end of
    /// the stream, or nothing where the read fails.
    pub fn read_at(&self, position: usize) -> (read: Option<&[u8]>)
        ensures
            bytes_of(read) == delivered(self@, position as int),
    {
        let len: usize = self.contents.len();
        if position < len {
            let count: usize = if len - position < CHUNK_SIZE {
                len - position
            } else {
                CHUNK_SIZE
            };
            Some(slice_subrange(self.contents.as_slice(), position, position + count))
        } else if self.read_error.is_some() {
            None
        } else {
            let nothing = slice_subrange(self.contents.as_slice(), len, len);
            assert(nothing@ == Seq::<u8>::empty());
            Some(nothing)
        }
    }

    /// Compares two files chunk by chunk, and tells a failed read from a
    /// difference. Where the recorded lengths differ the files are unequal
    /// whatever they hold.
    pub fn compare(&self, other: &Self) -> (verdict: Comparison)
        ensures
            verdict == compared(self@, other@),
            self@.size != other@.size ==> verdict == Comparison::NotEqual,
    {
        if let Some(verdict) = compare_lengths(self.size, other.size) {
            return verdict;
        }
        let mut position: usize = 0;
        loop
            invariant
                position <= self.contents.len(),
                self@.size == other@.size,
                compared(self@, other@) == compared_from(self@, other@, position as int),
            decreases self.contents.len() - position,
        {
            let mine = self.read_at(position);
            let theirs = other.read_at(position);
            match compare_reads(mine, theirs) {
                Some(verdict) => {
                    return verdict;
                },
                None => {
                    let count: usize = match mine {
                        Some(bytes) => bytes.len(),
                        None => 0,
                    };
                    position = position + count;
                },
            }
        }
    }

    /// Reads the file from the start, chunk by chunk, and decodes each chunk
    /// once and by itself, until a read delivers nothing or fails. A chunk
    /// that is not valid UTF-8 gives a text that holds the replacement
    /// character.
    pub fn decode_chunks(&self) -> (parts: Vec<String>)
        ensures
            texts_of(parts@) == decoded_chunks(self@.contents, 0),
            parts.len() == chunks_in(self@.contents.len() as int),
            !chunks_are_text(self@.contents, 0) ==> exists|i: int|
                0 <= i < parts.len() && (#[trigger] parts[i])@.contains(REPLACEMENT),
    {
        let mut parts: Vec<String> = Vec::new();
        let mut position: usize = 0;
        assert(texts_of(parts@) == Seq::<Seq<char>>::empty());
        loop
            invariant_except_break
                position <= self.contents.len(),
                texts_of(parts@) + decoded_chunks(self@.contents, position as int)
                    == decoded_chunks(self@.contents, 0),
                chunks_are_text(self@.contents, 0) == chunks_are_text(
                    self@.contents,
                    position as int,
                ) || exists|i: int|
                    0 <= i < parts.len() && (#[trigger] parts[i])@.contains(REPLACEMENT),
            ensures
                texts_of(parts@) == decoded_chunks(self@.contents, 0),
                !chunks_are_text(self@.contents, 0) ==> exists|i: int|
                    0 <= i < parts.len() && (#[trigger] parts[i])@.contains(REPLACEMENT),
            decreases self.contents.len() - position,
        {
            match self.read_at(position) {
                Some(chunk) => {
                    if chunk.len() == 0 {
                        break ;
                    }
                    let text = decode_lossy(chunk);
                    proof {
                        let before = texts_of(parts@);
                        let rest = decoded_chunks(self@.contents, position + chunk.len());
                        assert(texts_of(parts@.push(text)) == before.push(text@));
                        assert(before.push(text@) + rest == before + (seq![text@] + rest));
                        if exists|i: int|
                            0 <= i < parts.len() && (#[trigger] parts[i])@.contains(REPLACEMENT) {
                            let i = choose|i: int|
                                0 <= i < parts.len() && (#[trigger] parts[i])@.contains(
                                    REPLACEMENT,
                                );
                            assert(parts@.push(text)[i]@.contains(REPLACEMENT));
                        } else if !valid_utf8(chunk@) {
                            assert(parts@.push(text)[parts.len() as int]@.contains(REPLACEMENT));
                        }
                    }
                    parts.push(text);
                    position = position + chunk.len();
                },
                None => {
                    break ;
                },
            }
        }
        proof {
            lemma_number_of_chunks(self@.contents, 0);
            assert(texts_of(parts@).len() == parts.len());
        }
        parts
    }

    /// Renders the file for the output of a failed assertion. Bytes that are
    /// not valid UTF-8 never make this fail: they show as the replacement
    /// character. The text is incomplete only where reading the file failed,
    /// and then it ends in a note of that.
    pub fn render_debug_text(&self) -> (out: DebugText)
        ensures
            out.text@ == debug_text(self@),
            out.complete == (self@.read_error is None),
            !chunks_are_text(self@.contents, 0) ==> out.text@.contains(REPLACEMENT),
    {
        let parts = self.decode_chunks();
        let out = assemble_debug_text(self.filepath.as_str(), &parts, &self.read_error);
        proof {
            if !chunks_are_text(self@.contents, 0) {
                let i = choose|i: int|
                    0 <= i < parts.len() && (#[trigger] parts[i])@.contains(REPLACEMENT);
                let texts = texts_of(parts@);
                assert(texts[i] == parts[i]@);
                lemma_flatten_holds(texts, i, REPLACEMENT);
                let flat = texts.flatten();
                let before = self@.filepath + "\n"@;
                let at = choose|at: int| 0 <= at < flat.len() && flat[at] == REPLACEMENT;
                assert(out.text@[before.len() + at] == REPLACEMENT);
            }
        }
        out
    }
}

impl PartialEq for TextFileReader {
    /// Whether both records are of the same file: the recorded lengths agree,
    /// and reading both chunk by chunk finds no difference and no failure.
    fn eq(&self, other: &Self) -> (equal: bool) {
        proof {
            lemma_equal_iff_same_file(self@, other@);
        }
        match self.compare(other) {
            Comparison::Equal => true,
            _ => false,
        }
    }
}

impl vstd::std_specs::cmp::PartialEqSpecImpl for TextFileReader {
    open spec fn obeys_eq_spec() -> bool {
        true
    }

    open spec fn eq_spec(&self, other: &Self) -> bool {
        same_file(self@, other@)
    }
}

/// Once both files agree on their first `position` bytes, reading on from
/// there ends as equal exactly if they agree on all bytes and no read fails.
proof fn lemma_compared_from(mine: FileView, theirs: FileView, position: int)
    requires
        0 <= position <= mine.contents.len(),
        position <= theirs.contents.len(),
        mine.contents.subrange(0, position) == theirs.contents.subrange(0, position),
    ensures
        compared_from(mine, theirs, position) == Comparison::Equal <==> {
            &&& mine.contents == theirs.contents
            &&& mine.read_error is None
            &&& theirs.read_error is None
        },
    decreases mine.contents.len() - position,
{
    let count = chunk_len(mine.contents, position);
    let end = position + count;
    let my_chunk = chunk_at(mine.contents, position);
    let their_chunk = chunk_at(theirs.contents, position);
    if delivered(mine, position) is None || delivered(theirs, position) is None {
    } else if count != chunk_len(theirs.contents, position) {
    } else if count == 0 {
        assert(mine.contents == mine.contents.subrange(0, position));
        assert(theirs.contents == theirs.contents.subrange(0, position));
    } else if my_chunk != their_chunk {
        assert(my_chunk.len() == their_chunk.len());
    } else {
        let my_prefix = mine.contents.subrange(0, position);
        let their_prefix = theirs.contents.subrange(0, position);
        assert forall|i: int| 0 <= i < end implies mine.contents[i] == theirs.contents[i] by {
            if i < position {
                assert(my_prefix[i] == mine.contents[i]);
                assert(their_prefix[i] == theirs.contents[i]);
            } else {
                assert(my_chunk[i - position] == mine.contents[i]);
                assert(their_chunk[i - position] == theirs.contents[i]);
            }
        }
        assert(mine.contents.subrange(0, end) == theirs.contents.subrange(0, end));
        lemma_compared_from(mine, theirs, end);
    }
}

/// A comparison ends as equal exactly for two records of the same file.
pub proof fn lemma_equal_iff_same_file(mine: FileView, theirs: FileView)
    ensures
        compared(mine, theirs) == Comparison::Equal <==> same_file(mine, theirs),
{
    if mine.size == theirs.size {
        assert(mine.contents.subrange(0, 0) == theirs.contents.subrange(0, 0));
        lemma_compared_from(mine, theirs, 0);
    }
}

/// Files of different recorded lengths compare as unequal, whatever bytes
/// they hold and whether or not their reads fail.
pub proof fn lemma_different_lengths_are_unequal(mine: FileView, theirs: FileView)
    requires
        mine.size != theirs.size,
    ensures
        compared(mine, theirs) == Comparison::NotEqual,
        !same_file(mine, theirs),
{
}

/// Intact records of files that hold the same bytes compare as equal, and so
/// for every length: empty, shorter than a chunk, a whole number of chunks or
/// not.
pub proof fn lemma_identical_files_are_equal(mine: FileView, theirs: FileView)
    requires
        intact(mine),
        intact(theirs),
        mine.contents == theirs.contents,
    ensures
        compared(mine, theirs) == Comparison::Equal,
        same_file(mine, theirs),
{
    lemma_equal_iff_same_file(mine, theirs);
}

/// Equality is reflexive on files that can be read to their end: a record
/// compares as equal to itself, and to any record made apart from it that
/// holds the same.
pub proof fn lemma_equality_is_reflexive(file: FileView, again: FileView)
    requires
        file.read_error is None,
        again.size == file.size,
        again.contents == file.contents,
        again.read_error is None,
    ensures
        compared(file, file) == Comparison::Equal,
        compared(file, again) == Comparison::Equal,
        compared(again, file) == Comparison::Equal,
{
    lemma_equal_iff_same_file(file, file);
    lemma_equal_iff_same_file(file, again);
    lemma_equal_iff_same_file(again, file);
}

/// Where every chunk from `position` on is text, the bytes from there on are
/// text as a whole, and the texts of the chunks make up the text they encode.
proof fn lemma_chunks_of_text(contents: Seq<u8>, position: int)
    requires
        0 <= position <= contents.len(),
        chunks_are_text(contents, position),
    ensures
        valid_utf8(contents.subrange(position, contents.len() as int)),
        decoded_chunks(contents, position).flatten() == decode_utf8(
            contents.subrange(position, contents.len() as int),
        ),
    decreases contents.len() - position,
{
    let count = chunk_len(contents, position);
    let len = contents.len() as int;
    if count == 0 {
        assert(contents.subrange(position, len) == Seq::<u8>::empty());
    } else {
        let chunk = chunk_at(contents, position);
        let rest = contents.subrange(position + count, len);
        let later = decoded_chunks(contents, position + count);
        lemma_chunks_of_text(contents, position + count);
        lemma_decode_concat(chunk, rest);
        assert(contents.subrange(position, len) == chunk + rest);
        assert((seq![decode_utf8(chunk)] + later).drop_first() == later);
    }
}

/// The debug text of a file that is text all through, with no character cut
/// by the end of a chunk, holds exactly the text that the file encodes.
pub proof fn lemma_debug_text_of_text(file: FileView)
    requires
        chunks_are_text(file.contents, 0),
    ensures
        valid_utf8(file.contents),
        debug_text(file) == file.filepath + "\n"@ + decode_utf8(file.contents) + ending(
            file.filepath,
            file.read_error,
        ),
{
    lemma_chunks_of_text(file.contents, 0);
    assert(file.contents.subrange(0, file.contents.len() as int) == file.contents);
}

} // verus!
