//! Line-by-line reads: splitting file content into lines and decoding each.

use vstd::prelude::*;
use vstd::utf8::{decode_utf8, valid_utf8};
use crate::content::{content_view, utf8_to_string, ReadError};

verus! {

/// Index of the first newline byte in `bytes`, or their length when none is
/// anywhere.
pub open spec fn first_newline(bytes: Seq<u8>) -> nat
    decreases bytes.len(),
{
    if bytes.len() == 0 {
        0
    } else if bytes[0] == 10 {
        0
    } else {
        1 + first_newline(bytes.skip(1))
    }
}

/// A newline-terminated line with a carriage return at its end loses it: the
/// terminator of a line is a newline or a carriage return followed by one.
pub open spec fn strip_cr(line: Seq<u8>) -> Seq<u8> {
    if line.len() > 0 && line.last() == 13 {
        line.drop_last()
    } else {
        line
    }
}

/// The byte content of each line of a file: the content split at every
/// newline byte, each piece up to a newline stripped of that newline and of a
/// carriage return directly before it, and whatever follows the last newline
/// kept unchanged as a final line when it is nonempty.
pub open spec fn segments(bytes: Seq<u8>) -> Seq<Seq<u8>>
    decreases bytes.len(),
{
    if bytes.len() == 0 {
        Seq::empty()
    } else {
        let nl = first_newline(bytes);
        if nl < bytes.len() {
            seq![strip_cr(bytes.take(nl as int))] + segments(bytes.skip(nl as int + 1))
        } else {
            seq![bytes]
        }
    }
}

/// The per-line outcome of decoding one line's bytes as UTF-8.
pub open spec fn decoded_result(line: Seq<u8>) -> Result<Seq<char>, ReadError> {
    if valid_utf8(line) {
        Ok(decode_utf8(line))
    } else {
        Err(ReadError::Decode)
    }
}

/// Of the given lines' bytes, the decodings of those that are valid UTF-8, in
/// their original order; the others are dropped.
pub open spec fn kept_of(lines: Seq<Seq<u8>>) -> Seq<Seq<char>>
    decreases lines.len(),
{
    if lines.len() == 0 {
        Seq::empty()
    } else if valid_utf8(lines[0]) {
        seq![decode_utf8(lines[0])] + kept_of(lines.drop_first())
    } else {
        kept_of(lines.drop_first())
    }
}

/// The text lines of a file's content: its line segments that decode as
/// UTF-8, terminators stripped, in their original order.
pub open spec fn kept_lines(bytes: Seq<u8>) -> Seq<Seq<char>> {
    kept_of(segments(bytes))
}

/// How many of the given lines' bytes decode as UTF-8.
pub open spec fn decoded_count(lines: Seq<Seq<u8>>) -> int
    decreases lines.len(),
{
    if lines.len() == 0 {
        0
    } else if valid_utf8(lines[0]) {
        1 + decoded_count(lines.drop_first())
    } else {
        decoded_count(lines.drop_first())
    }
}

/// What a line read returns for given file content: the decoded lines, and an
/// empty sequence - not an error - when the file could not be read at all.
pub open spec fn lines_read(content: Option<Seq<u8>>) -> Seq<Seq<char>> {
    match content {
        None => Seq::empty(),
        Some(bytes) => kept_lines(bytes),
    }
}

/// What a raw line read returns for given file content: a per-line result for
/// every line, each line that is not valid UTF-8 carrying a decode error, and
/// an I/O error for the whole read when there is no content.
pub open spec fn raw_lines_read(content: Option<Seq<u8>>) -> Result<
    Seq<Result<Seq<char>, ReadError>>,
    ReadError,
> {
    match content {
        None => Err(ReadError::Io),
        Some(bytes) => Ok(segments(bytes).map_values(|line: Seq<u8>| decoded_result(line))),
    }
}

/// The view of one per-line result: the text becomes its character sequence.
pub open spec fn result_view(line: Result<String, ReadError>) -> Result<Seq<char>, ReadError> {
    match line {
        Ok(s) => Ok(s@),
        Err(e) => Err(e),
    }
}

/// The views of a sequence of per-line results.
pub open spec fn result_views(lines: Seq<Result<String, ReadError>>) -> Seq<
    Result<Seq<char>, ReadError>,
> {
    lines.map_values(|line: Result<String, ReadError>| result_view(line))
}

/// The views of a sequence of text lines.
pub open spec fn string_views(lines: Seq<String>) -> Seq<Seq<char>> {
    lines.map_values(|line: String| line@)
}

/// The views of a sequence of byte lines.
pub open spec fn byte_views(lines: Seq<Vec<u8>>) -> Seq<Seq<u8>> {
    lines.map_values(|line: Vec<u8>| line@)
}

proof fn lemma_first_newline_at(bytes: Seq<u8>, k: int)
    requires
        0 <= k <= bytes.len(),
        forall|j: int| 0 <= j < k ==> bytes[j] != 10,
        k < bytes.len() ==> bytes[k] == 10,
    ensures
        first_newline(bytes) == k,
    decreases k,
{
    if k == 0 {
    } else {
        assert(bytes[0] != 10);
        let rest = bytes.skip(1);
        assert forall|j: int| 0 <= j < k - 1 implies rest[j] != 10 by {
            assert(rest[j] == bytes[j + 1]);
        }
        if k - 1 < rest.len() {
            assert(rest[k - 1] == bytes[k]);
        }
        lemma_first_newline_at(rest, k - 1);
    }
}

proof fn lemma_segments_split_at(bytes: Seq<u8>, k: int)
    requires
        0 <= k < bytes.len(),
        bytes[k] == 10,
        forall|j: int| 0 <= j < k ==> bytes[j] != 10,
    ensures
        segments(bytes) == seq![strip_cr(bytes.take(k))] + segments(bytes.skip(k + 1)),
{
    lemma_first_newline_at(bytes, k);
}

proof fn lemma_segments_no_newline(bytes: Seq<u8>)
    requires
        forall|j: int| 0 <= j < bytes.len() ==> bytes[j] != 10,
    ensures
        bytes.len() == 0 ==> segments(bytes) == Seq::<Seq<u8>>::empty(),
        bytes.len() > 0 ==> segments(bytes) == seq![bytes],
{
    lemma_first_newline_at(bytes, bytes.len() as int);
}

proof fn lemma_kept_of_push(lines: Seq<Seq<u8>>, line: Seq<u8>)
    ensures
        kept_of(lines.push(line)) == if valid_utf8(line) {
            kept_of(lines).push(decode_utf8(line))
        } else {
            kept_of(lines)
        },
    decreases lines.len(),
{
    if lines.len() == 0 {
        assert(lines.push(line)[0] == line);
        assert(lines.push(line).drop_first() =~= Seq::<Seq<u8>>::empty());
        assert(kept_of(Seq::<Seq<u8>>::empty()) =~= Seq::<Seq<char>>::empty());
        assert(kept_of(lines) =~= Seq::<Seq<char>>::empty());
        if valid_utf8(line) {
            assert(kept_of(lines.push(line)) =~= kept_of(lines).push(decode_utf8(line)));
        } else {
            assert(kept_of(lines.push(line)) =~= kept_of(lines));
        }
    } else {
        assert(lines.push(line)[0] == lines[0]);
        assert(lines.push(line).drop_first() =~= lines.drop_first().push(line));
        lemma_kept_of_push(lines.drop_first(), line);
        if valid_utf8(line) {
            assert(kept_of(lines.push(line)) =~= kept_of(lines).push(decode_utf8(line)));
        } else {
            assert(kept_of(lines.push(line)) =~= kept_of(lines));
        }
    }
}

proof fn lemma_kept_of_len(lines: Seq<Seq<u8>>)
    ensures
        kept_of(lines).len() == decoded_count(lines),
        0 <= decoded_count(lines) <= lines.len(),
    decreases lines.len(),
{
    if lines.len() == 0 {
    } else {
        lemma_kept_of_len(lines.drop_first());
    }
}

/// A line read keeps exactly the lines that decode: of content whose line
/// segments some number decode as UTF-8 and the rest do not, the kept lines
/// are exactly that many, never more than the segments, while the raw
/// per-line results cover every segment.
pub proof fn lemma_kept_lines_count(bytes: Seq<u8>)
    ensures
        kept_lines(bytes).len() == decoded_count(segments(bytes)),
        0 <= decoded_count(segments(bytes)) <= segments(bytes).len(),
        raw_lines_read(Some(bytes)) matches Ok(results) && results.len() == segments(bytes).len(),
{
    lemma_kept_of_len(segments(bytes));
}

/// A file that cannot be read gives the convenience line read an empty
/// sequence and the raw line read an I/O error: the one hides the failure,
/// the other surfaces it.
pub proof fn lemma_missing_file_reads()
    ensures
        lines_read(None) == Seq::<Seq<char>>::empty(),
        raw_lines_read(None) == Err::<Seq<Result<Seq<char>, ReadError>>, ReadError>(ReadError::Io),
{
}

/// Copy of the bytes at the indices `[from, to)`.
fn copy_range(bytes: &Vec<u8>, from: usize, to: usize) -> (piece: Vec<u8>)
    requires
        from <= to <= bytes@.len(),
    ensures
        piece@ == bytes@.subrange(from as int, to as int),
{
    let mut piece: Vec<u8> = Vec::new();
    let mut i: usize = from;
    while i < to
        invariant
            from <= i <= to <= bytes@.len(),
            piece@ == bytes@.subrange(from as int, i as int),
        decreases to - i,
    {
        piece.push(bytes[i]);
        i = i + 1;
        proof {
            assert(piece@ =~= bytes@.subrange(from as int, i as int));
        }
    }
    piece
}

/// Splits file content into the byte content of its lines, as `segments`
/// describes them.
fn split_segments(bytes: &Vec<u8>) -> (pieces: Vec<Vec<u8>>)
    ensures
        byte_views(pieces@) == segments(bytes@),
{
    let mut pieces: Vec<Vec<u8>> = Vec::new();
    let mut start: usize = 0;
    let mut i: usize = 0;
    proof {
        assert(bytes@.skip(0) =~= bytes@);
        assert(byte_views(pieces@) =~= Seq::<Seq<u8>>::empty());
        assert(segments(bytes@) =~= byte_views(pieces@) + segments(bytes@.skip(0)));
    }
    while i < bytes.len()
        invariant
            start <= i <= bytes@.len(),
            forall|j: int| start <= j < i ==> bytes@[j] != 10,
            segments(bytes@) == byte_views(pieces@) + segments(bytes@.skip(start as int)),
        decreases bytes@.len() - i,
    {
        if bytes[i] == 10 {
            let ghost rest = bytes@.skip(start as int);
            let ghost k: int = i as int - start as int;
            let end = if i > start && bytes[i - 1] == 13 {
                i - 1
            } else {
                i
            };
            let piece = copy_range(bytes, start, end);
            proof {
                assert forall|j: int| 0 <= j < k implies rest[j] != 10 by {
                    assert(rest[j] == bytes@[start + j]);
                }
                assert(rest[k] == bytes@[i as int]);
                lemma_segments_split_at(rest, k);
                assert(rest.take(k) =~= bytes@.subrange(start as int, i as int));
                if end < i {
                    assert(rest.take(k).len() == k && k > 0);
                    assert(rest.take(k).last() == 13);
                    assert(strip_cr(rest.take(k)) =~= piece@);
                } else {
                    assert(strip_cr(rest.take(k)) =~= piece@);
                }
                assert(rest.skip(k + 1) =~= bytes@.skip(i as int + 1));
            }
            let ghost pieces0 = pieces@;
            pieces.push(piece);
            start = i + 1;
            proof {
                assert(byte_views(pieces@) =~= byte_views(pieces0) + seq![piece@]);
                assert(segments(bytes@) =~= byte_views(pieces@) + segments(
                    bytes@.skip(start as int),
                ));
            }
        }
        i = i + 1;
    }
    let ghost tail = bytes@.skip(start as int);
    proof {
        assert forall|j: int| 0 <= j < tail.len() implies tail[j] != 10 by {
            assert(tail[j] == bytes@[start + j]);
        }
        lemma_segments_no_newline(tail);
    }
    if start < bytes.len() {
        let piece = copy_range(bytes, start, bytes.len());
        proof {
            assert(piece@ =~= tail);
        }
        let ghost pieces0 = pieces@;
        pieces.push(piece);
        proof {
            assert(byte_views(pieces@) =~= byte_views(pieces0) + seq![piece@]);
            assert(byte_views(pieces@) =~= segments(bytes@));
        }
    } else {
        proof {
            assert(byte_views(pieces@) =~= segments(bytes@));
        }
    }
    pieces
}

/// Returns a per-line result for every line of a file, given the outcome of
/// reading it: each line's text with its terminator stripped, or a decode
/// error for a line whose bytes are not valid UTF-8; when the file could not
/// be opened or read at all, `ReadError::Io` for the whole read. The caller
/// opens the file, reads it to the end, and hands the outcome in as
/// `Some(bytes)` or `None`.
pub fn read_lines_raw(content: Option<Vec<u8>>) -> (lines: Result<
    Vec<Result<String, ReadError>>,
    ReadError,
>)
    ensures
        match lines {
            Ok(results) => raw_lines_read(content_view(content)) == Ok::<
                Seq<Result<Seq<char>, ReadError>>,
                ReadError,
            >(result_views(results@)),
            Err(e) => raw_lines_read(content_view(content)) == Err::<
                Seq<Result<Seq<char>, ReadError>>,
                ReadError,
            >(e),
        },
{
    match content {
        None => Err(ReadError::Io),
        Some(bytes) => {
            let pieces = split_segments(&bytes);
            let ghost segs = segments(bytes@);
            let mut results: Vec<Result<String, ReadError>> = Vec::new();
            let mut i: usize = 0;
            while i < pieces.len()
                invariant
                    i <= pieces@.len(),
                    byte_views(pieces@) == segs,
                    segs == segments(bytes@),
                    results@.len() == i,
                    forall|j: int|
                        0 <= j < i ==> result_view(#[trigger] results@[j]) == decoded_result(
                            segs[j],
                        ),
                decreases pieces@.len() - i,
            {
                proof {
                    assert(pieces@[i as int]@ == byte_views(pieces@)[i as int]);
                }
                match utf8_to_string(&pieces[i]) {
                    Some(s) => results.push(Ok(s)),
                    None => results.push(Err(ReadError::Decode)),
                }
                i = i + 1;
            }
            proof {
                assert(result_views(results@) =~= segs.map_values(
                    |line: Seq<u8>| decoded_result(line),
                ));
            }
            Ok(results)
        },
    }
}

/// Returns the text lines of a file, given the outcome of reading it: the
/// lines that decode as UTF-8, terminators stripped, in their original order;
/// a line that does not decode is silently dropped, and a file that could not
/// be opened or read at all gives an empty sequence, not an error.
pub fn read_lines(content: Option<Vec<u8>>) -> (lines: Vec<String>)
    ensures
        string_views(lines@) == lines_read(content_view(content)),
{
    let ghost cv = content_view(content);
    let mut lines: Vec<String> = Vec::new();
    if let Ok(results) = read_lines_raw(content) {
        let ghost segs = (match cv {
            Some(bytes) => segments(bytes),
            None => Seq::<Seq<u8>>::empty(),
        });
        proof {
            assert(result_views(results@) == segs.map_values(
                |line: Seq<u8>| decoded_result(line),
            ));
        }
        let mut i: usize = 0;
        while i < results.len()
            invariant
                i <= results@.len(),
                results@.len() == segs.len(),
                result_views(results@) == segs.map_values(|line: Seq<u8>| decoded_result(line)),
                string_views(lines@) == kept_of(segs.take(i as int)),
            decreases results@.len() - i,
        {
            proof {
                assert(result_view(results@[i as int]) == result_views(results@)[i as int]);
                assert(result_views(results@)[i as int] == decoded_result(segs[i as int]));
                assert(segs.take(i as int).push(segs[i as int]) =~= segs.take(i as int + 1));
                lemma_kept_of_push(segs.take(i as int), segs[i as int]);
            }
            let ghost lines0 = lines@;
            match &results[i] {
                Ok(s) => {
                    lines.push(s.clone());
                    proof {
                        assert(string_views(lines@) =~= string_views(lines0).push(s@));
                    }
                },
                Err(_) => {},
            }
            i = i + 1;
        }
        proof {
            assert(segs.take(segs.len() as int) =~= segs);
        }
    }
    proof {
        assert(string_views(lines@) =~= lines_read(cv));
    }
    lines
}

} // verus!
