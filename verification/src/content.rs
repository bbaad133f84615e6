//! Whole-file content as bytes or as decoded text.

use vstd::prelude::*;
use vstd::utf8::{decode_utf8, encode_utf8, valid_utf8};
use vstd::utf8::decode_utf8_encode_utf8;

verus! {

/// Why a whole-file read failed: the file could not be opened or read, or its
/// content was not valid text.
#[derive(Clone, Copy, Debug, PartialEq, Eq, Structural)]
pub enum ReadError {
    Io,
    Decode,
}

/// The caller's view of a file: the bytes it read in full, or `None` when the
/// file could not be opened or read to the end.
pub open spec fn content_view(content: Option<Vec<u8>>) -> Option<Seq<u8>> {
    match content {
        Some(bytes) => Some(bytes@),
        None => None,
    }
}

/// What a whole-file read as bytes returns: the content itself, or an I/O
/// error when there is none; no partial buffer is ever returned.
pub open spec fn buffer_read(content: Option<Seq<u8>>) -> Result<Seq<u8>, ReadError> {
    match content {
        Some(bytes) => Ok(bytes),
        None => Err(ReadError::Io),
    }
}

/// What a whole-file read as text returns: the decoding of the content when it
/// is valid UTF-8, a decode error when it is not, and an I/O error when there
/// is no content.
pub open spec fn string_read(content: Option<Seq<u8>>) -> Result<Seq<char>, ReadError> {
    match content {
        None => Err(ReadError::Io),
        Some(bytes) => if valid_utf8(bytes) {
            Ok(decode_utf8(bytes))
        } else {
            Err(ReadError::Decode)
        },
    }
}

/// Relies on `String::from_utf8`: it succeeds exactly on valid UTF-8 input and
/// returns the string those bytes decode to, whose own bytes are the input.
#[verifier::external_body]
pub(crate) fn utf8_to_string(bytes: &Vec<u8>) -> (decoded: Option<String>)
    ensures
        decoded matches Some(s) ==> valid_utf8(bytes@) && s@ == decode_utf8(bytes@),
        decoded is None ==> !valid_utf8(bytes@),
{
    String::from_utf8(bytes.clone()).ok()
}

/// Returns a file's entire content as a byte sequence, given the outcome of
/// reading it: the bytes unchanged, or `ReadError::Io` when the file could not
/// be opened or read. The caller opens the file, reads it to the end, and
/// hands the outcome in as `Some(bytes)` or `None`.
pub fn read_file_into_buffer(content: Option<Vec<u8>>) -> (buffer: Result<Vec<u8>, ReadError>)
    ensures
        match buffer {
            Ok(bytes) => buffer_read(content_view(content)) == Ok::<Seq<u8>, ReadError>(bytes@),
            Err(e) => buffer_read(content_view(content)) == Err::<Seq<u8>, ReadError>(e),
        },
{
    match content {
        Some(bytes) => Ok(bytes),
        None => Err(ReadError::Io),
    }
}

/// Returns a file's entire content decoded as text, given the outcome of
/// reading it: `ReadError::Io` when the file could not be opened or read, and
/// `ReadError::Decode` when its bytes are not valid UTF-8.
pub fn read_file_into_string(content: Option<Vec<u8>>) -> (text: Result<String, ReadError>)
    ensures
        match text {
            Ok(s) => string_read(content_view(content)) == Ok::<Seq<char>, ReadError>(s@),
            Err(e) => string_read(content_view(content)) == Err::<Seq<char>, ReadError>(e),
        },
{
    match content {
        None => Err(ReadError::Io),
        Some(bytes) => match utf8_to_string(&bytes) {
            Some(s) => Ok(s),
            None => Err(ReadError::Decode),
        },
    }
}

/// The byte and the text read of one file agree: whenever the text read
/// succeeds, encoding its result back to bytes gives exactly the bytes that
/// the byte read of the same content returns.
pub proof fn lemma_string_read_matches_buffer(bytes: Seq<u8>)
    requires
        string_read(Some(bytes)) is Ok,
    ensures
        buffer_read(Some(bytes)) == Ok::<Seq<u8>, ReadError>(bytes),
        encode_utf8(string_read(Some(bytes)).unwrap()) == bytes,
{
    decode_utf8_encode_utf8(bytes);
}

} // verus!
