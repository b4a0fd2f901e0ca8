//! Interactive shell command editing: buffer edits, option picking, help
//! parsing, schema validation and the decisions around bounded probing.
pub mod adapters;
pub mod buffer;
pub mod discovery;
pub mod cache;
pub mod cli;
pub mod parser;
pub mod picker;
pub mod probe;
pub mod scan;
pub mod schema;
pub mod text;

use vstd::prelude::*;
use vstd::utf8::*;
use crate::text::{decimal, push_decimal, lemma_encode_len_ge, lemma_encode_push, lemma_encode_take_le, utf8_bytes, utf8_width};

verus! {

/// A character cursor that lies beyond the end of the buffer.
#[derive(Clone, Debug, PartialEq, Eq)]
pub struct CursorError {
    pub cursor: usize,
    pub character_count: usize,
}

impl CursorError {
    /// The message that describes the error.
    pub fn message(&self) -> (m: String)
        ensures
            m@ == "cursor "@ + decimal(self.cursor as nat) + " is beyond the buffer's "@ + decimal(
                self.character_count as nat,
            ) + " characters"@,
    {
        let mut s = "cursor ".to_owned();
        push_decimal(&mut s, self.cursor);
        s.append(" is beyond the buffer's ");
        push_decimal(&mut s, self.character_count);
        s.append(" characters");
        s
    }
}

/// Byte offset, in the UTF-8 encoding of `buffer`, of the character position `cursor`.
pub open spec fn char_to_byte_offset(buffer: Seq<char>, cursor: int) -> int {
    utf8_bytes(buffer.take(cursor)).len() as int
}

/// Converts a character position to a byte offset. Position `n` for an
/// `n`-character buffer maps to the buffer's byte length; any larger position
/// is an error that reports the character count.
pub fn character_cursor_to_byte(buffer: &str, cursor: usize) -> (r: Result<usize, CursorError>)
    ensures
        cursor <= buffer@.len() ==> r == Ok::<usize, CursorError>(
            char_to_byte_offset(buffer@, cursor as int) as usize,
        ),
        cursor <= buffer@.len() ==> char_to_byte_offset(buffer@, cursor as int) <= utf8_bytes(buffer@).len(),
        cursor > buffer@.len() ==> r == Err::<usize, CursorError>(
            CursorError { cursor, character_count: buffer@.len() as usize },
        ),
{
    let bytes = buffer.as_bytes();
    let total = bytes.len();
    proof {
        lemma_encode_len_ge(buffer@);
    }
    let mut seen: usize = 0;
    let mut offset: usize = 0;
    for c in it: buffer.chars()
        invariant
            it.seq() == buffer@,
            seen == it.index(),
            total == utf8_bytes(buffer@).len(),
            buffer@.len() <= total,
            offset == utf8_bytes(buffer@.take(if seen <= cursor { seen as int } else { cursor as int })).len(),
    {
        proof {
            assert(buffer@.take(seen as int + 1) =~= buffer@.take(seen as int).push(c));
            lemma_encode_push(buffer@.take(seen as int), c);
            lemma_encode_take_le(buffer@, seen as int + 1);
        }
        if seen < cursor {
            offset = offset + utf8_width(c);
        }
        seen = seen + 1;
    }
    if cursor <= seen {
        proof {
            lemma_encode_take_le(buffer@, cursor as int);
        }
        Ok(offset)
    } else {
        Err(CursorError { cursor, character_count: seen })
    }
}

} // verus!
