//! The shell buffer and the edits that the picker produces for it.
//!
//! Offsets are UTF-8 byte offsets into the original buffer. All edits of one
//! call refer to the original text, not to the text produced by earlier edits.
use std::ops::Range;
use vstd::prelude::*;
use vstd::string::StringSliceAdditionalSpecFns;
use vstd::utf8::*;
use crate::text::{lemma_encode_concat, utf8_bytes};

verus! {

broadcast use vstd::utf8::group_utf8_lib;

/// `Clone` of `std::ops::Range`, which the derived `Clone` of `Edit` calls.
/// Nothing is claimed of the result: no verified code relies on a cloned edit.
pub assume_specification<Idx: Clone>[ <Range<Idx> as Clone>::clone ](range: &Range<Idx>) -> Range<Idx>;

/// One change to the original buffer.
#[derive(Clone, Debug, PartialEq, Eq)]
pub enum Edit {
    Insert { at: usize, text: String },
    Replace { range: Range<usize>, text: String },
    Delete { range: Range<usize> },
}

/// Why a list of edits was refused.
#[derive(Clone, Copy, Debug, PartialEq, Eq)]
pub enum EditError {
    OutOfBounds,
    NotCharBoundary,
    ReversedRange,
    EmptyRange,
    Overlap,
    DuplicateInsert,
}

impl EditError {
    /// The message that describes the error.
    pub fn message(&self) -> (m: &'static str)
        ensures
            m@ == match self {
                EditError::OutOfBounds => "edit offset is out of bounds"@,
                EditError::NotCharBoundary => "edit offset is not a UTF-8 character boundary"@,
                EditError::ReversedRange => "edit range is reversed"@,
                EditError::EmptyRange => "edit range is empty"@,
                EditError::Overlap => "edits overlap"@,
                EditError::DuplicateInsert => "multiple insertions share an offset"@,
            },
    {
        match self {
            EditError::OutOfBounds => "edit offset is out of bounds",
            EditError::NotCharBoundary => "edit offset is not a UTF-8 character boundary",
            EditError::ReversedRange => "edit range is reversed",
            EditError::EmptyRange => "edit range is empty",
            EditError::Overlap => "edits overlap",
            EditError::DuplicateInsert => "multiple insertions share an offset",
        }
    }
}

impl Edit {
    /// First byte offset that the edit touches (the insertion offset for an insert).
    pub open spec fn start(self) -> int {
        match self {
            Edit::Insert { at, .. } => at as int,
            Edit::Replace { range, .. } => range.start as int,
            Edit::Delete { range } => range.start as int,
        }
    }

    /// Offset just past the replaced bytes (the insertion offset for an insert).
    pub open spec fn end(self) -> int {
        match self {
            Edit::Insert { at, .. } => at as int,
            Edit::Replace { range, .. } => range.end as int,
            Edit::Delete { range } => range.end as int,
        }
    }

    pub open spec fn is_insert(self) -> bool {
        self is Insert
    }

    /// The text that the edit puts in place.
    pub open spec fn replacement(self) -> Seq<char> {
        match self {
            Edit::Insert { text, .. } => text@,
            Edit::Replace { text, .. } => text@,
            Edit::Delete { .. } => Seq::empty(),
        }
    }
}

/// The error for one offset into `bytes`, if any.
pub open spec fn offset_error(bytes: Seq<u8>, offset: int) -> Option<EditError> {
    if offset > bytes.len() {
        Some(EditError::OutOfBounds)
    } else if !is_char_boundary(bytes, offset) {
        Some(EditError::NotCharBoundary)
    } else {
        None
    }
}

/// The error for one range, if any: its offsets first, then its direction, then its size.
pub open spec fn range_error(bytes: Seq<u8>, start: int, end: int) -> Option<EditError> {
    if offset_error(bytes, start) is Some {
        offset_error(bytes, start)
    } else if offset_error(bytes, end) is Some {
        offset_error(bytes, end)
    } else if start > end {
        Some(EditError::ReversedRange)
    } else if start == end {
        Some(EditError::EmptyRange)
    } else {
        None
    }
}

/// The error that a single edit carries on its own, if any.
pub open spec fn edit_error(bytes: Seq<u8>, edit: Edit) -> Option<EditError> {
    match edit {
        Edit::Insert { at, .. } => offset_error(bytes, at as int),
        Edit::Replace { range, .. } => range_error(bytes, range.start as int, range.end as int),
        Edit::Delete { range } => range_error(bytes, range.start as int, range.end as int),
    }
}

/// The error of the first edit, from position `i` on, that carries one.
pub open spec fn first_edit_error(bytes: Seq<u8>, edits: Seq<Edit>, i: int) -> Option<EditError>
    decreases edits.len() - i,
{
    if i < 0 || i >= edits.len() {
        None
    } else if edit_error(bytes, edits[i]) is Some {
        edit_error(bytes, edits[i])
    } else {
        first_edit_error(bytes, edits, i + 1)
    }
}

/// Two distinct range edits share a byte.
pub open spec fn ranges_overlap(edits: Seq<Edit>) -> bool {
    exists|i: int, j: int|
        0 <= i < edits.len() && 0 <= j < edits.len() && i != j && !edits[i].is_insert()
            && !edits[j].is_insert() && edits[i].start() < edits[j].end() && edits[j].start()
            < edits[i].end()
}

/// Two distinct inserts share an offset.
pub open spec fn inserts_collide(edits: Seq<Edit>) -> bool {
    exists|i: int, j: int|
        0 <= i < edits.len() && 0 <= j < edits.len() && i != j && edits[i].is_insert()
            && edits[j].is_insert() && edits[i].start() == edits[j].start()
}

/// An insert falls strictly inside a range edit.
pub open spec fn insert_inside_range(edits: Seq<Edit>) -> bool {
    exists|i: int, j: int|
        0 <= i < edits.len() && 0 <= j < edits.len() && edits[i].is_insert()
            && !edits[j].is_insert() && edits[j].start() < edits[i].start() < edits[j].end()
}

/// The conflict error of a list of individually valid edits, if any.
pub open spec fn conflict_error(edits: Seq<Edit>) -> Option<EditError> {
    if ranges_overlap(edits) {
        Some(EditError::Overlap)
    } else if inserts_collide(edits) {
        Some(EditError::DuplicateInsert)
    } else if insert_inside_range(edits) {
        Some(EditError::Overlap)
    } else {
        None
    }
}

/// Some insert is placed at `pos`.
pub open spec fn insert_at(edits: Seq<Edit>, pos: int) -> bool {
    exists|i: int| 0 <= i < edits.len() && edits[i].is_insert() && edits[i].start() == pos
}

/// Some range edit starts at `pos`.
pub open spec fn range_at(edits: Seq<Edit>, pos: int) -> bool {
    exists|i: int| 0 <= i < edits.len() && !edits[i].is_insert() && edits[i].start() == pos
}

pub open spec fn insert_index(edits: Seq<Edit>, pos: int) -> int {
    choose|i: int| 0 <= i < edits.len() && edits[i].is_insert() && edits[i].start() == pos
}

pub open spec fn range_index(edits: Seq<Edit>, pos: int) -> int {
    choose|i: int| 0 <= i < edits.len() && !edits[i].is_insert() && edits[i].start() == pos
}

/// The text inserted at `pos` (empty when no insert is placed there).
pub open spec fn inserted_text(edits: Seq<Edit>, pos: int) -> Seq<char> {
    if insert_at(edits, pos) {
        edits[insert_index(edits, pos)].replacement()
    } else {
        Seq::empty()
    }
}

/// The edited bytes from offset `pos` of the original `bytes` on: the original
/// is read left to right; at each offset the text inserted there comes first
/// (when `with_insert`), then either the replacement of the range that starts
/// there, after which reading resumes at the range's end, or the original byte.
pub open spec fn render(bytes: Seq<u8>, edits: Seq<Edit>, pos: int, with_insert: bool) -> Seq<u8>
    decreases bytes.len() + 1 - pos, if with_insert { 1int } else { 0int },
{
    if pos < 0 || pos > bytes.len() {
        Seq::empty()
    } else if with_insert {
        utf8_bytes(inserted_text(edits, pos)) + render(bytes, edits, pos, false)
    } else if range_at(edits, pos) && pos < edits[range_index(edits, pos)].end() <= bytes.len() {
        utf8_bytes(edits[range_index(edits, pos)].replacement()) + render(
            bytes,
            edits,
            edits[range_index(edits, pos)].end(),
            true,
        )
    } else if pos == bytes.len() {
        Seq::empty()
    } else {
        seq![bytes[pos]] + render(bytes, edits, pos + 1, true)
    }
}

/// What applying `edits` to a buffer whose UTF-8 encoding is `bytes` gives:
/// the first invalid edit's error, else the first conflict, else the edited bytes.
pub open spec fn apply_result(bytes: Seq<u8>, edits: Seq<Edit>) -> Result<Seq<u8>, EditError> {
    if first_edit_error(bytes, edits, 0) is Some {
        Err(first_edit_error(bytes, edits, 0)->0)
    } else if conflict_error(edits) is Some {
        Err(conflict_error(edits)->0)
    } else {
        Ok(render(bytes, edits, 0, true))
    }
}

/// The text of a shell command line, kept unchanged; edits produce new text.
pub struct ShellBuffer {
    original: String,
}

impl ShellBuffer {
    /// The buffer's text.
    pub closed spec fn view_text(&self) -> Seq<char> {
        self.original@
    }

    /// UTF-8 encoding of the buffer's text.
    pub open spec fn bytes(&self) -> Seq<u8> {
        utf8_bytes(self.view_text())
    }

    pub fn new(text: &str) -> (buffer: Self)
        ensures
            buffer.view_text() == text@,
    {
        ShellBuffer { original: text.to_owned() }
    }

    pub fn text(&self) -> (t: &str)
        ensures
            t@ == self.view_text(),
    {
        self.original.as_str()
    }
}

/// The byte span that one edit covers, with the edit's position in the list.
#[derive(Clone, Copy)]
struct Patch {
    start: usize,
    end: usize,
    index: usize,
    insert: bool,
}

/// `patch` is the span of `edits[patch.index]`.
spec fn patch_of(edits: Seq<Edit>, patch: Patch) -> bool {
    &&& 0 <= patch.index < edits.len()
    &&& patch.start == edits[patch.index as int].start()
    &&& patch.end == edits[patch.index as int].end()
    &&& patch.insert == edits[patch.index as int].is_insert()
}

/// Order of patches: by start, then by end.
spec fn key_le(a: Patch, b: Patch) -> bool {
    a.start < b.start || (a.start == b.start && a.end <= b.end)
}

/// Every edit is valid on its own.
spec fn all_valid(bytes: Seq<u8>, edits: Seq<Edit>) -> bool {
    forall|i: int| 0 <= i < edits.len() ==> #[trigger] edit_error(bytes, edits[i]) is None
}

impl ShellBuffer {
    fn validate_offset(&self, offset: usize) -> (r: Result<(), EditError>)
        ensures
            match offset_error(self.bytes(), offset as int) {
                Some(e) => r == Err::<(), EditError>(e),
                None => r is Ok,
            },
    {
        let text = self.original.as_str();
        let length = text.as_bytes().len();
        if offset > length {
            return Err(EditError::OutOfBounds);
        }
        if !text.is_char_boundary(offset) {
            return Err(EditError::NotCharBoundary);
        }
        Ok(())
    }

    fn validate_range(&self, range: &Range<usize>) -> (r: Result<(), EditError>)
        ensures
            match range_error(self.bytes(), range.start as int, range.end as int) {
                Some(e) => r == Err::<(), EditError>(e),
                None => r is Ok,
            },
    {
        match self.validate_offset(range.start) {
            Err(e) => return Err(e),
            Ok(()) => {},
        }
        match self.validate_offset(range.end) {
            Err(e) => return Err(e),
            Ok(()) => {},
        }
        if range.start > range.end {
            return Err(EditError::ReversedRange);
        }
        if range.start == range.end {
            return Err(EditError::EmptyRange);
        }
        Ok(())
    }

    /// Checks every edit on its own, in order, and records the span of each.
    fn collect_patches(&self, edits: &[Edit]) -> (r: Result<Vec<Patch>, EditError>)
        ensures
            first_edit_error(self.bytes(), edits@, 0) is Some ==> r == Err::<Vec<Patch>, EditError>(
                first_edit_error(self.bytes(), edits@, 0)->0,
            ),
            first_edit_error(self.bytes(), edits@, 0) is None ==> {
                &&& r is Ok
                &&& all_valid(self.bytes(), edits@)
                &&& r->Ok_0.len() == edits.len()
                &&& forall|i: int|
                    0 <= i < edits.len() ==> (#[trigger] r->Ok_0@[i]).index == i && patch_of(
                        edits@,
                        r->Ok_0@[i],
                    )
            },
    {
        let mut patches: Vec<Patch> = Vec::new();
        let mut i: usize = 0;
        while i < edits.len()
            invariant
                0 <= i <= edits.len(),
                first_edit_error(self.bytes(), edits@, 0) == first_edit_error(self.bytes(), edits@, i as int),
                forall|j: int| 0 <= j < i ==> #[trigger] edit_error(self.bytes(), edits@[j]) is None,
                patches.len() == i,
                forall|j: int|
                    0 <= j < i ==> (#[trigger] patches@[j]).index == j && patch_of(edits@, patches@[j]),
            decreases edits.len() - i,
        {
            let patch = match &edits[i] {
                Edit::Insert { at, .. } => {
                    match self.validate_offset(*at) {
                        Err(e) => return Err(e),
                        Ok(()) => {},
                    }
                    Patch { start: *at, end: *at, index: i, insert: true }
                },
                Edit::Replace { range, .. } => {
                    match self.validate_range(range) {
                        Err(e) => return Err(e),
                        Ok(()) => {},
                    }
                    Patch { start: range.start, end: range.end, index: i, insert: false }
                },
                Edit::Delete { range } => {
                    match self.validate_range(range) {
                        Err(e) => return Err(e),
                        Ok(()) => {},
                    }
                    Patch { start: range.start, end: range.end, index: i, insert: false }
                },
            };
            patches.push(patch);
            i = i + 1;
        }
        Ok(patches)
    }
}

/// Looks for a conflict between individually valid edits, in the order
/// range overlap, shared insert offset, insert inside a range.
fn find_conflict(edits: &[Edit], patches: &Vec<Patch>) -> (r: Option<EditError>)
    requires
        patches.len() == edits.len(),
        forall|i: int| 0 <= i < edits.len() ==> (#[trigger] patches@[i]).index == i && patch_of(edits@, patches@[i]),
    ensures
        r == conflict_error(edits@),
{
    let n = patches.len();
    let mut i: usize = 0;
    while i < n
        invariant
            n == patches.len() == edits.len(),
            forall|i: int| 0 <= i < n ==> (#[trigger] patches@[i]).index == i && patch_of(edits@, patches@[i]),
            0 <= i <= n,
            forall|a: int, b: int|
                0 <= a < i && 0 <= b < n && a != b ==> !(!edits@[a].is_insert() && !edits@[b].is_insert()
                    && edits@[a].start() < edits@[b].end() && edits@[b].start() < edits@[a].end()),
        decreases n - i,
    {
        let mut j: usize = 0;
        while j < n
            invariant
                n == patches.len() == edits.len(),
                forall|i: int| 0 <= i < n ==> (#[trigger] patches@[i]).index == i && patch_of(edits@, patches@[i]),
                0 <= i < n,
                0 <= j <= n,
                forall|a: int, b: int|
                    0 <= a < i && 0 <= b < n && a != b ==> !(!edits@[a].is_insert() && !edits@[b].is_insert()
                        && edits@[a].start() < edits@[b].end() && edits@[b].start() < edits@[a].end()),
                forall|b: int|
                    0 <= b < j && i != b ==> !(!edits@[i as int].is_insert() && !edits@[b].is_insert()
                        && edits@[i as int].start() < edits@[b].end() && edits@[b].start() < edits@[i as int].end()),
            decreases n - j,
        {
            let a = patches[i];
            let b = patches[j];
            if i != j && !a.insert && !b.insert && a.start < b.end && b.start < a.end {
                assert(ranges_overlap(edits@)) by {
                    assert(patches@[i as int] == a && patches@[j as int] == b);
                }
                return Some(EditError::Overlap);
            }
            j = j + 1;
        }
        i = i + 1;
    }
    assert(!ranges_overlap(edits@));
    let mut i: usize = 0;
    while i < n
        invariant
            n == patches.len() == edits.len(),
            forall|i: int| 0 <= i < n ==> (#[trigger] patches@[i]).index == i && patch_of(edits@, patches@[i]),
            !ranges_overlap(edits@),
            0 <= i <= n,
            forall|a: int, b: int|
                0 <= a < i && 0 <= b < n && a != b ==> !(edits@[a].is_insert() && edits@[b].is_insert()
                    && edits@[a].start() == edits@[b].start()),
        decreases n - i,
    {
        let mut j: usize = 0;
        while j < n
            invariant
                n == patches.len() == edits.len(),
                forall|i: int| 0 <= i < n ==> (#[trigger] patches@[i]).index == i && patch_of(edits@, patches@[i]),
                !ranges_overlap(edits@),
                0 <= i < n,
                0 <= j <= n,
                forall|a: int, b: int|
                    0 <= a < i && 0 <= b < n && a != b ==> !(edits@[a].is_insert() && edits@[b].is_insert()
                        && edits@[a].start() == edits@[b].start()),
                forall|b: int|
                    0 <= b < j && i != b ==> !(edits@[i as int].is_insert() && edits@[b].is_insert()
                        && edits@[i as int].start() == edits@[b].start()),
            decreases n - j,
        {
            let a = patches[i];
            let b = patches[j];
            if i != j && a.insert && b.insert && a.start == b.start {
                assert(inserts_collide(edits@)) by {
                    assert(patches@[i as int] == a && patches@[j as int] == b);
                }
                return Some(EditError::DuplicateInsert);
            }
            j = j + 1;
        }
        i = i + 1;
    }
    assert(!inserts_collide(edits@));
    let mut i: usize = 0;
    while i < n
        invariant
            n == patches.len() == edits.len(),
            forall|i: int| 0 <= i < n ==> (#[trigger] patches@[i]).index == i && patch_of(edits@, patches@[i]),
            !ranges_overlap(edits@),
            !inserts_collide(edits@),
            0 <= i <= n,
            forall|a: int, b: int|
                0 <= a < i && 0 <= b < n ==> !(edits@[a].is_insert() && !edits@[b].is_insert()
                    && edits@[b].start() < edits@[a].start() < edits@[b].end()),
        decreases n - i,
    {
        let mut j: usize = 0;
        while j < n
            invariant
                n == patches.len() == edits.len(),
                forall|i: int| 0 <= i < n ==> (#[trigger] patches@[i]).index == i && patch_of(edits@, patches@[i]),
                !ranges_overlap(edits@),
                !inserts_collide(edits@),
                0 <= i < n,
                0 <= j <= n,
                forall|a: int, b: int|
                    0 <= a < i && 0 <= b < n ==> !(edits@[a].is_insert() && !edits@[b].is_insert()
                        && edits@[b].start() < edits@[a].start() < edits@[b].end()),
                forall|b: int|
                    0 <= b < j ==> !(edits@[i as int].is_insert() && !edits@[b].is_insert()
                        && edits@[b].start() < edits@[i as int].start() < edits@[b].end()),
            decreases n - j,
        {
            let a = patches[i];
            let b = patches[j];
            if a.insert && !b.insert && b.start < a.start && a.start < b.end {
                assert(insert_inside_range(edits@)) by {
                    assert(patches@[i as int] == a && patches@[j as int] == b);
                }
                return Some(EditError::Overlap);
            }
            j = j + 1;
        }
        i = i + 1;
    }
    None
}

/// Sorts patches by start, then end, keeping exactly the same patches.
fn sort_patches(patches: &Vec<Patch>) -> (sorted: Vec<Patch>)
    ensures
        sorted@.to_multiset() == patches@.to_multiset(),
        sorted.len() == patches.len(),
        forall|a: int, b: int| 0 <= a < b < sorted.len() ==> key_le(#[trigger] sorted@[a], #[trigger] sorted@[b]),
{
    broadcast use vstd::seq_lib::group_to_multiset_ensures;
    let mut sorted: Vec<Patch> = Vec::new();
    let mut i: usize = 0;
    while i < patches.len()
        invariant
            0 <= i <= patches.len(),
            sorted.len() == i,
            sorted@.to_multiset() == patches@.take(i as int).to_multiset(),
            forall|a: int, b: int| 0 <= a < b < sorted.len() ==> key_le(#[trigger] sorted@[a], #[trigger] sorted@[b]),
        decreases patches.len() - i,
    {
        let p = patches[i];
        let mut pos: usize = 0;
        while pos < sorted.len() && (sorted[pos].start < p.start || (sorted[pos].start == p.start && sorted[pos].end <= p.end))
            invariant
                0 <= pos <= sorted.len(),
                forall|a: int| 0 <= a < pos ==> key_le(#[trigger] sorted@[a], p),
            decreases sorted.len() - pos,
        {
            pos = pos + 1;
        }
        let ghost before = sorted@;
        sorted.insert(pos, p);
        proof {
            assert(patches@.take(i as int + 1) =~= patches@.take(i as int).push(p));
            vstd::seq_lib::to_multiset_insert(before, pos as int, p);
            vstd::seq_lib::to_multiset_build(patches@.take(i as int), p);
            assert(forall|a: int| pos <= a < before.len() ==> key_le(p, #[trigger] before[a])) by {
                if pos < before.len() {
                    assert(!key_le(before[pos as int], p));
                    assert forall|a: int| pos <= a < before.len() implies key_le(p, #[trigger] before[a]) by {
                        if a > pos {
                            assert(key_le(before[pos as int], before[a]));
                        }
                    }
                }
            }
            assert forall|a: int, b: int| 0 <= a < b < sorted.len() implies key_le(#[trigger] sorted@[a], #[trigger] sorted@[b]) by {
                if b < pos {
                    assert(sorted@[a] == before[a] && sorted@[b] == before[b]);
                } else if b == pos {
                    assert(sorted@[a] == before[a]);
                } else if a < pos {
                    assert(sorted@[a] == before[a] && sorted@[b] == before[b - 1]);
                    assert(key_le(before[a], p));
                } else if a == pos {
                    assert(sorted@[b] == before[b - 1]);
                } else {
                    assert(sorted@[a] == before[a - 1] && sorted@[b] == before[b - 1]);
                }
            }
        }
        i = i + 1;
    }
    assert(patches@.take(patches.len() as int) =~= patches@);
    sorted
}

/// What an individually valid edit guarantees about its span.
proof fn lemma_valid_edit(bytes: Seq<u8>, edit: Edit)
    requires
        edit_error(bytes, edit) is None,
    ensures
        0 <= edit.start() <= edit.end() <= bytes.len(),
        edit.is_insert() ==> edit.start() == edit.end(),
        !edit.is_insert() ==> edit.start() < edit.end(),
        is_char_boundary(bytes, edit.start()),
        is_char_boundary(bytes, edit.end()),
{
}

/// Of two distinct conflict-free edits, the one that sorts first ends before the other starts.
proof fn lemma_ordered_disjoint(bytes: Seq<u8>, edits: Seq<Edit>, i: int, j: int)
    requires
        all_valid(bytes, edits),
        conflict_error(edits) is None,
        0 <= i < edits.len(),
        0 <= j < edits.len(),
        i != j,
        edits[i].start() < edits[j].start() || (edits[i].start() == edits[j].start()
            && edits[i].end() <= edits[j].end()),
    ensures
        edits[i].end() <= edits[j].start(),
{
    assert(edit_error(bytes, edits[i]) is None);
    assert(edit_error(bytes, edits[j]) is None);
    lemma_valid_edit(bytes, edits[i]);
    lemma_valid_edit(bytes, edits[j]);
    if edits[j].start() < edits[i].end() {
        if !edits[i].is_insert() && !edits[j].is_insert() {
            assert(ranges_overlap(edits));
        } else if !edits[i].is_insert() && edits[j].is_insert() {
            if edits[i].start() < edits[j].start() {
                assert(insert_inside_range(edits));
            }
        }
    }
}

/// Reading through offsets where no edit starts copies the original bytes.
proof fn lemma_render_skip(bytes: Seq<u8>, edits: Seq<Edit>, c: int, p: int)
    requires
        0 <= c <= p <= bytes.len(),
        forall|q: int| c <= q < p ==> !insert_at(edits, q) && !range_at(edits, q),
    ensures
        render(bytes, edits, c, true) == bytes.subrange(c, p) + render(bytes, edits, p, true),
    decreases p - c,
{
    if c == p {
        assert(bytes.subrange(c, p) =~= Seq::<u8>::empty());
    } else {
        assert(!insert_at(edits, c) && !range_at(edits, c));
        assert(utf8_bytes(Seq::<char>::empty()) =~= Seq::<u8>::empty());
        assert(render(bytes, edits, c, true) == render(bytes, edits, c, false));
        assert(render(bytes, edits, c, false) == seq![bytes[c]] + render(bytes, edits, c + 1, true));
        lemma_render_skip(bytes, edits, c + 1, p);
        assert(bytes.subrange(c, p) =~= seq![bytes[c]] + bytes.subrange(c + 1, p));
    }
}

/// Without an insert at `p`, the insert part of the reading at `p` is empty.
proof fn lemma_render_no_insert(bytes: Seq<u8>, edits: Seq<Edit>, p: int)
    requires
        0 <= p <= bytes.len(),
        !insert_at(edits, p),
    ensures
        render(bytes, edits, p, true) == render(bytes, edits, p, false),
{
    assert(utf8_bytes(Seq::<char>::empty()) =~= Seq::<u8>::empty());
    assert(render(bytes, edits, p, true) =~= render(bytes, edits, p, false));
}

/// At the offset of an insert, its text is emitted first.
proof fn lemma_render_insert(bytes: Seq<u8>, edits: Seq<Edit>, j: int)
    requires
        all_valid(bytes, edits),
        !inserts_collide(edits),
        0 <= j < edits.len(),
        edits[j].is_insert(),
    ensures
        render(bytes, edits, edits[j].start(), true) == utf8_bytes(edits[j].replacement()) + render(
            bytes,
            edits,
            edits[j].start(),
            false,
        ),
{
    assert(edit_error(bytes, edits[j]) is None);
    lemma_valid_edit(bytes, edits[j]);
    let p = edits[j].start();
    assert(insert_at(edits, p));
    let k = insert_index(edits, p);
    if k != j {
        assert(inserts_collide(edits));
    }
}

/// At the start of a range edit, its replacement is emitted and reading resumes at its end.
proof fn lemma_render_range(bytes: Seq<u8>, edits: Seq<Edit>, j: int)
    requires
        all_valid(bytes, edits),
        !ranges_overlap(edits),
        0 <= j < edits.len(),
        !edits[j].is_insert(),
    ensures
        render(bytes, edits, edits[j].start(), false) == utf8_bytes(edits[j].replacement()) + render(
            bytes,
            edits,
            edits[j].end(),
            true,
        ),
{
    assert(edit_error(bytes, edits[j]) is None);
    lemma_valid_edit(bytes, edits[j]);
    let p = edits[j].start();
    assert(range_at(edits, p));
    let k = range_index(edits, p);
    if k != j {
        assert(edit_error(bytes, edits[k]) is None);
        lemma_valid_edit(bytes, edits[k]);
        assert(ranges_overlap(edits));
    }
}

/// Some span stands for the edit at position `i`.
spec fn has_span(sorted: Seq<Patch>, i: int) -> bool {
    exists|k: int| 0 <= k < sorted.len() && sorted[k].index == i
}

/// The facts that the splicing loop relies on about the sorted spans.
spec fn sorted_spans(bytes: Seq<u8>, edits: Seq<Edit>, sorted: Seq<Patch>) -> bool {
    &&& all_valid(bytes, edits)
    &&& conflict_error(edits) is None
    &&& sorted.len() == edits.len()
    &&& forall|k: int| 0 <= k < sorted.len() ==> patch_of(edits, #[trigger] sorted[k])
    &&& forall|i: int| 0 <= i < edits.len() ==> #[trigger] has_span(sorted, i)
    &&& forall|a: int, b: int| 0 <= a < b < sorted.len() ==> (#[trigger] sorted[a]).index != (#[trigger] sorted[b]).index
    &&& forall|a: int, b: int| 0 <= a < b < sorted.len() ==> key_le(#[trigger] sorted[a], #[trigger] sorted[b])
}

/// An earlier span ends no later than a later span starts.
proof fn lemma_sorted_disjoint(bytes: Seq<u8>, edits: Seq<Edit>, sorted: Seq<Patch>, a: int, b: int)
    requires
        sorted_spans(bytes, edits, sorted),
        0 <= a < b < sorted.len(),
    ensures
        sorted[a].end <= sorted[b].start,
{
    assert(patch_of(edits, sorted[a]) && patch_of(edits, sorted[b]));
    assert(key_le(sorted[a], sorted[b]));
    lemma_ordered_disjoint(bytes, edits, sorted[a].index as int, sorted[b].index as int);
}

/// Where the splice loop stands before handling span `k`: which edits can
/// start between the cursor and the next span.
proof fn lemma_gap(bytes: Seq<u8>, edits: Seq<Edit>, sorted: Seq<Patch>, k: int, c: int, pending: bool, j: int)
    requires
        sorted_spans(bytes, edits, sorted),
        0 <= k <= sorted.len(),
        k == 0 ==> c == 0 && !pending,
        k > 0 ==> c == sorted[k - 1].end && pending == sorted[k - 1].insert,
        0 <= j < edits.len(),
        edits[j].start() >= c,
        k < sorted.len() ==> edits[j].start() < sorted[k].start || (edits[j].start() == sorted[k].start && edits[j].end() < sorted[k].end),
    ensures
        edits[j].start() == c && edits[j].is_insert() && pending,
{
    assert(has_span(sorted, j));
    let m = choose|m: int| 0 <= m < sorted.len() && sorted[m].index == j;
    assert(patch_of(edits, sorted[m]));
    assert(edit_error(bytes, edits[j]) is None);
    lemma_valid_edit(bytes, edits[j]);
    if m >= k {
        if m > k {
            assert(key_le(sorted[k], sorted[m]));
        }
    } else {
        assert(k > 0);
        assert(patch_of(edits, sorted[k - 1]));
        let last = sorted[k - 1].index as int;
        assert(edit_error(bytes, edits[last]) is None);
        lemma_valid_edit(bytes, edits[last]);
        if m < k - 1 {
            lemma_sorted_disjoint(bytes, edits, sorted, m, k - 1);
            assert(sorted[m].index != sorted[k - 1].index);
            assert(edits[last].is_insert());
            assert(inserts_collide(edits));
        }
    }
}

/// One step of the splice: the reading from the cursor up to and through span `k`.
proof fn lemma_splice_step(bytes: Seq<u8>, edits: Seq<Edit>, sorted: Seq<Patch>, k: int, c: int, pending: bool)
    requires
        sorted_spans(bytes, edits, sorted),
        0 <= k < sorted.len(),
        k == 0 ==> c == 0 && !pending,
        k > 0 ==> c == sorted[k - 1].end && pending == sorted[k - 1].insert,
        0 <= c <= bytes.len(),
    ensures
        ({
            let pt = sorted[k];
            let e = edits[pt.index as int];
            &&& patch_of(edits, pt)
            &&& c <= pt.start <= pt.end <= bytes.len()
            &&& is_char_boundary(bytes, pt.start as int)
            &&& is_char_boundary(bytes, pt.end as int)
            &&& render(bytes, edits, c, !pending) == bytes.subrange(c, pt.start as int) + utf8_bytes(e.replacement())
                + render(bytes, edits, pt.end as int, !pt.insert)
        }),
{
    let pt = sorted[k];
    let p = pt.start as int;
    let j = pt.index as int;
    assert(patch_of(edits, sorted[k]));
    assert(edit_error(bytes, edits[j]) is None);
    lemma_valid_edit(bytes, edits[j]);
    if k > 0 {
        lemma_sorted_disjoint(bytes, edits, sorted, k - 1, k);
    }
    assert forall|q: int| c < q < p implies !insert_at(edits, q) && !range_at(edits, q) by {
        if insert_at(edits, q) {
            let w = choose|w: int| 0 <= w < edits.len() && edits[w].is_insert() && edits[w].start() == q;
            lemma_gap(bytes, edits, sorted, k, c, pending, w);
        }
        if range_at(edits, q) {
            let w = choose|w: int| 0 <= w < edits.len() && !edits[w].is_insert() && edits[w].start() == q;
            lemma_gap(bytes, edits, sorted, k, c, pending, w);
        }
    }
    if c < p {
        if range_at(edits, c) {
            let w = choose|w: int| 0 <= w < edits.len() && !edits[w].is_insert() && edits[w].start() == c;
            lemma_gap(bytes, edits, sorted, k, c, pending, w);
        }
        if !pending && insert_at(edits, c) {
            let w = choose|w: int| 0 <= w < edits.len() && edits[w].is_insert() && edits[w].start() == c;
            lemma_gap(bytes, edits, sorted, k, c, pending, w);
        }
    }
    if !pt.insert && (c < p || !pending) && insert_at(edits, p) {
        let w = choose|w: int| 0 <= w < edits.len() && edits[w].is_insert() && edits[w].start() == p;
        lemma_gap(bytes, edits, sorted, k, c, pending, w);
    }
    if pending && pt.insert && c == p {
        assert(patch_of(edits, sorted[k - 1]));
        assert(sorted[k - 1].index != sorted[k].index);
        assert(inserts_collide(edits));
    }
    let head = bytes.subrange(c, p);
    if pending {
        if c < p {
            assert(render(bytes, edits, c, false) == seq![bytes[c]] + render(bytes, edits, c + 1, true));
            lemma_render_skip(bytes, edits, c + 1, p);
            assert(head =~= seq![bytes[c]] + bytes.subrange(c + 1, p));
            assert(render(bytes, edits, c, false) == head + render(bytes, edits, p, true));
        } else {
            assert(head =~= Seq::<u8>::empty());
            assert(render(bytes, edits, c, false) =~= head + render(bytes, edits, p, false));
        }
    } else {
        lemma_render_skip(bytes, edits, c, p);
    }
    if pt.insert {
        lemma_render_insert(bytes, edits, j);
        assert(render(bytes, edits, c, !pending) =~= head + utf8_bytes(edits[j].replacement())
            + render(bytes, edits, p, false));
    } else {
        lemma_render_range(bytes, edits, j);
        if c < p || !pending {
            lemma_render_no_insert(bytes, edits, p);
        }
        assert(render(bytes, edits, c, !pending) =~= head + utf8_bytes(edits[j].replacement())
            + render(bytes, edits, pt.end as int, true));
    }
}

/// After the last span, the reading from the cursor copies the rest of the original.
proof fn lemma_splice_end(bytes: Seq<u8>, edits: Seq<Edit>, sorted: Seq<Patch>, c: int, pending: bool)
    requires
        sorted_spans(bytes, edits, sorted),
        sorted.len() == 0 ==> c == 0 && !pending,
        sorted.len() > 0 ==> c == sorted[sorted.len() - 1].end && pending == sorted[sorted.len() - 1].insert,
        0 <= c <= bytes.len(),
    ensures
        render(bytes, edits, c, !pending) == bytes.subrange(c, bytes.len() as int),
{
    let k = sorted.len() as int;
    let len = bytes.len() as int;
    assert forall|q: int| c < q <= len implies !insert_at(edits, q) && !range_at(edits, q) by {
        if insert_at(edits, q) {
            let w = choose|w: int| 0 <= w < edits.len() && edits[w].is_insert() && edits[w].start() == q;
            lemma_gap(bytes, edits, sorted, k, c, pending, w);
        }
        if range_at(edits, q) {
            let w = choose|w: int| 0 <= w < edits.len() && !edits[w].is_insert() && edits[w].start() == q;
            lemma_gap(bytes, edits, sorted, k, c, pending, w);
        }
    }
    if range_at(edits, c) {
        let w = choose|w: int| 0 <= w < edits.len() && !edits[w].is_insert() && edits[w].start() == c;
        lemma_gap(bytes, edits, sorted, k, c, pending, w);
    }
    if !pending && insert_at(edits, c) {
        let w = choose|w: int| 0 <= w < edits.len() && edits[w].is_insert() && edits[w].start() == c;
        lemma_gap(bytes, edits, sorted, k, c, pending, w);
    }
    let tail = bytes.subrange(c, len);
    if c < len {
        lemma_render_no_insert(bytes, edits, len);
        assert(render(bytes, edits, len, false) =~= Seq::<u8>::empty());
        if pending {
            assert(render(bytes, edits, c, false) == seq![bytes[c]] + render(bytes, edits, c + 1, true));
            lemma_render_skip(bytes, edits, c + 1, len);
            assert(tail =~= seq![bytes[c]] + bytes.subrange(c + 1, len));
        } else {
            lemma_render_skip(bytes, edits, c, len);
        }
        assert(render(bytes, edits, c, !pending) =~= tail);
    } else {
        assert(tail =~= Seq::<u8>::empty());
        assert(render(bytes, edits, c, false) =~= Seq::<u8>::empty());
        if !pending {
            lemma_render_no_insert(bytes, edits, c);
        }
    }
}

/// Gives the byte range `from..to` of `s`, both offsets on character boundaries.
fn byte_slice(s: &str, from: usize, to: usize) -> (r: &str)
    requires
        from <= to <= s.spec_bytes().len(),
        is_char_boundary(s.spec_bytes(), from as int),
        is_char_boundary(s.spec_bytes(), to as int),
    ensures
        r.spec_bytes() == s.spec_bytes().subrange(from as int, to as int),
{
    let (_, tail) = s.split_at(from);
    proof {
        let bytes = s.spec_bytes();
        assert(valid_utf8(bytes));
        assert(valid_utf8(bytes.subrange(from as int, bytes.len() as int)));
        let t = tail.spec_bytes();
        let idx = to - from;
        if to < bytes.len() {
            assert(t[idx as int] == bytes[to as int]);
            assert(is_char_boundary(bytes, to as int) <==> !is_continuation_byte(bytes[to as int]));
            assert(is_char_boundary(t, idx as int) <==> !is_continuation_byte(t[idx as int]));
        } else {
            assert(is_char_boundary(t, t.len() as int));
        }
    }
    let (piece, _) = tail.split_at(to - from);
    proof {
        assert(piece.spec_bytes() =~= s.spec_bytes().subrange(from as int, to as int));
    }
    piece
}

impl ShellBuffer {
    /// Builds the edited text from spans sorted by position.
    fn splice(&self, edits: &[Edit], sorted: &Vec<Patch>) -> (out: String)
        requires
            sorted_spans(self.bytes(), edits@, sorted@),
        ensures
            utf8_bytes(out@) == render(self.bytes(), edits@, 0, true),
    {
        let text = self.original.as_str();
        let length = text.as_bytes().len();
        let ghost bytes = self.bytes();
        let mut out = String::new();
        let mut cursor: usize = 0;
        let mut pending = false;
        let mut k: usize = 0;
        proof {
            assert(utf8_bytes(out@) =~= Seq::<u8>::empty());
            assert(utf8_bytes(out@) + render(bytes, edits@, 0, true) =~= render(bytes, edits@, 0, true));
        }
        while k < sorted.len()
            invariant
                sorted_spans(bytes, edits@, sorted@),
                bytes == self.bytes(),
                text.spec_bytes() == bytes,
                length == bytes.len(),
                0 <= k <= sorted.len(),
                k == 0 ==> cursor == 0 && !pending,
                k > 0 ==> cursor == sorted@[k - 1].end && pending == sorted@[k - 1].insert,
                cursor <= bytes.len(),
                is_char_boundary(bytes, cursor as int),
                utf8_bytes(out@) + render(bytes, edits@, cursor as int, !pending) == render(bytes, edits@, 0, true),
            decreases sorted.len() - k,
        {
            let pt = sorted[k];
            let ghost c = cursor as int;
            let ghost p = pt.start as int;
            let ghost j = pt.index as int;
            proof {
                lemma_splice_step(bytes, edits@, sorted@, k as int, c, pending);
            }
            let piece = byte_slice(text, cursor, pt.start);
            let ghost before = out@;
            out.append(piece);
            let ghost middle = out@;
            match &edits[pt.index] {
                Edit::Insert { text: inserted, .. } => out.append(inserted.as_str()),
                Edit::Replace { text: inserted, .. } => out.append(inserted.as_str()),
                Edit::Delete { .. } => {},
            }
            proof {
                lemma_encode_concat(before, piece@);
                lemma_encode_concat(middle, edits@[j].replacement());
                assert(out@ =~= middle + edits@[j].replacement());
                if c == p {
                    assert(bytes.subrange(c, p) =~= Seq::<u8>::empty());
                }
            }
            cursor = pt.end;
            pending = pt.insert;
            k = k + 1;
        }
        proof {
            lemma_splice_end(bytes, edits@, sorted@, cursor as int, pending);
        }
        let piece = byte_slice(text, cursor, length);
        let ghost before = out@;
        out.append(piece);
        proof {
            lemma_encode_concat(before, piece@);
        }
        out
    }

    /// Applies all `edits` to the original text at once. Every edit is first
    /// checked on its own, in order; then conflicts between edits are looked
    /// for; only conflict-free valid edits produce a new text.
    pub fn apply(&self, edits: &[Edit]) -> (r: Result<String, EditError>)
        ensures
            match apply_result(self.bytes(), edits@) {
                Ok(bytes) => r is Ok && utf8_bytes(r->Ok_0@) == bytes,
                Err(e) => r == Err::<String, EditError>(e),
            },
    {
        let patches = match self.collect_patches(edits) {
            Err(e) => return Err(e),
            Ok(patches) => patches,
        };
        match find_conflict(edits, &patches) {
            Some(e) => return Err(e),
            None => {},
        }
        let sorted = sort_patches(&patches);
        proof {
            broadcast use vstd::seq_lib::group_to_multiset_ensures;
            let ghost bytes = self.bytes();
            assert(patches@.no_duplicates()) by {
                assert forall|a: int, b: int| 0 <= a < patches@.len() && 0 <= b < patches@.len() && a != b implies patches@[a] != patches@[b] by {
                    assert(patches@[a].index == a && patches@[b].index == b);
                }
            }
            patches@.lemma_multiset_has_no_duplicates();
            assert forall|x: Patch| sorted@.to_multiset().contains(x) implies sorted@.to_multiset().count(x) == 1 by {
                assert(patches@.to_multiset().contains(x));
            }
            sorted@.lemma_multiset_has_no_duplicates_conv();
            assert forall|k: int| 0 <= k < sorted@.len() implies patch_of(edits@, #[trigger] sorted@[k]) by {
                assert(sorted@.contains(sorted@[k]));
                assert(sorted@.to_multiset().count(sorted@[k]) > 0);
                assert(patches@.contains(sorted@[k]));
                let i = choose|i: int| 0 <= i < patches@.len() && patches@[i] == sorted@[k];
                assert(patch_of(edits@, patches@[i]));
            }
            assert forall|i: int| 0 <= i < edits@.len() implies #[trigger] has_span(sorted@, i) by {
                assert(patches@.contains(patches@[i]));
                assert(patches@.to_multiset().count(patches@[i]) > 0);
                assert(sorted@.contains(patches@[i]));
                let k = choose|k: int| 0 <= k < sorted@.len() && sorted@[k] == patches@[i];
                assert(sorted@[k].index == i);
            }
            assert forall|a: int, b: int| 0 <= a < b < sorted@.len() implies (#[trigger] sorted@[a]).index != (#[trigger] sorted@[b]).index by {
                assert(patch_of(edits@, sorted@[a]) && patch_of(edits@, sorted@[b]));
                if sorted@[a].index == sorted@[b].index {
                    assert(sorted@[a] == sorted@[b]);
                }
            }
        }
        Ok(self.splice(edits, &sorted))
    }
}

/// `edits2` lists the edits of `edits1` in another order: position `i` of
/// `edits2` holds the edit at position `order[i]` of `edits1`, and every
/// position of `edits1` is used exactly once.
pub open spec fn is_reordering(edits1: Seq<Edit>, edits2: Seq<Edit>, order: Seq<int>) -> bool {
    &&& edits1.len() == edits2.len()
    &&& order.len() == edits2.len()
    &&& forall|i: int| 0 <= i < order.len() ==> 0 <= #[trigger] order[i] < edits1.len()
    &&& forall|i: int| 0 <= i < order.len() ==> edits2[i] == edits1[#[trigger] order[i]]
    &&& forall|i: int, j: int| 0 <= i < j < order.len() ==> #[trigger] order[i] != #[trigger] order[j]
    &&& forall|a: int| 0 <= a < edits1.len() ==> #[trigger] position_used(order, a)
}

/// Some position of `order` names `a`.
pub open spec fn position_used(order: Seq<int>, a: int) -> bool {
    exists|i: int| 0 <= i < order.len() && order[i] == a
}

proof fn lemma_reordered_render(bytes: Seq<u8>, edits1: Seq<Edit>, edits2: Seq<Edit>, order: Seq<int>, pos: int, with_insert: bool)
    requires
        is_reordering(edits1, edits2, order),
        !inserts_collide(edits1),
        !ranges_overlap(edits1),
        all_valid(bytes, edits1),
    ensures
        render(bytes, edits1, pos, with_insert) == render(bytes, edits2, pos, with_insert),
    decreases bytes.len() + 1 - pos, if with_insert { 1int } else { 0int },
{
    assert forall|q: int| insert_at(edits1, q) <==> insert_at(edits2, q) by {
        if insert_at(edits1, q) {
            let a = choose|a: int| 0 <= a < edits1.len() && edits1[a].is_insert() && edits1[a].start() == q;
            assert(position_used(order, a));
            let i = choose|i: int| 0 <= i < order.len() && order[i] == a;
            assert(edits2[i] == edits1[order[i]]);
        }
        if insert_at(edits2, q) {
            let i = choose|i: int| 0 <= i < edits2.len() && edits2[i].is_insert() && edits2[i].start() == q;
            assert(edits2[i] == edits1[order[i]]);
        }
    }
    assert forall|q: int| range_at(edits1, q) <==> range_at(edits2, q) by {
        if range_at(edits1, q) {
            let a = choose|a: int| 0 <= a < edits1.len() && !edits1[a].is_insert() && edits1[a].start() == q;
            assert(position_used(order, a));
            let i = choose|i: int| 0 <= i < order.len() && order[i] == a;
            assert(edits2[i] == edits1[order[i]]);
        }
        if range_at(edits2, q) {
            let i = choose|i: int| 0 <= i < edits2.len() && !edits2[i].is_insert() && edits2[i].start() == q;
            assert(edits2[i] == edits1[order[i]]);
        }
    }
    if 0 <= pos <= bytes.len() {
        if insert_at(edits1, pos) {
            let a = insert_index(edits1, pos);
            let i = insert_index(edits2, pos);
            assert(edits2[i] == edits1[order[i]]);
            if order[i] != a {
                assert(inserts_collide(edits1));
            }
        }
        if range_at(edits1, pos) {
            let a = range_index(edits1, pos);
            let i = range_index(edits2, pos);
            assert(edits2[i] == edits1[order[i]]);
            if order[i] != a {
                assert(edit_error(bytes, edits1[a]) is None);
                assert(edit_error(bytes, edits1[order[i]]) is None);
                lemma_valid_edit(bytes, edits1[a]);
                lemma_valid_edit(bytes, edits1[order[i]]);
                assert(ranges_overlap(edits1));
            }
            let e = edits1[a].end();
            if pos < e <= bytes.len() {
                lemma_reordered_render(bytes, edits1, edits2, order, e, true);
            }
        }
        if with_insert {
            lemma_reordered_render(bytes, edits1, edits2, order, pos, false);
        } else if pos < bytes.len() {
            lemma_reordered_render(bytes, edits1, edits2, order, pos + 1, true);
        }
    }
}

/// Edits refer to the original text only, so the order in which valid edits
/// are listed does not change what applying them gives.
pub proof fn law_apply_ignores_edit_order(bytes: Seq<u8>, edits1: Seq<Edit>, edits2: Seq<Edit>, order: Seq<int>)
    requires
        is_reordering(edits1, edits2, order),
        first_edit_error(bytes, edits1, 0) is None,
    ensures
        apply_result(bytes, edits1) == apply_result(bytes, edits2),
{
    lemma_no_first_error(bytes, edits1, 0);
    assert forall|i: int| 0 <= i < edits2.len() implies #[trigger] edit_error(bytes, edits2[i]) is None by {
        assert(edits2[i] == edits1[order[i]]);
        assert(edit_error(bytes, edits1[order[i]]) is None);
    }
    lemma_all_valid_no_first_error(bytes, edits2, 0);
    let pair = |i: int, j: int| edits2[i] == edits1[order[i]] && edits2[j] == edits1[order[j]];
    if ranges_overlap(edits1) {
        let (a, b) = choose|a: int, b: int| 0 <= a < edits1.len() && 0 <= b < edits1.len() && a != b && !edits1[a].is_insert()
            && !edits1[b].is_insert() && edits1[a].start() < edits1[b].end() && edits1[b].start() < edits1[a].end();
        assert(position_used(order, a));
        let i = choose|i: int| 0 <= i < order.len() && order[i] == a;
        assert(position_used(order, b));
        let j = choose|j: int| 0 <= j < order.len() && order[j] == b;
        assert(pair(i, j));
        assert(ranges_overlap(edits2));
    }
    if ranges_overlap(edits2) {
        let (i, j) = choose|i: int, j: int| 0 <= i < edits2.len() && 0 <= j < edits2.len() && i != j && !edits2[i].is_insert()
            && !edits2[j].is_insert() && edits2[i].start() < edits2[j].end() && edits2[j].start() < edits2[i].end();
        assert(pair(i, j));
        if i < j { assert(order[i] != order[j]); } else { assert(order[j] != order[i]); }
        assert(ranges_overlap(edits1));
    }
    if inserts_collide(edits1) {
        let (a, b) = choose|a: int, b: int| 0 <= a < edits1.len() && 0 <= b < edits1.len() && a != b && edits1[a].is_insert()
            && edits1[b].is_insert() && edits1[a].start() == edits1[b].start();
        assert(position_used(order, a));
        let i = choose|i: int| 0 <= i < order.len() && order[i] == a;
        assert(position_used(order, b));
        let j = choose|j: int| 0 <= j < order.len() && order[j] == b;
        assert(pair(i, j));
        assert(inserts_collide(edits2));
    }
    if inserts_collide(edits2) {
        let (i, j) = choose|i: int, j: int| 0 <= i < edits2.len() && 0 <= j < edits2.len() && i != j && edits2[i].is_insert()
            && edits2[j].is_insert() && edits2[i].start() == edits2[j].start();
        assert(pair(i, j));
        if i < j { assert(order[i] != order[j]); } else { assert(order[j] != order[i]); }
        assert(inserts_collide(edits1));
    }
    if insert_inside_range(edits1) {
        let (a, b) = choose|a: int, b: int| 0 <= a < edits1.len() && 0 <= b < edits1.len() && edits1[a].is_insert()
            && !edits1[b].is_insert() && edits1[b].start() < edits1[a].start() < edits1[b].end();
        assert(position_used(order, a));
        let i = choose|i: int| 0 <= i < order.len() && order[i] == a;
        assert(position_used(order, b));
        let j = choose|j: int| 0 <= j < order.len() && order[j] == b;
        assert(pair(i, j));
        assert(insert_inside_range(edits2));
    }
    if insert_inside_range(edits2) {
        let (i, j) = choose|i: int, j: int| 0 <= i < edits2.len() && 0 <= j < edits2.len() && edits2[i].is_insert()
            && !edits2[j].is_insert() && edits2[j].start() < edits2[i].start() < edits2[j].end();
        assert(pair(i, j));
        assert(insert_inside_range(edits1));
    }
    if conflict_error(edits1) is None {
        lemma_reordered_render(bytes, edits1, edits2, order, 0, true);
    }
}

proof fn lemma_no_first_error(bytes: Seq<u8>, edits: Seq<Edit>, i: int)
    requires
        0 <= i <= edits.len(),
        first_edit_error(bytes, edits, i) is None,
    ensures
        forall|j: int| i <= j < edits.len() ==> #[trigger] edit_error(bytes, edits[j]) is None,
    decreases edits.len() - i,
{
    if i < edits.len() {
        lemma_no_first_error(bytes, edits, i + 1);
    }
}

proof fn lemma_all_valid_no_first_error(bytes: Seq<u8>, edits: Seq<Edit>, i: int)
    requires
        0 <= i <= edits.len(),
        forall|j: int| i <= j < edits.len() ==> #[trigger] edit_error(bytes, edits[j]) is None,
    ensures
        first_edit_error(bytes, edits, i) is None,
    decreases edits.len() - i,
{
    if i < edits.len() {
        lemma_all_valid_no_first_error(bytes, edits, i + 1);
    }
}

/// Applying no edits gives back the original text.
pub proof fn law_no_edits_keep_text(bytes: Seq<u8>)
    ensures
        apply_result(bytes, Seq::<Edit>::empty()) == Ok::<Seq<u8>, EditError>(bytes),
{
    let edits = Seq::<Edit>::empty();
    assert(!ranges_overlap(edits) && !inserts_collide(edits) && !insert_inside_range(edits));
    lemma_render_skip(bytes, edits, 0, bytes.len() as int);
    lemma_render_no_insert(bytes, edits, bytes.len() as int);
    assert(bytes.subrange(0, bytes.len() as int) =~= bytes);
    assert(render(bytes, edits, bytes.len() as int, false) =~= Seq::<u8>::empty());
    assert(render(bytes, edits, 0, true) =~= bytes);
}

/// A single valid edit changes exactly its own span: the bytes before its
/// start and after its end are kept as they are.
pub proof fn law_single_edit_keeps_the_rest(bytes: Seq<u8>, edit: Edit)
    requires
        valid_utf8(bytes),
        edit_error(bytes, edit) is None,
    ensures
        apply_result(bytes, seq![edit]) == Ok::<Seq<u8>, EditError>(
            bytes.subrange(0, edit.start()) + utf8_bytes(edit.replacement()) + bytes.subrange(edit.end(), bytes.len() as int),
        ),
{
    let edits = seq![edit];
    lemma_valid_edit(bytes, edit);
    assert(edits[0] == edit);
    assert(first_edit_error(bytes, edits, 1) is None);
    assert(!ranges_overlap(edits) && !inserts_collide(edits) && !insert_inside_range(edits));
    let s = edit.start();
    let e = edit.end();
    let len = bytes.len() as int;
    assert forall|q: int| 0 <= q < s implies !insert_at(edits, q) && !range_at(edits, q) by {}
    lemma_render_skip(bytes, edits, 0, s);
    assert forall|q: int| e < q <= len implies !insert_at(edits, q) && !range_at(edits, q) by {}
    assert(all_valid(bytes, edits));
    if edit.is_insert() {
        lemma_render_insert(bytes, edits, 0);
        if e < len {
            assert(render(bytes, edits, e, false) == seq![bytes[e]] + render(bytes, edits, e + 1, true));
            lemma_render_skip(bytes, edits, e + 1, len);
            assert(bytes.subrange(e, len) =~= seq![bytes[e]] + bytes.subrange(e + 1, len));
        } else {
            assert(render(bytes, edits, e, false) =~= Seq::<u8>::empty());
        }
    } else {
        assert(!insert_at(edits, s));
        lemma_render_no_insert(bytes, edits, s);
        lemma_render_range(bytes, edits, 0);
        lemma_render_skip(bytes, edits, e, len);
        assert(!insert_at(edits, e));
    }
    if !(edit.is_insert() && e == len) {
        assert(!insert_at(edits, len));
        lemma_render_no_insert(bytes, edits, len);
    }
    assert(render(bytes, edits, len, false) =~= Seq::<u8>::empty());
    assert(bytes.subrange(0, 0) =~= Seq::<u8>::empty());
    assert(bytes.subrange(len, len) =~= Seq::<u8>::empty());
    assert(render(bytes, edits, 0, true) =~= bytes.subrange(0, s) + utf8_bytes(edit.replacement()) + bytes.subrange(e, len));
}

} // verus!
