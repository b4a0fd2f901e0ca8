//! The option picker: searching, navigating and confirming an option.
use vstd::prelude::*;
use crate::buffer::{apply_result, law_single_edit_keeps_the_rest, Edit, EditError, ShellBuffer};
use crate::text::{lemma_encode_concat, occurs_at};
use crate::schema::{OptionSpec, SchemaDocument, ValueArity};
use crate::text::{
    ascii_lower_seq, ascii_lowered, char_is_whitespace, chars_of, contains_exec, contains_seq,
    decimal, is_white_space, pop_char, push_char, push_decimal, utf8_bytes,
};

verus! {

broadcast use vstd::utf8::group_utf8_lib;

/// One option that the picker offers: the flag text to insert and a description.
#[derive(Clone, Debug, PartialEq, Eq)]
pub struct OptionItem {
    pub flag: String,
    pub description: String,
}

/// The prototype's built-in options, in display order.
pub open spec fn builtin_option_texts() -> Seq<(Seq<char>, Seq<char>)> {
    seq![
        ("--help"@, "Show help information"@),
        ("--verbose"@, "Enable verbose output"@),
        ("--version"@, "Show version information"@),
    ]
}

fn option_item(flag: &str, description: &str) -> (item: OptionItem)
    ensures
        item.flag@ == flag@,
        item.description@ == description@,
{
    OptionItem { flag: flag.to_owned(), description: description.to_owned() }
}

/// The built-in options: `--help`, `--verbose` and `--version`.
pub fn builtin_options() -> (options: Vec<OptionItem>)
    ensures
        options.len() == builtin_option_texts().len(),
        forall|i: int|
            0 <= i < options.len() ==> (#[trigger] options@[i]).flag@ == builtin_option_texts()[i].0
                && options@[i].description@ == builtin_option_texts()[i].1,
{
    let mut options = Vec::new();
    options.push(option_item("--help", "Show help information"));
    options.push(option_item("--verbose", "Enable verbose output"));
    options.push(option_item("--version", "Show version information"));
    options
}

/// The picker entry for a schema option: its first name's spelling (followed
/// by a space when the option takes a value) and its description, or
/// "Discovered option" when it has none. Options without names give no entry.
pub open spec fn schema_item(option: OptionSpec) -> (Seq<char>, Seq<char>) {
    let flag = option.names@[0].spelling_view();
    (
        if option.value.arity == ValueArity::NoValue { flag } else { flag.push(' ') },
        match option.description {
            Some(d) => d@,
            None => "Discovered option"@,
        },
    )
}

/// The entries for the first `n` options of a command, in order.
pub open spec fn schema_items(options: Seq<OptionSpec>, n: int) -> Seq<(Seq<char>, Seq<char>)>
    decreases n,
{
    if n <= 0 {
        Seq::empty()
    } else if options[n - 1].names@.len() == 0 {
        schema_items(options, n - 1)
    } else {
        schema_items(options, n - 1).push(schema_item(options[n - 1]))
    }
}

pub open spec fn items_view(items: Seq<OptionItem>) -> Seq<(Seq<char>, Seq<char>)> {
    items.map_values(|item: OptionItem| (item.flag@, item.description@))
}

/// Picker entries for the options of a document's root command.
pub fn options_from_schema(document: &SchemaDocument) -> (items: Vec<OptionItem>)
    ensures
        items_view(items@) == schema_items(document.root.options@, document.root.options@.len() as int),
{
    let options = &document.root.options;
    let mut items: Vec<OptionItem> = Vec::new();
    let mut i: usize = 0;
    while i < options.len()
        invariant
            0 <= i <= options.len(),
            options@ == document.root.options@,
            items_view(items@) == schema_items(options@, i as int),
        decreases options.len() - i,
    {
        let option = &options[i];
        if option.names.len() > 0 {
            let mut flag = option.names[0].spelling();
            if !matches!(option.value.arity, ValueArity::NoValue) {
                push_char(&mut flag, ' ');
            }
            let description = match &option.description {
                Some(d) => d.clone(),
                None => "Discovered option".to_owned(),
            };
            let ghost before = items@;
            items.push(OptionItem { flag, description });
            proof {
                assert(items_view(items@) =~= items_view(before).push(schema_item(*option)));
            }
        }
        i = i + 1;
    }
    items
}

/// Where a confirmed option goes.
#[derive(Clone, Copy, Debug, PartialEq, Eq)]
pub enum InsertionPoint {
    Append,
    Cursor(usize),
}

/// What the picker session ended with.
#[derive(Clone, Debug, PartialEq, Eq)]
pub enum PickerOutcome {
    Confirm(Edit),
    Cancel,
}

/// Why a confirmation was refused.
#[derive(Clone, Debug, PartialEq, Eq)]
pub enum PickerError {
    NoSelection,
    InvalidCursor { cursor: usize, buffer_len: usize },
}

impl PickerError {
    /// The message that describes the error.
    pub fn message(&self) -> (m: String)
        ensures
            match self {
                PickerError::NoSelection => m@ == "no option matches the current search"@,
                PickerError::InvalidCursor { cursor, buffer_len } => m@ == "cursor byte offset "@ + decimal(
                    *cursor as nat,
                ) + " is beyond buffer length "@ + decimal(*buffer_len as nat),
            },
    {
        match self {
            PickerError::NoSelection => "no option matches the current search".to_owned(),
            PickerError::InvalidCursor { cursor, buffer_len } => {
                let mut s = "cursor byte offset ".to_owned();
                push_decimal(&mut s, *cursor);
                s.append(" is beyond buffer length ");
                push_decimal(&mut s, *buffer_len);
                s
            },
        }
    }
}

/// An option matches a query when the query, in ASCII lower case, occurs in
/// the option's flag or description, also in ASCII lower case.
pub open spec fn item_matches(item: OptionItem, query: Seq<char>) -> bool {
    contains_seq(ascii_lower_seq(item.flag@), ascii_lower_seq(query)) || contains_seq(
        ascii_lower_seq(item.description@),
        ascii_lower_seq(query),
    )
}

/// Positions, in order, of the first `n` options that match the query.
pub open spec fn matching_positions(options: Seq<OptionItem>, query: Seq<char>, n: int) -> Seq<usize>
    decreases n,
{
    if n <= 0 {
        Seq::empty()
    } else if item_matches(options[n - 1], query) {
        matching_positions(options, query, n - 1).push((n - 1) as usize)
    } else {
        matching_positions(options, query, n - 1)
    }
}

/// Positions of all options that match the query.
pub open spec fn filter_options(options: Seq<OptionItem>, query: Seq<char>) -> Seq<usize> {
    matching_positions(options, query, options.len() as int)
}

/// Selection after a move to the next match: wraps from the last to the first.
pub open spec fn next_selection(selected: Option<usize>, count: nat) -> Option<usize> {
    match selected {
        Some(s) => Some(((s + 1) % (count as int)) as usize),
        None => None,
    }
}

/// Selection after a move to the previous match: wraps from the first to the last.
pub open spec fn previous_selection(selected: Option<usize>, count: nat) -> Option<usize> {
    match selected {
        Some(s) => Some(((s + count - 1) % (count as int)) as usize),
        None => None,
    }
}

/// Whether an appended flag needs a separating space: the buffer is nonempty
/// and does not already end in whitespace.
pub open spec fn needs_space(text: Seq<char>) -> bool {
    text.len() > 0 && !is_white_space(text.last())
}

/// The search and selection state of a picker session over one buffer.
pub struct PickerState {
    options: Vec<OptionItem>,
    query: String,
    filtered_indices: Vec<usize>,
    selected: Option<usize>,
    buffer_len: usize,
    append_needs_space: bool,
}

impl PickerState {
    pub closed spec fn options_view(&self) -> Seq<OptionItem> {
        self.options@
    }

    pub closed spec fn query_view(&self) -> Seq<char> {
        self.query@
    }

    /// Positions, into the options, of the options that match the query.
    pub closed spec fn filtered_view(&self) -> Seq<usize> {
        self.filtered_indices@
    }

    /// Position, into the matches, of the selected option.
    pub closed spec fn selected_view(&self) -> Option<usize> {
        self.selected
    }

    /// Byte length of the buffer that the session edits.
    pub closed spec fn buffer_len_view(&self) -> usize {
        self.buffer_len
    }

    pub closed spec fn append_needs_space_view(&self) -> bool {
        self.append_needs_space
    }

    /// The matches are those of the current query, and a selection exists
    /// exactly when some option matches.
    pub closed spec fn wf(&self) -> bool {
        &&& self.filtered_indices@ == filter_options(self.options@, self.query@)
        &&& forall|i: int| 0 <= i < self.filtered_indices.len() ==> #[trigger] self.filtered_indices@[i] < self.options.len()
        &&& match self.selected {
            Some(s) => s < self.filtered_indices.len(),
            None => self.filtered_indices.len() == 0,
        }
    }

    /// What well-formedness guarantees: the matches are the filter of the
    /// options by the query, each names an option, and a match is selected
    /// exactly when there is one.
    pub proof fn matches_follow_query(&self)
        requires
            self.wf(),
        ensures
            self.filtered_view() == filter_options(self.options_view(), self.query_view()),
            forall|i: int| 0 <= i < self.filtered_view().len() ==> #[trigger] self.filtered_view()[i] < self.options_view().len(),
            match self.selected_view() {
                Some(s) => s < self.filtered_view().len(),
                None => self.filtered_view().len() == 0,
            },
    {
    }

    /// The option that a match position refers to.
    pub open spec fn match_item(&self, position: int) -> OptionItem {
        self.options_view()[self.filtered_view()[position] as int]
    }

    pub fn new(buffer: &ShellBuffer) -> (state: Self)
        ensures
            state.wf(),
            state.options_view().len() == builtin_option_texts().len(),
            forall|i: int|
                0 <= i < builtin_option_texts().len() ==> (#[trigger] state.options_view()[i]).flag@
                    == builtin_option_texts()[i].0 && state.options_view()[i].description@
                    == builtin_option_texts()[i].1,
            state.query_view() == Seq::<char>::empty(),
            state.filtered_view() == filter_options(state.options_view(), Seq::<char>::empty()),
            state.selected_view() == (if state.filtered_view().len() > 0 { Some(0usize) } else { None }),
            state.buffer_len_view() == buffer.bytes().len(),
            state.append_needs_space_view() == needs_space(buffer.view_text()),
    {
        Self::with_options(buffer, builtin_options())
    }

    /// A session over `options`, with an empty query and the first option selected.
    pub fn with_options(buffer: &ShellBuffer, options: Vec<OptionItem>) -> (state: Self)
        ensures
            state.wf(),
            state.options_view() == options@,
            state.query_view() == Seq::<char>::empty(),
            state.filtered_view() == filter_options(options@, Seq::<char>::empty()),
            state.selected_view() == (if state.filtered_view().len() > 0 { Some(0usize) } else { None }),
            state.buffer_len_view() == buffer.bytes().len(),
            state.append_needs_space_view() == needs_space(buffer.view_text()),
    {
        let text = buffer.text();
        let length = text.as_bytes().len();
        let chars = chars_of(text);
        let needs = if chars.len() == 0 {
            false
        } else {
            !char_is_whitespace(chars[chars.len() - 1])
        };
        let query = String::new();
        let (filtered_indices, selected) = refilter(&options, &query);
        PickerState {
            options,
            query,
            filtered_indices,
            selected,
            buffer_len: length,
            append_needs_space: needs,
        }
    }

    pub fn query(&self) -> (q: &str)
        ensures
            q@ == self.query_view(),
    {
        self.query.as_str()
    }

    /// The selected option, if any.
    pub fn selected_item(&self) -> (item: Option<&OptionItem>)
        requires
            self.wf(),
        ensures
            match self.selected_view() {
                Some(p) => item == Some(&self.match_item(p as int)),
                None => item is None,
            },
    {
        match self.selected {
            Some(position) => Some(&self.options[self.filtered_indices[position]]),
            None => None,
        }
    }

    pub fn selected_position(&self) -> (p: Option<usize>)
        ensures
            p == self.selected_view(),
    {
        self.selected
    }

    /// The matching options, in option order.
    pub fn filtered_items(&self) -> (items: Vec<&OptionItem>)
        requires
            self.wf(),
        ensures
            items.len() == self.filtered_view().len(),
            forall|i: int| 0 <= i < items.len() ==> *#[trigger] items@[i] == self.match_item(i),
    {
        let mut items: Vec<&OptionItem> = Vec::new();
        let mut i: usize = 0;
        while i < self.filtered_indices.len()
            invariant
                self.wf(),
                0 <= i <= self.filtered_indices.len(),
                items.len() == i,
                forall|k: int| 0 <= k < i ==> *#[trigger] items@[k] == self.match_item(k),
            decreases self.filtered_indices.len() - i,
        {
            items.push(&self.options[self.filtered_indices[i]]);
            i = i + 1;
        }
        items
    }

    /// Moves the selection to the next match, wrapping to the first.
    pub fn move_next(&mut self)
        requires
            old(self).wf(),
        ensures
            final(self).wf(),
            final(self).selected_view() == next_selection(old(self).selected_view(), old(self).filtered_view().len()),
            final(self).options_view() == old(self).options_view(),
            final(self).query_view() == old(self).query_view(),
            final(self).filtered_view() == old(self).filtered_view(),
            final(self).buffer_len_view() == old(self).buffer_len_view(),
            final(self).append_needs_space_view() == old(self).append_needs_space_view(),
    {
        if let Some(selected) = self.selected {
            self.selected = Some((selected + 1) % self.filtered_indices.len());
        }
    }

    /// Moves the selection to the previous match, wrapping to the last.
    pub fn move_previous(&mut self)
        requires
            old(self).wf(),
        ensures
            final(self).wf(),
            final(self).selected_view() == previous_selection(old(self).selected_view(), old(self).filtered_view().len()),
            final(self).options_view() == old(self).options_view(),
            final(self).query_view() == old(self).query_view(),
            final(self).filtered_view() == old(self).filtered_view(),
            final(self).buffer_len_view() == old(self).buffer_len_view(),
            final(self).append_needs_space_view() == old(self).append_needs_space_view(),
    {
        if let Some(selected) = self.selected {
            let count = self.filtered_indices.len();
            let previous = if selected == 0 {
                count - 1
            } else {
                selected - 1
            };
            proof {
                let s = selected as int;
                let n = count as int;
                if s == 0 {
                    vstd::arithmetic::div_mod::lemma_small_mod((n - 1) as nat, n as nat);
                } else {
                    vstd::arithmetic::div_mod::lemma_mod_add_multiples_vanish(s - 1, n);
                    vstd::arithmetic::div_mod::lemma_small_mod((s - 1) as nat, n as nat);
                    assert(s + n - 1 == (s - 1) + n);
                }
            }
            self.selected = Some(previous);
        }
    }

    /// Extends the query by one character; the matches are recomputed and the
    /// first match, if any, is selected.
    pub fn push_query_char(&mut self, character: char)
        requires
            old(self).wf(),
        ensures
            final(self).wf(),
            final(self).query_view() == old(self).query_view().push(character),
            final(self).options_view() == old(self).options_view(),
            final(self).filtered_view() == filter_options(final(self).options_view(), final(self).query_view()),
            final(self).selected_view() == (if final(self).filtered_view().len() > 0 { Some(0usize) } else { None }),
            final(self).buffer_len_view() == old(self).buffer_len_view(),
            final(self).append_needs_space_view() == old(self).append_needs_space_view(),
    {
        push_char(&mut self.query, character);
        let (filtered, selected) = refilter(&self.options, &self.query);
        self.filtered_indices = filtered;
        self.selected = selected;
    }

    /// Removes the last query character, if any; the matches are recomputed
    /// and the first match, if any, is selected.
    pub fn pop_query_char(&mut self)
        requires
            old(self).wf(),
        ensures
            final(self).wf(),
            final(self).query_view() == (if old(self).query_view().len() > 0 {
                old(self).query_view().drop_last()
            } else {
                old(self).query_view()
            }),
            final(self).options_view() == old(self).options_view(),
            final(self).filtered_view() == filter_options(final(self).options_view(), final(self).query_view()),
            final(self).selected_view() == (if final(self).filtered_view().len() > 0 { Some(0usize) } else { None }),
            final(self).buffer_len_view() == old(self).buffer_len_view(),
            final(self).append_needs_space_view() == old(self).append_needs_space_view(),
    {
        let _ = pop_char(&mut self.query);
        let (filtered, selected) = refilter(&self.options, &self.query);
        self.filtered_indices = filtered;
        self.selected = selected;
    }

    /// The insert that confirming the selected option produces: at the end of
    /// the buffer (after a space when the buffer needs one) or at a cursor
    /// byte offset that lies within the buffer.
    pub fn confirm(&self, insertion_point: InsertionPoint) -> (r: Result<PickerOutcome, PickerError>)
        requires
            self.wf(),
        ensures
            self.selected_view() is None ==> r == Err::<PickerOutcome, PickerError>(PickerError::NoSelection),
            self.selected_view() is Some ==> {
                let flag = self.match_item(self.selected_view()->0 as int).flag@;
                match insertion_point {
                    InsertionPoint::Append => r matches Ok(PickerOutcome::Confirm(Edit::Insert { at, text }))
                        && at == self.buffer_len_view() && text@ == (if self.append_needs_space_view() {
                        seq![' '] + flag
                    } else {
                        flag
                    }),
                    InsertionPoint::Cursor(cursor) => if cursor > self.buffer_len_view() {
                        r == Err::<PickerOutcome, PickerError>(
                            PickerError::InvalidCursor { cursor, buffer_len: self.buffer_len_view() },
                        )
                    } else {
                        r matches Ok(PickerOutcome::Confirm(Edit::Insert { at, text })) && at == cursor
                            && text@ == flag
                    },
                }
            },
    {
        let item = match self.selected_item() {
            Some(item) => item,
            None => return Err(PickerError::NoSelection),
        };
        match insertion_point {
            InsertionPoint::Append => {
                let text = if self.append_needs_space {
                    let mut spaced = " ".to_owned();
                    proof {
                        reveal_strlit(" ");
                    }
                    spaced.append(item.flag.as_str());
                    spaced
                } else {
                    item.flag.clone()
                };
                Ok(PickerOutcome::Confirm(Edit::Insert { at: self.buffer_len, text }))
            },
            InsertionPoint::Cursor(cursor) => {
                if cursor > self.buffer_len {
                    return Err(PickerError::InvalidCursor { cursor, buffer_len: self.buffer_len });
                }
                Ok(PickerOutcome::Confirm(Edit::Insert { at: cursor, text: item.flag.clone() }))
            },
        }
    }

    pub fn cancel(&self) -> (outcome: PickerOutcome)
        ensures
            outcome == PickerOutcome::Cancel,
    {
        PickerOutcome::Cancel
    }
}

/// The matches of `query` among `options`, and the selection that goes with them.
fn refilter(options: &Vec<OptionItem>, query: &String) -> (r: (Vec<usize>, Option<usize>))
    ensures
        r.0@ == filter_options(options@, query@),
        forall|i: int| 0 <= i < r.0.len() ==> #[trigger] r.0@[i] < options.len(),
        r.1 == (if r.0.len() > 0 { Some(0usize) } else { None }),
{
    let needle = ascii_lowered(query.as_str());
    let mut filtered: Vec<usize> = Vec::new();
    let mut i: usize = 0;
    while i < options.len()
        invariant
            needle@ == ascii_lower_seq(query@),
            0 <= i <= options.len(),
            filtered@ == matching_positions(options@, query@, i as int),
            forall|k: int| 0 <= k < filtered.len() ==> #[trigger] filtered@[k] < i,
        decreases options.len() - i,
    {
        let flag = ascii_lowered(options[i].flag.as_str());
        let description = ascii_lowered(options[i].description.as_str());
        if contains_exec(&flag, &needle) || contains_exec(&description, &needle) {
            filtered.push(i);
        }
        i = i + 1;
    }
    let selected = if filtered.len() > 0 {
        Some(0)
    } else {
        None
    };
    (filtered, selected)
}

/// Moving to the next match and then to the previous one returns to the
/// starting selection (navigation wraps in both directions).
pub proof fn law_next_then_previous(selected: Option<usize>, count: nat)
    requires
        count <= usize::MAX,
        selected matches Some(s) ==> s < count,
    ensures
        previous_selection(next_selection(selected, count), count) == selected,
        next_selection(previous_selection(selected, count), count) == selected,
{
    if let Some(s) = selected {
        let n = count as int;
        let si = s as int;
        let nx: int = if si + 1 < n { si + 1 } else { 0 };
        let pv: int = if si == 0 { n - 1 } else { si - 1 };
        if si + 1 < n {
            vstd::arithmetic::div_mod::lemma_small_mod((si + 1) as nat, n as nat);
        } else {
            vstd::arithmetic::div_mod::lemma_mod_self_0(n);
        }
        assert((si + 1) % n == nx);
        assert(next_selection(selected, count) == Some(nx as usize));
        // previous of nx
        if nx == 0 {
            vstd::arithmetic::div_mod::lemma_small_mod((n - 1) as nat, n as nat);
            assert((nx + n - 1) % n == n - 1);
        } else {
            vstd::arithmetic::div_mod::lemma_mod_add_multiples_vanish(nx - 1, n);
            vstd::arithmetic::div_mod::lemma_small_mod((nx - 1) as nat, n as nat);
            assert(nx + n - 1 == (nx - 1) + n);
            assert((nx + n - 1) % n == nx - 1);
        }
        assert(previous_selection(Some(nx as usize), count) == selected);
        // previous of s
        if si == 0 {
            vstd::arithmetic::div_mod::lemma_small_mod((n - 1) as nat, n as nat);
        } else {
            vstd::arithmetic::div_mod::lemma_mod_add_multiples_vanish(si - 1, n);
            vstd::arithmetic::div_mod::lemma_small_mod((si - 1) as nat, n as nat);
            assert(si + n - 1 == (si - 1) + n);
        }
        assert((si + n - 1) % n == pv);
        assert(previous_selection(selected, count) == Some(pv as usize));
        if pv + 1 < n {
            vstd::arithmetic::div_mod::lemma_small_mod((pv + 1) as nat, n as nat);
        } else {
            vstd::arithmetic::div_mod::lemma_mod_self_0(n);
        }
        assert(next_selection(Some(pv as usize), count) == selected);
    }
}

/// Typing a character and then deleting it gives back the query and the
/// matches, with the first match (if any) selected: `pushed` is a state after
/// `push_query_char(c)` on `before`, and `popped` a state after
/// `pop_query_char()` on `pushed`, as those methods' contracts describe them.
pub proof fn law_pop_undoes_push(before: PickerState, pushed: PickerState, popped: PickerState, c: char)
    requires
        before.wf(),
        pushed.options_view() == before.options_view(),
        pushed.query_view() == before.query_view().push(c),
        popped.options_view() == pushed.options_view(),
        popped.query_view() == (if pushed.query_view().len() > 0 {
            pushed.query_view().drop_last()
        } else {
            pushed.query_view()
        }),
        popped.filtered_view() == filter_options(popped.options_view(), popped.query_view()),
        popped.selected_view() == (if popped.filtered_view().len() > 0 { Some(0usize) } else { None }),
    ensures
        popped.query_view() == before.query_view(),
        popped.filtered_view() == before.filtered_view(),
        popped.selected_view() == (if before.filtered_view().len() > 0 { Some(0usize) } else { None }),
{
    assert(before.query_view().push(c).drop_last() =~= before.query_view());
    before.matches_follow_query();
}

proof fn lemma_all_positions(options: Seq<OptionItem>, n: int)
    requires
        0 <= n <= options.len(),
    ensures
        matching_positions(options, Seq::empty(), n) == Seq::new(n as nat, |i: int| i as usize),
    decreases n,
{
    if n > 0 {
        lemma_all_positions(options, n - 1);
        let empty = ascii_lower_seq(Seq::<char>::empty());
        assert(empty =~= Seq::<char>::empty());
        assert(ascii_lower_seq(options[n - 1].flag@).subrange(0, 0) =~= empty);
        assert(occurs_at(ascii_lower_seq(options[n - 1].flag@), empty, 0));
        assert(Seq::new(n as nat, |i: int| i as usize) =~= Seq::new((n - 1) as nat, |i: int| i as usize).push((n - 1) as usize));
    } else {
        assert(Seq::new(0, |i: int| i as usize) =~= Seq::<usize>::empty());
    }
}

/// An empty query matches every option, in option order.
pub proof fn law_empty_query_matches_all(options: Seq<OptionItem>)
    ensures
        filter_options(options, Seq::empty()) == Seq::new(options.len(), |i: int| i as usize),
{
    lemma_all_positions(options, options.len() as int);
}

/// Confirming at the end of a buffer and applying the resulting insert to
/// that buffer appends the flag (after a space when one is needed) and keeps
/// the rest of the buffer unchanged.
pub proof fn law_appended_flag_extends_buffer(text: Seq<char>, flag: Seq<char>, edit: Edit)
    requires
        edit matches Edit::Insert { at, text: inserted } && at == utf8_bytes(text).len()
            && inserted@ == (if needs_space(text) { seq![' '] + flag } else { flag }),
    ensures
        apply_result(utf8_bytes(text), seq![edit]) == Ok::<Seq<u8>, EditError>(
            utf8_bytes(text + edit.replacement()),
        ),
{
    let bytes = utf8_bytes(text);
    let len = bytes.len() as int;
    assert(vstd::utf8::valid_utf8(bytes));
    assert(vstd::utf8::is_char_boundary(bytes, len));
    law_single_edit_keeps_the_rest(bytes, edit);
    assert(bytes.subrange(0, len) =~= bytes);
    assert(bytes.subrange(len, len) =~= Seq::<u8>::empty());
    lemma_encode_concat(text, edit.replacement());
    assert(bytes + utf8_bytes(edit.replacement()) + Seq::<u8>::empty() =~= bytes + utf8_bytes(edit.replacement()));
}

} // verus!
