//! Scanning character sequences: trimming, splitting into words, pieces and
//! lines, and searching, with the meanings that `str`'s methods of the same
//! names have.
use vstd::prelude::*;
use crate::text::{char_is_whitespace, is_white_space, occurs_at, occurs_at_exec, push_char};

verus! {

/// First position at or after `i` that holds no whitespace (or the end).
pub open spec fn skip_ws(s: Seq<char>, i: int) -> int
    decreases s.len() - i,
{
    if i < 0 || i >= s.len() {
        if i < 0 { 0 } else { s.len() as int }
    } else if is_white_space(s[i]) {
        skip_ws(s, i + 1)
    } else {
        i
    }
}

/// First position at or after `i` that holds whitespace (or the end).
pub open spec fn skip_word(s: Seq<char>, i: int) -> int
    decreases s.len() - i,
{
    if i < 0 || i >= s.len() {
        if i < 0 { 0 } else { s.len() as int }
    } else if !is_white_space(s[i]) {
        skip_word(s, i + 1)
    } else {
        i
    }
}

/// Walking back from `e` (not below `lo`), the position after the last non-whitespace character.
pub open spec fn back_ws(s: Seq<char>, lo: int, e: int) -> int
    decreases e - lo,
{
    if e > lo && e <= s.len() && is_white_space(s[e - 1]) {
        back_ws(s, lo, e - 1)
    } else {
        e
    }
}

/// `str::trim`: without leading and trailing whitespace.
pub open spec fn trim(s: Seq<char>) -> Seq<char> {
    let a = skip_ws(s, 0);
    s.subrange(a, back_ws(s, a, s.len() as int))
}

/// The whitespace-separated words from position `i` on (`str::split_whitespace`).
pub open spec fn words_from(s: Seq<char>, i: int) -> Seq<Seq<char>>
    decreases s.len() - i,
{
    if i < 0 || i >= s.len() {
        Seq::empty()
    } else {
        let j = skip_ws(s, i);
        if j >= s.len() {
            Seq::empty()
        } else {
            let k = skip_word(s, j);
            if k <= i || k > s.len() {
                Seq::empty()
            } else {
                seq![s.subrange(j, k)] + words_from(s, k)
            }
        }
    }
}

pub open spec fn words(s: Seq<char>) -> Seq<Seq<char>> {
    words_from(s, 0)
}

/// First position at or after `i` whose character is in `set` (or the end).
pub open spec fn find_any_from(s: Seq<char>, set: Seq<char>, i: int) -> int
    decreases s.len() - i,
{
    if i < 0 || i >= s.len() {
        if i < 0 { 0 } else { s.len() as int }
    } else if set.contains(s[i]) {
        i
    } else {
        find_any_from(s, set, i + 1)
    }
}

/// The pieces between separators in `set`, from position `i` on (`str::split`).
pub open spec fn pieces_from(s: Seq<char>, set: Seq<char>, i: int) -> Seq<Seq<char>>
    decreases s.len() + 1 - i,
{
    if i < 0 || i > s.len() {
        Seq::empty()
    } else {
        let k = find_any_from(s, set, i);
        if k >= s.len() {
            seq![s.subrange(i, s.len() as int)]
        } else if k < i {
            Seq::empty()
        } else {
            seq![s.subrange(i, k)] + pieces_from(s, set, k + 1)
        }
    }
}

pub open spec fn pieces(s: Seq<char>, set: Seq<char>) -> Seq<Seq<char>> {
    pieces_from(s, set, 0)
}

/// `split_once` on any character of `set`: the text before and after the first such character.
pub open spec fn split_once_any(s: Seq<char>, set: Seq<char>) -> Option<(Seq<char>, Seq<char>)> {
    let k = find_any_from(s, set, 0);
    if k >= s.len() {
        None
    } else {
        Some((s.subrange(0, k), s.subrange(k + 1, s.len() as int)))
    }
}

/// The lines of `s` from position `i` on (`str::lines`): split at `\n`, with
/// one `\r` before a `\n` removed, and no empty line after a final `\n`.
pub open spec fn lines_from(s: Seq<char>, i: int) -> Seq<Seq<char>>
    decreases s.len() - i,
{
    if i < 0 || i >= s.len() {
        Seq::empty()
    } else {
        let k = find_any_from(s, seq!['\n'], i);
        if k >= s.len() {
            seq![s.subrange(i, s.len() as int)]
        } else if k < i {
            Seq::empty()
        } else {
            let body = s.subrange(i, k);
            let line = if body.len() > 0 && body.last() == '\r' { body.drop_last() } else { body };
            seq![line] + lines_from(s, k + 1)
        }
    }
}

pub open spec fn lines(s: Seq<char>) -> Seq<Seq<char>> {
    lines_from(s, 0)
}

/// First position at or after `i` where `pat` occurs.
pub open spec fn find_seq_from(s: Seq<char>, pat: Seq<char>, i: int) -> Option<int>
    decreases s.len() + 1 - i,
{
    if i < 0 || i + pat.len() > s.len() {
        None
    } else if occurs_at(s, pat, i) {
        Some(i)
    } else {
        find_seq_from(s, pat, i + 1)
    }
}

/// `str::find`: the first position where `pat` occurs.
pub open spec fn find_seq(s: Seq<char>, pat: Seq<char>) -> Option<int> {
    find_seq_from(s, pat, 0)
}

pub open spec fn starts_with(s: Seq<char>, p: Seq<char>) -> bool {
    p.len() <= s.len() && s.subrange(0, p.len() as int) == p
}

pub open spec fn ends_with(s: Seq<char>, p: Seq<char>) -> bool {
    p.len() <= s.len() && s.subrange(s.len() - p.len(), s.len() as int) == p
}

/// Walking forward from `i` (not beyond `hi`), the first character not in `set`.
pub open spec fn skip_set(s: Seq<char>, set: Seq<char>, i: int, hi: int) -> int
    decreases hi - i,
{
    if 0 <= i < hi && hi <= s.len() && set.contains(s[i]) {
        skip_set(s, set, i + 1, hi)
    } else {
        i
    }
}

/// Walking back from `e` (not below `lo`), the position after the last character not in `set`.
pub open spec fn back_set(s: Seq<char>, set: Seq<char>, lo: int, e: int) -> int
    decreases e - lo,
{
    if e > lo && e <= s.len() && lo >= 0 && set.contains(s[e - 1]) {
        back_set(s, set, lo, e - 1)
    } else {
        e
    }
}

/// `str::trim_matches` with a set of characters.
pub open spec fn trim_set(s: Seq<char>, set: Seq<char>) -> Seq<char> {
    let a = skip_set(s, set, 0, s.len() as int);
    s.subrange(a, back_set(s, set, a, s.len() as int))
}

/// `str::trim_end_matches` with a set of characters.
pub open spec fn trim_end_set(s: Seq<char>, set: Seq<char>) -> Seq<char> {
    s.subrange(0, back_set(s, set, 0, s.len() as int))
}

/// A match that `find_seq_from` reports lies at or after `i`, inside `s`.
pub proof fn lemma_find_seq_from_bounds(s: Seq<char>, pat: Seq<char>, i: int)
    ensures
        match find_seq_from(s, pat, i) {
            Some(k) => i <= k && occurs_at(s, pat, k),
            None => true,
        },
    decreases s.len() + 1 - i,
{
    if i < 0 || i + pat.len() > s.len() {
    } else if occurs_at(s, pat, i) {
    } else {
        lemma_find_seq_from_bounds(s, pat, i + 1);
    }
}

proof fn lemma_skip_ws_bounds(s: Seq<char>, i: int)
    requires
        0 <= i <= s.len(),
    ensures
        i <= skip_ws(s, i) <= s.len(),
        forall|k: int| i <= k < skip_ws(s, i) ==> is_white_space(#[trigger] s[k]),
        skip_ws(s, i) < s.len() ==> !is_white_space(s[skip_ws(s, i)]),
    decreases s.len() - i,
{
    if i < s.len() && is_white_space(s[i]) {
        lemma_skip_ws_bounds(s, i + 1);
    }
}

proof fn lemma_skip_word_bounds(s: Seq<char>, i: int)
    requires
        0 <= i <= s.len(),
    ensures
        i <= skip_word(s, i) <= s.len(),
        forall|k: int| i <= k < skip_word(s, i) ==> !is_white_space(#[trigger] s[k]),
        skip_word(s, i) < s.len() ==> is_white_space(s[skip_word(s, i)]),
    decreases s.len() - i,
{
    if i < s.len() && !is_white_space(s[i]) {
        lemma_skip_word_bounds(s, i + 1);
    }
}

proof fn lemma_find_any_bounds(s: Seq<char>, set: Seq<char>, i: int)
    requires
        0 <= i <= s.len(),
    ensures
        i <= find_any_from(s, set, i) <= s.len(),
        forall|k: int| i <= k < find_any_from(s, set, i) ==> !set.contains(#[trigger] s[k]),
        find_any_from(s, set, i) < s.len() ==> set.contains(s[find_any_from(s, set, i)]),
    decreases s.len() - i,
{
    if i < s.len() && !set.contains(s[i]) {
        lemma_find_any_bounds(s, set, i + 1);
    }
}

proof fn lemma_back_ws_bounds(s: Seq<char>, lo: int, e: int)
    requires
        0 <= lo <= e <= s.len(),
    ensures
        lo <= back_ws(s, lo, e) <= e,
    decreases e - lo,
{
    if e > lo && is_white_space(s[e - 1]) {
        lemma_back_ws_bounds(s, lo, e - 1);
    }
}

proof fn lemma_skip_set_bounds(s: Seq<char>, set: Seq<char>, i: int, hi: int)
    requires
        0 <= i <= hi <= s.len(),
    ensures
        i <= skip_set(s, set, i, hi) <= hi,
    decreases hi - i,
{
    if i < hi && set.contains(s[i]) {
        lemma_skip_set_bounds(s, set, i + 1, hi);
    }
}

proof fn lemma_back_set_bounds(s: Seq<char>, set: Seq<char>, lo: int, e: int)
    requires
        0 <= lo <= e <= s.len(),
    ensures
        lo <= back_set(s, set, lo, e) <= e,
    decreases e - lo,
{
    if e > lo && set.contains(s[e - 1]) {
        lemma_back_set_bounds(s, set, lo, e - 1);
    }
}

/// The characters `s[from..to]`.
pub fn slice_chars(s: &Vec<char>, from: usize, to: usize) -> (r: Vec<char>)
    requires
        from <= to <= s.len(),
    ensures
        r@ == s@.subrange(from as int, to as int),
{
    let mut r: Vec<char> = Vec::new();
    let mut k = from;
    while k < to
        invariant
            from <= k <= to <= s.len(),
            r@ == s@.subrange(from as int, k as int),
        decreases to - k,
    {
        r.push(s[k]);
        k = k + 1;
        proof {
            assert(r@ =~= s@.subrange(from as int, k as int));
        }
    }
    r
}

/// A string holding the characters of `s`.
pub fn string_of(s: &Vec<char>) -> (r: String)
    ensures
        r@ == s@,
{
    let mut r = String::new();
    let mut k: usize = 0;
    while k < s.len()
        invariant
            0 <= k <= s.len(),
            r@ == s@.subrange(0, k as int),
        decreases s.len() - k,
    {
        push_char(&mut r, s[k]);
        k = k + 1;
        proof {
            assert(r@ =~= s@.subrange(0, k as int));
        }
    }
    proof {
        assert(s@.subrange(0, s@.len() as int) =~= s@);
    }
    r
}

pub fn skip_ws_exec(s: &Vec<char>, i: usize) -> (r: usize)
    requires
        i <= s.len(),
    ensures
        r == skip_ws(s@, i as int),
        i <= r <= s.len(),
{
    proof {
        lemma_skip_ws_bounds(s@, i as int);
    }
    let mut k = i;
    while k < s.len() && char_is_whitespace(s[k])
        invariant
            i <= k <= s.len(),
            skip_ws(s@, k as int) == skip_ws(s@, i as int),
        decreases s.len() - k,
    {
        k = k + 1;
    }
    k
}

pub fn skip_word_exec(s: &Vec<char>, i: usize) -> (r: usize)
    requires
        i <= s.len(),
    ensures
        r == skip_word(s@, i as int),
        i <= r <= s.len(),
{
    let mut k = i;
    while k < s.len() && !char_is_whitespace(s[k])
        invariant
            i <= k <= s.len(),
            skip_word(s@, k as int) == skip_word(s@, i as int),
        decreases s.len() - k,
    {
        k = k + 1;
    }
    k
}

pub fn find_any_exec(s: &Vec<char>, set: &Vec<char>, i: usize) -> (r: usize)
    requires
        i <= s.len(),
    ensures
        r == find_any_from(s@, set@, i as int),
        i <= r <= s.len(),
{
    let mut k = i;
    while k < s.len()
        invariant
            i <= k <= s.len(),
            find_any_from(s@, set@, k as int) == find_any_from(s@, set@, i as int),
        decreases s.len() - k,
    {
        let c = s[k];
        let mut m: usize = 0;
        let mut found = false;
        while m < set.len()
            invariant
                0 <= m <= set.len(),
                found == exists|n: int| 0 <= n < m && set@[n] == c,
            decreases set.len() - m,
        {
            if set[m] == c {
                found = true;
            }
            m = m + 1;
        }
        if found {
            return k;
        }
        k = k + 1;
    }
    k
}

/// Bounds of `trim(s)` within `s`.
pub fn trim_bounds(s: &Vec<char>) -> (r: (usize, usize))
    ensures
        r.0 <= r.1 <= s.len(),
        s@.subrange(r.0 as int, r.1 as int) == trim(s@),
{
    let a = skip_ws_exec(s, 0);
    let mut e = s.len();
    while e > a && char_is_whitespace(s[e - 1])
        invariant
            a <= e <= s.len(),
            back_ws(s@, a as int, e as int) == back_ws(s@, a as int, s@.len() as int),
        decreases e - a,
    {
        e = e - 1;
    }
    (a, e)
}

/// `trim(s)` as characters.
pub fn trim_chars(s: &Vec<char>) -> (r: Vec<char>)
    ensures
        r@ == trim(s@),
{
    let (a, e) = trim_bounds(s);
    slice_chars(s, a, e)
}

/// The whitespace-separated words of `s`.
pub fn words_exec(s: &Vec<char>) -> (r: Vec<Vec<char>>)
    ensures
        r@.map_values(|w: Vec<char>| w@) == words(s@),
{
    let mut r: Vec<Vec<char>> = Vec::new();
    let mut i: usize = 0;
    let ghost total = words(s@);
    while i < s.len()
        invariant
            0 <= i <= s.len(),
            total == words(s@),
            r@.map_values(|w: Vec<char>| w@) + words_from(s@, i as int) == total,
        decreases s.len() - i,
    {
        let j = skip_ws_exec(s, i);
        if j >= s.len() {
            proof {
                assert(skip_ws(s@, i as int) >= s@.len());
                assert(0 <= i < s@.len());
                assert(words_from(s@, i as int) == Seq::<Seq<char>>::empty());
                assert(words_from(s@, s@.len() as int) =~= Seq::<Seq<char>>::empty());
            }
            i = s.len();
        } else {
        let k = skip_word_exec(s, j);
        proof {
            lemma_skip_word_bounds(s@, j as int);
            lemma_skip_ws_bounds(s@, i as int);
        }
        let w = slice_chars(s, j, k);
        let ghost before = r@.map_values(|w: Vec<char>| w@);
        r.push(w);
        proof {
            assert(r@.map_values(|w: Vec<char>| w@) =~= before.push(w@));
            assert(words_from(s@, i as int) == seq![s@.subrange(j as int, k as int)] + words_from(s@, k as int));
            assert(before.push(w@) + words_from(s@, k as int) =~= before + words_from(s@, i as int));
        }
        i = k;
        }
    }
    proof {
        assert(words_from(s@, i as int) =~= Seq::<Seq<char>>::empty());
        assert(r@.map_values(|w: Vec<char>| w@) + Seq::<Seq<char>>::empty() =~= r@.map_values(|w: Vec<char>| w@));
    }
    r
}

/// The pieces of `s` between separators in `set`.
pub fn pieces_exec(s: &Vec<char>, set: &Vec<char>) -> (r: Vec<Vec<char>>)
    ensures
        r@.map_values(|w: Vec<char>| w@) == pieces(s@, set@),
{
    let mut r: Vec<Vec<char>> = Vec::new();
    let mut i: usize = 0;
    let ghost total = pieces(s@, set@);
    loop
        invariant
            0 <= i <= s.len(),
            total == pieces(s@, set@),
            r@.map_values(|w: Vec<char>| w@) + pieces_from(s@, set@, i as int) == total,
        decreases s.len() - i,
    {
        let k = find_any_exec(s, set, i);
        let piece = slice_chars(s, i, k);
        let ghost before = r@.map_values(|w: Vec<char>| w@);
        r.push(piece);
        proof {
            assert(r@.map_values(|w: Vec<char>| w@) =~= before.push(piece@));
        }
        if k >= s.len() {
            proof {
                assert(before.push(piece@) =~= before + pieces_from(s@, set@, i as int));
            }
            return r;
        }
        proof {
            assert(before.push(piece@) + pieces_from(s@, set@, k + 1) =~= before + pieces_from(s@, set@, i as int));
        }
        i = k + 1;
    }
}

/// The lines of `s`.
pub fn lines_exec(s: &Vec<char>) -> (r: Vec<Vec<char>>)
    ensures
        r@.map_values(|w: Vec<char>| w@) == lines(s@),
{
    let mut newline: Vec<char> = Vec::new();
    newline.push('\n');
    proof {
        assert(newline@ =~= seq!['\n']);
    }
    let mut r: Vec<Vec<char>> = Vec::new();
    let mut i: usize = 0;
    let ghost total = lines(s@);
    while i < s.len()
        invariant
            0 <= i <= s.len(),
            newline@ == seq!['\n'],
            total == lines(s@),
            r@.map_values(|w: Vec<char>| w@) + lines_from(s@, i as int) == total,
        decreases s.len() - i,
    {
        let k = find_any_exec(s, &newline, i);
        let ghost before = r@.map_values(|w: Vec<char>| w@);
        if k >= s.len() {
            let piece = slice_chars(s, i, s.len());
            r.push(piece);
            proof {
                assert(r@.map_values(|w: Vec<char>| w@) =~= before.push(piece@));
                assert(lines_from(s@, s@.len() as int) =~= Seq::<Seq<char>>::empty());
                assert(before.push(piece@) + lines_from(s@, s@.len() as int) =~= before + lines_from(s@, i as int));
            }
            i = s.len();
        } else {
            let end = if k > i && s[k - 1] == '\r' {
                k - 1
            } else {
                k
            };
            let piece = slice_chars(s, i, end);
            r.push(piece);
            proof {
                let body = s@.subrange(i as int, k as int);
                if k > i && s@[k - 1] == '\r' {
                    assert(body.last() == '\r');
                    assert(body.drop_last() =~= piece@);
                } else {
                    assert(body =~= piece@);
                }
                assert(r@.map_values(|w: Vec<char>| w@) =~= before.push(piece@));
                assert(before.push(piece@) + lines_from(s@, k + 1) =~= before + lines_from(s@, i as int));
            }
            i = k + 1;
        }
    }
    proof {
        assert(lines_from(s@, i as int) =~= Seq::<Seq<char>>::empty());
        assert(r@.map_values(|w: Vec<char>| w@) + Seq::<Seq<char>>::empty() =~= r@.map_values(|w: Vec<char>| w@));
    }
    r
}

/// The first position where `pat` occurs in `s`, if any.
pub fn find_seq_exec(s: &Vec<char>, pat: &Vec<char>) -> (r: Option<usize>)
    ensures
        match find_seq(s@, pat@) {
            Some(k) => r matches Some(x) && x == k,
            None => r is None,
        },
{
    let mut i: usize = 0;
    while i <= s.len() && pat.len() <= s.len() - i
        invariant
            0 <= i <= s.len() + 1,
            find_seq_from(s@, pat@, i as int) == find_seq(s@, pat@),
        decreases s.len() + 1 - i,
    {
        if occurs_at_exec(s, pat, i) {
            return Some(i);
        }
        if i == s.len() {
            proof {
                assert(find_seq_from(s@, pat@, i as int + 1) is None);
            }
            return None;
        }
        i = i + 1;
    }
    None
}

pub fn starts_with_exec(s: &Vec<char>, p: &Vec<char>) -> (r: bool)
    ensures
        r == starts_with(s@, p@),
{
    let r = occurs_at_exec(s, p, 0);
    proof {
        if r {
            assert(s@.subrange(0, p@.len() as int) == p@);
        }
    }
    r
}

pub fn ends_with_exec(s: &Vec<char>, p: &Vec<char>) -> (r: bool)
    ensures
        r == ends_with(s@, p@),
{
    if p.len() > s.len() {
        return false;
    }
    occurs_at_exec(s, p, s.len() - p.len())
}

/// Whether `c` is one of the characters of `set`.
pub fn in_set(set: &Vec<char>, c: char) -> (r: bool)
    ensures
        r == set@.contains(c),
{
    let mut m: usize = 0;
    while m < set.len()
        invariant
            0 <= m <= set.len(),
            forall|n: int| 0 <= n < m ==> set@[n] != c,
        decreases set.len() - m,
    {
        if set[m] == c {
            return true;
        }
        m = m + 1;
    }
    false
}

/// `trim_set(s, set)` as characters.
pub fn trim_set_exec(s: &Vec<char>, set: &Vec<char>) -> (r: Vec<char>)
    ensures
        r@ == trim_set(s@, set@),
{
    let mut a: usize = 0;
    while a < s.len() && in_set(set, s[a])
        invariant
            0 <= a <= s.len(),
            skip_set(s@, set@, a as int, s@.len() as int) == skip_set(s@, set@, 0, s@.len() as int),
        decreases s.len() - a,
    {
        a = a + 1;
    }
    let mut e = s.len();
    while e > a && in_set(set, s[e - 1])
        invariant
            a <= e <= s.len(),
            back_set(s@, set@, a as int, e as int) == back_set(s@, set@, a as int, s@.len() as int),
        decreases e - a,
    {
        e = e - 1;
    }
    slice_chars(s, a, e)
}

/// `trim_end_set(s, set)` as characters.
pub fn trim_end_set_exec(s: &Vec<char>, set: &Vec<char>) -> (r: Vec<char>)
    ensures
        r@ == trim_end_set(s@, set@),
{
    let mut e = s.len();
    while e > 0 && in_set(set, s[e - 1])
        invariant
            0 <= e <= s.len(),
            back_set(s@, set@, 0, e as int) == back_set(s@, set@, 0, s@.len() as int),
        decreases e,
    {
        e = e - 1;
    }
    slice_chars(s, 0, e)
}

} // verus!
