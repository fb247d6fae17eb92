//! Character folding and substring containment, the shared vocabulary of the
//! matcher and the highlighter: lowercase folding of ASCII letters, substring
//! occurrence predicates over character sequences, and the splitting of a
//! text into lines at newline boundaries.

use vstd::prelude::*;

verus! {

/// Lowercase folding of a single character: ASCII uppercase letters map to
/// their lowercase counterparts, every other character is unchanged.
pub open spec fn fold_char(c: char) -> char {
    if 65 <= c as u32 && c as u32 <= 90 {
        ((c as u32) + 32) as char
    } else {
        c
    }
}

/// Lowercase folding of a whole character sequence, one character at a time.
pub open spec fn fold_seq(s: Seq<char>) -> Seq<char> {
    s.map_values(|c: char| fold_char(c))
}

pub fn fold_char_exec(c: char) -> (r: char)
    ensures
        r == fold_char(c),
{
    let u = c as u32;
    if 65 <= u && u <= 90 {
        let b = u as u8;
        (b + 32) as char
    } else {
        c
    }
}

/// The pattern `pat` occurs in `text` starting exactly at position `i`.
pub open spec fn matches_at(text: Seq<char>, pat: Seq<char>, i: int) -> bool {
    &&& 0 <= i
    &&& i + pat.len() <= text.len()
    &&& forall|j: int| 0 <= j < pat.len() ==> text[i + j] == pat[j]
}

/// The pattern `pat` occurs somewhere in `text`; the empty pattern occurs
/// everywhere, including in the empty text.
pub open spec fn contains_seq(text: Seq<char>, pat: Seq<char>) -> bool {
    exists|i: int| matches_at(text, pat, i)
}

/// A line matches a query either literally or, when case is ignored, after
/// both sides are lowercase-folded.
pub open spec fn line_matches(line: Seq<char>, query: Seq<char>, ignore_case: bool) -> bool {
    if ignore_case {
        contains_seq(fold_seq(line), fold_seq(query))
    } else {
        contains_seq(line, query)
    }
}

/// An occurrence survives lowercase folding: folding is applied character by
/// character, so a literal occurrence is also an occurrence of the folded
/// pattern in the folded text.
pub proof fn lemma_fold_preserves_match(line: Seq<char>, query: Seq<char>)
    requires
        contains_seq(line, query),
    ensures
        contains_seq(fold_seq(line), fold_seq(query)),
{
    let i = choose|i: int| matches_at(line, query, i);
    assert(matches_at(fold_seq(line), fold_seq(query), i)) by {
        assert forall|j: int| 0 <= j < fold_seq(query).len() implies fold_seq(line)[i + j]
            == fold_seq(query)[j] by {
            assert(line[i + j] == query[j]);
        }
    }
}

/// The characters of `s`, gathered into a vector.
pub fn to_chars(s: &str) -> (r: Vec<char>)
    ensures
        r@ == s@,
{
    let n = s.unicode_len();
    let mut r: Vec<char> = Vec::new();
    let mut i: usize = 0;
    while i < n
        invariant
            n == s@.len(),
            i <= n,
            r@.len() == i,
            forall|j: int| 0 <= j < i ==> r@[j] == s@[j],
        decreases n - i,
    {
        r.push(s.get_char(i));
        i += 1;
    }
    assert(r@ =~= s@);
    r
}

/// The characters of `s`, lowercase-folded and gathered into a vector.
pub fn fold_chars(s: &str) -> (r: Vec<char>)
    ensures
        r@ == fold_seq(s@),
{
    let n = s.unicode_len();
    let mut r: Vec<char> = Vec::new();
    let mut i: usize = 0;
    while i < n
        invariant
            n == s@.len(),
            i <= n,
            r@.len() == i,
            forall|j: int| 0 <= j < i ==> r@[j] == fold_char(s@[j]),
        decreases n - i,
    {
        r.push(fold_char_exec(s.get_char(i)));
        i += 1;
    }
    assert(r@ =~= fold_seq(s@));
    r
}

/// Whether `pat` occurs in `hay` starting exactly at `i`.
pub fn is_match_at(hay: &Vec<char>, pat: &Vec<char>, i: usize) -> (b: bool)
    requires
        i <= hay@.len(),
    ensures
        b == matches_at(hay@, pat@, i as int),
{
    if hay.len() - i < pat.len() {
        return false;
    }
    let hn = hay.len();
    let mut j: usize = 0;
    while j < pat.len()
        invariant
            hn == hay@.len(),
            i + pat@.len() <= hay@.len(),
            j <= pat@.len(),
            forall|k: int| 0 <= k < j ==> hay@[i + k] == pat@[k],
        decreases pat@.len() - j,
    {
        assert(i + j < hay@.len());
        if hay[i + j] != pat[j] {
            return false;
        }
        j += 1;
    }
    true
}

/// Whether `pat` occurs anywhere in `hay`. The empty pattern is contained in
/// every vector.
pub fn contains_chars(hay: &Vec<char>, pat: &Vec<char>) -> (b: bool)
    ensures
        b == contains_seq(hay@, pat@),
{
    if pat.len() == 0 {
        assert(matches_at(hay@, pat@, 0));
        return true;
    }
    if pat.len() > hay.len() {
        return false;
    }
    let last = hay.len() - pat.len();
    let mut i: usize = 0;
    while i <= last
        invariant
            1 <= pat@.len() <= hay@.len(),
            hay@.len() <= usize::MAX,
            last == hay@.len() - pat@.len(),
            i <= last + 1,
            forall|k: int| 0 <= k < i ==> !matches_at(hay@, pat@, k),
        decreases last + 1 - i,
    {
        if is_match_at(hay, pat, i) {
            return true;
        }
        i += 1;
    }
    false
}

/// Whether two string slices hold the same characters.
pub fn str_eq(a: &str, b: &str) -> (r: bool)
    ensures
        r == (a@ == b@),
{
    let n = a.unicode_len();
    if n != b.unicode_len() {
        return false;
    }
    let mut i: usize = 0;
    while i < n
        invariant
            n == a@.len(),
            n == b@.len(),
            i <= n,
            forall|j: int| 0 <= j < i ==> a@[j] == b@[j],
        decreases n - i,
    {
        if a.get_char(i) != b.get_char(i) {
            return false;
        }
        i += 1;
    }
    assert(a@ =~= b@);
    true
}

/// The position of the first newline in `s` at or after `from`, or the length
/// of `s` when no newline follows.
pub fn find_newline(s: &str, from: usize) -> (r: usize)
    requires
        from <= s@.len(),
    ensures
        from <= r <= s@.len(),
        forall|j: int| from <= j < r ==> s@[j] != '\n',
        r < s@.len() ==> s@[r as int] == '\n',
{
    let n = s.unicode_len();
    let mut i: usize = from;
    while i < n
        invariant
            n == s@.len(),
            from <= i <= n,
            forall|j: int| from <= j < i ==> s@[j] != '\n',
        decreases n - i,
    {
        if s.get_char(i) == '\n' {
            return i;
        }
        i += 1;
    }
    n
}

/// The lines of `text` after `cur` has already been read as the beginning of
/// the current line: a helper for [`spec_lines`] that scans one character at
/// a time.
pub open spec fn split_lines_rec(text: Seq<char>, cur: Seq<char>) -> Seq<Seq<char>>
    decreases text.len(),
{
    if text.len() == 0 {
        if cur.len() == 0 {
            Seq::empty()
        } else {
            seq![cur]
        }
    } else if text[0] == '\n' {
        seq![cur] + split_lines_rec(text.skip(1), Seq::empty())
    } else {
        split_lines_rec(text.skip(1), cur.push(text[0]))
    }
}

/// The lines of a text, split at newline characters: a trailing fragment
/// without a terminating newline still counts as a line, and the empty text
/// has no lines.
pub open spec fn spec_lines(text: Seq<char>) -> Seq<Seq<char>> {
    split_lines_rec(text, Seq::empty())
}

/// Scanning a newline-free text appends it, whole, to the current line.
proof fn lemma_split_rec_no_newline(text: Seq<char>, cur: Seq<char>)
    requires
        forall|j: int| 0 <= j < text.len() ==> text[j] != '\n',
    ensures
        split_lines_rec(text, cur) == if cur.len() + text.len() == 0 {
            Seq::<Seq<char>>::empty()
        } else {
            seq![cur + text]
        },
    decreases text.len(),
{
    if text.len() == 0 {
        if cur.len() > 0 {
            assert(cur + text =~= cur);
        }
    } else {
        lemma_split_rec_no_newline(text.skip(1), cur.push(text[0]));
        assert(cur.push(text[0]) + text.skip(1) =~= cur + text);
    }
}

/// Scanning up to the first newline at position `e` closes the current line
/// as `cur` followed by the text before the newline.
proof fn lemma_split_rec_newline(text: Seq<char>, cur: Seq<char>, e: int)
    requires
        0 <= e < text.len(),
        text[e] == '\n',
        forall|j: int| 0 <= j < e ==> text[j] != '\n',
    ensures
        split_lines_rec(text, cur) == seq![cur + text.take(e)] + split_lines_rec(
            text.skip(e + 1),
            Seq::empty(),
        ),
    decreases e,
{
    if e == 0 {
        assert(cur + text.take(0) =~= cur);
        assert(text.skip(1) =~= text.skip(e + 1));
    } else {
        lemma_split_rec_newline(text.skip(1), cur.push(text[0]), e - 1);
        assert(text.skip(1)[e - 1] == text[e]);
        assert(cur.push(text[0]) + text.skip(1).take(e - 1) =~= cur + text.take(e));
        assert(text.skip(1).skip(e) =~= text.skip(e + 1));
    }
}

/// Peeling the first line off a non-empty text: if the first newline stands
/// at `e` (or `e` is the length of the text when it has none), the lines of
/// the text are the first `e` characters followed by the lines of what comes
/// after the newline.
pub proof fn lemma_lines_unfold(text: Seq<char>, e: int)
    requires
        text.len() > 0,
        0 <= e <= text.len(),
        forall|j: int| 0 <= j < e ==> text[j] != '\n',
        e < text.len() ==> text[e] == '\n',
    ensures
        spec_lines(text) == seq![text.take(e)] + spec_lines(
            text.skip(if e < text.len() { e + 1 } else { e }),
        ),
{
    if e < text.len() {
        lemma_split_rec_newline(text, Seq::empty(), e);
        assert(Seq::<char>::empty() + text.take(e) =~= text.take(e));
    } else {
        lemma_split_rec_no_newline(text, Seq::empty());
        assert(Seq::<char>::empty() + text =~= text);
        assert(text.take(e) =~= text);
        assert(text.skip(e) =~= Seq::<char>::empty());
        assert(seq![text.take(e)] + spec_lines(text.skip(e)) =~= seq![text]);
    }
}

} // verus!
