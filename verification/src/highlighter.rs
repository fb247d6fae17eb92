//! The highlighter: render a matched line with every leftmost,
//! non-overlapping occurrence of the query wrapped between a begin-emphasis
//! and an end-emphasis marker, copying all other text verbatim.

use vstd::prelude::*;

use crate::text::{fold_chars, fold_seq, is_match_at, matches_at, to_chars};

verus! {

/// The begin-emphasis marker: the terminal bold-on control sequence.
pub open spec fn bold_marker() -> Seq<char> {
    seq!['\u{1b}', '[', '1', 'm']
}

/// The end-emphasis marker: the terminal reset control sequence.
pub open spec fn reset_marker() -> Seq<char> {
    seq!['\u{1b}', '[', '0', 'm']
}

/// The begin-emphasis marker as a string slice.
pub fn ansi_bold() -> (r: &'static str)
    ensures
        r@ == bold_marker(),
{
    let r = "\u{1b}[1m";
    proof {
        reveal_strlit("\u{1b}[1m");
        assert(r@ =~= bold_marker());
    }
    r
}

/// The end-emphasis marker as a string slice.
pub fn ansi_reset() -> (r: &'static str)
    ensures
        r@ == reset_marker(),
{
    let r = "\u{1b}[0m";
    proof {
        reveal_strlit("\u{1b}[0m");
        assert(r@ =~= reset_marker());
    }
    r
}

/// The rendering of `orig` from position `i` on: occurrences of `pat` are
/// sought in `hay` (either `orig` itself or its lowercase folding, aligned
/// character for character), greedily and without overlap, and each
/// occurrence wraps the corresponding slice of `orig` in emphasis markers.
pub open spec fn spec_render(orig: Seq<char>, hay: Seq<char>, pat: Seq<char>, i: int) -> Seq<char>
    decreases orig.len() - i,
{
    if pat.len() == 0 || hay.len() != orig.len() || !(0 <= i <= orig.len()) {
        Seq::empty()
    } else if matches_at(hay, pat, i) {
        bold_marker() + orig.subrange(i, i + pat.len()) + reset_marker() + spec_render(
            orig,
            hay,
            pat,
            i + pat.len(),
        )
    } else if i < orig.len() {
        seq![orig[i]] + spec_render(orig, hay, pat, i + 1)
    } else {
        Seq::empty()
    }
}

/// What a line looks like once highlighted for a query under a case mode:
/// an empty query leaves the line unchanged; otherwise occurrences are found
/// literally, or in the lowercase-folded line using the lowercase-folded
/// query, and always wrap the original-case text.
pub open spec fn spec_highlighted(line: Seq<char>, query: Seq<char>, ignore_case: bool) -> Seq<
    char,
> {
    if query.len() == 0 {
        line
    } else if ignore_case {
        spec_render(line, fold_seq(line), fold_seq(query), 0)
    } else {
        spec_render(line, line, query, 0)
    }
}

/// Render `line` with every occurrence of `pat` in `hay` wrapped in emphasis
/// markers; `hay` is the character-for-character search image of `line`.
fn render_spans(line: &str, hay: &Vec<char>, pat: &Vec<char>) -> (r: String)
    requires
        hay@.len() == line@.len(),
        pat@.len() >= 1,
    ensures
        r@ == spec_render(line@, hay@, pat@, 0),
{
    let n = line.unicode_len();
    let mut out = String::new();
    let mut i: usize = 0;
    while i < n
        invariant
            n == line@.len(),
            hay@.len() == n,
            pat@.len() >= 1,
            i <= n,
            out@ + spec_render(line@, hay@, pat@, i as int) == spec_render(line@, hay@, pat@, 0),
        decreases n - i,
    {
        let ghost prev = out@;
        if is_match_at(hay, pat, i) {
            out.append(ansi_bold());
            let piece = line.substring_char(i, i + pat.len());
            out.append(piece);
            out.append(ansi_reset());
            proof {
                assert(out@ + spec_render(line@, hay@, pat@, i + pat@.len()) =~= prev
                    + spec_render(line@, hay@, pat@, i as int));
            }
            i = i + pat.len();
        } else {
            let piece = line.substring_char(i, i + 1);
            out.append(piece);
            proof {
                assert(piece@ =~= seq![line@[i as int]]);
                assert(out@ + spec_render(line@, hay@, pat@, i + 1) =~= prev + spec_render(
                    line@,
                    hay@,
                    pat@,
                    i as int,
                ));
            }
            i = i + 1;
        }
    }
    proof {
        assert(spec_render(line@, hay@, pat@, n as int) =~= Seq::<char>::empty());
        assert(out@ + Seq::<char>::empty() =~= out@);
    }
    out
}

/// Render `line` with every leftmost, non-overlapping literal occurrence of
/// `query` wrapped in emphasis markers.
pub fn highlight_case_sensitive(line: &str, query: &str) -> (r: String)
    requires
        query@.len() > 0,
    ensures
        r@ == spec_render(line@, line@, query@, 0),
{
    let hay = to_chars(line);
    let pat = to_chars(query);
    render_spans(line, &hay, &pat)
}

/// Render `line` with every leftmost, non-overlapping occurrence of the
/// already-folded query `query_lower` in the lowercase-folded line wrapped in
/// emphasis markers; the wrapped slices keep the original case of `line`.
pub fn highlight_case_insensitive(line: &str, query_lower: &str) -> (r: String)
    requires
        query_lower@.len() > 0,
    ensures
        r@ == spec_render(line@, fold_seq(line@), query_lower@, 0),
{
    let hay = fold_chars(line);
    let pat = to_chars(query_lower);
    render_spans(line, &hay, &pat)
}

/// Render a matched line for display: an empty query returns the line
/// unchanged, otherwise every occurrence under the active case mode is
/// wrapped in emphasis markers. When case is ignored, a caller that has
/// already folded the query may pass it as `query_lower` so the folding is
/// not recomputed. Re-highlighting an already highlighted line is a
/// non-goal: the renderer expects a plain line, not its own output.
pub fn highlight_line(line: &str, query: &str, ignore_case: bool, query_lower: Option<&str>) -> (r:
    String)
    requires
        query_lower is Some ==> query_lower->0@ == fold_seq(query@),
    ensures
        r@ == spec_highlighted(line@, query@, ignore_case),
        query@.len() == 0 ==> r@ == line@,
{
    if query.unicode_len() == 0 {
        return line.to_owned();
    }
    if ignore_case {
        match query_lower {
            Some(lower_query) => highlight_case_insensitive(line, lower_query),
            None => {
                let hay = fold_chars(line);
                let pat = fold_chars(query);
                render_spans(line, &hay, &pat)
            },
        }
    } else {
        highlight_case_sensitive(line, query)
    }
}

/// No character of `s` is the escape character that both emphasis markers
/// begin with.
pub open spec fn no_esc(s: Seq<char>) -> bool {
    forall|i: int| 0 <= i < s.len() ==> s[i] != '\u{1b}'
}

/// `s` with every emphasis marker removed: wherever a begin- or end-emphasis
/// marker starts, it is dropped, and every other character is kept.
pub open spec fn strip_markers(s: Seq<char>) -> Seq<char>
    decreases s.len(),
{
    if s.len() == 0 {
        Seq::empty()
    } else if matches_at(s, bold_marker(), 0) || matches_at(s, reset_marker(), 0) {
        strip_markers(s.skip(4))
    } else {
        seq![s[0]] + strip_markers(s.skip(1))
    }
}

/// Stripping walks through marker-free text unchanged.
proof fn lemma_strip_clean_prefix(x: Seq<char>, rest: Seq<char>)
    requires
        no_esc(x),
    ensures
        strip_markers(x + rest) == x + strip_markers(rest),
    decreases x.len(),
{
    if x.len() == 0 {
        assert(x + rest =~= rest);
        assert(x + strip_markers(rest) =~= strip_markers(rest));
    } else {
        let s = x + rest;
        assert(s[0] == x[0]);
        assert(bold_marker()[0] == '\u{1b}');
        assert(reset_marker()[0] == '\u{1b}');
        assert(!matches_at(s, bold_marker(), 0));
        assert(!matches_at(s, reset_marker(), 0));
        assert(s.skip(1) =~= x.skip(1) + rest);
        lemma_strip_clean_prefix(x.skip(1), rest);
        assert(seq![s[0]] + (x.skip(1) + strip_markers(rest)) =~= x + strip_markers(rest));
    }
}

/// Stripping removes a marker standing at the front.
proof fn lemma_strip_marker_prefix(m: Seq<char>, rest: Seq<char>)
    requires
        m == bold_marker() || m == reset_marker(),
    ensures
        strip_markers(m + rest) == strip_markers(rest),
{
    let s = m + rest;
    assert(matches_at(s, m, 0)) by {
        assert forall|j: int| 0 <= j < m.len() implies s[j] == m[j] by {}
    }
    assert(s.skip(4) =~= rest);
}

/// Stripping a rendering from position `i` yields the rest of the original
/// line: the markers vanish and everything between them was copied verbatim.
proof fn lemma_strip_render(orig: Seq<char>, hay: Seq<char>, pat: Seq<char>, i: int)
    requires
        no_esc(orig),
        hay.len() == orig.len(),
        pat.len() >= 1,
        0 <= i <= orig.len(),
    ensures
        strip_markers(spec_render(orig, hay, pat, i)) == orig.skip(i),
    decreases orig.len() - i,
{
    if matches_at(hay, pat, i) {
        let sub = orig.subrange(i, i + pat.len());
        let rec = spec_render(orig, hay, pat, i + pat.len());
        lemma_strip_render(orig, hay, pat, i + pat.len());
        assert(spec_render(orig, hay, pat, i) =~= bold_marker() + (sub + (reset_marker() + rec)));
        lemma_strip_marker_prefix(bold_marker(), sub + (reset_marker() + rec));
        lemma_strip_clean_prefix(sub, reset_marker() + rec);
        lemma_strip_marker_prefix(reset_marker(), rec);
        assert(sub + orig.skip(i + pat.len()) =~= orig.skip(i));
    } else if i < orig.len() {
        let rec = spec_render(orig, hay, pat, i + 1);
        lemma_strip_render(orig, hay, pat, i + 1);
        lemma_strip_clean_prefix(seq![orig[i]], rec);
        assert(seq![orig[i]] + orig.skip(i + 1) =~= orig.skip(i));
    } else {
        assert(spec_render(orig, hay, pat, i) =~= Seq::<char>::empty());
        assert(orig.skip(i) =~= Seq::<char>::empty());
    }
}

/// Stripping all emphasis markers from a highlighted line reconstructs the
/// line exactly, for every query and case mode, provided the line itself
/// holds no escape character (a line that already contains marker text would
/// lose it to the stripping).
pub proof fn lemma_strip_markers_restores_line(
    line: Seq<char>,
    query: Seq<char>,
    ignore_case: bool,
)
    requires
        no_esc(line),
    ensures
        strip_markers(spec_highlighted(line, query, ignore_case)) == line,
{
    if query.len() == 0 {
        lemma_strip_clean_prefix(line, Seq::empty());
        assert(line + Seq::<char>::empty() =~= line);
        assert(strip_markers(Seq::<char>::empty()) =~= Seq::<char>::empty());
    } else if ignore_case {
        assert(fold_seq(line).len() == line.len());
        assert(fold_seq(query).len() == query.len());
        lemma_strip_render(line, fold_seq(line), fold_seq(query), 0);
        assert(line.skip(0) =~= line);
    } else {
        lemma_strip_render(line, line, query, 0);
        assert(line.skip(0) =~= line);
    }
}

} // verus!
