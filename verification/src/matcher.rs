//! The matcher: scan a text line by line and keep every line that contains
//! the query, together with its 1-based line number, in ascending order.

use vstd::prelude::*;

use crate::text::{
    contains_chars, find_newline, fold_chars, fold_seq, lemma_fold_preserves_match,
    lemma_lines_unfold, line_matches, spec_lines, to_chars,
};

verus! {

/// A matched line: its 1-based position in the text and a view into the text
/// holding the line itself.
#[derive(Debug, PartialEq, Eq)]
pub struct Match<'a> {
    pub line_number: usize,
    pub line: &'a str,
}

/// The lines of `text`, each paired with its 1-based line number.
pub open spec fn numbered_lines(text: Seq<char>) -> Seq<(int, Seq<char>)> {
    Seq::new(spec_lines(text).len(), |i: int| (i + 1, spec_lines(text)[i]))
}

/// The numbered lines of `text` that match `query` under the given case
/// mode, in ascending line-number order.
pub open spec fn spec_matches(query: Seq<char>, text: Seq<char>, ignore_case: bool) -> Seq<
    (int, Seq<char>),
> {
    numbered_lines(text).filter(|p: (int, Seq<char>)| line_matches(p.1, query, ignore_case))
}

/// The matching lines themselves, without their numbers.
pub open spec fn spec_search(query: Seq<char>, text: Seq<char>, ignore_case: bool) -> Seq<
    Seq<char>,
> {
    spec_matches(query, text, ignore_case).map_values(|p: (int, Seq<char>)| p.1)
}

/// Scan `contents` line by line and return every line containing `query`,
/// paired with its 1-based line number; with `ignore_case`, both sides are
/// lowercase-folded before the containment test, and the folded query is
/// computed once for the whole scan.
pub fn search_with_config<'a>(query: &str, contents: &'a str, ignore_case: bool) -> (r: Vec<
    Match<'a>,
>)
    ensures
        r@.map_values(|m: Match<'a>| (m.line_number as int, m.line@)) == spec_matches(
            query@,
            contents@,
            ignore_case,
        ),
        forall|i: int|
            0 <= i < r@.len() ==> {
                &&& 1 <= (#[trigger] r@[i]).line_number <= spec_lines(contents@).len()
                &&& r@[i].line@ == spec_lines(contents@)[r@[i].line_number - 1]
                &&& line_matches(r@[i].line@, query@, ignore_case)
            },
        forall|i: int, j: int|
            0 <= i < j < r@.len() ==> (#[trigger] r@[i]).line_number
                < (#[trigger] r@[j]).line_number,
        forall|k: int|
            0 <= k < spec_lines(contents@).len() && line_matches(
                spec_lines(contents@)[k],
                query@,
                ignore_case,
            ) ==> exists|i: int|
                0 <= i < r@.len() && (#[trigger] r@[i]).line_number == k + 1,
{
    let ghost text = contents@;
    let ghost all_lines = spec_lines(text);
    let ghost pred = |p: (int, Seq<char>)| line_matches(p.1, query@, ignore_case);
    let pat: Vec<char> = if ignore_case {
        fold_chars(query)
    } else {
        to_chars(query)
    };
    let n = contents.unicode_len();
    let mut results: Vec<Match<'a>> = Vec::new();
    let mut pos: usize = 0;
    let mut line_no: usize = 0;
    proof {
        assert(text.skip(0) =~= text);
        assert(all_lines.skip(0) =~= all_lines);
        assert(numbered_lines(text).take(0) =~= Seq::<(int, Seq<char>)>::empty());
        assert(results@.map_values(|m: Match<'a>| (m.line_number as int, m.line@)) =~= Seq::<
            (int, Seq<char>),
        >::empty());
        Seq::<(int, Seq<char>)>::empty().lemma_filter_len(pred);
        assert(numbered_lines(text).take(0).filter(pred) =~= Seq::<(int, Seq<char>)>::empty());
    }
    while pos < n
        invariant
            n == text.len(),
            text == contents@,
            all_lines == spec_lines(text),
            pred == (|p: (int, Seq<char>)| line_matches(p.1, query@, ignore_case)),
            pat@ == if ignore_case {
                fold_seq(query@)
            } else {
                query@
            },
            pos <= n,
            line_no <= pos,
            line_no <= all_lines.len(),
            spec_lines(text.skip(pos as int)) == all_lines.skip(line_no as int),
            results@.map_values(|m: Match<'a>| (m.line_number as int, m.line@)) == numbered_lines(
                text,
            ).take(line_no as int).filter(pred),
            forall|i: int|
                0 <= i < results@.len() ==> {
                    &&& 1 <= (#[trigger] results@[i]).line_number <= line_no
                    &&& results@[i].line@ == all_lines[results@[i].line_number - 1]
                    &&& line_matches(results@[i].line@, query@, ignore_case)
                },
            forall|i: int, j: int|
                0 <= i < j < results@.len() ==> (#[trigger] results@[i]).line_number
                    < (#[trigger] results@[j]).line_number,
            forall|k: int|
                0 <= k < line_no && line_matches(all_lines[k], query@, ignore_case) ==> exists|
                    i: int,
                |
                    0 <= i < results@.len() && (#[trigger] results@[i]).line_number == k + 1,
        decreases n - pos,
    {
        let ghost done = line_no as int;
        let ghost old_results = results@;
        let end = find_newline(contents, pos);
        let line: &'a str = contents.substring_char(pos, end);
        let ghost rest = text.skip(pos as int);
        proof {
            assert(rest.len() > 0);
            assert forall|j: int| 0 <= j < end - pos implies rest[j] != '\n' by {
                assert(rest[j] == text[pos + j]);
            }
            assert(end < n ==> rest[end - pos] == '\n');
            lemma_lines_unfold(rest, end - pos);
            assert(rest.take(end - pos) =~= text.subrange(pos as int, end as int));
            assert(all_lines.skip(done).len() >= 1);
            assert(done < all_lines.len());
            assert(all_lines.skip(done)[0] == all_lines[done]);
            assert(line@ == all_lines[done]);
        }
        let next = if end < n {
            end + 1
        } else {
            end
        };
        proof {
            let e = end - pos;
            let tail_start: int = if e < rest.len() {
                e + 1
            } else {
                e
            };
            assert(rest.skip(tail_start) =~= text.skip(next as int));
            assert((seq![rest.take(e)] + spec_lines(rest.skip(tail_start))).skip(1) =~= spec_lines(
                rest.skip(tail_start),
            ));
            assert(spec_lines(text.skip(next as int)) =~= all_lines.skip(done).skip(1));
            assert(all_lines.skip(done).skip(1) =~= all_lines.skip(done + 1));
        }
        let is_match = if ignore_case {
            let folded_line = fold_chars(line);
            contains_chars(&folded_line, &pat)
        } else {
            let line_chars = to_chars(line);
            contains_chars(&line_chars, &pat)
        };
        proof {
            assert(is_match == line_matches(line@, query@, ignore_case));
            assert(numbered_lines(text)[done] == (done + 1, all_lines[done]));
            assert(numbered_lines(text).take(done + 1) =~= numbered_lines(text).take(done).push(
                (done + 1, all_lines[done]),
            ));
            numbered_lines(text).take(done).lemma_filter_push(
                (done + 1, all_lines[done]),
                pred,
            );
        }
        if is_match {
            results.push(Match { line_number: line_no + 1, line });
            proof {
                let f = |m: Match<'a>| (m.line_number as int, m.line@);
                assert(results@.map_values(f) =~= old_results.map_values(f).push(
                    (done + 1, line@),
                ));
            }
        }
        pos = next;
        line_no = line_no + 1;
        proof {
            assert forall|k: int|
                0 <= k < line_no && line_matches(all_lines[k], query@, ignore_case) implies exists|
                i: int,
            |
                0 <= i < results@.len() && (#[trigger] results@[i]).line_number == k + 1 by {
                if k == done {
                    assert(is_match);
                    assert((results@[results@.len() - 1]).line_number == k + 1);
                } else {
                    let i = choose|i: int|
                        0 <= i < old_results.len() && (#[trigger] old_results[i]).line_number == k
                            + 1;
                    assert((results@[i]).line_number == k + 1);
                }
            }
        }
    }
    proof {
        assert(text.skip(pos as int) =~= Seq::<char>::empty());
        assert(all_lines.skip(line_no as int).len() == 0);
        assert(line_no == all_lines.len());
        assert(numbered_lines(text).take(line_no as int) =~= numbered_lines(text));
    }
    results
}

/// The lines of `contents` containing `query` as a literal substring, in
/// ascending line-number order, one entry per matching line.
pub fn search<'a>(query: &str, contents: &'a str) -> (r: Vec<&'a str>)
    ensures
        r.deep_view() == spec_search(query@, contents@, false),
        r.deep_view() == spec_lines(contents@).filter(
            |l: Seq<char>| line_matches(l, query@, false),
        ),
{
    proof {
        lemma_search_is_filtered_lines(query@, contents@, false);
    }
    let hits = search_with_config(query, contents, false);
    collect_lines(hits, Ghost(query@), Ghost(contents@), Ghost(false))
}

/// The lines of `contents` containing `query` up to lowercase folding, in
/// ascending line-number order, one entry per matching line.
pub fn search_case_insensitive<'a>(query: &str, contents: &'a str) -> (r: Vec<&'a str>)
    ensures
        r.deep_view() == spec_search(query@, contents@, true),
        r.deep_view() == spec_lines(contents@).filter(
            |l: Seq<char>| line_matches(l, query@, true),
        ),
{
    proof {
        lemma_search_is_filtered_lines(query@, contents@, true);
    }
    let hits = search_with_config(query, contents, true);
    collect_lines(hits, Ghost(query@), Ghost(contents@), Ghost(true))
}

/// Drop the line numbers from a sequence of matches.
fn collect_lines<'a>(
    hits: Vec<Match<'a>>,
    Ghost(query): Ghost<Seq<char>>,
    Ghost(text): Ghost<Seq<char>>,
    Ghost(ignore_case): Ghost<bool>,
) -> (r: Vec<&'a str>)
    requires
        hits@.map_values(|m: Match<'a>| (m.line_number as int, m.line@)) == spec_matches(
            query,
            text,
            ignore_case,
        ),
    ensures
        r.deep_view() == spec_search(query, text, ignore_case),
{
    let mut r: Vec<&'a str> = Vec::new();
    let mut i: usize = 0;
    while i < hits.len()
        invariant
            i <= hits@.len(),
            r@.len() == i,
            forall|j: int| 0 <= j < i ==> r@[j] == (#[trigger] hits@[j]).line,
        decreases hits@.len() - i,
    {
        r.push(hits[i].line);
        i += 1;
    }
    proof {
        let pairs = spec_matches(query, text, ignore_case);
        assert forall|j: int| 0 <= j < r.deep_view().len() implies r.deep_view()[j]
            == spec_search(query, text, ignore_case)[j] by {
            assert(hits@.map_values(|m: Match<'a>| (m.line_number as int, m.line@))[j]
                == pairs[j]);
            assert(hits@[j].line@ == pairs[j].1);
        }
        assert(r.deep_view() =~= spec_search(query, text, ignore_case));
    }
    r
}

/// The lines of `text`, each paired with its 1-based position, but over an
/// arbitrary sequence of lines: the induction skeleton behind
/// [`lemma_search_is_filtered_lines`].
spec fn numbered_of(lines: Seq<Seq<char>>) -> Seq<(int, Seq<char>)> {
    Seq::new(lines.len(), |i: int| (i + 1, lines[i]))
}

proof fn lemma_numbered_filter_snd(lines: Seq<Seq<char>>, query: Seq<char>, ignore_case: bool)
    ensures
        numbered_of(lines).filter(|p: (int, Seq<char>)| line_matches(p.1, query, ignore_case))
            .map_values(|p: (int, Seq<char>)| p.1) == lines.filter(
            |l: Seq<char>| line_matches(l, query, ignore_case),
        ),
    decreases lines.len(),
{
    let pp = |p: (int, Seq<char>)| line_matches(p.1, query, ignore_case);
    let lp = |l: Seq<char>| line_matches(l, query, ignore_case);
    let snd = |p: (int, Seq<char>)| p.1;
    if lines.len() == 0 {
        numbered_of(lines).lemma_filter_len(pp);
        lines.lemma_filter_len(lp);
        assert(numbered_of(lines).filter(pp).map_values(snd) =~= lines.filter(lp));
    } else {
        let rest = lines.drop_last();
        let last = lines.last();
        lemma_numbered_filter_snd(rest, query, ignore_case);
        assert(numbered_of(lines) =~= numbered_of(rest).push((lines.len() as int, last)));
        numbered_of(rest).lemma_filter_push((lines.len() as int, last), pp);
        rest.lemma_filter_push(last, lp);
        assert(rest.push(last) =~= lines);
        if pp((lines.len() as int, last)) {
            assert(numbered_of(lines).filter(pp).map_values(snd) =~= numbered_of(rest).filter(
                pp,
            ).map_values(snd).push(last));
            assert(lines.filter(lp) =~= rest.filter(lp).push(last));
        } else {
            assert(numbered_of(lines).filter(pp) == numbered_of(rest).filter(pp));
            assert(lines.filter(lp) == rest.filter(lp));
        }
    }
}

/// The search result is exactly the subsequence of the text's lines that
/// match the query: every returned line contains the query under the active
/// case mode, every such line is returned exactly once, and their order is
/// the order of the lines in the text.
pub proof fn lemma_search_is_filtered_lines(query: Seq<char>, text: Seq<char>, ignore_case: bool)
    ensures
        spec_search(query, text, ignore_case) == spec_lines(text).filter(
            |l: Seq<char>| line_matches(l, query, ignore_case),
        ),
{
    assert(numbered_lines(text) =~= numbered_of(spec_lines(text)));
    lemma_numbered_filter_snd(spec_lines(text), query, ignore_case);
}

/// A case-insensitive search returns a superset of the case-sensitive search
/// for the same query and text: every line that contains the query literally
/// also contains it up to lowercase folding.
pub proof fn lemma_insensitive_superset(query: Seq<char>, text: Seq<char>)
    ensures
        forall|l: Seq<char>|
            #[trigger] spec_search(query, text, false).contains(l) ==> spec_search(
                query,
                text,
                true,
            ).contains(l),
{
    let lp_s = |l: Seq<char>| line_matches(l, query, false);
    let lp_i = |l: Seq<char>| line_matches(l, query, true);
    let lines = spec_lines(text);
    lemma_search_is_filtered_lines(query, text, false);
    lemma_search_is_filtered_lines(query, text, true);
    assert forall|l: Seq<char>| #[trigger]
        spec_search(query, text, false).contains(l) implies spec_search(
        query,
        text,
        true,
    ).contains(l) by {
        lines.lemma_filter_contains_rev(lp_s, l);
        let j = choose|j: int|
            0 <= j < lines.filter(lp_s).len() && lines.filter(lp_s)[j] == l;
        lines.lemma_filter_pred(lp_s, j);
        lemma_fold_preserves_match(l, query);
        let k = choose|k: int| 0 <= k < lines.len() && lines[k] == l;
        lines.lemma_filter_contains(lp_i, k);
    }
}

/// An empty text has no lines, so a search over it returns nothing, whatever
/// the query and case mode.
pub proof fn lemma_search_empty_text(query: Seq<char>, ignore_case: bool)
    ensures
        spec_matches(query, Seq::<char>::empty(), ignore_case) == Seq::<(int, Seq<char>)>::empty(),
        spec_search(query, Seq::<char>::empty(), ignore_case) == Seq::<Seq<char>>::empty(),
{
    let pp = |p: (int, Seq<char>)| line_matches(p.1, query, ignore_case);
    assert(spec_lines(Seq::<char>::empty()).len() == 0);
    assert(numbered_lines(Seq::<char>::empty()) =~= Seq::<(int, Seq<char>)>::empty());
    numbered_lines(Seq::<char>::empty()).lemma_filter_len(pp);
    assert(spec_matches(query, Seq::<char>::empty(), ignore_case) =~= Seq::<
        (int, Seq<char>),
    >::empty());
    assert(spec_search(query, Seq::<char>::empty(), ignore_case) =~= Seq::<Seq<char>>::empty());
}

} // verus!
