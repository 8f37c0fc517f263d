//! Line search: the lines of a text that contain a query string, with an
//! optional case-insensitive mode, and the configuration that selects
//! between the two.
//!
//! The specification side models a text as its sequence of characters.
//! [`line_seqs`] splits it into lines exactly as an iterator over lines
//! does: lines end at a newline, a carriage return standing immediately
//! before a newline is not part of the line, and a final line without a
//! trailing newline still counts (but an empty trailing fragment does not).
//! [`contains_seq`] is plain substring occurrence, and [`lower_of`] names
//! the Unicode lowercasing that the case-insensitive mode folds with.

use vstd::prelude::*;
use vstd::string::StrSliceExecFns;

verus! {

/// A line with the carriage return of a `\r\n` ending removed.
pub open spec fn strip_cr(l: Seq<char>) -> Seq<char> {
    if l.len() > 0 && l[l.len() - 1] == '\r' {
        l.drop_last()
    } else {
        l
    }
}

/// The lines of `text` when `cur` has already been read as the beginning of
/// the current line: a newline ends the current line, the end of the text
/// ends it too unless it is empty there.
pub open spec fn lines_from(text: Seq<char>, cur: Seq<char>) -> Seq<Seq<char>>
    decreases text.len(),
{
    if text.len() == 0 {
        if cur.len() == 0 {
            Seq::empty()
        } else {
            seq![cur]
        }
    } else if text[0] == '\n' {
        seq![strip_cr(cur)] + lines_from(text.drop_first(), Seq::empty())
    } else {
        lines_from(text.drop_first(), cur.push(text[0]))
    }
}

/// The lines of `text`.
pub open spec fn line_seqs(text: Seq<char>) -> Seq<Seq<char>> {
    lines_from(text, Seq::empty())
}

/// `pat` occurs in `text` starting at position `i`.
pub open spec fn occurs_at(text: Seq<char>, pat: Seq<char>, i: int) -> bool {
    0 <= i && i + pat.len() <= text.len() && text.subrange(i, i + pat.len()) == pat
}

/// `pat` occurs somewhere in `text`; the empty pattern occurs everywhere.
pub open spec fn contains_seq(text: Seq<char>, pat: Seq<char>) -> bool {
    exists|i: int| occurs_at(text, pat, i)
}

/// The Unicode lowercasing of `s`. What it is on given characters is left
/// unstated here; it is a function of the characters alone, and the
/// case-insensitive search is specified entirely through it.
pub uninterp spec fn lower_of(s: Seq<char>) -> Seq<char>;

/// Whether a line is selected: by containing the pattern as it stands, or,
/// when folding, by containing it after lowercasing.
pub open spec fn line_hit(l: Seq<char>, pat: Seq<char>, fold: bool) -> bool {
    if fold {
        contains_seq(lower_of(l), pat)
    } else {
        contains_seq(l, pat)
    }
}

/// The lines among `lines` that [`line_hit`] selects, in order.
pub open spec fn selected_lines(lines: Seq<Seq<char>>, pat: Seq<char>, fold: bool) -> Seq<
    Seq<char>,
> {
    lines.filter(|l: Seq<char>| line_hit(l, pat, fold))
}

/// The character sequences of a sequence of strings.
pub open spec fn views_of(ls: Seq<String>) -> Seq<Seq<char>> {
    ls.map_values(|l: String| l@)
}

/// Relies on `str::to_lowercase`: the result depends on the characters of
/// `s` alone, and is the lowercasing that [`lower_of`] names.
#[verifier::external_body]
fn lowercase(s: &str) -> (r: String)
    ensures
        r@ == lower_of(s@),
{
    s.to_lowercase()
}

/// Whether `pat` occurs in `text` starting exactly at `i`.
fn matches_at(text: &str, pat: &str, i: usize) -> (r: bool)
    requires
        i + pat@.len() <= text@.len() <= usize::MAX,
    ensures
        r == occurs_at(text@, pat@, i as int),
{
    let m = pat.unicode_len();
    let mut j: usize = 0;
    while j < m
        invariant
            m == pat@.len(),
            i + m <= text@.len() <= usize::MAX,
            0 <= j <= m,
            forall|k: int| 0 <= k < j ==> text@[i + k] == pat@[k],
        decreases m - j,
    {
        if text.get_char(i + j) != pat.get_char(j) {
            proof {
                if text@.subrange(i as int, i + m) == pat@ {
                    assert(text@.subrange(i as int, i + m)[j as int] == pat@[j as int]);
                }
            }
            return false;
        }
        j += 1;
    }
    proof {
        assert(text@.subrange(i as int, i + m) =~= pat@);
    }
    true
}

/// Whether `pat` occurs anywhere in `text`.
pub fn contains_str(text: &str, pat: &str) -> (r: bool)
    ensures
        r == contains_seq(text@, pat@),
{
    let n = text.unicode_len();
    let m = pat.unicode_len();
    if m == 0 {
        proof {
            assert(text@.subrange(0, 0) =~= pat@);
            assert(occurs_at(text@, pat@, 0));
        }
        return true;
    }
    if m > n {
        proof {
            if contains_seq(text@, pat@) {
                let i = choose|i: int| occurs_at(text@, pat@, i);
            }
        }
        return false;
    }
    let mut i: usize = 0;
    while i <= n - m
        invariant
            n == text@.len() <= usize::MAX,
            m == pat@.len(),
            1 <= m <= n,
            0 <= i <= n - m + 1,
            forall|k: int| 0 <= k < i ==> !occurs_at(text@, pat@, k),
        decreases n - m + 1 - i,
    {
        if matches_at(text, pat, i) {
            return true;
        }
        i += 1;
    }
    proof {
        if contains_seq(text@, pat@) {
            let k = choose|k: int| occurs_at(text@, pat@, k);
            assert(!occurs_at(text@, pat@, k));
        }
    }
    false
}

/// Reading a prefix free of newlines leaves the line split of the rest,
/// with the prefix moved onto the current line.
proof fn lemma_lines_scan(text: Seq<char>, cur: Seq<char>, k: int)
    requires
        0 <= k <= text.len(),
        forall|j: int| 0 <= j < k ==> text[j] != '\n',
    ensures
        lines_from(text, cur) == lines_from(
            text.subrange(k, text.len() as int),
            cur + text.subrange(0, k),
        ),
    decreases k,
{
    if k == 0 {
        assert(text.subrange(0, text.len() as int) =~= text);
        assert(cur + text.subrange(0, 0) =~= cur);
    } else {
        lemma_lines_scan(text.drop_first(), cur.push(text[0]), k - 1);
        assert(text.drop_first().subrange(k - 1, text.drop_first().len() as int) =~= text.subrange(
            k,
            text.len() as int,
        ));
        assert(cur.push(text[0]) + text.drop_first().subrange(0, k - 1) =~= cur + text.subrange(
            0,
            k,
        ));
    }
}

/// Filtering one more line appends it exactly when it is selected.
proof fn lemma_selected_push(lines: Seq<Seq<char>>, l: Seq<char>, pat: Seq<char>, fold: bool)
    ensures
        selected_lines(lines.push(l), pat, fold) == if line_hit(l, pat, fold) {
            selected_lines(lines, pat, fold).push(l)
        } else {
            selected_lines(lines, pat, fold)
        },
{
    reveal(Seq::filter);
    assert(lines.push(l).drop_last() =~= lines);
    assert(lines.push(l).last() == l);
}

/// The shared scan: split `contents` into lines and keep those that
/// [`line_hit`] selects with pattern `pat`, folding case when `fold` says so.
fn search_lines(pat: &str, contents: &str, fold: bool) -> (results: Vec<String>)
    ensures
        views_of(results@) == selected_lines(line_seqs(contents@), pat@, fold),
{
    let n = contents.unicode_len();
    let mut results: Vec<String> = Vec::new();
    let ghost mut done: Seq<Seq<char>> = Seq::empty();
    let mut start: usize = 0;
    let mut i: usize = 0;
    proof {
        reveal(Seq::filter);
        assert(contents@.subrange(0, n as int) =~= contents@);
        assert(views_of(results@) =~= selected_lines(done, pat@, fold));
    }
    while i < n
        invariant
            n == contents@.len() <= usize::MAX,
            0 <= start <= i <= n,
            forall|j: int| start <= j < i ==> contents@[j] != '\n',
            line_seqs(contents@) == done + lines_from(
                contents@.subrange(start as int, n as int),
                Seq::empty(),
            ),
            views_of(results@) == selected_lines(done, pat@, fold),
        decreases n - i,
    {
        if contents.get_char(i) == '\n' {
            let mut end = i;
            if end > start && contents.get_char(end - 1) == '\r' {
                end = end - 1;
            }
            let line = contents.substring_char(start, end);
            proof {
                let seg = contents@.subrange(start as int, n as int);
                let cur = contents@.subrange(start as int, i as int);
                lemma_lines_scan(seg, Seq::empty(), i - start);
                assert(seg.subrange(i - start, seg.len() as int) =~= contents@.subrange(
                    i as int,
                    n as int,
                ));
                assert(Seq::empty() + seg.subrange(0, i - start) =~= cur);
                let rest = contents@.subrange(i as int, n as int);
                assert(rest[0] == '\n');
                assert(rest.drop_first() =~= contents@.subrange(i + 1, n as int));
                assert(lines_from(seg, Seq::empty()) == seq![strip_cr(cur)] + lines_from(
                    contents@.subrange(i + 1, n as int),
                    Seq::empty(),
                ));
                if i > start && contents@[i - 1] == '\r' {
                    assert(cur[cur.len() - 1] == '\r');
                    assert(strip_cr(cur) =~= contents@.subrange(start as int, i - 1));
                } else {
                    assert(strip_cr(cur) =~= cur);
                }
                assert(line@ == strip_cr(cur));
                assert(done + (seq![line@] + lines_from(
                    contents@.subrange(i + 1, n as int),
                    Seq::empty(),
                )) =~= done.push(line@) + lines_from(
                    contents@.subrange(i + 1, n as int),
                    Seq::empty(),
                ));
                lemma_selected_push(done, line@, pat@, fold);
            }
            let hit = if fold {
                let folded = lowercase(line);
                contains_str(folded.as_str(), pat)
            } else {
                contains_str(line, pat)
            };
            if hit {
                let kept = line.to_owned();
                proof {
                    assert(views_of(results@.push(kept)) =~= views_of(results@).push(kept@));
                }
                results.push(kept);
            }
            proof {
                done = done.push(line@);
            }
            start = i + 1;
        }
        i += 1;
    }
    if start < n {
        let line = contents.substring_char(start, n);
        proof {
            let seg = contents@.subrange(start as int, n as int);
            lemma_lines_scan(seg, Seq::empty(), seg.len() as int);
            assert(seg.subrange(seg.len() as int, seg.len() as int) =~= Seq::<char>::empty());
            assert(Seq::empty() + seg.subrange(0, seg.len() as int) =~= seg);
            assert(lines_from(seg, Seq::empty()) == seq![seg]);
            assert(done + seq![line@] =~= done.push(line@));
            lemma_selected_push(done, line@, pat@, fold);
        }
        let hit = if fold {
            let folded = lowercase(line);
            contains_str(folded.as_str(), pat)
        } else {
            contains_str(line, pat)
        };
        if hit {
            let kept = line.to_owned();
            proof {
                assert(views_of(results@.push(kept)) =~= views_of(results@).push(kept@));
            }
            results.push(kept);
        }
        proof {
            done = done.push(line@);
        }
    } else {
        proof {
            assert(contents@.subrange(start as int, n as int) =~= Seq::<char>::empty());
            assert(done + lines_from(Seq::<char>::empty(), Seq::<char>::empty()) =~= done);
        }
    }
    results
}

/// The lines of `contents` that contain `query`.
pub fn search(query: &str, contents: &str) -> (results: Vec<String>)
    ensures
        views_of(results@) == selected_lines(line_seqs(contents@), query@, false),
{
    search_lines(query, contents, false)
}

/// The lines of `contents` that contain `query` up to case: both the line
/// and the query are lowercased before the containment test, and the line
/// is returned as it stands in `contents`.
pub fn search_case_insensitive(query: &str, contents: &str) -> (results: Vec<String>)
    ensures
        views_of(results@) == selected_lines(line_seqs(contents@), lower_of(query@), true),
{
    let folded_query = lowercase(query);
    search_lines(folded_query.as_str(), contents, true)
}

/// What a run needs: the query, the file to search, and whether case is
/// folded.
pub struct Config {
    pub query: String,
    pub file_path: String,
    pub ignore_case: bool,
}

impl Config {
    /// Builds a configuration from the command-line arguments (the first is
    /// the program name, then the query, then the file path) and the
    /// case-insensitivity switch read from the environment. Fewer than
    /// three arguments is a caller error, ruled out up front.
    pub fn build(args: &[String], ignore_case: bool) -> (c: Result<Config, &'static str>)
        requires
            args@.len() >= 3,
        ensures
            c matches Ok(cfg) && cfg.query == args@[1] && cfg.file_path == args@[2]
                && cfg.ignore_case == ignore_case,
    {
        let query = args[1].clone();
        let file_path = args[2].clone();
        Ok(Config { query, file_path, ignore_case })
    }
}

/// The compute part of a run: the lines of `contents` that the
/// configuration selects, case folded or not as it says.
pub fn run_search(config: &Config, contents: &str) -> (results: Vec<String>)
    ensures
        views_of(results@) == if config.ignore_case {
            selected_lines(line_seqs(contents@), lower_of(config.query@), true)
        } else {
            selected_lines(line_seqs(contents@), config.query@, false)
        },
{
    if config.ignore_case {
        search_case_insensitive(config.query.as_str(), contents)
    } else {
        search(config.query.as_str(), contents)
    }
}

} // verus!

