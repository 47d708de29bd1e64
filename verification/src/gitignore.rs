//! The ignore-file synchronizer.
//!
//! A marker-delimited block of the ignore file is owned by this crate
//! and regenerated wholesale on every run; every line outside the block
//! is preserved verbatim, in its original order.  The synchronizer here
//! is pure: it maps the existing lines and the configuration to the new
//! lines (or to nothing, when the file need not change), and the caller
//! reads and atomically rewrites the actual file.

use vstd::prelude::*;

use crate::config::{Config, Entry};
use crate::ops::strings_view;
use crate::paths::{diff_of, relative_path, spec_parent, parent_of};

verus! {

/// Why the ignore file could not be synchronized.
#[derive(Debug, Clone, PartialEq)]
pub enum GitignoreError {
    /// The ignore file's path has no parent directory.
    NoParent(String),
    /// No relative path leads from the ignore file's directory to an
    /// entry's source.
    NoRelativePath(String, String),
}

/// The mathematical value of a [`GitignoreError`].
pub enum GitignoreErrorView {
    NoParent(Seq<char>),
    NoRelativePath(Seq<char>, Seq<char>),
}

impl View for GitignoreError {
    type V = GitignoreErrorView;

    open spec fn view(&self) -> GitignoreErrorView {
        match self {
            GitignoreError::NoParent(p) => GitignoreErrorView::NoParent(p@),
            GitignoreError::NoRelativePath(f, d) => GitignoreErrorView::NoRelativePath(f@, d@),
        }
    }
}

/// The line that opens the managed block.
pub open spec fn spec_start_marker() -> Seq<char> {
    "# lkdots start"@
}

/// The line that closes the managed block.
pub open spec fn spec_end_marker() -> Seq<char> {
    "# lkdots end"@
}

fn start_marker() -> (r: String)
    ensures
        r@ == spec_start_marker(),
{
    String::from_str("# lkdots start")
}

fn end_marker() -> (r: String)
    ensures
        r@ == spec_end_marker(),
{
    String::from_str("# lkdots end")
}

/// The blank characters that marker detection ignores at a line's
/// ends: the characters with the Unicode `White_Space` property, the
/// same set `str::trim` removes.
pub open spec fn spec_is_space(c: char) -> bool {
    ||| c == ' '
    ||| c == '\t'
    ||| c == '\n'
    ||| c == '\u{b}'
    ||| c == '\u{c}'
    ||| c == '\r'
    ||| c == '\u{85}'
    ||| c == '\u{a0}'
    ||| c == '\u{1680}'
    ||| c == '\u{2000}'
    ||| c == '\u{2001}'
    ||| c == '\u{2002}'
    ||| c == '\u{2003}'
    ||| c == '\u{2004}'
    ||| c == '\u{2005}'
    ||| c == '\u{2006}'
    ||| c == '\u{2007}'
    ||| c == '\u{2008}'
    ||| c == '\u{2009}'
    ||| c == '\u{200a}'
    ||| c == '\u{2028}'
    ||| c == '\u{2029}'
    ||| c == '\u{202f}'
    ||| c == '\u{205f}'
    ||| c == '\u{3000}'
}

fn is_space_char(c: char) -> (r: bool)
    ensures
        r == spec_is_space(c),
{
    c == ' ' || c == '\t' || c == '\n' || c == '\u{b}' || c == '\u{c}' || c == '\r'
        || c == '\u{85}' || c == '\u{a0}' || c == '\u{1680}' || c == '\u{2000}'
        || c == '\u{2001}' || c == '\u{2002}' || c == '\u{2003}' || c == '\u{2004}'
        || c == '\u{2005}' || c == '\u{2006}' || c == '\u{2007}' || c == '\u{2008}'
        || c == '\u{2009}' || c == '\u{200a}' || c == '\u{2028}' || c == '\u{2029}'
        || c == '\u{202f}' || c == '\u{205f}' || c == '\u{3000}'
}

/// `s` without its leading blank characters.
pub open spec fn spec_trim_front(s: Seq<char>) -> Seq<char>
    decreases s.len(),
{
    if s.len() > 0 && spec_is_space(s[0]) {
        spec_trim_front(s.drop_first())
    } else {
        s
    }
}

/// `s` without its trailing blank characters.
pub open spec fn spec_trim_back(s: Seq<char>) -> Seq<char>
    decreases s.len(),
{
    if s.len() > 0 && spec_is_space(s.last()) {
        spec_trim_back(s.drop_last())
    } else {
        s
    }
}

/// `s` without blank characters at either end.
pub open spec fn spec_trim(s: Seq<char>) -> Seq<char> {
    spec_trim_back(spec_trim_front(s))
}

proof fn lemma_trim_front_skip(s: Seq<char>, a: int)
    requires
        0 <= a <= s.len(),
        forall|k: int| 0 <= k < a ==> spec_is_space(s[k]),
        a < s.len() ==> !spec_is_space(s[a]),
    ensures
        spec_trim_front(s) == s.skip(a),
    decreases a,
{
    if a == 0 {
        assert(s.skip(0) =~= s);
    } else {
        assert(spec_is_space(s[0]));
        assert forall|k: int| 0 <= k < a - 1 implies spec_is_space(s.drop_first()[k]) by {
            assert(s.drop_first()[k] == s[k + 1]);
        }
        lemma_trim_front_skip(s.drop_first(), a - 1);
        assert(s.drop_first().skip(a - 1) =~= s.skip(a));
    }
}

proof fn lemma_trim_back_take(s: Seq<char>, b: int)
    requires
        0 <= b <= s.len(),
        forall|k: int| b <= k < s.len() ==> spec_is_space(s[k]),
        b > 0 ==> !spec_is_space(s[b - 1]),
    ensures
        spec_trim_back(s) == s.take(b),
    decreases s.len() - b,
{
    if b == s.len() {
        assert(s.take(b) =~= s);
    } else {
        assert(spec_is_space(s.last()));
        lemma_trim_back_take(s.drop_last(), b);
        assert(s.drop_last().take(b) =~= s.take(b));
    }
}

/// Trims blank characters from both ends of a line.
fn trim_str(s: &String) -> (r: String)
    ensures
        r@ == spec_trim(s@),
{
    let n = s.as_str().unicode_len();
    let mut a: usize = 0;
    while a < n && is_space_char(s.as_str().get_char(a))
        invariant
            a <= n,
            n == s@.len(),
            forall|k: int| 0 <= k < a ==> spec_is_space(s@[k]),
        decreases n - a,
    {
        a = a + 1;
    }
    proof {
        lemma_trim_front_skip(s@, a as int);
    }
    let mut b: usize = n;
    while b > a && is_space_char(s.as_str().get_char(b - 1))
        invariant
            a <= b <= n,
            n == s@.len(),
            forall|k: int| b <= k < n ==> spec_is_space(s@[k]),
        decreases b,
    {
        b = b - 1;
    }
    let r = s.as_str().substring_char(a, b).to_owned();
    proof {
        let front = s@.skip(a as int);
        assert forall|k: int| b - a <= k < front.len() implies spec_is_space(front[k]) by {
            assert(front[k] == s@[k + a]);
        }
        if b > a {
            assert(!spec_is_space(front[b - a - 1]));
        }
        lemma_trim_back_take(front, b - a);
        assert(r@ =~= front.take(b - a));
    }
    r
}

/// What splitting a file's lines at the managed block's markers found,
/// from some position on: the lines outside the block, and whether each
/// marker was seen.
pub struct SplitView {
    pub outside: Seq<String>,
    pub saw_start: bool,
    pub saw_end: bool,
}

/// Splits the lines from position `i` on, `in_sec` saying whether the
/// position lies inside the managed block.  Marker lines are dropped
/// (they are regenerated), lines inside the block are discarded, and
/// every other line is kept in order.
pub open spec fn spec_split_from(lines: Seq<String>, i: int, in_sec: bool) -> SplitView
    decreases lines.len() - i,
{
    if i < 0 || i >= lines.len() {
        SplitView { outside: Seq::empty(), saw_start: false, saw_end: false }
    } else if spec_trim(lines[i]@) == spec_start_marker() {
        let rest = spec_split_from(lines, i + 1, true);
        SplitView { outside: rest.outside, saw_start: true, saw_end: rest.saw_end }
    } else if spec_trim(lines[i]@) == spec_end_marker() {
        let rest = spec_split_from(lines, i + 1, false);
        SplitView { outside: rest.outside, saw_start: rest.saw_start, saw_end: true }
    } else if !in_sec {
        let rest = spec_split_from(lines, i + 1, in_sec);
        SplitView {
            outside: seq![lines[i]] + rest.outside,
            saw_start: rest.saw_start,
            saw_end: rest.saw_end,
        }
    } else {
        spec_split_from(lines, i + 1, in_sec)
    }
}

/// Splits a file's lines at the managed block's markers.
pub open spec fn spec_split(lines: Seq<String>) -> SplitView {
    spec_split_from(lines, 0, false)
}

/// Splits the lines of the existing ignore file: returns the lines
/// outside the managed block, in order, and whether a start and an end
/// marker were present.
#[verifier::loop_isolation(false)]
fn split_lines(lines: &Vec<String>) -> (r: (Vec<String>, bool, bool))
    ensures
        spec_split(lines@) == (SplitView {
            outside: r.0@,
            saw_start: r.1,
            saw_end: r.2,
        }),
{
    let start = start_marker();
    let end = end_marker();
    let mut outside: Vec<String> = Vec::new();
    let mut saw_start = false;
    let mut saw_end = false;
    let mut in_sec = false;
    let n = lines.len();
    let mut i: usize = 0;
    proof {
        let whole = spec_split(lines@);
        assert(Seq::<String>::empty() + whole.outside =~= whole.outside);
    }
    while i < n
        invariant
            i <= n,
            spec_split(lines@) == (SplitView {
                outside: outside@ + spec_split_from(lines@, i as int, in_sec).outside,
                saw_start: saw_start || spec_split_from(lines@, i as int, in_sec).saw_start,
                saw_end: saw_end || spec_split_from(lines@, i as int, in_sec).saw_end,
            }),
        decreases n - i,
    {
        let t = trim_str(&lines[i]);
        let ghost pre = outside@;
        let ghost rest = spec_split_from(lines@, i + 1, in_sec);
        if t.eq(&start) {
            saw_start = true;
            in_sec = true;
        } else if t.eq(&end) {
            saw_end = true;
            in_sec = false;
        } else if !in_sec {
            outside.push(lines[i].clone());
            proof {
                assert(outside@ =~= pre + seq![lines@[i as int]]);
                assert(pre + (seq![lines@[i as int]] + rest.outside) =~= (pre + seq![
                    lines@[i as int],
                ]) + rest.outside);
            }
        }
        i = i + 1;
    }
    proof {
        assert(spec_split_from(lines@, n as int, in_sec).outside =~= Seq::<String>::empty());
        assert(outside@ + Seq::<String>::empty() =~= outside@);
    }
    (outside, saw_start, saw_end)
}

/// An encrypting entry's first pattern: ignore everything under the
/// entry's source, relative to the ignore file's directory.
pub open spec fn spec_pattern_ignore(rel: Seq<char>) -> Seq<char> {
    rel + "/*"@
}

/// An encrypting entry's second pattern: re-admit the ciphertext files.
pub open spec fn spec_pattern_readmit(rel: Seq<char>) -> Seq<char> {
    "!"@ + rel + "/*.enc"@
}

fn pattern_ignore(rel: &String) -> (r: String)
    ensures
        r@ == spec_pattern_ignore(rel@),
{
    let mut r = rel.clone();
    r.append("/*");
    proof {
        assert(r@ =~= spec_pattern_ignore(rel@));
    }
    r
}

fn pattern_readmit(rel: &String) -> (r: String)
    ensures
        r@ == spec_pattern_readmit(rel@),
{
    let mut r = String::from_str("!");
    r.append(rel.as_str());
    r.append("/*.enc");
    proof {
        assert(r@ =~= spec_pattern_readmit(rel@));
    }
    r
}

/// Whether some line among `lines` reads exactly `s`.
pub open spec fn seq_contains_str(lines: Seq<String>, s: Seq<char>) -> bool {
    exists|k: int| 0 <= k < lines.len() && lines[k]@ == s
}

fn contains_line(lines: &Vec<String>, s: &String) -> (r: bool)
    ensures
        r == seq_contains_str(lines@, s@),
{
    let n = lines.len();
    let mut i: usize = 0;
    while i < n
        invariant
            i <= n,
            n == lines@.len(),
            forall|k: int| 0 <= k < i ==> lines@[k]@ != s@,
        decreases n - i,
    {
        if lines[i].eq(s) {
            return true;
        }
        i = i + 1;
    }
    false
}

/// The patterns the managed block gains from the entries from index `i`
/// on: for every encrypting entry, its ignore pattern then its re-admit
/// pattern, each kept only when no line outside the block already reads
/// it.  An entry whose source has no relative path from the ignore
/// file's directory aborts the synchronization.
pub open spec fn spec_new_entries(
    entries: Seq<Entry>,
    dir: Seq<char>,
    outside: Seq<String>,
    i: int,
) -> Result<Seq<Seq<char>>, GitignoreErrorView>
    decreases entries.len() - i,
{
    if i < 0 || i >= entries.len() {
        Ok(Seq::empty())
    } else if !entries[i].encrypt {
        spec_new_entries(entries, dir, outside, i + 1)
    } else {
        match diff_of(entries[i].from@, dir) {
            None => Err(GitignoreErrorView::NoRelativePath(entries[i].from@, dir)),
            Some(rel) => match spec_new_entries(entries, dir, outside, i + 1) {
                Err(e) => Err(e),
                Ok(rest) => {
                    let first = if seq_contains_str(outside, spec_pattern_ignore(rel)) {
                        Seq::<Seq<char>>::empty()
                    } else {
                        seq![spec_pattern_ignore(rel)]
                    };
                    let second = if seq_contains_str(outside, spec_pattern_readmit(rel)) {
                        Seq::<Seq<char>>::empty()
                    } else {
                        seq![spec_pattern_readmit(rel)]
                    };
                    Ok(first + second + rest)
                },
            },
        }
    }
}

/// `r` with `acc` prepended to its patterns when it succeeded.
pub open spec fn patterns_prepend(
    acc: Seq<Seq<char>>,
    r: Result<Seq<Seq<char>>, GitignoreErrorView>,
) -> Result<Seq<Seq<char>>, GitignoreErrorView> {
    match r {
        Ok(s) => Ok(acc + s),
        Err(e) => Err(e),
    }
}

/// Computes the patterns to write inside the managed block.
#[verifier::loop_isolation(false)]
fn build_new_entries(entries: &Vec<Entry>, dir: &String, outside: &Vec<String>) -> (r: Result<
    Vec<String>,
    GitignoreError,
>)
    ensures
        match spec_new_entries(entries@, dir@, outside@, 0) {
            Ok(pats) => r is Ok && strings_view(r->Ok_0@) == pats,
            Err(e) => r is Err && r->Err_0@ == e,
        },
{
    let mut out: Vec<String> = Vec::new();
    let n = entries.len();
    let mut i: usize = 0;
    proof {
        assert(strings_view(out@) =~= Seq::<Seq<char>>::empty());
        match spec_new_entries(entries@, dir@, outside@, 0) {
            Ok(p) => {
                assert(Seq::<Seq<char>>::empty() + p =~= p);
            },
            Err(_) => {},
        }
    }
    while i < n
        invariant
            i <= n,
            spec_new_entries(entries@, dir@, outside@, 0) == patterns_prepend(
                strings_view(out@),
                spec_new_entries(entries@, dir@, outside@, i as int),
            ),
        decreases n - i,
    {
        if entries[i].encrypt {
            let rel = match relative_path(&entries[i].from, dir) {
                Ok(d) => d,
                Err(_) => {
                    return Err(
                        GitignoreError::NoRelativePath(entries[i].from.clone(), dir.clone()),
                    );
                },
            };
            let ghost pre = strings_view(out@);
            let ghost first = (if seq_contains_str(outside@, spec_pattern_ignore(rel@)) {
                Seq::<Seq<char>>::empty()
            } else {
                seq![spec_pattern_ignore(rel@)]
            });
            let ghost second = (if seq_contains_str(outside@, spec_pattern_readmit(rel@)) {
                Seq::<Seq<char>>::empty()
            } else {
                seq![spec_pattern_readmit(rel@)]
            });
            let ignore_pat = pattern_ignore(&rel);
            if !contains_line(outside, &ignore_pat) {
                out.push(ignore_pat);
            }
            let readmit_pat = pattern_readmit(&rel);
            if !contains_line(outside, &readmit_pat) {
                out.push(readmit_pat);
            }
            proof {
                assert(strings_view(out@) =~= pre + first + second);
                match spec_new_entries(entries@, dir@, outside@, i + 1) {
                    Ok(rest) => {
                        assert(pre + (first + second + rest) =~= (pre + first + second) + rest);
                    },
                    Err(_) => {},
                }
            }
        }
        i = i + 1;
    }
    proof {
        assert(strings_view(out@) + Seq::<Seq<char>>::empty() =~= strings_view(out@));
    }
    Ok(out)
}

/// The outcome of one synchronizer run that has something to write.
#[derive(Debug, Clone, PartialEq)]
pub struct GitignoreOutput {
    /// Every line of the regenerated ignore file, in order: the lines
    /// outside the managed block, verbatim, then the regenerated block.
    pub lines: Vec<String>,
    /// The patterns newly written inside the managed block.
    pub new_entries: Vec<String>,
    /// Whether the old content had a block start marker.
    pub had_start: bool,
    /// Whether the old content had a block end marker.
    pub had_end: bool,
}

/// The lines of the existing ignore file, an absent file reading as
/// empty.
pub open spec fn spec_existing(existing: Option<&Vec<String>>) -> Seq<String> {
    match existing {
        Some(v) => v@,
        None => Seq::empty(),
    }
}

/// What synchronizing `lines` against the entries yields: nothing to
/// write, the new file's lines, or an error.
pub open spec fn spec_sync_result(
    entries: Seq<Entry>,
    gitignore: Seq<char>,
    lines: Seq<String>,
) -> Result<Option<Seq<Seq<char>>>, GitignoreErrorView> {
    match spec_parent(gitignore) {
        None => Err(GitignoreErrorView::NoParent(gitignore)),
        Some(dir) => {
            let split = spec_split(lines);
            match spec_new_entries(entries, dir, split.outside, 0) {
                Err(e) => Err(e),
                Ok(new) => if new.len() == 0 && !split.saw_start {
                    Ok(None)
                } else {
                    Ok(
                        Some(
                            strings_view(split.outside) + seq![spec_start_marker()] + new + seq![
                                spec_end_marker(),
                            ],
                        ),
                    )
                },
            }
        },
    }
}

/// Synchronizes the ignore file's content with the configuration.
///
/// `existing` holds the current file's lines, or nothing when the file
/// does not exist; entry sources and the ignore path are taken as
/// already expanded.  Returns `Ok(None)` when there is nothing new to
/// write and no managed block exists — the file is then left untouched —
/// and otherwise the full new content: every line outside the managed
/// block preserved verbatim and in order, then the regenerated block.
#[verifier::loop_isolation(false)]
pub fn write_gitignore(cfg: &Config, existing: Option<&Vec<String>>) -> (r: Result<
    Option<GitignoreOutput>,
    GitignoreError,
>)
    ensures
        match spec_sync_result(cfg.entries@, cfg.gitignore@, spec_existing(existing)) {
            Err(e) => r is Err && r->Err_0@ == e,
            Ok(None) => r is Ok && r->Ok_0 is None,
            Ok(Some(content)) => r is Ok && r->Ok_0 is Some && ({
                let out = r->Ok_0->0;
                let split = spec_split(spec_existing(existing));
                &&& strings_view(out.lines@) == content
                &&& Ok::<Seq<Seq<char>>, GitignoreErrorView>(strings_view(out.new_entries@))
                    == spec_new_entries(
                    cfg.entries@,
                    spec_parent(cfg.gitignore@)->0,
                    split.outside,
                    0,
                )
                &&& out.had_start == split.saw_start
                &&& out.had_end == split.saw_end
            }),
        },
{
    let dir = match parent_of(&cfg.gitignore) {
        Some(d) => d,
        None => {
            return Err(GitignoreError::NoParent(cfg.gitignore.clone()));
        },
    };
    let empty_lines: Vec<String> = Vec::new();
    let lines_ref: &Vec<String> = match existing {
        Some(v) => v,
        None => &empty_lines,
    };
    proof {
        assert(lines_ref@ =~= spec_existing(existing));
    }
    let (outside, saw_start, saw_end) = split_lines(lines_ref);
    let new_entries = match build_new_entries(&cfg.entries, &dir, &outside) {
        Ok(v) => v,
        Err(e) => {
            return Err(e);
        },
    };
    if new_entries.len() == 0 && !saw_start {
        return Ok(None);
    }
    let ghost outside0 = outside@;
    let ghost new0 = strings_view(new_entries@);
    let mut lines_out = outside;
    lines_out.push(start_marker());
    let ghost base = lines_out@;
    let m = new_entries.len();
    let mut j: usize = 0;
    while j < m
        invariant
            j <= m,
            m == new_entries@.len(),
            lines_out@ == base + new_entries@.take(j as int),
        decreases m - j,
    {
        lines_out.push(new_entries[j].clone());
        proof {
            assert(lines_out@ =~= base + new_entries@.take(j + 1));
        }
        j = j + 1;
    }
    lines_out.push(end_marker());
    proof {
        assert(new_entries@.take(m as int) =~= new_entries@);
        let content = strings_view(outside0) + seq![spec_start_marker()] + new0 + seq![
            spec_end_marker(),
        ];
        assert(strings_view(lines_out@) =~= content);
    }
    Ok(
        Some(
            GitignoreOutput {
                lines: lines_out,
                new_entries,
                had_start: saw_start,
                had_end: saw_end,
            },
        ),
    )
}

proof fn lemma_trim_id(s: Seq<char>)
    requires
        s.len() > 0,
        !spec_is_space(s[0]),
        !spec_is_space(s.last()),
    ensures
        spec_trim(s) == s,
{
    lemma_trim_front_skip(s, 0);
    assert(s.skip(0) =~= s);
    lemma_trim_back_take(s, s.len() as int);
    assert(s.take(s.len() as int) =~= s);
}

proof fn lemma_trim_front_last(s: Seq<char>)
    requires
        s.len() > 0,
        !spec_is_space(s.last()),
    ensures
        spec_trim_front(s).len() > 0,
        spec_trim_front(s).last() == s.last(),
    decreases s.len(),
{
    if spec_is_space(s[0]) {
        assert(s.drop_first().last() == s.last());
        lemma_trim_front_last(s.drop_first());
    }
}

proof fn lemma_trim_last(s: Seq<char>)
    requires
        s.len() > 0,
        !spec_is_space(s.last()),
    ensures
        spec_trim(s).len() > 0,
        spec_trim(s).last() == s.last(),
{
    lemma_trim_front_last(s);
}

proof fn lemma_marker_facts()
    ensures
        spec_trim(spec_start_marker()) == spec_start_marker(),
        spec_trim(spec_end_marker()) == spec_end_marker(),
        spec_start_marker().len() > 0,
        spec_start_marker().last() == 't',
        spec_end_marker().len() > 0,
        spec_end_marker().last() == 'd',
{
    reveal_strlit("# lkdots start");
    reveal_strlit("# lkdots end");
    lemma_trim_id(spec_start_marker());
    lemma_trim_id(spec_end_marker());
}

/// A line ending in `*` or `c` can never read as a marker line, whose
/// trimmed form ends in `t` or `d`.
proof fn lemma_pattern_not_marker(p: Seq<char>)
    requires
        p.len() > 0,
        p.last() == '*' || p.last() == 'c',
    ensures
        spec_trim(p) != spec_start_marker(),
        spec_trim(p) != spec_end_marker(),
{
    lemma_trim_last(p);
    lemma_marker_facts();
}

/// Every pattern the managed block gains ends in `*` or `c`.
proof fn lemma_new_entries_shape(entries: Seq<Entry>, dir: Seq<char>, outside: Seq<String>, i: int)
    ensures
        spec_new_entries(entries, dir, outside, i) matches Ok(new) ==> forall|k: int|
            0 <= k < new.len() ==> ((#[trigger] new[k]).len() > 0 && (new[k].last() == '*'
                || new[k].last() == 'c')),
    decreases entries.len() - i,
{
    reveal_strlit("/*");
    reveal_strlit("/*.enc");
    reveal_strlit("!");
    if 0 <= i < entries.len() {
        lemma_new_entries_shape(entries, dir, outside, i + 1);
    }
}

/// No line outside the managed block reads as a marker line.
proof fn lemma_split_outside_not_marker(lines: Seq<String>, i: int, in_sec: bool)
    ensures
        forall|k: int|
            0 <= k < spec_split_from(lines, i, in_sec).outside.len() ==> {
                let l = #[trigger] spec_split_from(lines, i, in_sec).outside[k];
                spec_trim(l@) != spec_start_marker() && spec_trim(l@) != spec_end_marker()
            },
    decreases lines.len() - i,
{
    if 0 <= i < lines.len() {
        let cur = spec_split_from(lines, i, in_sec);
        if spec_trim(lines[i]@) == spec_start_marker() {
            lemma_split_outside_not_marker(lines, i + 1, true);
            let rest = spec_split_from(lines, i + 1, true);
            assert forall|k: int| 0 <= k < cur.outside.len() implies {
                let l = #[trigger] cur.outside[k];
                spec_trim(l@) != spec_start_marker() && spec_trim(l@) != spec_end_marker()
            } by {
                assert(cur.outside[k] == rest.outside[k]);
            }
        } else if spec_trim(lines[i]@) == spec_end_marker() {
            lemma_split_outside_not_marker(lines, i + 1, false);
            let rest = spec_split_from(lines, i + 1, false);
            assert forall|k: int| 0 <= k < cur.outside.len() implies {
                let l = #[trigger] cur.outside[k];
                spec_trim(l@) != spec_start_marker() && spec_trim(l@) != spec_end_marker()
            } by {
                assert(cur.outside[k] == rest.outside[k]);
            }
        } else {
            lemma_split_outside_not_marker(lines, i + 1, in_sec);
            let rest = spec_split_from(lines, i + 1, in_sec);
            if !in_sec {
                assert(cur.outside == seq![lines[i]] + rest.outside);
                assert forall|k: int| 0 <= k < cur.outside.len() implies {
                    let l = #[trigger] cur.outside[k];
                    spec_trim(l@) != spec_start_marker() && spec_trim(l@) != spec_end_marker()
                } by {
                    if k == 0 {
                        assert(cur.outside[0] == lines[i]);
                    } else {
                        assert(cur.outside[k] == rest.outside[k - 1]);
                    }
                }
            } else {
                assert forall|k: int| 0 <= k < cur.outside.len() implies {
                    let l = #[trigger] cur.outside[k];
                    spec_trim(l@) != spec_start_marker() && spec_trim(l@) != spec_end_marker()
                } by {
                    assert(cur.outside[k] == rest.outside[k]);
                }
            }
        }
    }
}

proof fn lemma_split_block_tail(all: Seq<String>, a_len: int, n_len: int, j: int)
    requires
        all.len() == a_len + 1 + n_len + 1,
        0 <= a_len,
        0 <= n_len,
        a_len + 1 <= j <= a_len + 1 + n_len,
        spec_trim(all[a_len + 1 + n_len]@) == spec_end_marker(),
        forall|k: int|
            a_len + 1 <= k < a_len + 1 + n_len ==> (spec_trim((#[trigger] all[k])@)
                != spec_start_marker() && spec_trim(all[k]@) != spec_end_marker()),
    ensures
        spec_split_from(all, j, true) == (SplitView {
            outside: Seq::<String>::empty(),
            saw_start: false,
            saw_end: true,
        }),
    decreases all.len() - j,
{
    lemma_marker_facts();
    if j == a_len + 1 + n_len {
        assert(spec_split_from(all, j + 1, false) == (SplitView {
            outside: Seq::<String>::empty(),
            saw_start: false,
            saw_end: false,
        }));
    } else {
        lemma_split_block_tail(all, a_len, n_len, j + 1);
    }
}

proof fn lemma_split_block_head(all: Seq<String>, a_len: int, n_len: int, i: int)
    requires
        all.len() == a_len + 1 + n_len + 1,
        0 <= a_len,
        0 <= n_len,
        0 <= i <= a_len,
        spec_trim(all[a_len]@) == spec_start_marker(),
        spec_trim(all[a_len + 1 + n_len]@) == spec_end_marker(),
        forall|k: int|
            0 <= k < a_len ==> (spec_trim((#[trigger] all[k])@) != spec_start_marker() && spec_trim(
                all[k]@,
            ) != spec_end_marker()),
        forall|k: int|
            a_len + 1 <= k < a_len + 1 + n_len ==> (spec_trim((#[trigger] all[k])@)
                != spec_start_marker() && spec_trim(all[k]@) != spec_end_marker()),
    ensures
        spec_split_from(all, i, false) == (SplitView {
            outside: all.subrange(i, a_len),
            saw_start: true,
            saw_end: true,
        }),
    decreases a_len - i,
{
    lemma_marker_facts();
    if i == a_len {
        lemma_split_block_tail(all, a_len, n_len, a_len + 1);
        assert(all.subrange(a_len, a_len) =~= Seq::<String>::empty());
    } else {
        lemma_split_block_head(all, a_len, n_len, i + 1);
        assert(seq![all[i]] + all.subrange(i + 1, a_len) =~= all.subrange(i, a_len));
    }
}

/// The patterns depend on the outside lines only through what they
/// read, not on the line values themselves.
proof fn lemma_new_entries_views(
    entries: Seq<Entry>,
    dir: Seq<char>,
    o1: Seq<String>,
    o2: Seq<String>,
    i: int,
)
    requires
        strings_view(o1) == strings_view(o2),
    ensures
        spec_new_entries(entries, dir, o1, i) == spec_new_entries(entries, dir, o2, i),
    decreases entries.len() - i,
{
    assert(o1.len() == o2.len()) by {
        assert(strings_view(o1).len() == o1.len());
        assert(strings_view(o2).len() == o2.len());
    }
    assert forall|s: Seq<char>| seq_contains_str(o1, s) == seq_contains_str(o2, s) by {
        assert forall|k: int| 0 <= k < o1.len() implies o1[k]@ == o2[k]@ by {
            assert(strings_view(o1)[k] == o1[k]@);
            assert(strings_view(o2)[k] == o2[k]@);
        }
        if seq_contains_str(o1, s) {
            let k = choose|k: int| 0 <= k < o1.len() && o1[k]@ == s;
            assert(o2[k]@ == s);
        }
        if seq_contains_str(o2, s) {
            let k = choose|k: int| 0 <= k < o2.len() && o2[k]@ == s;
            assert(o1[k]@ == s);
        }
    }
    if 0 <= i < entries.len() {
        lemma_new_entries_views(entries, dir, o1, o2, i + 1);
    }
}

/// Synchronizing twice is idempotent: a file whose lines read exactly
/// like a previous run's output synchronizes to that same output again,
/// byte for byte.  Content outside the managed block is preserved
/// verbatim, in its original order, on both runs.
pub proof fn lemma_sync_idempotent(
    entries: Seq<Entry>,
    gitignore: Seq<char>,
    lines: Seq<String>,
    again: Seq<String>,
)
    requires
        spec_sync_result(entries, gitignore, lines) is Ok,
        spec_sync_result(entries, gitignore, lines)->Ok_0 is Some,
        strings_view(again) == spec_sync_result(entries, gitignore, lines)->Ok_0->0,
    ensures
        spec_sync_result(entries, gitignore, again) == spec_sync_result(
            entries,
            gitignore,
            lines,
        ),
{
    let dir = spec_parent(gitignore)->0;
    let split = spec_split(lines);
    let new = spec_new_entries(entries, dir, split.outside, 0)->Ok_0;
    let content = strings_view(split.outside) + seq![spec_start_marker()] + new + seq![
        spec_end_marker(),
    ];
    let a_len = split.outside.len() as int;
    let n_len = new.len() as int;
    assert(strings_view(again).len() == again.len());
    assert(again.len() == a_len + 1 + n_len + 1);
    assert forall|k: int| 0 <= k < again.len() implies (#[trigger] again[k])@ == content[k] by {
        assert(strings_view(again)[k] == again[k]@);
    }
    assert(content[a_len] == spec_start_marker());
    assert(content[a_len + 1 + n_len] == spec_end_marker());
    lemma_marker_facts();
    lemma_split_outside_not_marker(lines, 0, false);
    assert forall|k: int| 0 <= k < a_len implies (spec_trim((#[trigger] again[k])@)
        != spec_start_marker() && spec_trim(again[k]@) != spec_end_marker()) by {
        assert(content[k] == strings_view(split.outside)[k]);
        assert(strings_view(split.outside)[k] == split.outside[k]@);
    }
    lemma_new_entries_shape(entries, dir, split.outside, 0);
    assert forall|k: int| a_len + 1 <= k < a_len + 1 + n_len implies (spec_trim(
        (#[trigger] again[k])@,
    ) != spec_start_marker() && spec_trim(again[k]@) != spec_end_marker()) by {
        assert(content[k] == new[k - (a_len + 1)]);
        lemma_pattern_not_marker(new[k - (a_len + 1)]);
    }
    lemma_split_block_head(again, a_len, n_len, 0);
    let outside2 = again.subrange(0, a_len);
    assert(strings_view(outside2) =~= strings_view(split.outside)) by {
        assert forall|k: int| 0 <= k < a_len implies strings_view(outside2)[k] == strings_view(
            split.outside,
        )[k] by {
            assert(strings_view(outside2)[k] == outside2[k]@);
            assert(outside2[k] == again[k]);
            assert(again[k]@ == content[k]);
            assert(content[k] == strings_view(split.outside)[k]);
        }
    }
    lemma_new_entries_views(entries, dir, outside2, split.outside, 0);
    let content2 = strings_view(outside2) + seq![spec_start_marker()] + new + seq![
        spec_end_marker(),
    ];
    assert(content2 =~= content);
}

} // verus!
