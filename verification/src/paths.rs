//! Path strings and the small textual operations the planner needs.
//!
//! Paths are plain `String`s.  The helpers here are purely textual: joining
//! with a separator, taking the textual parent, and testing the reserved
//! ciphertext suffix.  The one outside call is `pathdiff::diff_paths`,
//! which computes the relative path between two paths.

use vstd::prelude::*;

verus! {

/// Why a path operation could not produce a result.
#[derive(Debug, Clone, Copy, PartialEq, Eq, Structural)]
pub enum PathError {
    /// The path has no textual parent directory.
    NoParent,
    /// No relative path leads from one path to the other.
    NoRelativePath,
}

/// `a` joined with `b` by a single separator: `a + "/" + b`, except that a
/// trailing separator on `a` is not doubled.
pub open spec fn spec_join(a: Seq<char>, b: Seq<char>) -> Seq<char> {
    if a.len() > 0 && a.last() == '/' {
        a + b
    } else {
        a + seq!['/'] + b
    }
}

/// Joins a directory path and a child name with a `/` separator.
pub fn join(a: &String, b: &String) -> (r: String)
    ensures
        r@ == spec_join(a@, b@),
{
    let a_len = a.as_str().unicode_len();
    let mut r = a.clone();
    if a_len == 0 || a.as_str().get_char(a_len - 1) != '/' {
        r.append("/");
        proof {
            reveal_strlit("/");
            assert(r@ =~= a@ + seq!['/']);
        }
    }
    r.append(b.as_str());
    proof {
        assert(r@ =~= spec_join(a@, b@));
    }
    r
}

/// The index of the last `/` in `p`, or `-1` when `p` has none.
pub open spec fn last_slash_idx(p: Seq<char>) -> int
    decreases p.len(),
{
    if p.len() == 0 {
        -1
    } else if p.last() == '/' {
        p.len() - 1
    } else {
        last_slash_idx(p.drop_last())
    }
}

proof fn lemma_last_slash_idx_bounds(p: Seq<char>)
    ensures
        -1 <= last_slash_idx(p) < p.len(),
        last_slash_idx(p) >= 0 ==> p[last_slash_idx(p)] == '/',
        forall|m: int| last_slash_idx(p) < m < p.len() ==> p[m] != '/',
    decreases p.len(),
{
    if p.len() > 0 && p.last() != '/' {
        lemma_last_slash_idx_bounds(p.drop_last());
        assert forall|m: int| last_slash_idx(p) < m < p.len() implies p[m] != '/' by {
            if m < p.len() - 1 {
                assert(p.drop_last()[m] == p[m]);
            }
        }
    }
}

proof fn lemma_last_slash_idx_take(p: Seq<char>, j: int)
    requires
        0 <= j <= p.len(),
        forall|m: int| j <= m < p.len() ==> p[m] != '/',
    ensures
        last_slash_idx(p) == last_slash_idx(p.take(j)),
    decreases p.len() - j,
{
    if j < p.len() {
        assert(p.take(p.len() - 1) =~= p.drop_last());
        lemma_last_slash_idx_take(p.drop_last(), j);
        assert(p.drop_last().take(j) =~= p.take(j));
    } else {
        assert(p.take(j) =~= p);
    }
}

/// The textual parent of a path: everything before the last `/`.
///
/// The reading is purely textual, on the absolute paths this library
/// expects its callers to hand over: a relative path without a
/// separator, and the root `/` itself, have no parent here, and a
/// trailing separator is not normalized away (the parent of `a/b/` is
/// `a/b`).
pub open spec fn spec_parent(p: Seq<char>) -> Option<Seq<char>> {
    let i = last_slash_idx(p);
    if i < 0 {
        None
    } else if p.len() == 1 {
        None
    } else if i == 0 {
        Some(seq!['/'])
    } else {
        Some(p.take(i))
    }
}

/// Returns the textual parent directory of `p`, if it has one.
pub fn parent_of(p: &String) -> (r: Option<String>)
    ensures
        r is Some <==> spec_parent(p@) is Some,
        r is Some ==> r->0@ == spec_parent(p@)->0,
{
    let n = p.as_str().unicode_len();
    let mut j: usize = n;
    while j > 0 && p.as_str().get_char(j - 1) != '/'
        invariant
            j <= n,
            n == p@.len(),
            forall|m: int| j <= m < p@.len() ==> p@[m] != '/',
        decreases j,
    {
        j = j - 1;
    }
    proof {
        lemma_last_slash_idx_take(p@, j as int);
        if j > 0 {
            assert(p@.take(j as int).last() == '/');
        }
        lemma_last_slash_idx_bounds(p@.take(j as int));
    }
    if j == 0 {
        // no separator at all
        assert(last_slash_idx(p@) == -1);
        None
    } else if n == 1 {
        // p is just "/"
        None
    } else if j == 1 {
        let r = String::from_str("/");
        proof {
            reveal_strlit("/");
            assert(r@ =~= seq!['/']);
        }
        Some(r)
    } else {
        let s = p.as_str().substring_char(0, j - 1).to_owned();
        proof {
            assert(s@ =~= p@.take(j - 1));
        }
        Some(s)
    }
}

/// The reserved file-name suffix that marks an encrypted container.
pub open spec fn enc_suffix() -> Seq<char> {
    seq!['.', 'e', 'n', 'c']
}

/// Whether `s` ends with the character sequence `suf`.
pub open spec fn spec_ends_with(s: Seq<char>, suf: Seq<char>) -> bool {
    s.len() >= suf.len() && s.subrange(s.len() - suf.len(), s.len() as int) == suf
}

/// Tests whether a path carries the reserved ciphertext suffix.
pub fn ends_with_enc(s: &String) -> (r: bool)
    ensures
        r == spec_ends_with(s@, enc_suffix()),
{
    let n = s.as_str().unicode_len();
    if n < 4 {
        return false;
    }
    let r = s.as_str().get_char(n - 4) == '.' && s.as_str().get_char(n - 3) == 'e'
        && s.as_str().get_char(n - 2) == 'n' && s.as_str().get_char(n - 1) == 'c';
    proof {
        let tail = s@.subrange(s@.len() - 4, s@.len() as int);
        if r {
            assert(tail =~= enc_suffix());
        } else {
            assert(tail != enc_suffix()) by {
                if tail == enc_suffix() {
                    assert(s@[s@.len() - 4] == '.' && s@[s@.len() - 3] == 'e' && s@[s@.len()
                        - 2] == 'n' && s@[s@.len() - 1] == 'c');
                }
            }
        }
    }
    r
}

/// Whether `s` begins with the character `c`.
pub open spec fn spec_starts_with(s: Seq<char>, c: char) -> bool {
    s.len() > 0 && s[0] == c
}

/// Tests whether a path begins with the given character.
pub fn starts_with_char(s: &String, c: char) -> (r: bool)
    ensures
        r == spec_starts_with(s@, c),
{
    if s.as_str().unicode_len() == 0 {
        false
    } else {
        s.as_str().get_char(0) == c
    }
}

/// The relative path that `pathdiff::diff_paths` computes from `base` up
/// to `path`, or `None` when no such path exists.  The result is a
/// function of the two paths alone.
pub uninterp spec fn diff_of(path: Seq<char>, base: Seq<char>) -> Option<Seq<char>>;

/// Relies on `pathdiff::diff_paths` to compute the path difference from
/// `to` up to `from`; its result depends only on the two arguments.
#[verifier::external_body]
pub fn relative_path(from: &String, to: &String) -> (r: Result<String, PathError>)
    ensures
        r is Ok <==> diff_of(from@, to@) is Some,
        r is Ok ==> r->Ok_0@ == diff_of(from@, to@)->0,
        r is Err ==> r->Err_0 == PathError::NoRelativePath,
{
    match pathdiff::diff_paths(from.as_str(), to.as_str()) {
        Some(p) => Ok(p.to_string_lossy().into_owned()),
        None => Err(PathError::NoRelativePath),
    }
}

/// The directory that contains `p`: `p` itself when it is a directory,
/// otherwise its textual parent per [`spec_parent`].  Callers hand
/// absolute paths over, so the one path without a textual parent that
/// is a directory's sibling in practice is the root itself.
pub fn get_dir(p: &String, p_is_dir: bool) -> (r: Result<String, PathError>)
    ensures
        p_is_dir ==> r is Ok && r->Ok_0@ == p@,
        !p_is_dir ==> {
            match spec_parent(p@) {
                Some(d) => r is Ok && r->Ok_0@ == d,
                None => r == Err::<String, PathError>(PathError::NoParent),
            }
        },
{
    if p_is_dir {
        Ok(p.clone())
    } else {
        match parent_of(p) {
            Some(d) => Ok(d),
            None => Err(PathError::NoParent),
        }
    }
}

} // verus!
