//! The usage scanner's text analysis: extracting from a source text every
//! feature name referenced through the fixed textual pattern
//! `feature = "<name>"`, whitespace-tolerant around the `=`.
//!
//! This is a best-effort, purely textual heuristic: names referenced only
//! through macros or build scripts are not seen, and a hit is never proof of
//! semantic use. The scan itself, though, is exact: the result is the
//! sorted, duplicate-free list of every captured name.

use vstd::prelude::*;

verus! {

use crate::order::insert_name;
use crate::order::insert_name_exec;
use crate::order::lemma_insert_name_sorted;
use crate::order::strictly_sorted;
use vstd::string::StrSliceExecFns;

/// The whitespace the pattern tolerates around `=`.
pub open spec fn is_ws(c: char) -> bool {
    c == ' ' || c == '\t' || c == '\n' || c == '\r' || c == '\u{000B}' || c == '\u{000C}'
}

/// The literal word that opens the pattern.
pub open spec fn feature_lit() -> Seq<char> {
    seq!['f', 'e', 'a', 't', 'u', 'r', 'e']
}

/// The first position at or after `i` holding a non-whitespace character.
pub open spec fn skip_ws(s: Seq<char>, i: int) -> int
    decreases s.len() - i,
{
    if 0 <= i < s.len() && is_ws(s[i]) {
        skip_ws(s, i + 1)
    } else {
        i
    }
}

/// The first position at or after `i` holding a double quote, or the text
/// length when there is none.
pub open spec fn find_quote(s: Seq<char>, i: int) -> int
    decreases s.len() - i,
{
    if i < 0 {
        i
    } else if i >= s.len() {
        s.len() as int
    } else if s[i] == '"' {
        i
    } else {
        find_quote(s, i + 1)
    }
}

/// The pattern matches at position `i`: the word `feature`, optional
/// whitespace, `=`, optional whitespace, then a quoted, nonempty name
/// without inner quotes.
pub open spec fn match_at(s: Seq<char>, i: int) -> bool {
    let j = skip_ws(s, i + 7);
    let k = skip_ws(s, j + 1);
    let m = find_quote(s, k + 1);
    &&& 0 <= i
    &&& i + 7 <= s.len()
    &&& s.subrange(i, i + 7) == feature_lit()
    &&& j < s.len() && s[j] == '='
    &&& k < s.len() && s[k] == '"'
    &&& k + 1 < m < s.len()
}

/// The name captured by a match at `i`.
pub open spec fn capture_at(s: Seq<char>, i: int) -> Seq<char> {
    let j = skip_ws(s, i + 7);
    let k = skip_ws(s, j + 1);
    s.subrange(k + 1, find_quote(s, k + 1))
}

/// The position right after a match at `i`; scanning resumes there, so
/// matches do not overlap.
pub open spec fn match_end(s: Seq<char>, i: int) -> int {
    let j = skip_ws(s, i + 7);
    let k = skip_ws(s, j + 1);
    find_quote(s, k + 1) + 1
}

proof fn lemma_skip_ws(s: Seq<char>, i: int)
    requires
        0 <= i <= s.len(),
    ensures
        i <= skip_ws(s, i) <= s.len(),
    decreases s.len() - i,
{
    if i < s.len() && is_ws(s[i]) {
        lemma_skip_ws(s, i + 1);
    }
}

proof fn lemma_find_quote(s: Seq<char>, i: int)
    requires
        0 <= i <= s.len(),
    ensures
        i <= find_quote(s, i) <= s.len(),
    decreases s.len() - i,
{
    if i < s.len() && s[i] != '"' {
        lemma_find_quote(s, i + 1);
    }
}

/// The sorted list of every name captured at or after position `i`, on top
/// of the names in `acc`.
pub open spec fn refs_from(s: Seq<char>, i: int, acc: Seq<Seq<char>>) -> Seq<Seq<char>>
    decreases s.len() - i,
    via refs_from_decreases
{
    if i < 0 || i >= s.len() {
        acc
    } else if match_at(s, i) {
        refs_from(s, match_end(s, i), insert_name(acc, capture_at(s, i)))
    } else {
        refs_from(s, i + 1, acc)
    }
}

#[via_fn]
proof fn refs_from_decreases(s: Seq<char>, i: int, acc: Seq<Seq<char>>) {
    if 0 <= i && i < s.len() && match_at(s, i) {
        lemma_skip_ws(s, i + 7);
        let j = skip_ws(s, i + 7);
        lemma_skip_ws(s, j + 1);
    }
}

/// Every feature name the fixed pattern captures in `s`, sorted and without
/// duplicates.
pub open spec fn source_refs(s: Seq<char>) -> Seq<Seq<char>> {
    refs_from(s, 0, Seq::empty())
}

proof fn lemma_refs_from_sorted(s: Seq<char>, i: int, acc: Seq<Seq<char>>)
    requires
        strictly_sorted(acc),
    ensures
        strictly_sorted(refs_from(s, i, acc)),
    decreases s.len() - i,
{
    if i < 0 || i >= s.len() {
    } else if match_at(s, i) {
        lemma_skip_ws(s, i + 7);
        let j = skip_ws(s, i + 7);
        lemma_skip_ws(s, j + 1);
        lemma_insert_name_sorted(acc, capture_at(s, i));
        lemma_refs_from_sorted(s, match_end(s, i), insert_name(acc, capture_at(s, i)));
    } else {
        lemma_refs_from_sorted(s, i + 1, acc);
    }
}

/// The scan result is a set: strictly sorted, hence duplicate-free.
pub proof fn lemma_source_refs_sorted(s: Seq<char>)
    ensures
        strictly_sorted(source_refs(s)),
{
    lemma_refs_from_sorted(s, 0, Seq::empty());
}

/// Advances past whitespace.
#[verifier::loop_isolation(false)]
fn skip_ws_exec(s: &str, i: usize, n: usize) -> (j: usize)
    requires
        n == s@.len(),
        i <= n,
    ensures
        j as int == skip_ws(s@, i as int),
        i <= j <= n,
{
    let mut j = i;
    loop
        invariant
            i <= j <= n,
            skip_ws(s@, i as int) == skip_ws(s@, j as int),
        decreases n - j,
    {
        if j == n {
            return j;
        }
        let c = s.get_char(j);
        if c == ' ' || c == '\t' || c == '\n' || c == '\r' || c == '\u{000B}' || c == '\u{000C}' {
            j = j + 1;
        } else {
            return j;
        }
    }
}

/// Advances to the next double quote.
#[verifier::loop_isolation(false)]
fn find_quote_exec(s: &str, i: usize, n: usize) -> (j: usize)
    requires
        n == s@.len(),
        i <= n,
    ensures
        j as int == find_quote(s@, i as int),
        i <= j <= n,
{
    let mut j = i;
    loop
        invariant
            i <= j <= n,
            find_quote(s@, i as int) == find_quote(s@, j as int),
        decreases n - j,
    {
        if j == n {
            return j;
        }
        let c = s.get_char(j);
        if c == '"' {
            return j;
        }
        j = j + 1;
    }
}

/// Whether the word `feature` stands at position `i`.
fn lit_at(s: &str, i: usize, n: usize) -> (r: bool)
    requires
        n == s@.len(),
        i <= n,
    ensures
        r == (i + 7 <= s@.len() && s@.subrange(i as int, i as int + 7) == feature_lit()),
{
    if n - i < 7 {
        return false;
    }
    let ok = s.get_char(i) == 'f' && s.get_char(i + 1) == 'e' && s.get_char(i + 2) == 'a'
        && s.get_char(i + 3) == 't' && s.get_char(i + 4) == 'u' && s.get_char(i + 5) == 'r'
        && s.get_char(i + 6) == 'e';
    proof {
        let sub = s@.subrange(i as int, i as int + 7);
        if ok {
            assert(sub =~= feature_lit());
        } else {
            if sub == feature_lit() {
                assert(sub[0] == 'f' && sub[1] == 'e' && sub[2] == 'a' && sub[3] == 't' && sub[4]
                    == 'u' && sub[5] == 'r' && sub[6] == 'e');
                assert(false);
            }
        }
    }
    ok
}

/// Tries the pattern at position `i`; on a hit returns the captured name
/// and the position right after the match.
fn try_match(s: &str, i: usize, n: usize) -> (r: Option<(String, usize)>)
    requires
        n == s@.len(),
        i < n,
    ensures
        match r {
            Some(pair) => match_at(s@, i as int) && pair.0@ == capture_at(s@, i as int) && pair.1
                as int == match_end(s@, i as int) && i < pair.1 <= n,
            None => !match_at(s@, i as int),
        },
{
    if !lit_at(s, i, n) {
        return None;
    }
    let j = skip_ws_exec(s, i + 7, n);
    if j == n {
        return None;
    }
    if s.get_char(j) != '=' {
        return None;
    }
    let k = skip_ws_exec(s, j + 1, n);
    if k == n {
        return None;
    }
    if s.get_char(k) != '"' {
        return None;
    }
    let m = find_quote_exec(s, k + 1, n);
    if m == n {
        return None;
    }
    if m == k + 1 {
        return None;
    }
    let cap = s.substring_char(k + 1, m).to_owned();
    Some((cap, m + 1))
}

/// The path names a source file: it ends in `.rs` with a nonempty file
/// stem.
pub open spec fn ends_with_rs(s: Seq<char>) -> bool {
    s.len() >= 4 && s.subrange(s.len() - 3, s.len() as int) == ".rs"@ && s[s.len() - 4] != '/'
}

/// Some `/`-separated component of the path is exactly the word `w`.
pub open spec fn has_component(s: Seq<char>, w: Seq<char>) -> bool {
    exists|i: int|
        0 <= i && i + w.len() <= s.len() && #[trigger] s.subrange(i, i + w.len()) == w && (i == 0
            || s[i - 1] == '/') && (i + w.len() == s.len() || s[i + w.len()] == '/')
}

/// The scan visits this path: a `.rs` source file outside any build-output
/// subtree named `target`.
pub open spec fn scannable_path(s: Seq<char>) -> bool {
    ends_with_rs(s) && !has_component(s, "target"@)
}

/// Whether the word `target` stands at `i` as a whole path component.
fn component_at(s: &str, i: usize, n: usize) -> (r: bool)
    requires
        n == s@.len(),
        i < n,
    ensures
        r == (i + 6 <= s@.len() && s@.subrange(i as int, i as int + 6) == "target"@ && (i == 0
            || s@[i as int - 1] == '/') && (i + 6 == s@.len() || s@[i as int + 6] == '/')),
{
    proof {
        reveal_strlit("target");
    }
    if n - i < 6 {
        return false;
    }
    let word = s.get_char(i) == 't' && s.get_char(i + 1) == 'a' && s.get_char(i + 2) == 'r'
        && s.get_char(i + 3) == 'g' && s.get_char(i + 4) == 'e' && s.get_char(i + 5) == 't';
    proof {
        let sub = s@.subrange(i as int, i as int + 6);
        if word {
            assert(sub =~= "target"@);
        } else {
            if sub == "target"@ {
                assert(sub[0] == 't' && sub[1] == 'a' && sub[2] == 'r' && sub[3] == 'g' && sub[4]
                    == 'e' && sub[5] == 't');
                assert(false);
            }
        }
    }
    if !word {
        return false;
    }
    let left = i == 0 || s.get_char(i - 1) == '/';
    let right = i + 6 == n || s.get_char(i + 6) == '/';
    left && right
}

/// Decides whether the scan visits a path: its last component is a `.rs`
/// file with a nonempty stem, and no component on the way is the
/// build-output directory `target`.
#[verifier::loop_isolation(false)]
pub fn is_scannable_path(path: &str) -> (r: bool)
    ensures
        r == scannable_path(path@),
{
    let n = path.unicode_len();
    if n < 4 {
        return false;
    }
    proof {
        reveal_strlit(".rs");
        reveal_strlit("target");
    }
    let c_dot = path.get_char(n - 3);
    let c_r = path.get_char(n - 2);
    let c_s = path.get_char(n - 1);
    let c_before = path.get_char(n - 4);
    let rs = c_dot == '.' && c_r == 'r' && c_s == 's' && c_before != '/';
    proof {
        let sub = path@.subrange(n as int - 3, n as int);
        if c_dot == '.' && c_r == 'r' && c_s == 's' {
            assert(sub =~= ".rs"@);
        } else {
            if sub == ".rs"@ {
                assert(sub[0] == '.' && sub[1] == 'r' && sub[2] == 's');
                assert(false);
            }
        }
    }
    if !rs {
        return false;
    }
    let mut i: usize = 0;
    while i < n
        invariant
            i <= n,
            n == path@.len(),
            forall|j: int|
                0 <= j < i ==> !(j + 6 <= path@.len() && #[trigger] path@.subrange(j, j + 6)
                    == "target"@ && (j == 0 || path@[j - 1] == '/') && (j + 6 == path@.len()
                    || path@[j + 6] == '/')),
        decreases n - i,
    {
        if component_at(path, i, n) {
            proof {
                assert(has_component(path@, "target"@)) by {
                    assert(i as int + 6 <= path@.len() && path@.subrange(i as int, i as int + 6)
                        == "target"@ && (i as int == 0 || path@[i as int - 1] == '/') && (i as int
                        + 6 == path@.len() || path@[i as int + 6] == '/'));
                }
            }
            return false;
        }
        i = i + 1;
    }
    proof {
        if has_component(path@, "target"@) {
            let j = choose|j: int|
                0 <= j && j + 6 <= path@.len() && #[trigger] path@.subrange(j, j + 6)
                    == "target"@ && (j == 0 || path@[j - 1] == '/') && (j + 6 == path@.len()
                    || path@[j + 6] == '/');
            assert(false);
        }
    }
    true
}

/// Scans a source text for the fixed pattern and returns every captured
/// feature name, sorted and without duplicates.
#[verifier::loop_isolation(false)]
pub fn scan_source(text: &str) -> (r: Vec<String>)
    ensures
        r.deep_view() == source_refs(text@),
{
    let n = text.unicode_len();
    let mut out: Vec<String> = Vec::new();
    let mut p: usize = 0;
    proof {
        assert(out.deep_view() =~= Seq::<Seq<char>>::empty());
    }
    while p < n
        invariant
            p <= n,
            n == text@.len(),
            source_refs(text@) == refs_from(text@, p as int, out.deep_view()),
        decreases n - p,
    {
        match try_match(text, p, n) {
            Some(hit) => {
                let (name, end) = hit;
                out = insert_name_exec(out, name);
                p = end;
            },
            None => {
                p = p + 1;
            },
        }
    }
    out
}

} // verus!
