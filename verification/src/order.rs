//! Lexicographic order on character sequences, and sorted, duplicate-free
//! name lists built by ordered insertion.
//!
//! Feature and package names are compared by their sequences of characters
//! (code-point order). Every list of names the report holds is kept strictly
//! sorted, which makes it duplicate-free and uniquely determined by its
//! members.

use vstd::prelude::*;

verus! {

use vstd::string::StrSliceExecFns;

/// Strict lexicographic order on character sequences: `a` comes before `b`
/// when `a` is a proper prefix of `b`, or the first differing character of
/// `a` is the smaller code point.
pub open spec fn lex_lt(a: Seq<char>, b: Seq<char>) -> bool
    decreases a.len(),
{
    if b.len() == 0 {
        false
    } else if a.len() == 0 {
        true
    } else if a[0] != b[0] {
        (a[0] as int) < (b[0] as int)
    } else {
        lex_lt(a.skip(1), b.skip(1))
    }
}

/// A name list is strictly sorted: earlier entries are lexicographically
/// smaller, so there are no duplicates.
pub open spec fn strictly_sorted(s: Seq<Seq<char>>) -> bool {
    forall|i: int, j: int| 0 <= i < j < s.len() ==> lex_lt(s[i], s[j])
}

pub proof fn lemma_lex_lt_trans(a: Seq<char>, b: Seq<char>, c: Seq<char>)
    requires
        lex_lt(a, b),
        lex_lt(b, c),
    ensures
        lex_lt(a, c),
    decreases a.len() + b.len() + c.len(),
{
    if c.len() == 0 || b.len() == 0 || a.len() == 0 {
        // lex_lt(b, c) forces c nonempty; lex_lt(a, b) forces b nonempty;
        // an empty a is below any nonempty c.
    } else if a[0] == b[0] && b[0] == c[0] {
        lemma_lex_lt_trans(a.skip(1), b.skip(1), c.skip(1));
    }
}

pub proof fn lemma_lex_lt_connex(a: Seq<char>, b: Seq<char>)
    ensures
        lex_lt(a, b) || lex_lt(b, a) || a == b,
    decreases a.len(),
{
    if a.len() == 0 && b.len() == 0 {
        assert(a =~= b);
    } else if a.len() > 0 && b.len() > 0 && a[0] == b[0] {
        lemma_lex_lt_connex(a.skip(1), b.skip(1));
        if !lex_lt(a, b) && !lex_lt(b, a) {
            assert(a.skip(1) == b.skip(1));
            assert forall|i: int| 0 <= i < a.len() implies a[i] == b[i] by {
                if i > 0 {
                    assert(a[i] == a.skip(1)[i - 1]);
                    assert(b[i] == b.skip(1)[i - 1]);
                }
            }
            assert(a =~= b);
        }
    }
}

/// Compares two strings in lexicographic order.
#[verifier::loop_isolation(false)]
pub fn str_lt(a: &str, b: &str) -> (r: bool)
    ensures
        r == lex_lt(a@, b@),
{
    let alen = a.unicode_len();
    let blen = b.unicode_len();
    let mut i: usize = 0;
    proof {
        assert(a@.skip(0) =~= a@);
        assert(b@.skip(0) =~= b@);
    }
    loop
        invariant
            i <= alen,
            i <= blen,
            alen == a@.len(),
            blen == b@.len(),
            lex_lt(a@, b@) == lex_lt(a@.skip(i as int), b@.skip(i as int)),
        decreases alen - i,
    {
        if i == alen {
            return i < blen;
        }
        if i == blen {
            return false;
        }
        let ca = a.get_char(i);
        let cb = b.get_char(i);
        proof {
            assert(a@.skip(i as int)[0] == a@[i as int]);
            assert(b@.skip(i as int)[0] == b@[i as int]);
        }
        if ca != cb {
            return ca < cb;
        }
        proof {
            assert(a@.skip(i as int).skip(1) =~= a@.skip(i as int + 1));
            assert(b@.skip(i as int).skip(1) =~= b@.skip(i as int + 1));
        }
        i = i + 1;
    }
}

/// Compares two strings for character-wise equality.
#[verifier::loop_isolation(false)]
pub fn str_eq(a: &str, b: &str) -> (r: bool)
    ensures
        r == (a@ == b@),
{
    let alen = a.unicode_len();
    let blen = b.unicode_len();
    if alen != blen {
        return false;
    }
    let mut i: usize = 0;
    while i < alen
        invariant
            i <= alen,
            alen == a@.len(),
            blen == b@.len(),
            alen == blen,
            forall|j: int| 0 <= j < i ==> a@[j] == b@[j],
        decreases alen - i,
    {
        let ca = a.get_char(i);
        let cb = b.get_char(i);
        if ca != cb {
            return false;
        }
        i = i + 1;
    }
    proof {
        assert(a@ =~= b@);
    }
    true
}

/// Inserting a name into a sorted list keeps it sorted and drops the name if
/// it is already present.
pub open spec fn insert_name(s: Seq<Seq<char>>, x: Seq<char>) -> Seq<Seq<char>>
    decreases s.len(),
{
    if s.len() == 0 {
        seq![x]
    } else if x == s[0] {
        s
    } else if lex_lt(x, s[0]) {
        seq![x] + s
    } else {
        seq![s[0]] + insert_name(s.skip(1), x)
    }
}

/// The sorted, duplicate-free list of the names of `s`.
pub open spec fn sort_names(s: Seq<Seq<char>>) -> Seq<Seq<char>>
    decreases s.len(),
{
    if s.len() == 0 {
        Seq::empty()
    } else {
        insert_name(sort_names(s.drop_last()), s.last())
    }
}

pub proof fn lemma_cons_contains<A>(h: A, t: Seq<A>, y: A)
    ensures
        (seq![h] + t).contains(y) <==> (y == h || t.contains(y)),
{
    let s = seq![h] + t;
    if t.contains(y) {
        let j = choose|j: int| 0 <= j < t.len() && t[j] == y;
        assert(s[j + 1] == y);
    }
    if y == h {
        assert(s[0] == y);
    }
    if s.contains(y) {
        let k = choose|k: int| 0 <= k < s.len() && s[k] == y;
        if k > 0 {
            assert(t[k - 1] == y);
        }
    }
}

pub proof fn lemma_unsnoc_contains<A>(s: Seq<A>, y: A)
    requires
        s.len() > 0,
    ensures
        s.contains(y) <==> (s.drop_last().contains(y) || y == s.last()),
{
    if s.drop_last().contains(y) {
        let j = choose|j: int| 0 <= j < s.drop_last().len() && s.drop_last()[j] == y;
        assert(s[j] == y);
    }
    if y == s.last() {
        assert(s[s.len() - 1] == y);
    }
    if s.contains(y) {
        let k = choose|k: int| 0 <= k < s.len() && s[k] == y;
        if k < s.len() - 1 {
            assert(s.drop_last()[k] == y);
        }
    }
}

pub proof fn lemma_insert_name_contains(s: Seq<Seq<char>>, x: Seq<char>, y: Seq<char>)
    ensures
        insert_name(s, x).contains(y) <==> (s.contains(y) || y == x),
    decreases s.len(),
{
    if s.len() == 0 {
        lemma_cons_contains::<Seq<char>>(x, Seq::empty(), y);
        assert(seq![x] + Seq::<Seq<char>>::empty() =~= seq![x]);
        if insert_name(s, x).contains(y) {
            let k = choose|k: int| 0 <= k < seq![x].len() && seq![x][k] == y;
            assert(y == x);
        }
        if y == x {
            assert(insert_name(s, x)[0] == y);
        }
    } else if x == s[0] {
        if y == x {
            assert(s[0] == y);
        }
    } else if lex_lt(x, s[0]) {
        lemma_cons_contains(x, s, y);
    } else {
        lemma_insert_name_contains(s.skip(1), x, y);
        lemma_cons_contains(s[0], insert_name(s.skip(1), x), y);
        lemma_cons_contains(s[0], s.skip(1), y);
        assert(seq![s[0]] + s.skip(1) =~= s);
    }
}

pub proof fn lemma_insert_name_sorted(s: Seq<Seq<char>>, x: Seq<char>)
    requires
        strictly_sorted(s),
    ensures
        strictly_sorted(insert_name(s, x)),
    decreases s.len(),
{
    if s.len() == 0 {
    } else if x == s[0] {
    } else if lex_lt(x, s[0]) {
        let r = seq![x] + s;
        assert forall|i: int, j: int| 0 <= i < j < r.len() implies lex_lt(r[i], r[j]) by {
            if i == 0 {
                if j > 1 {
                    lemma_lex_lt_trans(x, s[0], s[j - 1]);
                }
            }
        }
    } else {
        lemma_lex_lt_connex(x, s[0]);
        let t = insert_name(s.skip(1), x);
        assert forall|k: int| 0 <= k < s.skip(1).len() implies lex_lt(s[0], s.skip(1)[k]) by {
            assert(s.skip(1)[k] == s[k + 1]);
        }
        assert(strictly_sorted(s.skip(1))) by {
            assert forall|i: int, j: int| 0 <= i < j < s.skip(1).len() implies lex_lt(
                s.skip(1)[i],
                s.skip(1)[j],
            ) by {
                assert(s.skip(1)[i] == s[i + 1]);
                assert(s.skip(1)[j] == s[j + 1]);
            }
        }
        lemma_insert_name_sorted(s.skip(1), x);
        let r = seq![s[0]] + t;
        assert forall|i: int, j: int| 0 <= i < j < r.len() implies lex_lt(r[i], r[j]) by {
            if i == 0 {
                assert(t.contains(r[j])) by {
                    assert(t[j - 1] == r[j]);
                }
                lemma_insert_name_contains(s.skip(1), x, r[j]);
                if r[j] == x {
                    // s[0] is below x in this branch
                } else {
                    let k = choose|k: int| 0 <= k < s.skip(1).len() && s.skip(1)[k] == r[j];
                    assert(lex_lt(s[0], s.skip(1)[k]));
                }
            } else {
                assert(lex_lt(t[i - 1], t[j - 1]));
            }
        }
    }
}

pub proof fn lemma_sort_names_sorted(s: Seq<Seq<char>>)
    ensures
        strictly_sorted(sort_names(s)),
    decreases s.len(),
{
    if s.len() > 0 {
        lemma_sort_names_sorted(s.drop_last());
        lemma_insert_name_sorted(sort_names(s.drop_last()), s.last());
    }
}

pub proof fn lemma_sort_names_contains(s: Seq<Seq<char>>, y: Seq<char>)
    ensures
        sort_names(s).contains(y) <==> s.contains(y),
    decreases s.len(),
{
    if s.len() > 0 {
        lemma_sort_names_contains(s.drop_last(), y);
        lemma_insert_name_contains(sort_names(s.drop_last()), s.last(), y);
        lemma_unsnoc_contains(s, y);
    }
}

/// Inserts `x` into the sorted name list `names`, keeping it sorted and
/// duplicate-free.
#[verifier::loop_isolation(false)]
pub fn insert_name_exec(names: Vec<String>, x: String) -> (r: Vec<String>)
    ensures
        r.deep_view() == insert_name(names.deep_view(), x@),
{
    let ghost s = names.deep_view();
    let mut names = names;
    let mut p: usize = 0;
    proof {
        assert(s.skip(0) =~= s);
        assert(s.take(0) + insert_name(s.skip(0), x@) =~= insert_name(s, x@));
    }
    loop
        invariant
            p <= names.len(),
            names.deep_view() == s,
            s.len() == names@.len(),
            insert_name(s, x@) == s.take(p as int) + insert_name(s.skip(p as int), x@),
        decreases names.len() - p,
    {
        if p == names.len() {
            proof {
                assert(insert_name(s.skip(p as int), x@) =~= seq![x@] + s.skip(p as int));
            }
            return place_name(names, p, x, Ghost(s));
        }
        proof {
            assert(s.skip(p as int)[0] == s[p as int]);
            assert(s[p as int] == names@[p as int].deep_view());
        }
        let eq = str_eq(x.as_str(), names[p].as_str());
        if eq {
            proof {
                assert(insert_name(s.skip(p as int), x@) == s.skip(p as int));
                assert(s.take(p as int) + s.skip(p as int) =~= s);
            }
            return names;
        }
        let lt = str_lt(x.as_str(), names[p].as_str());
        if lt {
            proof {
                assert(insert_name(s.skip(p as int), x@) == seq![x@] + s.skip(p as int));
            }
            return place_name(names, p, x, Ghost(s));
        }
        proof {
            assert(s.skip(p as int).skip(1) =~= s.skip(p as int + 1));
            assert(s.take(p as int) + seq![s[p as int]] =~= s.take(p as int + 1));
            assert((s.take(p as int) + (seq![s[p as int]] + insert_name(
                s.skip(p as int + 1),
                x@,
            ))) =~= ((s.take(p as int) + seq![s[p as int]]) + insert_name(
                s.skip(p as int + 1),
                x@,
            )));
        }
        p = p + 1;
    }
}

/// Places `x` at position `p` of `names`; the helper step of ordered
/// insertion.
fn place_name(names: Vec<String>, p: usize, x: String, Ghost(s): Ghost<Seq<Seq<char>>>) -> (r: Vec<
    String,
>)
    requires
        p <= names@.len(),
        s == names.deep_view(),
        insert_name(s, x@) == s.take(p as int) + (seq![x@] + s.skip(p as int)),
    ensures
        r.deep_view() == insert_name(names.deep_view(), x@),
{
    let mut names = names;
    let ghost vseq = names@;
    names.insert(p, x);
    proof {
        vseq.insert_ensures(p as int, x);
        assert forall|i: int| 0 <= i < names@.len() implies names.deep_view()[i] == (s.take(
            p as int,
        ) + (seq![x@] + s.skip(p as int)))[i] by {
            if i < p as int {
                assert(names@[i] == vseq[i]);
                assert(s[i] == vseq[i].deep_view());
            } else if i == p as int {
                assert(names@[i] == x);
            } else {
                assert(names@[i] == vseq[i - 1]);
                assert(s[i - 1] == vseq[i - 1].deep_view());
            }
        }
        assert(names.deep_view() =~= s.take(p as int) + (seq![x@] + s.skip(p as int)));
    }
    names
}

/// Returns the names of `names` as a sorted, duplicate-free list.
#[verifier::loop_isolation(false)]
pub fn sort_names_exec(names: &Vec<String>) -> (r: Vec<String>)
    ensures
        r.deep_view() == sort_names(names.deep_view()),
{
    let ghost s = names.deep_view();
    let mut out: Vec<String> = Vec::new();
    let mut i: usize = 0;
    proof {
        assert(out.deep_view() =~= sort_names(s.take(0)));
    }
    while i < names.len()
        invariant
            i <= names.len(),
            s == names.deep_view(),
            s.len() == names@.len(),
            out.deep_view() == sort_names(s.take(i as int)),
        decreases names.len() - i,
    {
        let x = names[i].clone();
        proof {
            assert(x@ == s[i as int]);
        }
        out = insert_name_exec(out, x);
        proof {
            assert(s.take(i as int + 1).drop_last() =~= s.take(i as int));
            assert(s.take(i as int + 1).last() == s[i as int]);
        }
        i = i + 1;
    }
    proof {
        assert(s.take(s.len() as int) =~= s);
    }
    out
}

} // verus!
