//! Lexicographic order on strings — the order `String`'s `Ord` uses, since
//! UTF-8 bytes compare the way their code points do — and sorted sets of
//! strings built on it.
use vstd::prelude::*;
use crate::text::{chars_of, seq_eq};

verus! {

/// `a` sorts strictly before `b`.
pub open spec fn str_lt(a: Seq<char>, b: Seq<char>) -> bool
    decreases a.len(),
{
    if a.len() == 0 {
        b.len() > 0
    } else if b.len() == 0 {
        false
    } else if a[0] != b[0] {
        a[0] < b[0]
    } else {
        str_lt(a.drop_first(), b.drop_first())
    }
}

pub proof fn lemma_str_lt_irrefl(a: Seq<char>)
    ensures
        !str_lt(a, a),
    decreases a.len(),
{
    if a.len() > 0 {
        lemma_str_lt_irrefl(a.drop_first());
    }
}

pub proof fn lemma_str_lt_trans(a: Seq<char>, b: Seq<char>, c: Seq<char>)
    requires
        str_lt(a, b),
        str_lt(b, c),
    ensures
        str_lt(a, c),
    decreases a.len(),
{
    if a.len() > 0 && b.len() > 0 && c.len() > 0 {
        if a[0] == b[0] && b[0] == c[0] {
            lemma_str_lt_trans(a.drop_first(), b.drop_first(), c.drop_first());
        }
    }
}

pub proof fn lemma_str_lt_total(a: Seq<char>, b: Seq<char>)
    ensures
        a == b || str_lt(a, b) || str_lt(b, a),
    decreases a.len(),
{
    if a.len() > 0 && b.len() > 0 && a[0] == b[0] {
        lemma_str_lt_total(a.drop_first(), b.drop_first());
        if a.drop_first() == b.drop_first() {
            assert(a =~= seq![a[0]] + a.drop_first());
            assert(b =~= seq![b[0]] + b.drop_first());
        }
    } else if a.len() == 0 && b.len() == 0 {
        assert(a =~= b);
    }
}

pub proof fn lemma_str_lt_asym(a: Seq<char>, b: Seq<char>)
    requires
        str_lt(a, b),
    ensures
        !str_lt(b, a),
{
    if str_lt(b, a) {
        lemma_str_lt_trans(a, b, a);
        lemma_str_lt_irrefl(a);
    }
}

pub fn str_lt_exec(a: &[char], b: &[char]) -> (r: bool)
    ensures
        r == str_lt(a@, b@),
{
    let mut i: usize = 0;
    assert(a@.subrange(0, a.len() as int) =~= a@);
    assert(b@.subrange(0, b.len() as int) =~= b@);
    while i < a.len() && i < b.len() && a[i] == b[i]
        invariant
            i <= a.len(),
            i <= b.len(),
            str_lt(a@, b@) == str_lt(a@.subrange(i as int, a.len() as int), b@.subrange(
                i as int,
                b.len() as int,
            )),
        decreases a.len() - i,
    {
        proof {
            let x = a@.subrange(i as int, a.len() as int);
            let y = b@.subrange(i as int, b.len() as int);
            assert(x.drop_first() =~= a@.subrange(i + 1, a.len() as int));
            assert(y.drop_first() =~= b@.subrange(i + 1, b.len() as int));
        }
        i = i + 1;
    }
    if i == a.len() {
        i < b.len()
    } else if i == b.len() {
        false
    } else {
        a[i] < b[i]
    }
}

/// Strictly increasing, so sorted with no repeats.
pub open spec fn strictly_sorted(s: Seq<Seq<char>>) -> bool {
    forall|i: int, j: int| 0 <= i < j < s.len() ==> str_lt(s[i], s[j])
}

pub open spec fn views(v: Seq<String>) -> Seq<Seq<char>> {
    v.map_values(|s: String| s@)
}

/// Put `x` into a strictly sorted list, keeping it strictly sorted; a string
/// already there is not added twice.
pub fn insert_sorted(v: &mut Vec<String>, x: String)
    requires
        strictly_sorted(views(old(v)@)),
    ensures
        strictly_sorted(views(final(v)@)),
        views(final(v)@).to_set() == views(old(v)@).to_set().insert(x@),
{
    let ghost old_v = views(v@);
    let xv = chars_of(x.as_str());
    let mut i: usize = 0;
    while i < v.len()
        invariant
            i <= v.len(),
            views(v@) == old_v,
            strictly_sorted(old_v),
            xv@ == x@,
            forall|j: int| 0 <= j < i ==> str_lt(old_v[j], x@),
        ensures
            i <= v.len(),
            views(v@) == old_v,
            forall|j: int| 0 <= j < i ==> str_lt(old_v[j], x@),
            i < v.len() ==> !str_lt(old_v[i as int], x@),
        decreases v.len() - i,
    {
        let cv = chars_of(v[i].as_str());
        assert(cv@ == old_v[i as int]);
        if !str_lt_exec(&cv, &xv) {
            break ;
        }
        i = i + 1;
    }
    if i < v.len() {
        let cv = chars_of(v[i].as_str());
        if seq_eq(&cv, &xv) {
            assert(old_v.to_set().insert(x@) =~= old_v.to_set()) by {
                assert(old_v.contains(x@)) by {
                    assert(old_v[i as int] == x@);
                }
            }
            return ;
        }
        proof {
            lemma_str_lt_total(old_v[i as int], x@);
        }
    }
    v.insert(i, x);
    proof {
        let nv = views(v@);
        assert(nv =~= old_v.insert(i as int, x@));
        assert forall|a: int, b: int| 0 <= a < b < nv.len() implies str_lt(nv[a], nv[b]) by {
            if b < i {
            } else if a < i && b == i {
            } else if a < i && b > i {
                assert(str_lt(old_v[a], x@));
                assert(str_lt(x@, old_v[i as int]));
                if b - 1 > i {
                    assert(str_lt(old_v[i as int], old_v[b - 1]));
                    lemma_str_lt_trans(x@, old_v[i as int], old_v[b - 1]);
                }
                lemma_str_lt_trans(old_v[a], x@, old_v[b - 1]);
            } else if a == i {
                assert(str_lt(x@, old_v[i as int]));
                if b - 1 > i {
                    lemma_str_lt_trans(x@, old_v[i as int], old_v[b - 1]);
                }
            } else {
            }
        }
        assert forall|s: Seq<char>| nv.to_set().contains(s) == old_v.to_set().insert(x@).contains(
            s,
        ) by {
            if nv.contains(s) {
                let k = choose|k: int| 0 <= k < nv.len() && nv[k] == s;
                if k < i {
                    assert(old_v[k] == s);
                } else if k > i {
                    assert(old_v[k - 1] == s);
                }
            }
            if old_v.contains(s) {
                let k = choose|k: int| 0 <= k < old_v.len() && old_v[k] == s;
                if k < i {
                    assert(nv[k] == s);
                } else {
                    assert(nv[k + 1] == s);
                }
            }
            if s == x@ {
                assert(nv[i as int] == s);
            }
        }
        assert(nv.to_set() =~= old_v.to_set().insert(x@));
    }
}

} // verus!
