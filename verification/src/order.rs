//! The order of strings, and lists that are sorted and free of repeats.

use crate::text::string_views;
use vstd::prelude::*;

verus! {

/// Whether `a` comes before `b`, or is `b`, in the order of strings:
/// character by character, a proper prefix first.
pub open spec fn lex_le(a: Seq<char>, b: Seq<char>) -> bool
    decreases a.len(),
{
    if a.len() == 0 {
        true
    } else if b.len() == 0 {
        false
    } else if a[0] == b[0] {
        lex_le(a.skip(1), b.skip(1))
    } else {
        a[0] < b[0]
    }
}

/// Whether `a` comes before `b` in the order of strings.
pub open spec fn lex_lt(a: Seq<char>, b: Seq<char>) -> bool {
    lex_le(a, b) && a != b
}

/// Whether no string of `v` comes after a later one.
pub open spec fn sorted(v: Seq<Seq<char>>) -> bool {
    forall|i: int, j: int| 0 <= i < j < v.len() ==> lex_le(v[i], v[j])
}

/// Whether each string of `v` comes before every later one.
pub open spec fn strictly_sorted(v: Seq<Seq<char>>) -> bool {
    forall|i: int, j: int| 0 <= i < j < v.len() ==> lex_lt(v[i], v[j])
}

/// Every string comes no later than itself.
pub proof fn lemma_lex_reflexive(a: Seq<char>)
    ensures
        lex_le(a, a),
    decreases a.len(),
{
    if a.len() > 0 {
        lemma_lex_reflexive(a.skip(1));
    }
}

/// Two strings that each come no later than the other are one string.
pub proof fn lemma_lex_antisymmetric(a: Seq<char>, b: Seq<char>)
    requires
        lex_le(a, b),
        lex_le(b, a),
    ensures
        a == b,
    decreases a.len(),
{
    if a.len() == 0 || b.len() == 0 {
        assert(a =~= b);
    } else {
        lemma_lex_antisymmetric(a.skip(1), b.skip(1));
        assert(a =~= seq![a[0]] + a.skip(1));
        assert(b =~= seq![b[0]] + b.skip(1));
    }
}

/// A list that is sorted without repeats is fixed by the strings it
/// holds: two such lists of the same strings are one list.
pub proof fn lemma_strictly_sorted_unique(a: Seq<Seq<char>>, b: Seq<Seq<char>>)
    requires
        strictly_sorted(a),
        strictly_sorted(b),
        forall|s: Seq<char>| a.contains(s) <==> b.contains(s),
    ensures
        a == b,
    decreases a.len(),
{
    if a.len() == 0 {
        if b.len() > 0 {
            assert(b.contains(b[0]));
        }
        assert(a =~= b);
    } else {
        assert(a.contains(a[0]));
        let k = choose|k: int| 0 <= k < b.len() && b[k] == a[0];
        assert(b.contains(b[0]));
        let m = choose|m: int| 0 <= m < a.len() && a[m] == b[0];
        lemma_lex_reflexive(a[0]);
        assert(lex_le(a[0], b[0])) by {
            if m > 0 {
                assert(lex_lt(a[0], a[m]));
            }
        }
        assert(lex_le(b[0], a[0])) by {
            if k > 0 {
                assert(lex_lt(b[0], b[k]));
            }
        }
        lemma_lex_antisymmetric(a[0], b[0]);
        let ta = a.skip(1);
        let tb = b.skip(1);
        assert forall|s: Seq<char>| ta.contains(s) <==> tb.contains(s) by {
            if ta.contains(s) {
                let i = choose|i: int| 0 <= i < ta.len() && ta[i] == s;
                assert(a[i + 1] == s);
                assert(lex_lt(a[0], a[i + 1]));
                assert(a.contains(s));
                let j = choose|j: int| 0 <= j < b.len() && b[j] == s;
                assert(tb[j - 1] == s);
            }
            if tb.contains(s) {
                let i = choose|i: int| 0 <= i < tb.len() && tb[i] == s;
                assert(b[i + 1] == s);
                assert(lex_lt(b[0], b[i + 1]));
                assert(b.contains(s));
                let j = choose|j: int| 0 <= j < a.len() && a[j] == s;
                assert(ta[j - 1] == s);
            }
        }
        assert(strictly_sorted(ta)) by {
            assert forall|i: int, j: int| 0 <= i < j < ta.len() implies lex_lt(ta[i], ta[j]) by {
                assert(lex_lt(a[i + 1], a[j + 1]));
            }
        }
        assert(strictly_sorted(tb)) by {
            assert forall|i: int, j: int| 0 <= i < j < tb.len() implies lex_lt(tb[i], tb[j]) by {
                assert(lex_lt(b[i + 1], b[j + 1]));
            }
        }
        lemma_strictly_sorted_unique(ta, tb);
        assert(a =~= seq![a[0]] + ta);
        assert(b =~= seq![b[0]] + tb);
    }
}

/// `<[String]>::sort` puts the strings in ascending order, which for
/// strings is the order of their characters' code points, and keeps
/// each string as often as it was there.
#[verifier::external_body]
fn sort_strings(v: &mut Vec<String>)
    ensures
        sorted(string_views(final(v)@)),
        string_views(final(v)@).to_multiset() == string_views(old(v)@).to_multiset(),
{
    v.sort();
}

/// The strings of `v`, sorted, each once.
pub fn sorted_unique(v: Vec<String>) -> (out: Vec<String>)
    ensures
        strictly_sorted(string_views(out@)),
        forall|s: Seq<char>| string_views(out@).contains(s) <==> string_views(v@).contains(s),
{
    let ghost given = string_views(v@);
    let mut v = v;
    sort_strings(&mut v);
    let ghost all = string_views(v@);
    proof {
        given.to_multiset_ensures();
        all.to_multiset_ensures();
        assert forall|s: Seq<char>| all.contains(s) <==> given.contains(s) by {
            assert(all.to_multiset().count(s) == given.to_multiset().count(s));
        }
    }
    let mut out: Vec<String> = Vec::new();
    let mut i: usize = 0;
    while i < v.len()
        invariant
            i <= v.len(),
            all == string_views(v@),
            sorted(all),
            strictly_sorted(string_views(out@)),
            forall|s: Seq<char>|
                string_views(out@).contains(s) <==> all.take(i as int).contains(s),
            i > 0 ==> out.len() > 0 && out@[out.len() - 1]@ == all[i - 1],
        decreases v.len() - i,
    {
        let ghost kept = string_views(out@);
        let ghost seen = all.take(i as int);
        let repeat = i > 0 && v[i] == v[i - 1];
        if !repeat {
            out.push(v[i].clone());
        }
        proof {
            let now = string_views(out@);
            let next = all.take(i + 1);
            let item = all[i as int];
            assert(next =~= seen.push(item));
            assert forall|s: Seq<char>| next.contains(s) <==> (seen.contains(s) || s == item) by {
                if next.contains(s) {
                    let j = choose|j: int| 0 <= j < next.len() && next[j] == s;
                    if j < i {
                        assert(seen[j] == s);
                    }
                }
                if seen.contains(s) {
                    let j = choose|j: int| 0 <= j < seen.len() && seen[j] == s;
                    assert(next[j] == s);
                }
                if s == item {
                    assert(next[i as int] == s);
                }
            }
            if repeat {
                assert(seen[i - 1] == item);
                assert(seen.contains(item));
            } else {
                assert(now =~= kept.push(item));
                assert forall|s: Seq<char>| now.contains(s) <==> (kept.contains(s) || s
                    == item) by {
                    if now.contains(s) {
                        let j = choose|j: int| 0 <= j < now.len() && now[j] == s;
                        if j < kept.len() {
                            assert(kept[j] == s);
                        }
                    }
                    if kept.contains(s) {
                        let j = choose|j: int| 0 <= j < kept.len() && kept[j] == s;
                        assert(now[j] == s);
                    }
                    if s == item {
                        assert(now[kept.len() as int] == s);
                    }
                }
                assert forall|a: int, b: int| 0 <= a < b < now.len() implies lex_lt(
                    now[a],
                    now[b],
                ) by {
                    if b == kept.len() {
                        assert(kept.contains(kept[a]));
                        let j = choose|j: int| 0 <= j < seen.len() && seen[j] == kept[a];
                        assert(all[j] == kept[a]);
                        assert(lex_le(all[j], all[i as int]));
                        if kept[a] == item {
                            assert(lex_le(all[j], all[i - 1]));
                            assert(lex_le(all[i - 1], all[i as int]));
                            lemma_lex_antisymmetric(all[i - 1], item);
                        }
                    } else {
                        assert(lex_lt(kept[a], kept[b]));
                    }
                }
            }
        }
        i += 1;
    }
    proof {
        assert(all.take(v.len() as int) =~= all);
    }
    out
}

} // verus!
