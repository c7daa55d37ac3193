//! Novelty detection: which freshly fetched advisories are not yet stored.
//!
//! Both lists are compared under the identity of [`crate::advisor::Advisor`]:
//! the package name alone, so each list is treated as a set of keys. The
//! difference is directional — a record already stored never comes back,
//! and a stored record missing from the fetched list is never surfaced.
//! Duplicate keys within the fetched list collapse to one representative,
//! the first occurrence, so the result holds at most one record per
//! package name, in the fetched list's order.

use vstd::prelude::*;

use crate::advisor::{Advisor, AdvisorView};

verus! {

/// Whether some record of `c` carries the identity key `k`.
pub open spec fn has_key(c: Seq<AdvisorView>, k: Seq<char>) -> bool {
    exists|j: int| 0 <= j < c.len() && c[j].package_name == k
}

/// The directional difference `latest \ current` under package-name
/// identity: a record of `latest` is kept exactly when its key is absent
/// from `current` and from the records before it in `latest`, so each
/// novel key is represented once, by its first occurrence, in order.
pub open spec fn novel_spec(latest: Seq<AdvisorView>, current: Seq<AdvisorView>) -> Seq<
    AdvisorView,
>
    decreases latest.len(),
{
    if latest.len() == 0 {
        Seq::empty()
    } else {
        let rest = novel_spec(latest.drop_last(), current);
        let a = latest.last();
        if !has_key(current, a.package_name) && !has_key(latest.drop_last(), a.package_name) {
            rest.push(a)
        } else {
            rest
        }
    }
}

/// Appending a record adds exactly its key.
proof fn lemma_has_key_push(s: Seq<AdvisorView>, a: AdvisorView, k: Seq<char>)
    ensures
        has_key(s.push(a), k) <==> (has_key(s, k) || a.package_name == k),
{
    if has_key(s, k) {
        let j = choose|j: int| 0 <= j < s.len() && s[j].package_name == k;
        assert(s.push(a)[j].package_name == k);
    }
    if a.package_name == k {
        assert(s.push(a)[s.len() as int].package_name == k);
    }
    if has_key(s.push(a), k) && a.package_name != k {
        let j = choose|j: int| 0 <= j < s.push(a).len() && s.push(a)[j].package_name == k;
        assert(s[j].package_name == k);
    }
}

/// Whether some record of `c` carries the identity key `k`.
fn contains_key(c: &Vec<Advisor>, k: &String) -> (b: bool)
    ensures
        b == has_key(c.deep_view(), k@),
{
    let mut j: usize = 0;
    while j < c.len()
        invariant
            0 <= j <= c@.len(),
            forall|t: int| 0 <= t < j ==> (#[trigger] c@[t])@.package_name != k@,
        decreases c@.len() - j,
    {
        if c[j].package_name == *k {
            proof {
                assert(c.deep_view()[j as int].package_name == k@);
            }
            return true;
        }
        j = j + 1;
    }
    proof {
        assert forall|t: int| 0 <= t < c.deep_view().len() implies (#[trigger] c.deep_view()[t]).package_name
            != k@ by {
            assert(c@[t]@.package_name != k@);
        }
    }
    false
}

/// The advisories of `latest` that are absent from `current` under
/// package-name identity, one record per novel key — its first occurrence
/// — in the order `latest` has them.
pub fn novel(latest: &Vec<Advisor>, current: &Vec<Advisor>) -> (r: Vec<Advisor>)
    ensures
        r.deep_view() == novel_spec(latest.deep_view(), current.deep_view()),
{
    let ghost l = latest.deep_view();
    let ghost cur = current.deep_view();
    let mut out: Vec<Advisor> = Vec::new();
    let mut i: usize = 0;
    while i < latest.len()
        invariant
            0 <= i <= latest@.len(),
            l == latest.deep_view(),
            cur == current.deep_view(),
            out.deep_view() == novel_spec(l.take(i as int), cur),
            forall|k: Seq<char>| #[trigger]
                has_key(out.deep_view(), k) <==> (has_key(l.take(i as int), k) && !has_key(
                    cur,
                    k,
                )),
        decreases latest@.len() - i,
    {
        let ghost out0 = out.deep_view();
        let a = &latest[i];
        let in_current = contains_key(current, &a.package_name);
        let seen_before = contains_key(&out, &a.package_name);
        let keep = !in_current && !seen_before;
        proof {
            let t1 = l.take(i + 1);
            assert(t1.drop_last() =~= l.take(i as int));
            assert(t1.last() == l[i as int]);
            assert(a@ == l[i as int]);
            // a key seen in `out` is exactly a novel key seen earlier in `latest`
            if !in_current {
                assert(keep == !has_key(l.take(i as int), a@.package_name));
            }
        }
        if keep {
            out.push(a.clone());
            proof {
                assert(out.deep_view() =~= out0.push(a@));
                assert(out.deep_view() == novel_spec(l.take(i + 1), cur));
                assert forall|k: Seq<char>| #[trigger]
                    has_key(out.deep_view(), k) <==> (has_key(l.take(i + 1), k) && !has_key(
                        cur,
                        k,
                    )) by {
                    lemma_has_key_push(out0, a@, k);
                    lemma_has_key_push(l.take(i as int), l[i as int], k);
                    assert(l.take(i + 1) =~= l.take(i as int).push(l[i as int]));
                }
            }
        } else {
            proof {
                assert(out.deep_view() == novel_spec(l.take(i + 1), cur));
                assert forall|k: Seq<char>| #[trigger]
                    has_key(out.deep_view(), k) <==> (has_key(l.take(i + 1), k) && !has_key(
                        cur,
                        k,
                    )) by {
                    lemma_has_key_push(l.take(i as int), l[i as int], k);
                    assert(l.take(i + 1) =~= l.take(i as int).push(l[i as int]));
                }
            }
        }
        i = i + 1;
    }
    proof {
        assert(l.take(latest@.len() as int) =~= l);
    }
    out
}

/// Novelty is directional and collapses duplicates: the result never
/// carries a key that `current` already holds; it holds exactly the keys
/// of `latest` that `current` lacks, each by a record of `latest`; and no
/// two of its records share a key, so a store keyed by package name gains
/// at most one entry per key.
pub proof fn lemma_novel_directional(latest: Seq<AdvisorView>, current: Seq<AdvisorView>)
    ensures
        forall|i: int|
            0 <= i < novel_spec(latest, current).len() ==> !has_key(
                current,
                (#[trigger] novel_spec(latest, current)[i]).package_name,
            ),
        forall|k: Seq<char>| #[trigger]
            has_key(novel_spec(latest, current), k) <==> (has_key(latest, k) && !has_key(
                current,
                k,
            )),
        forall|a: AdvisorView| #[trigger]
            novel_spec(latest, current).contains(a) ==> latest.contains(a),
        forall|i: int, j: int|
            0 <= i < j < novel_spec(latest, current).len() ==> (
            #[trigger] novel_spec(latest, current)[i]).package_name != (
            #[trigger] novel_spec(latest, current)[j]).package_name,
    decreases latest.len(),
{
    let ns = novel_spec(latest, current);
    if latest.len() > 0 {
        let rest = latest.drop_last();
        let a = latest.last();
        lemma_novel_directional(rest, current);
        let nr = novel_spec(rest, current);
        let kept = !has_key(current, a.package_name) && !has_key(rest, a.package_name);

        assert forall|i: int| 0 <= i < ns.len() implies !has_key(
            current,
            (#[trigger] ns[i]).package_name,
        ) by {
            if !(kept && i == ns.len() - 1) {
                assert(ns[i] == nr[i]);
            }
        }

        assert forall|k: Seq<char>| #[trigger]
            has_key(ns, k) <==> (has_key(latest, k) && !has_key(current, k)) by {
            if kept {
                lemma_has_key_push(nr, a, k);
            }
            lemma_has_key_push(rest, a, k);
            assert(latest =~= rest.push(a));
            if has_key(rest, k) && !has_key(current, k) && a.package_name != k {
                assert(has_key(nr, k));
            }
            if a.package_name == k && !kept && !has_key(current, k) {
                // the first occurrence of this key sits in `rest`
                assert(has_key(nr, k));
            }
        }

        assert forall|b: AdvisorView| #[trigger] ns.contains(b) implies latest.contains(b) by {
            let j = choose|j: int| 0 <= j < ns.len() && ns[j] == b;
            if kept && j == ns.len() - 1 {
                assert(latest[latest.len() - 1] == b);
            } else {
                assert(nr.contains(b));
                let t = choose|t: int| 0 <= t < rest.len() && rest[t] == b;
                assert(latest[t] == b);
            }
        }

        assert forall|i: int, j: int| 0 <= i < j < ns.len() implies (
        #[trigger] ns[i]).package_name != (#[trigger] ns[j]).package_name by {
            if kept && j == ns.len() - 1 {
                assert(ns[i] == nr[i]);
                if nr[i].package_name == a.package_name {
                    assert(has_key(nr, a.package_name));
                    assert(has_key(rest, a.package_name));
                }
            }
        }
    }
}

/// No record is novel when every fetched key is already stored.
proof fn lemma_novel_all_known(latest: Seq<AdvisorView>, stored: Seq<AdvisorView>)
    requires
        forall|i: int| 0 <= i < latest.len() ==> has_key(stored, (#[trigger] latest[i]).package_name),
    ensures
        novel_spec(latest, stored) == Seq::<AdvisorView>::empty(),
    decreases latest.len(),
{
    if latest.len() > 0 {
        let rest = latest.drop_last();
        assert forall|i: int| 0 <= i < rest.len() implies has_key(
            stored,
            (#[trigger] rest[i]).package_name,
        ) by {
            assert(rest[i] == latest[i]);
        }
        lemma_novel_all_known(rest, stored);
        assert(has_key(stored, latest.last().package_name));
    }
}

/// Once the store also holds everything the first run found novel, a
/// second look at the same fetched list finds nothing novel at all.
pub proof fn lemma_second_run_nothing_novel(latest: Seq<AdvisorView>, current: Seq<AdvisorView>)
    ensures
        novel_spec(latest, current + novel_spec(latest, current)) == Seq::<AdvisorView>::empty(),
{
    let fresh = novel_spec(latest, current);
    let stored = current + fresh;
    lemma_novel_directional(latest, current);
    assert forall|i: int| 0 <= i < latest.len() implies has_key(
        stored,
        (#[trigger] latest[i]).package_name,
    ) by {
        let k = latest[i].package_name;
        if has_key(current, k) {
            let j = choose|j: int| 0 <= j < current.len() && current[j].package_name == k;
            assert(stored[j].package_name == k);
        } else {
            assert(has_key(latest, k));
            assert(has_key(fresh, k));
            let j = choose|j: int| 0 <= j < fresh.len() && fresh[j].package_name == k;
            assert(stored[current.len() + j].package_name == k);
        }
    }
    lemma_novel_all_known(latest, stored);
}

} // verus!
