//! The Aggregator: tallies how many resolved records each source
//! application contributed, orders the tally ascending by count with
//! first-seen order breaking ties, and renders it as one line per source.
use vstd::prelude::*;
use crate::records::{BloomRecord, RecordView};

verus! {

/// The sequence of application names of a record sequence, in order.
pub open spec fn apps_of(recs: Seq<RecordView>) -> Seq<Seq<char>> {
    Seq::new(recs.len(), |i: int| recs[i].app_name)
}

/// How many times `app` occurs in `apps`.
pub open spec fn count_occ(apps: Seq<Seq<char>>, app: Seq<char>) -> int
    decreases apps.len(),
{
    if apps.len() == 0 {
        0
    } else {
        count_occ(apps.drop_last(), app) + if apps.last() == app { 1int } else { 0int }
    }
}

/// The first position of `app` in `apps` (the length where it is absent).
pub open spec fn first_idx(apps: Seq<Seq<char>>, app: Seq<char>) -> int
    decreases apps.len(),
{
    if apps.len() == 0 {
        0
    } else if apps[0] == app {
        0
    } else {
        1 + first_idx(apps.drop_first(), app)
    }
}

proof fn lemma_count_occ_push(apps: Seq<Seq<char>>, x: Seq<char>, app: Seq<char>)
    ensures
        count_occ(apps.push(x), app) == count_occ(apps, app) + if x == app { 1int } else { 0int },
{
    assert(apps.push(x).drop_last() =~= apps);
    assert(apps.push(x).last() == x);
}

proof fn lemma_first_idx_push(apps: Seq<Seq<char>>, x: Seq<char>, app: Seq<char>)
    ensures
        apps.contains(app) ==> first_idx(apps.push(x), app) == first_idx(apps, app),
        !apps.contains(app) && x == app ==> first_idx(apps.push(x), app) == apps.len(),
    decreases apps.len(),
{
    if apps.len() == 0 {
        if x == app {
            assert(apps.push(x)[0] == app);
        }
    } else {
        assert(apps.push(x).drop_first() =~= apps.drop_first().push(x));
        if apps[0] == app {
            assert(apps.push(x)[0] == app);
        } else {
            lemma_first_idx_push(apps.drop_first(), x, app);
            if apps.contains(app) {
                let k = choose |k: int| 0 <= k < apps.len() && apps[k] == app;
                assert(apps.drop_first()[k - 1] == app);
                assert(apps.drop_first().contains(app));
            }
            if apps.drop_first().contains(app) {
                let k = choose |k: int| 0 <= k < apps.drop_first().len()
                    && apps.drop_first()[k] == app;
                assert(apps[k + 1] == app);
                assert(apps.contains(app));
            }
        }
    }
}

/// Whether some pair of `rv` carries the key `key`.
pub open spec fn has_key(rv: Seq<(Seq<char>, u64)>, key: Seq<char>) -> bool {
    exists|i: int| 0 <= i < rv.len() && (#[trigger] rv[i]).0 == key
}

/// What it is to be the per-source tally of the name sequence `apps`:
/// one pair per distinct name, the pair's count exactly how often the
/// name occurs, every name present, and pairs ordered by first occurrence.
pub open spec fn is_tally(rv: Seq<(Seq<char>, u64)>, apps: Seq<Seq<char>>) -> bool {
    &&& forall|i: int, j: int| 0 <= i < j < rv.len() ==> rv[i].0 != rv[j].0
    &&& forall|i: int| 0 <= i < rv.len() ==> apps.contains(#[trigger] rv[i].0)
    &&& forall|t: int| 0 <= t < apps.len() ==> has_key(rv, #[trigger] apps[t])
    &&& forall|i: int| 0 <= i < rv.len()
        ==> (#[trigger] rv[i].1) as int == count_occ(apps, rv[i].0)
    &&& forall|i: int, j: int| 0 <= i < j < rv.len()
        ==> first_idx(apps, rv[i].0) < first_idx(apps, rv[j].0)
}

/// The per-source tally of `records`, one pair per distinct application
/// name, in first-seen order: the pair's count is exactly how often the
/// name occurs, every name of `records` appears exactly once, and earlier
/// first occurrences come first.
pub fn count_apps(records: &Vec<BloomRecord>) -> (r: Vec<(String, u64)>)
    ensures
        is_tally(r.deep_view(), apps_of(records.deep_view())),
{
    let ghost apps = apps_of(records.deep_view());
    let mut out: Vec<(String, u64)> = Vec::new();
    let mut k: usize = 0;
    while k < records.len()
        invariant
            k <= records.len(),
            apps == apps_of(records.deep_view()),
            apps.len() == records.len(),
            forall|t: int| 0 <= t < apps.len() ==> #[trigger] apps[t] == records.deep_view()[t].app_name,
            forall|i: int, j: int| 0 <= i < j < out.deep_view().len()
                ==> out.deep_view()[i].0 != out.deep_view()[j].0,
            forall|i: int| 0 <= i < out.deep_view().len()
                ==> apps.subrange(0, k as int).contains(#[trigger] out.deep_view()[i].0),
            forall|t: int| 0 <= t < k ==> has_key(out.deep_view(), #[trigger] apps[t]),
            forall|i: int| 0 <= i < out.deep_view().len()
                ==> (#[trigger] out.deep_view()[i].1) as int
                    == count_occ(apps.subrange(0, k as int), out.deep_view()[i].0),
            forall|i: int| 0 <= i < out.deep_view().len()
                ==> (#[trigger] out.deep_view()[i].1) as int <= k as int,
            forall|i: int, j: int| 0 <= i < j < out.deep_view().len()
                ==> first_idx(apps.subrange(0, k as int), out.deep_view()[i].0)
                    < first_idx(apps.subrange(0, k as int), out.deep_view()[j].0),
        decreases records.len() - k,
    {
        let ghost prefix = apps.subrange(0, k as int);
        let ghost next_prefix = apps.subrange(0, k as int + 1);
        proof {
            assert(next_prefix =~= prefix.push(apps[k as int]));
        }
        let app: &String = &records[k].app_name;
        assert(app@ == apps[k as int]);
        let mut j: usize = 0;
        let mut found: bool = false;
        while j < out.len() && !found
            invariant
                j <= out.deep_view().len(),
                out.deep_view().len() == out@.len(),
                !found ==> forall|i: int| 0 <= i < j ==> out.deep_view()[i].0 != app@,
                found ==> j < out.deep_view().len() && out.deep_view()[j as int].0 == app@,
            decreases out@.len() - j + if found { 0int } else { 1int },
        {
            if out[j].0 == *app {
                found = true;
            } else {
                j += 1;
            }
        }
        let ghost rv_old = out.deep_view();
        if found {
            let c: u64 = out[j].1;
            proof {
                assert(rv_old[j as int].1 == c);
                assert(c as int <= k as int);
                assert((k as int) < records@.len());
                assert(records@.len() <= usize::MAX as int);
                assert(c < u64::MAX);
            }
            out[j].1 = c + 1;
            proof {
                let rv = out.deep_view();
                assert(rv.len() == rv_old.len());
                assert forall|i: int| 0 <= i < rv.len() && i != j as int implies #[trigger] rv[i]
                    == rv_old[i] by {
                    assert(out@[i] == out@[i]);
                }
                assert(rv[j as int].0 == rv_old[j as int].0);
                assert(rv[j as int].1 == c + 1);
                assert(rv[j as int].0 == app@);
                assert forall|i: int| 0 <= i < rv.len() implies (#[trigger] rv[i].1) as int
                    == count_occ(next_prefix, rv[i].0) by {
                    lemma_count_occ_push(prefix, apps[k as int], rv[i].0);
                    if i != j as int {
                        assert(rv[i] == rv_old[i]);
                        assert(rv[i].0 != app@);
                    }
                }
                assert forall|i: int, j2: int| 0 <= i < j2 < rv.len() implies first_idx(
                    next_prefix,
                    rv[i].0,
                ) < first_idx(next_prefix, rv[j2].0) by {
                    assert(rv[i].0 == rv_old[i].0);
                    assert(rv[j2].0 == rv_old[j2].0);
                    assert(prefix.contains(rv[i].0));
                    assert(prefix.contains(rv[j2].0));
                    lemma_first_idx_push(prefix, apps[k as int], rv[i].0);
                    lemma_first_idx_push(prefix, apps[k as int], rv[j2].0);
                }
                assert forall|t: int| 0 <= t < k as int + 1 implies has_key(
                    rv,
                    #[trigger] apps[t],
                ) by {
                    if t < k as int {
                        assert(has_key(rv_old, apps[t]));
                        let w = choose|w: int| 0 <= w < rv_old.len() && rv_old[w].0 == apps[t];
                        assert(rv[w].0 == rv_old[w].0);
                    } else {
                        assert(rv[j as int].0 == apps[t]);
                    }
                }
                assert forall|i: int| 0 <= i < rv.len() implies next_prefix.contains(
                    #[trigger] rv[i].0,
                ) by {
                    assert(prefix.contains(rv[i].0));
                    let w = choose|w: int| 0 <= w < prefix.len() && prefix[w] == rv[i].0;
                    assert(next_prefix[w] == rv[i].0);
                }
            }
        } else {
            proof {
                assert forall|i: int| 0 <= i < rv_old.len() implies rv_old[i].0 != app@ by {}
                if prefix.contains(app@) {
                    let t = choose|t: int| 0 <= t < prefix.len() && prefix[t] == app@;
                    assert(apps[t] == app@);
                    assert(has_key(rv_old, apps[t]));
                    let w = choose|w: int| 0 <= w < rv_old.len() && rv_old[w].0 == apps[t];
                    assert(false);
                }
                lemma_count_occ_absent(prefix, app@);
            }
            out.push((app.clone(), 1));
            proof {
                let rv = out.deep_view();
                assert(rv.len() == rv_old.len() + 1);
                assert forall|i: int| 0 <= i < rv_old.len() implies #[trigger] rv[i]
                    == rv_old[i] by {
                    assert(out@[i] == out@[i]);
                }
                assert(rv[rv.len() - 1].0 == app@);
                assert(rv[rv.len() - 1].1 == 1u64);
                assert forall|i: int| 0 <= i < rv.len() implies (#[trigger] rv[i].1) as int
                    == count_occ(next_prefix, rv[i].0) by {
                    lemma_count_occ_push(prefix, apps[k as int], rv[i].0);
                    if i < rv.len() - 1 {
                        assert(rv[i] == rv_old[i]);
                        assert(rv[i].0 != app@);
                    }
                }
                assert forall|i: int| 0 <= i < rv.len() implies next_prefix.contains(
                    #[trigger] rv[i].0,
                ) by {
                    if i < rv.len() - 1 {
                        assert(prefix.contains(rv[i].0));
                        let w = choose|w: int| 0 <= w < prefix.len() && prefix[w] == rv[i].0;
                        assert(next_prefix[w] == rv[i].0);
                    } else {
                        assert(next_prefix[next_prefix.len() - 1] == app@);
                    }
                }
                assert forall|t: int| 0 <= t < k as int + 1 implies has_key(
                    rv,
                    #[trigger] apps[t],
                ) by {
                    if t < k as int {
                        assert(has_key(rv_old, apps[t]));
                        let w = choose|w: int| 0 <= w < rv_old.len() && rv_old[w].0 == apps[t];
                        assert(rv[w].0 == rv_old[w].0);
                    } else {
                        assert(rv[rv.len() - 1].0 == apps[t]);
                    }
                }
                assert forall|i: int, j2: int| 0 <= i < j2 < rv.len() implies first_idx(
                    next_prefix,
                    rv[i].0,
                ) < first_idx(next_prefix, rv[j2].0) by {
                    lemma_first_idx_push(prefix, apps[k as int], rv[i].0);
                    lemma_first_idx_push(prefix, apps[k as int], rv[j2].0);
                    if j2 < rv.len() - 1 {
                        assert(rv[i] == rv_old[i]);
                        assert(rv[j2] == rv_old[j2]);
                        assert(prefix.contains(rv[i].0));
                        assert(prefix.contains(rv[j2].0));
                    } else {
                        assert(rv[i] == rv_old[i]);
                        assert(prefix.contains(rv[i].0));
                        lemma_first_idx_bound(prefix, rv[i].0);
                        assert(rv[j2].0 == app@);
                        assert(!prefix.contains(app@));
                        assert(first_idx(next_prefix, rv[j2].0) == prefix.len());
                    }
                }
            }
        }
        k += 1;
        proof {
            assert(apps.subrange(0, k as int) =~= next_prefix);
        }
    }
    proof {
        assert(apps.subrange(0, k as int) =~= apps);
        assert(is_tally(out.deep_view(), apps));
    }
    out
}

proof fn lemma_count_occ_absent(apps: Seq<Seq<char>>, app: Seq<char>)
    requires
        !apps.contains(app),
    ensures
        count_occ(apps, app) == 0,
    decreases apps.len(),
{
    if apps.len() > 0 {
        assert(apps.last() != app);
        assert forall|t: int| 0 <= t < apps.drop_last().len()
            implies apps.drop_last()[t] != app by {
            assert(apps[t] == apps.drop_last()[t]);
        }
        lemma_count_occ_absent(apps.drop_last(), app);
    }
}

proof fn lemma_first_idx_bound(apps: Seq<Seq<char>>, app: Seq<char>)
    requires
        apps.contains(app),
    ensures
        0 <= first_idx(apps, app) < apps.len(),
    decreases apps.len(),
{
    if apps[0] != app {
        let k = choose|k: int| 0 <= k < apps.len() && apps[k] == app;
        assert(apps.drop_first()[k - 1] == app);
        lemma_first_idx_bound(apps.drop_first(), app);
    }
}

/// Whether the pair `p` occurs in `s`.
pub open spec fn pair_in(s: Seq<(Seq<char>, u64)>, p: (Seq<char>, u64)) -> bool {
    exists|i: int| 0 <= i < s.len() && #[trigger] s[i] == p
}

/// The first position of the pair `p` in `s` (the length where absent).
pub open spec fn pair_pos(s: Seq<(Seq<char>, u64)>, p: (Seq<char>, u64)) -> int
    decreases s.len(),
{
    if s.len() == 0 {
        0
    } else if s[0] == p {
        0
    } else {
        1 + pair_pos(s.drop_first(), p)
    }
}

proof fn lemma_pair_pos_of_index(s: Seq<(Seq<char>, u64)>, k: int)
    requires
        forall|i: int, j: int| 0 <= i < j < s.len() ==> s[i].0 != s[j].0,
        0 <= k < s.len(),
    ensures
        pair_pos(s, s[k]) == k,
    decreases k,
{
    if k == 0 {
        assert(s[0] == s[k]);
    } else {
        assert(s[0].0 != s[k].0);
        assert(s[0] != s[k]);
        let t = s.drop_first();
        assert forall|i: int, j: int| 0 <= i < j < t.len() implies t[i].0 != t[j].0 by {
            assert(t[i] == s[i + 1]);
            assert(t[j] == s[j + 1]);
        }
        assert(t[k - 1] == s[k]);
        lemma_pair_pos_of_index(t, k - 1);
    }
}

proof fn lemma_pair_pos_prefix(s: Seq<(Seq<char>, u64)>, m: int, p: (Seq<char>, u64))
    requires
        0 <= m <= s.len(),
        pair_in(s.subrange(0, m), p),
    ensures
        pair_pos(s, p) == pair_pos(s.subrange(0, m), p) < m,
    decreases m,
{
    let pre = s.subrange(0, m);
    assert(pre.len() == m);
    if s[0] == p {
        assert(pre[0] == p);
    } else {
        assert(pre[0] == s[0]);
        let w = choose|w: int| 0 <= w < pre.len() && pre[w] == p;
        assert(w != 0);
        let t = s.drop_first();
        assert(t.subrange(0, m - 1) =~= pre.drop_first());
        assert(pre.drop_first()[w - 1] == p);
        assert(pair_in(t.subrange(0, m - 1), p));
        lemma_pair_pos_prefix(t, m - 1, p);
    }
}

/// What it is to be the stable ascending-by-count ordering of the tally
/// `v`: the same pairs, counts never decreasing, and pairs of equal count
/// in the relative order `v` gives them.
pub open spec fn is_sorted_tally(rv: Seq<(Seq<char>, u64)>, v: Seq<(Seq<char>, u64)>) -> bool {
    &&& rv.len() == v.len()
    &&& forall|i: int| 0 <= i < rv.len() ==> pair_in(v, #[trigger] rv[i])
    &&& forall|t: int| 0 <= t < v.len() ==> pair_in(rv, #[trigger] v[t])
    &&& forall|i: int, j: int| 0 <= i < j < rv.len() ==> rv[i].1 <= rv[j].1
    &&& forall|i: int, j: int| 0 <= i < j < rv.len() && rv[i].1 == rv[j].1
        ==> pair_pos(v, rv[i]) < pair_pos(v, rv[j])
}

/// Orders a tally ascending by count with an insertion sort that is
/// stable: pairs of equal count keep the relative order of the input.
pub fn sort_by_count(v: &Vec<(String, u64)>) -> (r: Vec<(String, u64)>)
    requires
        forall|i: int, j: int| 0 <= i < j < v.deep_view().len()
            ==> v.deep_view()[i].0 != v.deep_view()[j].0,
    ensures
        is_sorted_tally(r.deep_view(), v.deep_view()),
{
    let ghost vv = v.deep_view();
    let mut out: Vec<(String, u64)> = Vec::new();
    let mut k: usize = 0;
    while k < v.len()
        invariant
            k <= v.len(),
            vv == v.deep_view(),
            vv.len() == v@.len(),
            forall|i: int, j: int| 0 <= i < j < vv.len() ==> vv[i].0 != vv[j].0,
            out.deep_view().len() == k,
            forall|i: int| 0 <= i < out.deep_view().len()
                ==> pair_in(vv.subrange(0, k as int), #[trigger] out.deep_view()[i]),
            forall|t: int| 0 <= t < k ==> pair_in(out.deep_view(), #[trigger] vv[t]),
            forall|i: int, j: int| 0 <= i < j < out.deep_view().len()
                ==> out.deep_view()[i].1 <= out.deep_view()[j].1,
            forall|i: int, j: int| 0 <= i < j < out.deep_view().len()
                && out.deep_view()[i].1 == out.deep_view()[j].1
                ==> pair_pos(vv, out.deep_view()[i]) < pair_pos(vv, out.deep_view()[j]),
        decreases v.len() - k,
    {
        let c: u64 = v[k].1;
        let ghost x = vv[k as int];
        assert(v@[k as int].deep_view() == x);
        assert(x.1 == c);
        let mut idx: usize = 0;
        while idx < out.len() && out[idx].1 <= c
            invariant
                idx <= out@.len(),
                out.deep_view().len() == out@.len(),
                forall|i: int| 0 <= i < idx ==> out.deep_view()[i].1 <= c,
            decreases out@.len() - idx,
        {
            idx += 1;
        }
        let ghost rv_old = out.deep_view();
        let ghost sv_old = out@;
        proof {
            assert(idx as int == rv_old.len() || rv_old[idx as int].1 > c);
        }
        let name_clone = v[k].0.clone();
        let xe = (name_clone, c);
        let ghost xev = xe;
        proof {
            assert(xev.deep_view() == x);
        }
        out.insert(idx, xe);
        proof {
            let rv = out.deep_view();
            let d = idx as int;
            sv_old.insert_ensures(d, xev);
            assert(out@ == sv_old.insert(d, xev));
            assert(rv.len() == rv_old.len() + 1);
            assert forall|i: int| 0 <= i < d implies #[trigger] rv[i] == rv_old[i] by {
                assert(out@[i] == sv_old[i]);
            }
            assert(rv[d] == x) by {
                assert(out@[d] == xev);
            }
            assert forall|i: int| d < i < rv.len() implies #[trigger] rv[i] == rv_old[i - 1] by {
                assert(out@[i] == sv_old[i - 1]);
            }
            let pre = vv.subrange(0, k as int);
            let pre1 = vv.subrange(0, k as int + 1);
            assert(pre1 =~= pre.push(vv[k as int]));
            // every pair of the new row set comes from the first k + 1 input pairs
            assert forall|i: int| 0 <= i < rv.len() implies pair_in(pre1, #[trigger] rv[i]) by {
                if i == d {
                    assert(pre1[k as int] == x);
                } else {
                    let o = if i < d { i } else { i - 1 };
                    assert(rv[i] == rv_old[o]);
                    assert(pair_in(pre, rv_old[o]));
                    let w = choose|w: int| 0 <= w < pre.len() && pre[w] == rv_old[o];
                    assert(pre1[w] == rv_old[o]);
                }
            }
            // every one of the first k + 1 input pairs is among the rows
            assert forall|t: int| 0 <= t < k as int + 1 implies pair_in(rv, #[trigger] vv[t]) by {
                if t == k as int {
                    assert(rv[d] == vv[t]);
                } else {
                    assert(pair_in(rv_old, vv[t]));
                    let w = choose|w: int| 0 <= w < rv_old.len() && rv_old[w] == vv[t];
                    let w2 = if w < d { w } else { w + 1 };
                    assert(rv[w2] == vv[t]);
                }
            }
            // counts stay ascending across the insertion point
            assert forall|i: int, j: int| 0 <= i < j < rv.len() implies rv[i].1 <= rv[j].1 by {
                if i < d && j == d {
                    assert(rv[i] == rv_old[i]);
                } else if i == d && j > d {
                    assert(rv[j] == rv_old[j - 1]);
                    assert(rv_old[idx as int].1 > c);
                    if j - 1 > d {
                        assert(rv_old[d].1 <= rv_old[j - 1].1);
                    }
                } else if i < d && j > d {
                    assert(rv[i] == rv_old[i]);
                    assert(rv[j] == rv_old[j - 1]);
                    assert(rv[i].1 <= c);
                    assert(rv_old[idx as int].1 > c);
                    if j - 1 > d {
                        assert(rv_old[d].1 <= rv_old[j - 1].1);
                    }
                } else {
                    let oi = if i < d { i } else { i - 1 };
                    let oj = if j < d { j } else { j - 1 };
                    assert(rv[i] == rv_old[oi]);
                    assert(rv[j] == rv_old[oj]);
                }
            }
            // equal counts keep the input's relative order
            assert forall|i: int, j: int| 0 <= i < j < rv.len() && rv[i].1 == rv[j].1 implies
                pair_pos(vv, rv[i]) < pair_pos(vv, rv[j]) by {
                lemma_pair_pos_of_index(vv, k as int);
                if j == d {
                    assert(rv[i] == rv_old[i]);
                    assert(pair_in(pre, rv_old[i]));
                    lemma_pair_pos_prefix(vv, k as int, rv_old[i]);
                } else if i == d {
                    assert(rv[j] == rv_old[j - 1]);
                    assert(rv_old[idx as int].1 > c);
                    if j - 1 > d {
                        assert(rv_old[d].1 <= rv_old[j - 1].1);
                    }
                    assert(false);
                } else {
                    let oi = if i < d { i } else { i - 1 };
                    let oj = if j < d { j } else { j - 1 };
                    assert(rv[i] == rv_old[oi]);
                    assert(rv[j] == rv_old[oj]);
                    assert(oi < oj);
                }
            }
        }
        k += 1;
    }
    proof {
        assert(vv.subrange(0, k as int) =~= vv);
    }
    out
}

/// The rendered summary line of one tally pair: the name, the count, and
/// `entry` for a count of one, `entries` otherwise.
pub open spec fn line_of(p: (Seq<char>, u64)) -> Seq<char> {
    p.0 + ": "@ + crate::numerals::dec_str(p.1 as int) + if p.1 == 1 {
        " entry\n"@
    } else {
        " entries\n"@
    }
}

/// Law of the noun form: a summary line carries the singular noun exactly
/// where its count is one.
pub proof fn lemma_line_plurality(p: (Seq<char>, u64))
    ensures
        p.1 == 1 ==> line_of(p) == p.0 + ": "@ + crate::numerals::dec_str(p.1 as int)
            + " entry\n"@,
        p.1 != 1 ==> line_of(p) == p.0 + ": "@ + crate::numerals::dec_str(p.1 as int)
            + " entries\n"@,
{
}

/// The rendered summary of a pair sequence: one line per pair, in order.
pub open spec fn summary_of(ps: Seq<(Seq<char>, u64)>) -> Seq<char>
    decreases ps.len(),
{
    if ps.len() == 0 {
        Seq::empty()
    } else {
        summary_of(ps.drop_last()) + line_of(ps.last())
    }
}

/// Renders each tally pair as one newline-terminated line, in the order
/// given.
pub fn render_summary(pairs: &Vec<(String, u64)>) -> (r: String)
    ensures
        r@ == summary_of(pairs.deep_view()),
{
    let ghost dv = pairs.deep_view();
    let mut s = String::new();
    let mut k: usize = 0;
    while k < pairs.len()
        invariant
            k <= pairs.len(),
            dv == pairs.deep_view(),
            dv.len() == pairs@.len(),
            s@ == summary_of(dv.subrange(0, k as int)),
        decreases pairs.len() - k,
    {
        s.append(pairs[k].0.as_str());
        s.append(": ");
        let count_text = crate::numerals::format_u64(pairs[k].1);
        s.append(count_text.as_str());
        if pairs[k].1 == 1 {
            s.append(" entry\n");
        } else {
            s.append(" entries\n");
        }
        proof {
            let pre1 = dv.subrange(0, k as int + 1);
            assert(pre1.drop_last() =~= dv.subrange(0, k as int));
            assert(pre1.last() == dv[k as int]);
            assert(s@ =~= summary_of(pre1));
        }
        k += 1;
    }
    proof {
        assert(dv.subrange(0, k as int) =~= dv);
    }
    s
}

/// Tallies the records per source application, orders the tally ascending
/// by count (ties in first-seen order), and renders it one line per
/// source: the full Aggregator.
pub fn calculate_stats(bloom_data: &Vec<BloomRecord>) -> (r: String)
    ensures
        exists|tally: Seq<(Seq<char>, u64)>, ordered: Seq<(Seq<char>, u64)>|
            {
                &&& #[trigger] is_tally(tally, apps_of(bloom_data.deep_view()))
                &&& #[trigger] is_sorted_tally(ordered, tally)
                &&& r@ == summary_of(ordered)
            },
{
    let tally = count_apps(bloom_data);
    let ordered = sort_by_count(&tally);
    let rendered = render_summary(&ordered);
    proof {
        assert(is_tally(tally.deep_view(), apps_of(bloom_data.deep_view()))
            && is_sorted_tally(ordered.deep_view(), tally.deep_view())
            && rendered@ == summary_of(ordered.deep_view()));
    }
    rendered
}

} // verus!
