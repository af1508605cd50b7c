//! The diff engine: which inputs changed, and which update rule handles
//! the change.
//!
//! `find_modified` computes the set of input keys that differ between the
//! prior and the planned declaration, as a sorted key list so that
//! downstream messages are reproducible.  `find_update` selects the update
//! rule whose trigger set covers the modified keys, preferring the most
//! specific rule and, among equals, the first declared.

use vstd::prelude::*;

use crate::blocks::{key_set, KeySet, UpdateSpec, UpdateSpecV};
use crate::dict::{dict_contains, dict_keys, dict_value, dict_wf, Dict};
use crate::state::StrDictV;
use crate::text::{
    chars_lt, lemma_chars_lt_connex, lemma_chars_lt_irreflexive, lemma_chars_lt_transitive,
};
use crate::value::Value;

verus! {

/// The views of a list of strings.
pub open spec fn str_views(v: Seq<String>) -> Seq<Seq<char>> {
    v.map_values(|s: String| s@)
}

/// Whether a key list is strictly ascending in lexicographic order.
pub open spec fn strict_sorted(ks: Seq<Seq<char>>) -> bool {
    forall|i: int, j: int| 0 <= i < j < ks.len() ==> chars_lt(ks[i], ks[j])
}

/// Whether key `k` counts as modified between two known mappings: present
/// on one side only, or present on both with different values.
pub open spec fn entry_modified(state: StrDictV, plan: StrDictV, k: Seq<char>) -> bool {
    ||| (dict_contains(state, k) != dict_contains(plan, k))
    ||| (dict_contains(state, k) && dict_contains(plan, k) && dict_value(state, k)
        != dict_value(plan, k))
}

/// The set of modified input keys.  When only one side is a known mapping
/// every key of that side is modified (conservative); when neither is, the
/// set is empty.
pub open spec fn modified_keys(state: Value<StrDictV>, plan: Value<StrDictV>) -> Set<Seq<char>> {
    match (state, plan) {
        (Value::Known(s), Value::Known(p)) => Set::new(|k: Seq<char>| entry_modified(s, p, k)),
        (Value::Known(s), _) => dict_keys(s),
        (_, Value::Known(p)) => dict_keys(p),
        _ => Set::empty(),
    }
}

/// The modified key set is symmetric in its two arguments.
pub proof fn lemma_modified_keys_symmetric(state: Value<StrDictV>, plan: Value<StrDictV>)
    ensures
        modified_keys(state, plan) == modified_keys(plan, state),
{
    assert(modified_keys(state, plan) =~= modified_keys(plan, state));
}

/// Every modified key comes from one of the two key sets.
pub proof fn lemma_modified_keys_in_union(state: Value<StrDictV>, plan: Value<StrDictV>)
    ensures
        forall|k: Seq<char>| #[trigger]
            modified_keys(state, plan).contains(k) ==> (match state {
                Value::Known(s) => dict_contains(s, k),
                _ => false,
            } || match plan {
                Value::Known(p) => dict_contains(p, k),
                _ => false,
            }),
{
}

/// Between two known mappings, the modified key set is empty exactly when
/// they denote the same mapping.
pub proof fn lemma_modified_keys_empty_iff_equal(state: StrDictV, plan: StrDictV)
    ensures
        modified_keys(Value::Known(state), Value::Known(plan)) =~= Set::<Seq<char>>::empty()
            <==> crate::dict::dict_map(state) =~= crate::dict::dict_map(plan),
{
    let m = modified_keys(Value::Known(state), Value::Known(plan));
    let ms = crate::dict::dict_map(state);
    let mp = crate::dict::dict_map(plan);
    if m =~= Set::<Seq<char>>::empty() {
        assert forall|k: Seq<char>| #![auto] ms.dom().contains(k) <==> mp.dom().contains(k) by {
            assert(!m.contains(k));
            assert(!entry_modified(state, plan, k));
        }
        assert forall|k: Seq<char>| #[trigger]
            ms.dom().contains(k) implies ms[k] == mp[k] by {
            assert(!m.contains(k));
            assert(!entry_modified(state, plan, k));
            assert(dict_contains(state, k) && dict_contains(plan, k));
        }
        assert(ms =~= mp);
    }
    if ms =~= mp {
        assert forall|k: Seq<char>| !(#[trigger] m.contains(k)) by {
            if entry_modified(state, plan, k) {
                assert(ms.dom().contains(k) == dict_contains(state, k));
                assert(mp.dom().contains(k) == dict_contains(plan, k));
                if dict_contains(state, k) && dict_contains(plan, k) {
                    assert(ms[k] == dict_value(state, k));
                    assert(mp[k] == dict_value(plan, k));
                }
            }
        }
        assert(m =~= Set::<Seq<char>>::empty());
    }
}

/// Collect the modified keys, in prior-then-planned declaration order.
fn collect_modified(state: &Dict<Value<String>>, plan: &Dict<Value<String>>) -> (r: Vec<String>)
    requires
        dict_wf(state@),
        dict_wf(plan@),
    ensures
        forall|a: int, b: int| 0 <= a < b < r@.len() ==> r@[a]@ != r@[b]@,
        forall|a: int| #![auto]
            0 <= a < r@.len() ==> entry_modified(state@, plan@, r@[a]@),
        forall|k: Seq<char>| #[trigger]
            entry_modified(state@, plan@, k) ==> str_views(r@).contains(k),
{
    let mut r: Vec<String> = Vec::new();
    let n = state.entries.len();
    let mut i: usize = 0;
    while i < n
        invariant
            dict_wf(state@),
            dict_wf(plan@),
            n == state.entries@.len(),
            i <= n,
            forall|a: int, b: int| 0 <= a < b < r@.len() ==> r@[a]@ != r@[b]@,
            forall|a: int| #![auto]
                0 <= a < r@.len() ==> entry_modified(state@, plan@, r@[a]@) && dict_contains(
                    state@,
                    r@[a]@,
                ),
            forall|a: int|
                0 <= a < r@.len() ==> exists|c: int| 0 <= c < i && #[trigger] r@[a]@
                    == state@[c].0,
            forall|j: int| #![auto]
                0 <= j < i && entry_modified(state@, plan@, state@[j].0) ==> str_views(
                    r@,
                ).contains(state@[j].0),
        decreases n - i,
    {
        let k = &state.entries[i].0;
        proof {
            crate::dict::lemma_dict_value_at(state@, i as int);
        }
        let modified = match plan.get(k) {
            Some(y) => !state.entries[i].1.same(y),
            None => true,
        };
        if modified {
            let ghost old_r = r@;
            r.push(k.clone());
            proof {
                assert(str_views(r@) =~= str_views(old_r).push(k@));
                assert forall|a: int, b: int| 0 <= a < b < r@.len() implies r@[a]@ != r@[b]@ by {
                    if b == r@.len() - 1 {
                        let c = choose|c: int| 0 <= c < i && old_r[a]@ == state@[c].0;
                        assert(state@[c].0 != state@[i as int].0);
                    }
                }
                assert forall|a: int|
                    0 <= a < r@.len() implies exists|c: int|
                        0 <= c < i + 1 && #[trigger] r@[a]@ == state@[c].0 by {
                    if a < r@.len() - 1 {
                        let c = choose|c: int| 0 <= c < i && old_r[a]@ == state@[c].0;
                        assert(0 <= c < i + 1 && r@[a]@ == state@[c].0);
                    } else {
                        assert(r@[a]@ == state@[i as int].0);
                    }
                }
                assert forall|j: int|
                    0 <= j < i + 1 && entry_modified(
                        state@,
                        plan@,
                        state@[j].0,
                    ) implies str_views(r@).contains(state@[j].0) by {
                    if j < i {
                        assert(str_views(old_r).contains(state@[j].0));
                        let idx = choose|idx: int|
                            0 <= idx < str_views(old_r).len() && str_views(old_r)[idx]
                                == state@[j].0;
                        assert(str_views(r@)[idx] == state@[j].0);
                    } else {
                        assert(str_views(r@).last() == k@);
                    }
                }
            }
        } else {
            proof {
                assert(!entry_modified(state@, plan@, state@[i as int].0));
            }
        }
        i = i + 1;
    }
    let m = plan.entries.len();
    let mut j: usize = 0;
    while j < m
        invariant
            dict_wf(state@),
            dict_wf(plan@),
            m == plan.entries@.len(),
            j <= m,
            forall|a: int, b: int| 0 <= a < b < r@.len() ==> r@[a]@ != r@[b]@,
            forall|a: int| #![auto]
                0 <= a < r@.len() ==> entry_modified(state@, plan@, r@[a]@),
            forall|a: int| #![auto]
                0 <= a < r@.len() ==> dict_contains(state@, r@[a]@) || (exists|c: int|
                    0 <= c < j && r@[a]@ == plan@[c].0),
            forall|k: Seq<char>| #[trigger]
                entry_modified(state@, plan@, k) && dict_contains(state@, k) ==> str_views(
                    r@,
                ).contains(k),
            forall|b: int| #![auto]
                0 <= b < j && entry_modified(state@, plan@, plan@[b].0) ==> str_views(r@).contains(
                    plan@[b].0,
                ),
        decreases m - j,
    {
        let k = &plan.entries[j].0;
        proof {
            crate::dict::lemma_dict_value_at(plan@, j as int);
        }
        if state.index_of(k).is_none() {
            let ghost old_r = r@;
            r.push(k.clone());
            proof {
                assert(str_views(r@) =~= str_views(old_r).push(k@));
                assert forall|a: int, b: int| 0 <= a < b < r@.len() implies r@[a]@ != r@[b]@ by {
                    if b == r@.len() - 1 {
                        if !dict_contains(state@, old_r[a]@) {
                            let c = choose|c: int| 0 <= c < j && old_r[a]@ == plan@[c].0;
                            assert(plan@[c].0 != plan@[j as int].0);
                        }
                    }
                }
                assert forall|a: int| #![auto]
                    0 <= a < r@.len() implies dict_contains(state@, r@[a]@) || (exists|c: int|
                        0 <= c < j + 1 && r@[a]@ == plan@[c].0) by {
                    if a == r@.len() - 1 {
                        assert(r@[a]@ == plan@[j as int].0);
                    } else {
                        if !dict_contains(state@, old_r[a]@) {
                            let c = choose|c: int| 0 <= c < j && old_r[a]@ == plan@[c].0;
                            assert(0 <= c < j + 1 && r@[a]@ == plan@[c].0);
                        }
                    }
                }
                assert forall|kk: Seq<char>| #[trigger]
                    entry_modified(state@, plan@, kk) && dict_contains(
                        state@,
                        kk,
                    ) implies str_views(r@).contains(kk) by {
                    assert(str_views(old_r).contains(kk));
                    let idx = choose|idx: int|
                        0 <= idx < str_views(old_r).len() && str_views(old_r)[idx] == kk;
                    assert(str_views(r@)[idx] == kk);
                }
                assert forall|b: int|
                    0 <= b < j + 1 && entry_modified(
                        state@,
                        plan@,
                        plan@[b].0,
                    ) implies str_views(r@).contains(plan@[b].0) by {
                    if b < j {
                        assert(str_views(old_r).contains(plan@[b].0));
                        let idx = choose|idx: int|
                            0 <= idx < str_views(old_r).len() && str_views(old_r)[idx]
                                == plan@[b].0;
                        assert(str_views(r@)[idx] == plan@[b].0);
                    } else {
                        assert(str_views(r@).last() == k@);
                    }
                }
            }
        }
        j = j + 1;
    }
    proof {
        assert forall|k: Seq<char>| #[trigger]
            entry_modified(state@, plan@, k) implies str_views(r@).contains(k) by {
            if dict_contains(state@, k) {
            } else {
                assert(dict_contains(plan@, k));
            }
        }
    }
    r
}

/// Collect every key of a known mapping.
fn collect_keys(d: &Dict<Value<String>>) -> (r: Vec<String>)
    requires
        dict_wf(d@),
    ensures
        forall|a: int, b: int| 0 <= a < b < r@.len() ==> r@[a]@ != r@[b]@,
        str_views(r@).to_set() =~= dict_keys(d@),
{
    let n = d.entries.len();
    let mut r: Vec<String> = Vec::new();
    let mut i: usize = 0;
    while i < n
        invariant
            dict_wf(d@),
            n == d.entries@.len(),
            i <= n,
            r@.len() == i,
            forall|a: int| #![auto] 0 <= a < i ==> r@[a]@ == d@[a].0,
        decreases n - i,
    {
        r.push(d.entries[i].0.clone());
        i = i + 1;
    }
    proof {
        assert forall|k: Seq<char>| #[trigger]
            dict_keys(d@).contains(k) implies str_views(r@).to_set().contains(k) by {
            let idx = choose|idx: int| 0 <= idx < d@.len() && d@[idx].0 == k;
            assert(str_views(r@)[idx] == k);
        }
        assert(str_views(r@).to_set() =~= dict_keys(d@));
    }
    r
}

/// Sort a list of distinct keys into strictly ascending order.
fn sort_keys(v: Vec<String>) -> (r: Vec<String>)
    requires
        forall|a: int, b: int| 0 <= a < b < v@.len() ==> v@[a]@ != v@[b]@,
    ensures
        strict_sorted(str_views(r@)),
        str_views(r@).to_set() =~= str_views(v@).to_set(),
        r@.len() == v@.len(),
{
    let n = v.len();
    let mut r: Vec<String> = Vec::new();
    let mut i: usize = 0;
    while i < n
        invariant
            n == v@.len(),
            i <= n,
            r@.len() == i,
            forall|a: int, b: int| 0 <= a < b < v@.len() ==> v@[a]@ != v@[b]@,
            strict_sorted(str_views(r@)),
            str_views(r@).to_set() =~= str_views(v@.subrange(0, i as int)).to_set(),
        decreases n - i,
    {
        let x = v[i].clone();
        proof {
            assert(x@ == str_views(v@)[i as int]);
            if str_views(r@).to_set().contains(x@) {
                let idx = choose|idx: int|
                    0 <= idx < i && str_views(v@.subrange(0, i as int))[idx] == x@;
                assert(v@[idx]@ == x@);
                assert(false);
            }
        }
        let mut j: usize = 0;
        let rn = r.len();
        let mut scanning = true;
        while scanning && j < rn
            invariant
                rn == r@.len(),
                j <= rn,
                forall|a: int| #![auto] 0 <= a < j ==> chars_lt(str_views(r@)[a], x@),
                !scanning ==> j < rn && !chars_lt(str_views(r@)[j as int], x@),
            decreases rn - j + (if scanning { 1int } else { 0int }),
        {
            if crate::text::str_lt(r[j].as_str(), x.as_str()) {
                proof {
                    assert(str_views(r@)[j as int] == r@[j as int]@);
                }
                j = j + 1;
            } else {
                proof {
                    assert(str_views(r@)[j as int] == r@[j as int]@);
                }
                scanning = false;
            }
        }
        proof {
            if j < r@.len() {
                assert(!chars_lt(str_views(r@)[j as int], x@));
                lemma_chars_lt_connex(str_views(r@)[j as int], x@);
                assert(!str_views(r@).to_set().contains(x@));
                if str_views(r@)[j as int] =~= x@ {
                    assert(str_views(r@).to_set().contains(x@));
                }
                assert(chars_lt(x@, str_views(r@)[j as int]));
            }
        }
        let ghost old_views = str_views(r@);
        r.insert(j, x);
        proof {
            assert(str_views(r@) =~= old_views.insert(j as int, x@));
            let nv = str_views(r@);
            assert forall|a: int, b: int| 0 <= a < b < nv.len() implies chars_lt(nv[a], nv[b]) by {
                let ja = j as int;
                if a < ja && b == ja {
                } else if a == ja && b > ja {
                    if !chars_lt(x@, old_views[b - 1]) {
                        assert(chars_lt(x@, old_views[ja]));
                        if b - 1 > ja {
                            lemma_chars_lt_transitive(x@, old_views[ja], old_views[b - 1]);
                        }
                        assert(false);
                    }
                } else if a < ja && b > ja {
                    assert(chars_lt(old_views[a], old_views[b - 1]));
                } else if a > ja && b > ja {
                    assert(chars_lt(old_views[a - 1], old_views[b - 1]));
                } else {
                    assert(chars_lt(old_views[a], old_views[b]));
                }
            }
            assert(str_views(v@.subrange(0, i as int + 1)) =~= str_views(
                v@.subrange(0, i as int),
            ).push(x@));
            let pre = str_views(v@.subrange(0, i as int));
            let post = str_views(v@.subrange(0, i as int + 1));
            assert forall|k: Seq<char>| #![auto]
                nv.to_set().contains(k) implies post.to_set().contains(k) by {
                let idx = choose|idx: int| 0 <= idx < nv.len() && nv[idx] == k;
                if idx == j as int {
                    assert(post[post.len() - 1] == x@);
                    assert(post.contains(k));
                } else {
                    let oidx: int = if idx < j as int { idx } else { idx - 1 };
                    assert(old_views[oidx] == k);
                    assert(old_views.contains(k));
                    assert(pre.to_set().contains(k));
                    let d = choose|d: int| 0 <= d < pre.len() && pre[d] == k;
                    assert(post[d] == k);
                    assert(post.contains(k));
                }
            }
            assert forall|k: Seq<char>| #![auto]
                post.to_set().contains(k) implies nv.to_set().contains(k) by {
                let idx = choose|idx: int| 0 <= idx < post.len() && post[idx] == k;
                if idx == post.len() - 1 {
                    assert(nv[j as int] == x@);
                    assert(nv.contains(k));
                } else {
                    assert(pre[idx] == k);
                    assert(pre.contains(k));
                    assert(old_views.to_set().contains(k));
                    let d = choose|d: int| 0 <= d < old_views.len() && old_views[d] == k;
                    if d < j as int {
                        assert(nv[d] == k);
                    } else {
                        assert(nv[d + 1] == k);
                    }
                    assert(nv.contains(k));
                }
            }
            assert(str_views(r@).to_set() =~= str_views(v@.subrange(0, i as int + 1)).to_set());
        }
        i = i + 1;
    }
    proof {
        assert(v@.subrange(0, n as int) =~= v@);
    }
    r
}

/// The modified keys between the prior and the planned inputs, as a
/// strictly ascending key list (deterministic and duplicate-free).
pub fn find_modified(state: &Value<Dict<Value<String>>>, plan: &Value<Dict<Value<String>>>) -> (r:
    Vec<String>)
    requires
        state@ matches Value::Known(d) ==> dict_wf(d),
        plan@ matches Value::Known(d) ==> dict_wf(d),
    ensures
        strict_sorted(str_views(r@)),
        str_views(r@).to_set() =~= modified_keys(state@, plan@),
        forall|a: int, b: int| 0 <= a < b < r@.len() ==> r@[a]@ != r@[b]@,
{
    let collected: Vec<String> = match (state, plan) {
        (Value::Known(s), Value::Known(p)) => {
            let c = collect_modified(s, p);
            proof {
                assert forall|k: Seq<char>| #[trigger]
                    str_views(c@).to_set().contains(k) implies modified_keys(
                    state@,
                    plan@,
                ).contains(k) by {
                    let idx = choose|idx: int|
                        0 <= idx < str_views(c@).len() && str_views(c@)[idx] == k;
                    assert(entry_modified(s@, p@, c@[idx]@));
                }
                assert(str_views(c@).to_set() =~= modified_keys(state@, plan@));
            }
            c
        },
        (_, Value::Known(p)) => collect_keys(p),
        (Value::Known(s), _) => collect_keys(s),
        _ => Vec::new(),
    };
    let r = sort_keys(collected);
    proof {
        let nv = str_views(r@);
        assert forall|a: int, b: int| 0 <= a < b < r@.len() implies r@[a]@ != r@[b]@ by {
            assert(chars_lt(nv[a], nv[b]));
            lemma_chars_lt_irreflexive(nv[a]);
        }
    }
    r
}

/// Two strictly sorted key lists with the same elements are the same
/// list: the sorted form of a key set is unique.
pub proof fn lemma_strict_sorted_unique(a: Seq<Seq<char>>, b: Seq<Seq<char>>)
    requires
        strict_sorted(a),
        strict_sorted(b),
        a.to_set() =~= b.to_set(),
    ensures
        a =~= b,
    decreases a.len(),
{
    if a.len() == 0 {
        if b.len() > 0 {
            assert(b.to_set().contains(b[0]));
        }
    } else if b.len() == 0 {
        assert(a.to_set().contains(a[0]));
    } else {
        assert(a.to_set().contains(a[0]));
        assert(b.to_set().contains(b[0]));
        let j = choose|j: int| 0 <= j < b.len() && b[j] == a[0];
        let k = choose|k: int| 0 <= k < a.len() && a[k] == b[0];
        if j > 0 && k > 0 {
            assert(chars_lt(b[0], b[j]));
            assert(chars_lt(a[0], a[k]));
            lemma_chars_lt_transitive(b[0], a[0], b[0]);
            lemma_chars_lt_irreflexive(b[0]);
        }
        assert(a[0] == b[0]);
        let at = a.skip(1);
        let bt = b.skip(1);
        assert forall|x: Seq<char>| #![auto]
            at.to_set().contains(x) == bt.to_set().contains(x) by {
            if at.to_set().contains(x) {
                let idx = choose|idx: int| 0 <= idx < at.len() && at[idx] == x;
                assert(a[idx + 1] == x);
                assert(chars_lt(a[0], x));
                assert(a.to_set().contains(x));
                assert(b.to_set().contains(x));
                let bidx = choose|bidx: int| 0 <= bidx < b.len() && b[bidx] == x;
                if bidx == 0 {
                    lemma_chars_lt_irreflexive(x);
                }
                assert(bt[bidx - 1] == x);
                assert(bt.to_set().contains(x));
            }
            if bt.to_set().contains(x) {
                let idx = choose|idx: int| 0 <= idx < bt.len() && bt[idx] == x;
                assert(b[idx + 1] == x);
                assert(chars_lt(b[0], x));
                assert(b.to_set().contains(x));
                assert(a.to_set().contains(x));
                let aidx = choose|aidx: int| 0 <= aidx < a.len() && a[aidx] == x;
                if aidx == 0 {
                    lemma_chars_lt_irreflexive(x);
                }
                assert(at[aidx - 1] == x);
                assert(at.to_set().contains(x));
            }
        }
        assert(at.to_set() =~= bt.to_set());
        assert forall|i: int, jj: int| 0 <= i < jj < at.len() implies chars_lt(at[i], at[jj]) by {
            assert(at[i] == a[i + 1] && at[jj] == a[jj + 1]);
        }
        assert forall|i: int, jj: int| 0 <= i < jj < bt.len() implies chars_lt(bt[i], bt[jj]) by {
            assert(bt[i] == b[i + 1] && bt[jj] == b[jj + 1]);
        }
        lemma_strict_sorted_unique(at, bt);
        assert forall|i: int| 0 <= i < a.len() implies a[i] == b[i] by {
            if i > 0 {
                assert(a[i] == at[i - 1] && b[i] == bt[i - 1]);
            }
        }
    }
}

/// The declared trigger keys of an update rule, as a set.
pub open spec fn trigger_set(u: UpdateSpecV) -> Set<Seq<char>> {
    match u.triggers {
        Value::Known(ks) => key_set(ks),
        _ => Set::empty(),
    }
}

/// Whether an update rule is a catch-all: its trigger set is empty or
/// absent.
pub open spec fn is_catch_all(u: UpdateSpecV) -> bool {
    match u.triggers {
        Value::Known(ks) => ks.len() == 0,
        _ => true,
    }
}

/// Whether an update rule can handle the given modified keys: it is a
/// catch-all, or its triggers cover every modified key.
pub open spec fn is_candidate(u: UpdateSpecV, modified: Set<Seq<char>>) -> bool {
    is_catch_all(u) || modified.subset_of(trigger_set(u))
}

/// How specific an update rule is: the number of declared trigger keys
/// (0 for a catch-all).  Smaller is more specific for the tie-break.
pub open spec fn update_weight(u: UpdateSpecV) -> nat {
    match u.triggers {
        Value::Known(ks) => ks.len(),
        _ => 0,
    }
}

/// Whether entry `i` of the update list is a candidate for the modified
/// keys.
pub open spec fn candidate_at(
    l: Seq<Value<UpdateSpecV>>,
    modified: Set<Seq<char>>,
    i: int,
) -> bool {
    0 <= i < l.len() && (l[i] matches Value::Known(u) && is_candidate(u, modified))
}

/// The weight of entry `i` of the update list.
pub open spec fn weight_at(l: Seq<Value<UpdateSpecV>>, i: int) -> nat
    recommends
        0 <= i < l.len(),
        l[i] is Known,
{
    update_weight(l[i]->Known_0)
}

/// Whether entry `i` is the selected update rule: a candidate of minimal
/// weight, earliest among the candidates of that weight.
pub open spec fn selected_update(
    l: Seq<Value<UpdateSpecV>>,
    modified: Set<Seq<char>>,
    i: int,
) -> bool {
    &&& candidate_at(l, modified, i)
    &&& (forall|j: int| #[trigger] candidate_at(l, modified, j) ==> weight_at(l, i) <= weight_at(l, j))
    &&& (forall|j: int|
        0 <= j < i && #[trigger] candidate_at(l, modified, j) ==> weight_at(l, j) > weight_at(l, i))
}

/// The selection is deterministic: at most one entry can be selected.
pub proof fn lemma_selected_update_unique(
    l: Seq<Value<UpdateSpecV>>,
    modified: Set<Seq<char>>,
    i1: int,
    i2: int,
)
    requires
        selected_update(l, modified, i1),
        selected_update(l, modified, i2),
    ensures
        i1 == i2,
{
    if i1 < i2 {
        assert(weight_at(l, i1) > weight_at(l, i2));
        assert(weight_at(l, i2) <= weight_at(l, i1));
    } else if i2 < i1 {
        assert(weight_at(l, i2) > weight_at(l, i1));
        assert(weight_at(l, i1) <= weight_at(l, i2));
    }
}

/// Whether the update rule can handle the given modified keys.
fn candidate_exec(u: &UpdateSpec, modified: &Vec<String>) -> (r: bool)
    ensures
        r == is_candidate(u@, str_views(modified@).to_set()),
{
    let ghost mset = str_views(modified@).to_set();
    match &u.triggers {
        Value::Known(ks) => {
            if ks.keys.len() == 0 {
                return true;
            }
            let n = modified.len();
            let mut i: usize = 0;
            while i < n
                invariant
                    n == modified@.len(),
                    i <= n,
                    u@.triggers == Value::<Seq<Seq<char>>>::Known(ks@),
                    ks@.len() > 0,
                    mset == str_views(modified@).to_set(),
                    forall|j: int| #![auto]
                        0 <= j < i ==> trigger_set(u@).contains(modified@[j]@),
                decreases n - i,
            {
                if !ks.contains(&modified[i]) {
                    proof {
                        assert(str_views(modified@)[i as int] == modified@[i as int]@);
                        assert(mset.contains(modified@[i as int]@));
                        assert(!is_catch_all(u@));
                        assert(trigger_set(u@) == key_set(ks@));
                        assert(!trigger_set(u@).contains(modified@[i as int]@));
                        assert(!mset.subset_of(trigger_set(u@)));
                    }
                    return false;
                }
                proof {
                    assert(trigger_set(u@) == key_set(ks@));
                    assert(key_set(ks@).contains(modified@[i as int]@));
                }
                i = i + 1;
            }
            proof {
                assert forall|k: Seq<char>| #[trigger] mset.contains(k) implies trigger_set(
                    u@,
                ).contains(k) by {
                    let idx = choose|idx: int|
                        0 <= idx < str_views(modified@).len() && str_views(modified@)[idx] == k;
                    assert(modified@[idx]@ == k);
                }
            }
            true
        },
        _ => true,
    }
}

/// The view of an update list value.
pub open spec fn updates_view(u: &Value<Vec<Value<UpdateSpec>>>) -> Value<Seq<Value<UpdateSpecV>>> {
    match u {
        Value::Known(l) => Value::Known(crate::state::ulist_view(l@)),
        Value::Null => Value::Null,
        Value::Unknown => Value::Unknown,
    }
}

/// Select the update rule that handles the modified keys: the candidate
/// with the fewest declared trigger keys, earliest among equals.  Returns
/// its index in the declared list.
///
/// Every catch-all rule (absent or explicitly empty trigger set) counts
/// zero trigger keys, so a catch-all takes precedence over any rule with
/// declared triggers, wherever each is declared.
pub fn find_update(updates: &Value<Vec<Value<UpdateSpec>>>, modified: &Vec<String>) -> (r: Option<
    usize,
>)
    ensures
        match r {
            Some(i) => updates_view(updates) matches Value::Known(l) && selected_update(
                l,
                str_views(modified@).to_set(),
                i as int,
            ),
            None => !(updates_view(updates) matches Value::Known(l) && exists|j: int|
                candidate_at(l, str_views(modified@).to_set(), j)),
        },
{
    let ghost mset = str_views(modified@).to_set();
    match updates {
        Value::Known(l) => {
            let ghost lv = crate::state::ulist_view(l@);
            let n = l.len();
            let mut best: Option<(usize, usize)> = None;
            let mut i: usize = 0;
            while i < n
                invariant
                    n == l@.len(),
                    lv == crate::state::ulist_view(l@),
                    mset == str_views(modified@).to_set(),
                    i <= n,
                    match best {
                        Some((bi, bw)) => {
                            &&& bi < i
                            &&& candidate_at(lv, mset, bi as int)
                            &&& weight_at(lv, bi as int) == bw as nat
                            &&& (forall|j: int|
                                0 <= j < i && #[trigger] candidate_at(lv, mset, j) ==> bw as nat
                                    <= weight_at(lv, j))
                            &&& (forall|j: int|
                                0 <= j < bi && #[trigger] candidate_at(lv, mset, j) ==> weight_at(
                                    lv,
                                    j,
                                ) > bw as nat)
                        },
                        None => forall|j: int| 0 <= j < i ==> !candidate_at(lv, mset, j),
                    },
                decreases n - i,
            {
                proof {
                    assert(lv[i as int] == l@[i as int]@);
                }
                match &l[i] {
                    Value::Known(u) => {
                        if candidate_exec(u, modified) {
                            let w = match &u.triggers {
                                Value::Known(ks) => ks.keys.len(),
                                _ => 0,
                            };
                            proof {
                                assert(candidate_at(lv, mset, i as int));
                                assert(weight_at(lv, i as int) == w as nat);
                            }
                            match best {
                                None => {
                                    best = Some((i, w));
                                },
                                Some((_bi, bw)) => {
                                    if bw > w {
                                        best = Some((i, w));
                                    }
                                },
                            }
                        } else {
                            proof {
                                assert(!candidate_at(lv, mset, i as int));
                            }
                        }
                    },
                    _ => {
                        proof {
                            assert(!candidate_at(lv, mset, i as int));
                        }
                    },
                }
                i = i + 1;
            }
            match best {
                Some((bi, _)) => Some(bi),
                None => None,
            }
        },
        _ => None,
    }
}

} // verus!
