//! Planning an update: decide between no-op, in-place update and replace.
//!
//! The planner recomputes which outputs can be trusted from the prior
//! state, diffs the inputs, and either schedules the matching update rule
//! (most specific first, then declaration order) or requires a replace,
//! attributed to each changed input key.

use vstd::prelude::*;

use crate::blocks::{ReadSpec, ReadSpecV};
use crate::dict::{dict_contains, dict_value, dict_wf, Dict};
use crate::diag::PathStepV;
use crate::state::{norm_inputs, ReadDictV, StrDictV};
use crate::value::Value;

verus! {

/// The known-valued entries of a mapping, in order: unknown inputs must
/// trigger their update, so a synthesized baseline drops them.
pub open spec fn known_entries(d: StrDictV) -> StrDictV
    decreases d.len(),
{
    if d.len() == 0 {
        Seq::empty()
    } else {
        known_entries(d.drop_last()) + (if d.last().1 is Known {
            seq![d.last()]
        } else {
            Seq::empty()
        })
    }
}

/// Every entry of the filtered mapping is an entry of the original.
pub proof fn lemma_known_entries_from(d: StrDictV)
    ensures
        forall|a: int|
            0 <= a < known_entries(d).len() ==> (exists|b: int|
                0 <= b < d.len() && #[trigger] known_entries(d)[a] == d[b]),
    decreases d.len(),
{
    if d.len() > 0 {
        lemma_known_entries_from(d.drop_last());
        let p = known_entries(d.drop_last());
        assert forall|a: int|
            0 <= a < known_entries(d).len() implies (exists|b: int|
            0 <= b < d.len() && #[trigger] known_entries(d)[a] == d[b]) by {
            if a < p.len() {
                let b = choose|b: int| 0 <= b < d.drop_last().len() && p[a] == d.drop_last()[b];
                assert(known_entries(d)[a] == d[b]);
            } else {
                assert(known_entries(d)[a] == d.last());
                assert(known_entries(d)[a] == d[d.len() - 1]);
            }
        }
    }
}

/// Filtering keeps the keys pairwise distinct.
pub proof fn lemma_known_entries_wf(d: StrDictV)
    requires
        dict_wf(d),
    ensures
        dict_wf(known_entries(d)),
    decreases d.len(),
{
    if d.len() > 0 {
        lemma_known_entries_wf(d.drop_last());
        lemma_known_entries_from(d.drop_last());
        let p = known_entries(d.drop_last());
        let w = known_entries(d);
        assert forall|i: int, j: int| 0 <= i < j < w.len() implies w[i].0 != w[j].0 by {
            if j >= p.len() {
                assert(w[j] == d.last());
                let b = choose|b: int| 0 <= b < d.drop_last().len() && p[i] == d.drop_last()[b];
                assert(d[b].0 != d[d.len() - 1].0);
            }
        }
    }
}

/// Build the mapping of known-valued entries.
pub fn filter_known(m: &Value<Dict<Value<String>>>) -> (r: Dict<Value<String>>)
    ensures
        r@ =~= (match m@ {
            Value::Known(d) => known_entries(d),
            _ => Seq::<(Seq<char>, Value<Seq<char>>)>::empty(),
        }),
{
    let mut entries: Vec<(String, Value<String>)> = Vec::new();
    match m {
        Value::Known(d) => {
            let n = d.entries.len();
            let mut i: usize = 0;
            while i < n
                invariant
                    n == d.entries@.len(),
                    i <= n,
                    entries@.map_values(|e: (String, Value<String>)| (e.0@, e.1@))
                        =~= known_entries(d@.subrange(0, i as int)),
                decreases n - i,
            {
                let ghost prev = d@.subrange(0, i as int);
                let ghost cur = d@.subrange(0, i as int + 1);
                proof {
                    assert(cur.drop_last() =~= prev);
                    assert(cur.last() == d@[i as int]);
                }
                match &d.entries[i].1 {
                    Value::Known(_) => {
                        let ghost old_es = entries@;
                        let k = d.entries[i].0.clone();
                        let v = d.entries[i].1.dup();
                        entries.push((k, v));
                        proof {
                            assert(entries@.map_values(
                                |e: (String, Value<String>)| (e.0@, e.1@),
                            ) =~= old_es.map_values(
                                |e: (String, Value<String>)| (e.0@, e.1@),
                            ).push(d@[i as int]));
                            assert(entries@.map_values(
                                |e: (String, Value<String>)| (e.0@, e.1@),
                            ) =~= known_entries(cur));
                        }
                    },
                    _ => {
                        proof {
                            assert(known_entries(cur) =~= known_entries(prev));
                        }
                    },
                }
                i = i + 1;
            }
            proof {
                assert(d@.subrange(0, n as int) =~= d@);
            }
        },
        _ => {},
    }
    let r = Dict { entries };
    r
}

/// Whether two optional read rules are identical in every field.
pub fn vread_eq(a: &Value<ReadSpec>, b: &Value<ReadSpec>) -> (r: bool)
    ensures
        r == (a@ == b@),
{
    match (a, b) {
        (Value::Known(x), Value::Known(y)) => read_spec_eq(x, y),
        (Value::Null, Value::Null) => true,
        (Value::Unknown, Value::Unknown) => true,
        _ => false,
    }
}

/// Whether two read rules are identical in every field.
pub fn read_spec_eq(a: &ReadSpec, b: &ReadSpec) -> (r: bool)
    ensures
        r == (a@ == b@),
{
    let cmds = a.cmd.same(&b.cmd);
    let dirs = a.dir.same(&b.dir);
    let envs = venv_eq(&a.env, &b.env);
    let strips = vbool_eq(&a.strip_trailing_newline, &b.strip_trailing_newline);
    let fails = vbool_eq(&a.faillible, &b.faillible);
    cmds && dirs && envs && strips && fails
}

/// Whether two tri-state booleans are identical.
pub fn vbool_eq(a: &Value<bool>, b: &Value<bool>) -> (r: bool)
    ensures
        r == (a@ == b@),
{
    match (a, b) {
        (Value::Known(x), Value::Known(y)) => *x == *y,
        (Value::Null, Value::Null) => true,
        (Value::Unknown, Value::Unknown) => true,
        _ => false,
    }
}

/// Whether two optional environment mappings are identical, entry for
/// entry.
pub fn venv_eq(a: &Value<Dict<Value<String>>>, b: &Value<Dict<Value<String>>>) -> (r: bool)
    ensures
        r == (a@ == b@),
{
    match (a, b) {
        (Value::Known(x), Value::Known(y)) => {
            let n = x.entries.len();
            if n != y.entries.len() {
                proof {
                    assert(x@.len() != y@.len());
                }
                return false;
            }
            let mut i: usize = 0;
            while i < n
                invariant
                    n == x.entries@.len(),
                    n == y.entries@.len(),
                    i <= n,
                    a@ == Value::<Seq<(Seq<char>, Value<Seq<char>>)>>::Known(x@),
                    b@ == Value::<Seq<(Seq<char>, Value<Seq<char>>)>>::Known(y@),
                    forall|j: int| 0 <= j < i ==> #[trigger] x@[j] == y@[j],
                decreases n - i,
            {
                proof {
                    assert(x@[i as int] == (x.entries@[i as int].0@, x.entries@[i as int].1@));
                    assert(y@[i as int] == (y.entries@[i as int].0@, y.entries@[i as int].1@));
                }
                let keys_eq = x.entries[i].0 == y.entries[i].0;
                let vals_eq = x.entries[i].1.same(&y.entries[i].1);
                if !(keys_eq && vals_eq) {
                    proof {
                        assert(x@[i as int] != y@[i as int]);
                        assert(x@ != y@);
                    }
                    return false;
                }
                proof {
                    assert(x@[i as int] == y@[i as int]);
                }
                i = i + 1;
            }
            proof {
                assert(x@ =~= y@);
            }
            true
        },
        (Value::Null, Value::Null) => true,
        (Value::Unknown, Value::Unknown) => true,
        _ => false,
    }
}

/// What a planned output starts from: keep the prior known value only
/// when the key existed in the prior outputs and the prior read rule for
/// it exists and is identical to the proposed one; otherwise it must be
/// read again (unknown).
pub open spec fn planned_output_val(
    prev_reads: Value<ReadDictV>,
    prev_state: Value<StrDictV>,
    name: Seq<char>,
    rspec: Value<ReadSpecV>,
) -> Value<Seq<char>> {
    let pr = match prev_reads {
        Value::Known(d) => d,
        _ => Seq::empty(),
    };
    let ps = match prev_state {
        Value::Known(d) => d,
        _ => Seq::empty(),
    };
    if dict_contains(ps, name) && dict_contains(pr, name) && dict_value(pr, name) == rspec {
        dict_value(ps, name)
    } else {
        Value::Unknown
    }
}

/// Recompute the planned outputs from the prior state: one entry per
/// declared read key, each starting from `planned_output_val`.
pub fn recompute_outputs(
    reads: &Dict<Value<ReadSpec>>,
    prev_reads: &Value<Dict<Value<ReadSpec>>>,
    prev_state: &Value<Dict<Value<String>>>,
) -> (r: Dict<Value<String>>)
    requires
        dict_wf(reads@),
        prev_reads@ matches Value::Known(d) ==> dict_wf(d),
        prev_state@ matches Value::Known(d) ==> dict_wf(d),
    ensures
        dict_wf(r@),
        r@.len() == reads@.len(),
        forall|j: int| 0 <= j < r@.len() ==> (#[trigger] r@[j]).0 == reads@[j].0,
        forall|j: int|
            0 <= j < r@.len() ==> (#[trigger] r@[j]).1 == planned_output_val(
                prev_reads@,
                prev_state@,
                reads@[j].0,
                reads@[j].1,
            ),
{
    let n = reads.entries.len();
    let mut entries: Vec<(String, Value<String>)> = Vec::new();
    let mut i: usize = 0;
    while i < n
        invariant
            dict_wf(reads@),
            prev_reads@ matches Value::Known(d) ==> dict_wf(d),
            prev_state@ matches Value::Known(d) ==> dict_wf(d),
            n == reads.entries@.len(),
            i <= n,
            entries@.len() == i,
            forall|j: int| #![auto]
                0 <= j < i ==> entries@[j].0@ == reads@[j].0 && entries@[j].1@
                    == planned_output_val(prev_reads@, prev_state@, reads@[j].0, reads@[j].1),
        decreases n - i,
    {
        let name = reads.entries[i].0.clone();
        proof {
            assert(reads@[i as int] == (reads.entries@[i as int].0@, reads.entries@[i as int].1@));
        }
        let prior_val: Option<&Value<String>> = match prev_state {
            Value::Known(d) => d.get(&name),
            _ => None,
        };
        let val: Value<String> = match prior_val {
            None => Value::Unknown,
            Some(pv) => {
                let prior_read: Option<&Value<ReadSpec>> = match prev_reads {
                    Value::Known(d) => d.get(&name),
                    _ => None,
                };
                match prior_read {
                    None => Value::Unknown,
                    Some(pr) => {
                        if vread_eq(pr, &reads.entries[i].1) {
                            pv.dup()
                        } else {
                            Value::Unknown
                        }
                    },
                }
            },
        };
        entries.push((name, val));
        i = i + 1;
    }
    let r = Dict { entries };
    proof {
        assert forall|a: int, b: int| 0 <= a < b < r@.len() implies r@[a].0 != r@[b].0 by {
            assert(reads@[a].0 != reads@[b].0);
        }
    }
    r
}

/// The structured path `inputs.<key>` for each key, in order.
pub open spec fn replace_paths(mk: Seq<Seq<char>>) -> Seq<Seq<PathStepV>> {
    mk.map_values(
        |k: Seq<char>| crate::diag::path_root("inputs"@).push(PathStepV::Key(k)),
    )
}

/// The inputs the diff runs against: the prior inputs, or — right after
/// an import, when no reconciled prior exists — the proposed inputs with
/// their unknown values dropped (an unknown input must trigger its
/// update rule).
pub open spec fn plan_eff_inputs(
    prior_inputs: Value<StrDictV>,
    proposed_inputs: Value<StrDictV>,
    private: Value<u64>,
) -> Value<StrDictV> {
    if private is Unknown {
        Value::Known(
            match proposed_inputs {
                Value::Known(d) => known_entries(d),
                _ => Seq::empty(),
            },
        )
    } else {
        prior_inputs
    }
}

/// The input keys this planning step counts as modified.
pub open spec fn plan_modified(
    prior_inputs: Value<StrDictV>,
    proposed_inputs: Value<StrDictV>,
    private: Value<u64>,
) -> Set<Seq<char>> {
    crate::diff::modified_keys(
        plan_eff_inputs(prior_inputs, proposed_inputs, private),
        norm_inputs(proposed_inputs),
    )
}

/// Whether a selected update rule fires on this plan: something was
/// modified, or the rule is declared with an explicitly empty trigger
/// set (an unconditional refresh action).
pub open spec fn fires(u: crate::blocks::UpdateSpecV, mset: Set<Seq<char>>) -> bool {
    !(mset =~= Set::<Seq<char>>::empty()) || (u.triggers matches Value::Known(ks) && ks.len()
        == 0)
}

/// The output keys an update rule invalidates when it fires.
pub open spec fn reload_keys(u: crate::blocks::UpdateSpecV) -> Set<Seq<char>> {
    match u.reloads {
        Value::Known(ks) => crate::blocks::key_set(ks),
        _ => Set::empty(),
    }
}

/// The views of a path list.
pub open spec fn path_views(v: Seq<crate::diag::AttrPath>) -> Seq<Seq<PathStepV>> {
    v.map_values(|p: crate::diag::AttrPath| p@)
}

/// What planning keeps of the proposed declaration: everything but the
/// outputs and the update markers, normalized; the planned outputs carry
/// one entry per declared read key.
pub open spec fn plan_keeps(proposed: crate::state::ResourceStateV, s2: crate::state::ResourceStateV) -> bool {
    &&& crate::state::rs_wf(s2)
    &&& s2.id == crate::state::norm_id(proposed.id)
    &&& s2.inputs == crate::state::norm_inputs(proposed.inputs)
    &&& s2.create == proposed.create
    &&& s2.destroy == proposed.destroy
    &&& s2.connect == proposed.connect
    &&& s2.command_concurrency == proposed.command_concurrency
    &&& (proposed.read is Known ==> s2.read == proposed.read)
    &&& (proposed.read is Null ==> ((s2.read matches Value::Known(e) && e.len() == 0) && (
    s2.state matches Value::Known(e2) && e2.len() == 0)))
    &&& (proposed.read is Unknown ==> s2.read is Unknown && s2.state is Unknown)
    &&& (proposed.read matches Value::Known(rd) ==> (s2.state matches Value::Known(nd)
        && nd.len() == rd.len() && (forall|j: int|
        0 <= j < nd.len() ==> (#[trigger] nd[j]).0 == rd[j].0)))
}

/// What a fired update rule did to the plan: its marker is unknown, its
/// reload keys are unknown again, and every other planned output keeps
/// its recomputed value (stated exactly against a reconciled prior).
pub open spec fn plan_fired(
    prior: crate::state::ResourceStateV,
    proposed: crate::state::ResourceStateV,
    private: Value<u64>,
    s2: crate::state::ResourceStateV,
    l: Seq<Value<crate::blocks::UpdateSpecV>>,
    i: int,
    u: crate::blocks::UpdateSpecV,
) -> bool {
    &&& (s2.update matches Value::Known(l2) && l2.len() == l.len() && (forall|j: int|
        0 <= j < l.len() && j != i ==> #[trigger] l2[j] == l[j]) && l2[i] == Value::Known(
        crate::blocks::UpdateSpecV { update_triggered: Value::Unknown, ..u },
    ))
    &&& (s2.state matches Value::Known(nd) ==> (forall|j: int|
        0 <= j < nd.len() && reload_keys(u).contains((#[trigger] nd[j]).0) ==> nd[j].1
            is Unknown))
    &&& (!(private is Unknown) ==> (proposed.read matches Value::Known(rd) ==> (
    s2.state matches Value::Known(nd) ==> (forall|j: int|
        0 <= j < nd.len() && !reload_keys(u).contains(nd[j].0) ==> (#[trigger] nd[j]).1
            == planned_output_val(prior.read, prior.state, rd[j].0, rd[j].1)))))
}

/// The planned outputs when no rule fired: exactly the recomputed values
/// (stated against a reconciled prior), and the update list untouched.
pub open spec fn plan_unfired(
    prior: crate::state::ResourceStateV,
    proposed: crate::state::ResourceStateV,
    private: Value<u64>,
    s2: crate::state::ResourceStateV,
) -> bool {
    &&& s2.update == proposed.update
    &&& (!(private is Unknown) ==> (proposed.read matches Value::Known(rd) ==> (
    s2.state matches Value::Known(nd) ==> (forall|j: int|
        0 <= j < nd.len() ==> (#[trigger] nd[j]).1 == planned_output_val(
            prior.read,
            prior.state,
            rd[j].0,
            rd[j].1,
        )))))
}

/// The update list a declaration carries (empty when absent).
pub open spec fn update_list(u: Value<Seq<Value<crate::blocks::UpdateSpecV>>>) -> Seq<
    Value<crate::blocks::UpdateSpecV>,
> {
    match u {
        Value::Known(l) => l,
        _ => Seq::empty(),
    }
}

/// Whether entry `i` is the selected rule and the plan reflects what it
/// did (fired or not).
pub open spec fn decision_witness(
    prior: crate::state::ResourceStateV,
    proposed: crate::state::ResourceStateV,
    private: Value<u64>,
    s2: crate::state::ResourceStateV,
    i: int,
) -> bool {
    let mset = plan_modified(prior.inputs, proposed.inputs, private);
    let l = update_list(proposed.update);
    &&& crate::diff::selected_update(l, mset, i)
    &&& (l[i] matches Value::Known(u) ==> (if fires(u, mset) {
        plan_fired(prior, proposed, private, s2, l, i, u)
    } else {
        plan_unfired(prior, proposed, private, s2)
    }))
}

/// Whether some update rule covers the modified keys.
pub open spec fn has_selection(
    prior: crate::state::ResourceStateV,
    proposed: crate::state::ResourceStateV,
    private: Value<u64>,
) -> bool {
    proposed.update is Known && (exists|i: int|
        crate::diff::candidate_at(
            update_list(proposed.update),
            plan_modified(prior.inputs, proposed.inputs, private),
            i,
        ))
}

/// The planner's decision: when a rule covers the modified keys, the most
/// specific, first-declared one is selected and fires unless nothing was
/// modified and its trigger set is not explicitly empty; when none covers
/// a non-empty modification, a replace is required, one path per modified
/// key in lexicographic order.
pub open spec fn plan_decision(
    prior: crate::state::ResourceStateV,
    proposed: crate::state::ResourceStateV,
    private: Value<u64>,
    s2: crate::state::ResourceStateV,
    rp: Seq<Seq<PathStepV>>,
) -> bool {
    let mset = plan_modified(prior.inputs, proposed.inputs, private);
    &&& (has_selection(prior, proposed, private) ==> rp.len() == 0 && (exists|i: int|
        #[trigger] decision_witness(prior, proposed, private, s2, i)))
    &&& (!has_selection(prior, proposed, private) ==> ({
        &&& plan_unfired(prior, proposed, private, s2)
        &&& ((mset =~= Set::<Seq<char>>::empty()) ==> rp.len() == 0)
        &&& (!(mset =~= Set::<Seq<char>>::empty()) ==> rp.len() > 0 && (exists|mk: Seq<Seq<char>>|
            {
                &&& #[trigger] crate::diff::strict_sorted(mk)
                &&& mk.to_set() =~= mset
                &&& rp == replace_paths(mk)
            }))
    }))
}

/// Assemble the planner's decision when a rule was selected.
pub proof fn lemma_decision_selected(
    prior: crate::state::ResourceStateV,
    proposed: crate::state::ResourceStateV,
    private: Value<u64>,
    s2: crate::state::ResourceStateV,
    rp: Seq<Seq<PathStepV>>,
    i: int,
)
    requires
        proposed.update is Known,
        crate::diff::selected_update(
            update_list(proposed.update),
            plan_modified(prior.inputs, proposed.inputs, private),
            i,
        ),
        update_list(proposed.update)[i] matches Value::Known(u) ==> (if fires(
            u,
            plan_modified(prior.inputs, proposed.inputs, private),
        ) {
            plan_fired(prior, proposed, private, s2, update_list(proposed.update), i, u)
        } else {
            plan_unfired(prior, proposed, private, s2)
        }),
        rp.len() == 0,
    ensures
        plan_decision(prior, proposed, private, s2, rp),
{
    let l = update_list(proposed.update);
    let ms = plan_modified(prior.inputs, proposed.inputs, private);
    assert(crate::diff::candidate_at(l, ms, i));
    assert(has_selection(prior, proposed, private));
    assert(decision_witness(prior, proposed, private, s2, i));
    assert(exists|ii: int| #[trigger] decision_witness(prior, proposed, private, s2, ii));
}

/// Assemble the planner's decision when no rule covers the change.
pub proof fn lemma_decision_none(
    prior: crate::state::ResourceStateV,
    proposed: crate::state::ResourceStateV,
    private: Value<u64>,
    s2: crate::state::ResourceStateV,
    rp: Seq<Seq<PathStepV>>,
)
    requires
        !(proposed.update is Known && (exists|i: int|
            crate::diff::candidate_at(
                update_list(proposed.update),
                plan_modified(prior.inputs, proposed.inputs, private),
                i,
            ))),
        plan_unfired(prior, proposed, private, s2),
        (plan_modified(prior.inputs, proposed.inputs, private) =~= Set::<Seq<char>>::empty())
            ==> rp.len() == 0,
        !(plan_modified(prior.inputs, proposed.inputs, private) =~= Set::<Seq<char>>::empty())
            ==> rp.len() > 0 && (exists|mk: Seq<Seq<char>>|
            {
                &&& #[trigger] crate::diff::strict_sorted(mk)
                &&& mk.to_set() =~= plan_modified(prior.inputs, proposed.inputs, private)
                &&& rp == replace_paths(mk)
            }),
    ensures
        plan_decision(prior, proposed, private, s2, rp),
{
}

impl<T: crate::connection::Connection> crate::resource::GenericCmdResource<T> {
    /// Plan an update from a prior to a proposed declaration.
    ///
    /// A freshly imported prior (version unknown) first gets a baseline
    /// read from the proposed inputs, their unknown values stripped.
    /// Each declared output keeps its prior known value only if its key
    /// existed before and its read rule is byte-identical; otherwise it
    /// becomes unknown.  The diff engine then either schedules the
    /// selected update rule (marker set unknown, its reload keys
    /// invalidated), or — when inputs changed and no rule covers them —
    /// requires a replace, one structured path `inputs.<key>` per
    /// modified key, in lexicographic order.
    #[verifier::loop_isolation(false)]
    #[verifier::rlimit(100)]
    #[verifier::spinoff_prover]
    pub fn plan_update(
        &self,
        diags: &mut crate::diag::Diagnostics,
        prior: crate::state::ResourceState,
        proposed: crate::state::ResourceState,
        prior_private: Value<u64>,
    ) -> (r: Option<(crate::state::ResourceState, Value<u64>, Vec<crate::diag::AttrPath>)>)
        requires
            crate::state::rs_wf(prior@),
            crate::state::rs_wf(proposed@),
        ensures
            old(diags).errors@.is_prefix_of(final(diags).errors@),
            old(diags).warnings@.is_prefix_of(final(diags).warnings@),
            r matches Some(t) && t.1 == prior_private,
            r matches Some(t) ==> plan_keeps(proposed@, t.0@),
            r matches Some(t) ==> plan_decision(
                prior@,
                proposed@,
                prior_private,
                t.0@,
                path_views(t.2@),
            ),
    {
        let use_baseline = prior_private.unknown();
        let eff_prior: crate::state::ResourceState;
        if use_baseline {
            let filtered = filter_known(&proposed.inputs);
            proof {
                match proposed@.inputs {
                    Value::Known(d) => lemma_known_entries_wf(d),
                    _ => {},
                }
            }
            let baseline = crate::state::ResourceState {
                id: proposed.id.dup(),
                inputs: Value::Known(filtered),
                state: proposed.state.dup(),
                read: proposed.dup_read(),
                create: Value::Null,
                destroy: Value::Null,
                update: Value::Known(Vec::new()),
                connect: proposed.connect.dup(),
                command_concurrency: proposed.command_concurrency.dup(),
            };
            let got = self.read(diags, baseline, Value::Known(0));
            eff_prior = match got {
                Some(p) => p.0,
                None => vstd::pervasive::unreached(),
            };
        } else {
            eff_prior = prior;
        }
        let ghost eff_inputs = eff_prior@.inputs;
        proof {
            assert(eff_inputs == plan_eff_inputs(prior@.inputs, proposed@.inputs, prior_private));
        }
        let mut state = proposed;
        let ghost before = state@;
        state.normalize();
        proof {
            crate::state::lemma_normalize_wf(before);
        }
        let read_taken = state.read.take();
        match read_taken {
            Value::Known(reads) => {
                let outs = recompute_outputs(&reads, &eff_prior.read, &eff_prior.state);
                state.state = Value::Known(outs);
                state.read = Value::Known(reads);
            },
            Value::Null => {
                state.read = Value::Known(Dict::empty());
                state.state = Value::Known(Dict::empty());
            },
            Value::Unknown => {
                state.read = Value::Unknown;
                state.state = Value::Unknown;
            },
        }
        let modified = crate::diff::find_modified(&eff_prior.inputs, &state.inputs);
        let ghost mset = plan_modified(prior@.inputs, proposed@.inputs, prior_private);
        proof {
            assert(state@.inputs == norm_inputs(proposed@.inputs));
            assert(crate::diff::str_views(modified@).to_set() =~= mset);
        }
        let sel = crate::diff::find_update(&state.update, &modified);
        let mut replace: Vec<crate::diag::AttrPath> = Vec::new();
        match sel {
            Some(i) => {
                let ghost lv = (match proposed@.update {
                    Value::Known(x) => x,
                    _ => Seq::<Value<crate::blocks::UpdateSpecV>>::empty(),
                });
                proof {
                    assert(crate::diff::updates_view(&state.update) == state@.update);
                    assert(state@.update == proposed@.update);
                    assert(crate::diff::str_views(modified@).to_set() == mset);
                    assert(crate::diff::selected_update(lv, mset, i as int));
                    assert(crate::diff::candidate_at(lv, mset, i as int));
                }
                let fire: bool = if modified.len() > 0 {
                    proof {
                        assert(mset.contains(crate::diff::str_views(modified@)[0]));
                        assert(!(mset =~= Set::<Seq<char>>::empty()));
                    }
                    true
                } else {
                    proof {
                        assert forall|k: Seq<char>| !(#[trigger] mset.contains(k)) by {
                            if crate::diff::str_views(modified@).to_set().contains(k) {
                                let idx = choose|idx: int|
                                    0 <= idx < crate::diff::str_views(modified@).len()
                                        && crate::diff::str_views(modified@)[idx] == k;
                            }
                        }
                        assert(mset =~= Set::<Seq<char>>::empty());
                    }
                    match &state.update {
                        Value::Known(l) => match &l[i] {
                            Value::Known(u) => match &u.triggers {
                                Value::Known(ks) => ks.keys.len() == 0,
                                _ => false,
                            },
                            _ => false,
                        },
                        _ => false,
                    }
                };
                if fire {
                    let lst_taken = state.update.take();
                    match lst_taken {
                        Value::Known(mut l) => {
                            let ghost lv0 = crate::state::ulist_view(l@);
                            let entry = crate::resource::take_entry(&mut l, i);
                            match entry {
                                Value::Known(mut u) => {
                                    u.update_triggered = Value::Unknown;
                                    let reloads: crate::blocks::KeySet = match &u.reloads {
                                        Value::Known(ks) => ks.duplicate(),
                                        _ => crate::blocks::KeySet::empty(),
                                    };
                                    let ghost uv = u@;
                                    l[i] = Value::Known(u);
                                    proof {
                                        assert(crate::state::ulist_view(l@)[i as int]
                                            == Value::<crate::blocks::UpdateSpecV>::Known(uv));
                                        assert forall|j: int|
                                            0 <= j < l@.len() && j != i as int
                                                implies #[trigger] crate::state::ulist_view(l@)[j]
                                            == lv0[j] by {
                                            assert(crate::state::ulist_view(l@)[j] == l@[j]@);
                                        }
                                    }
                                    state.update = Value::Known(l);
                                    let outs_taken = state.state.take();
                                    match outs_taken {
                                        Value::Known(mut od) => {
                                            mark_reloads(&mut od, &reloads);
                                            state.state = Value::Known(od);
                                        },
                                        other => {
                                            state.state = other;
                                        },
                                    }
                                    proof {
                                        let u0 = lv[i as int]->Known_0;
                                        assert(uv == (crate::blocks::UpdateSpecV {
                                            update_triggered: Value::Unknown,
                                            ..u0
                                        }));
                                        assert(fires(u0, mset));
                                        assert(crate::blocks::key_set(reloads@) == reload_keys(
                                            u0,
                                        ));
                                        assert(state@.update matches Value::Known(l2) && l2
                                            == crate::state::ulist_view(l@));
                                        assert(plan_fired(
                                            prior@,
                                            proposed@,
                                            prior_private,
                                            state@,
                                            lv,
                                            i as int,
                                            u0,
                                        ));
                                        assert(lv == update_list(proposed@.update));
                                        assert(lv[i as int] is Known);
                                        lemma_decision_selected(
                                            prior@,
                                            proposed@,
                                            prior_private,
                                            state@,
                                            path_views(replace@),
                                            i as int,
                                        );
                                        assert(plan_decision(
                                            prior@,
                                            proposed@,
                                            prior_private,
                                            state@,
                                            path_views(replace@),
                                        ));
                                    }
                                },
                                other => {
                                    proof {
                                        assert(false);
                                    }
                                    l[i] = other;
                                    state.update = Value::Known(l);
                                },
                            }
                        },
                        other => {
                            proof {
                                assert(false);
                            }
                            state.update = other;
                        },
                    }
                } else {
                    proof {
                        let u0 = lv[i as int]->Known_0;
                        assert(!fires(u0, mset));
                        assert(plan_unfired(prior@, proposed@, prior_private, state@));
                        assert(lv == update_list(proposed@.update));
                        lemma_decision_selected(
                            prior@,
                            proposed@,
                            prior_private,
                            state@,
                            path_views(replace@),
                            i as int,
                        );
                        assert(plan_decision(
                            prior@,
                            proposed@,
                            prior_private,
                            state@,
                            path_views(replace@),
                        ));
                    }
                }
            },
            None => {
                if modified.len() > 0 {
                    let n = modified.len();
                    let mut t: usize = 0;
                    while t < n
                        invariant
                            n == modified@.len(),
                            t <= n,
                            replace@.len() == t,
                            forall|a: int|
                                0 <= a < t ==> #[trigger] replace@[a]@ == crate::diag::path_root(
                                    "inputs"@,
                                ).push(PathStepV::Key(modified@[a]@)),
                        decreases n - t,
                    {
                        let p = crate::diag::AttrPath::new("inputs").key(modified[t].clone());
                        replace.push(p);
                        t = t + 1;
                    }
                    proof {
                        assert(path_views(replace@) =~= replace_paths(
                            crate::diff::str_views(modified@),
                        ));
                        assert(mset.contains(crate::diff::str_views(modified@)[0]));
                        assert(crate::diff::updates_view(&state.update) == proposed@.update);
                        assert(crate::diff::str_views(modified@).to_set() == mset);
                        assert(crate::diff::strict_sorted(crate::diff::str_views(modified@)));
                        assert(plan_unfired(prior@, proposed@, prior_private, state@));
                        assert(!has_selection(prior@, proposed@, prior_private)) by {
                            if has_selection(prior@, proposed@, prior_private) {
                                let w = choose|ii: int|
                                    crate::diff::candidate_at(
                                        update_list(proposed@.update),
                                        plan_modified(
                                            prior@.inputs,
                                            proposed@.inputs,
                                            prior_private,
                                        ),
                                        ii,
                                    );
                                assert(false);
                            }
                        }
                        assert(path_views(replace@).len() > 0);
                        lemma_decision_none(
                            prior@,
                            proposed@,
                            prior_private,
                            state@,
                            path_views(replace@),
                        );
                    }
                } else {
                    proof {
                        assert forall|k: Seq<char>| !(#[trigger] mset.contains(k)) by {
                            if crate::diff::str_views(modified@).to_set().contains(k) {
                                let idx = choose|idx: int|
                                    0 <= idx < crate::diff::str_views(modified@).len()
                                        && crate::diff::str_views(modified@)[idx] == k;
                            }
                        }
                        assert(mset =~= Set::<Seq<char>>::empty());
                        assert(crate::diff::updates_view(&state.update) == proposed@.update);
                        assert(plan_unfired(prior@, proposed@, prior_private, state@));
                        assert(!has_selection(prior@, proposed@, prior_private)) by {
                            if has_selection(prior@, proposed@, prior_private) {
                                let w = choose|ii: int|
                                    crate::diff::candidate_at(
                                        update_list(proposed@.update),
                                        plan_modified(
                                            prior@.inputs,
                                            proposed@.inputs,
                                            prior_private,
                                        ),
                                        ii,
                                    );
                                assert(false);
                            }
                        }
                        lemma_decision_none(
                            prior@,
                            proposed@,
                            prior_private,
                            state@,
                            path_views(replace@),
                        );
                    }
                }
            },
        }
        Some((state, prior_private, replace))
    }
}

/// Planning is idempotent: two plans over identical prior and proposed
/// declarations reach the identical replace-or-update decision — the
/// same selected rule index (if any) and the identical replace path
/// list.
pub proof fn lemma_plan_decision_deterministic(
    prior: crate::state::ResourceStateV,
    proposed: crate::state::ResourceStateV,
    private: Value<u64>,
    s2a: crate::state::ResourceStateV,
    rpa: Seq<Seq<PathStepV>>,
    s2b: crate::state::ResourceStateV,
    rpb: Seq<Seq<PathStepV>>,
)
    requires
        plan_decision(prior, proposed, private, s2a, rpa),
        plan_decision(prior, proposed, private, s2b, rpb),
    ensures
        rpa =~= rpb,
        forall|i1: int, i2: int|
            #[trigger] decision_witness(prior, proposed, private, s2a, i1)
                && #[trigger] decision_witness(prior, proposed, private, s2b, i2) ==> i1 == i2,
{
    let mset = plan_modified(prior.inputs, proposed.inputs, private);
    assert forall|i1: int, i2: int|
        #[trigger] decision_witness(prior, proposed, private, s2a, i1)
            && #[trigger] decision_witness(prior, proposed, private, s2b, i2) implies i1
        == i2 by {
        crate::diff::lemma_selected_update_unique(update_list(proposed.update), mset, i1, i2);
    }
    if has_selection(prior, proposed, private) {
        assert(rpa.len() == 0 && rpb.len() == 0);
        assert(rpa =~= rpb);
    } else {
        if mset =~= Set::<Seq<char>>::empty() {
            assert(rpa =~= rpb);
        } else {
            let mka = choose|mk: Seq<Seq<char>>|
                #[trigger] crate::diff::strict_sorted(mk) && mk.to_set() =~= mset && rpa
                    == replace_paths(mk);
            let mkb = choose|mk: Seq<Seq<char>>|
                #[trigger] crate::diff::strict_sorted(mk) && mk.to_set() =~= mset && rpb
                    == replace_paths(mk);
            crate::diff::lemma_strict_sorted_unique(mka, mkb);
            assert(mka =~= mkb);
            assert(rpa =~= rpb);
        }
    }
}

/// Mark every reload key that names an output as unknown again.
fn mark_reloads(od: &mut Dict<Value<String>>, reloads: &crate::blocks::KeySet)
    requires
        dict_wf(old(od)@),
    ensures
        dict_wf(final(od)@),
        final(od)@.len() == old(od)@.len(),
        forall|j: int| 0 <= j < old(od)@.len() ==> (#[trigger] final(od)@[j]).0 == old(od)@[j].0,
        forall|j: int|
            0 <= j < old(od)@.len() && crate::blocks::key_set(reloads@).contains(old(od)@[j].0)
                ==> (#[trigger] final(od)@[j]).1 is Unknown,
        forall|j: int|
            0 <= j < old(od)@.len() && !crate::blocks::key_set(reloads@).contains(old(od)@[j].0)
                ==> (#[trigger] final(od)@[j]).1 == old(od)@[j].1,
{
    let n = reloads.keys.len();
    let mut t: usize = 0;
    while t < n
        invariant
            dict_wf(old(od)@),
            dict_wf(od@),
            n == reloads.keys@.len(),
            t <= n,
            od@.len() == old(od)@.len(),
            forall|j: int| 0 <= j < old(od)@.len() ==> (#[trigger] od@[j]).0 == old(od)@[j].0,
            forall|j: int|
                0 <= j < old(od)@.len() ==> ((#[trigger] od@[j]).1 == old(od)@[j].1 || (exists|
                    a: int,
                |
                    0 <= a < t && reloads@[a] == old(od)@[j].0)),
            forall|j: int, a: int|
                0 <= j < old(od)@.len() && 0 <= a < t && old(od)@[j].0 == #[trigger] reloads@[a]
                    ==> (#[trigger] od@[j]).1 is Unknown,
        decreases n - t,
    {
        proof {
            assert(reloads@[t as int] == reloads.keys@[t as int]@);
        }
        match od.index_of(&reloads.keys[t]) {
            Some(idx) => {
                od.set_value_at(idx, Value::Unknown);
            },
            None => {
                proof {
                    assert(!crate::dict::dict_contains(od@, reloads@[t as int]));
                }
            },
        }
        t = t + 1;
    }
    proof {
        assert forall|j: int|
            0 <= j < old(od)@.len() && crate::blocks::key_set(reloads@).contains(
                old(od)@[j].0,
            ) implies (#[trigger] od@[j]).1 is Unknown by {
            let a = choose|a: int| 0 <= a < reloads@.len() && reloads@[a] == old(od)@[j].0;
        }
        assert forall|j: int|
            0 <= j < old(od)@.len() && !crate::blocks::key_set(reloads@).contains(
                old(od)@[j].0,
            ) implies (#[trigger] od@[j]).1 == old(od)@[j].1 by {
            if exists|a: int| 0 <= a < reloads@.len() && reloads@[a] == old(od)@[j].0 {
                let a = choose|a: int| 0 <= a < reloads@.len() && reloads@[a] == old(od)@[j].0;
                assert(crate::blocks::key_set(reloads@).contains(old(od)@[j].0));
            }
        }
    }
}

} // verus!
