//! The reconciliation state machine for a command-driven resource.
//!
//! Each lifecycle step is a function of its inputs plus the transport:
//! validate, plan a create, update or destroy, apply one, read the
//! current state back, or import an existing resource.  Every step
//! normalizes first, attributes its diagnostics to the declaration
//! responsible, and never leaves an output unknown when it returns a
//! state.

use vstd::prelude::*;
use vstd::string::StringExecFns;

use crate::blocks::{cmd_of, UpdateSpec};
use crate::connection::{CommandTask, Connection};
use crate::diag::{path_root, AttrPath, Diagnostics, PathStepV};
use crate::dict::{dict_wf, Dict};
use crate::envs::{env_pairs, push_var, with_env};
use crate::state::{
    lemma_normalize_wf, lemma_unknown_outputs_wf, make_unknown_outputs, norm_id, norm_inputs,
    normalize_spec, rs_wf, unknown_outputs, ResourceState, ResourceStateV,
};
use crate::text::u64_to_string;
use crate::value::Value;

verus! {

/// The engine-owned version counter: absent counts as zero.
pub open spec fn version_of(v: Value<u64>) -> u64 {
    match v {
        Value::Known(n) => n,
        _ => 0,
    }
}

/// The version counter, read back as a number.
pub fn version_number(v: &Value<u64>) -> (r: u64)
    ensures
        r == version_of(*v),
{
    match v {
        Value::Known(n) => *n,
        _ => 0,
    }
}

/// Whether a declaration's outputs are fully resolved: the mapping is
/// known and no value in it is unknown.
pub open spec fn outputs_resolved(s: ResourceStateV) -> bool {
    s.state matches Value::Known(d) && (forall|j: int|
        0 <= j < d.len() ==> !((#[trigger] d[j]).1 is Unknown))
}

/// A resource driven by shell-like commands over a transport.
#[derive(Debug)]
pub struct GenericCmdResource<T: Connection> {
    pub(crate) connect: T,
}

impl<T: Connection> GenericCmdResource<T> {
    /// A resource backed by the given transport.
    pub fn new(connect: T) -> Self {
        GenericCmdResource { connect }
    }

    /// Borrow the transport this resource runs its commands through.
    pub fn transport(&self) -> &T {
        &self.connect
    }

    /// Check the declaration: the transport configuration must pass the
    /// transport's own checks, and every update rule must declare a
    /// non-empty command.  Returns a result exactly when no error was
    /// collected.
    pub fn validate(&self, diags: &mut Diagnostics, config: &ResourceState) -> (r: Option<()>)
        ensures
            old(diags).errors@.is_prefix_of(final(diags).errors@),
            old(diags).warnings@.is_prefix_of(final(diags).warnings@),
            r is Some <==> final(diags).errors@.len() == 0,
            (config@.update matches Value::Known(l) && (exists|i: int|
                0 <= i < l.len() && ((#[trigger] l[i]) matches Value::Known(u)
                    && crate::blocks::update_cmd_of(u).len() == 0))) ==> r is None,
    {
        let ghost pre_e = diags.errors@;
        let ghost pre_w = diags.warnings@;
        let from_transport = self.connect.validate(&config.connect);
        diags.absorb(from_transport);
        proof {
            assert(pre_e.is_prefix_of(diags.errors@));
            assert(pre_w.is_prefix_of(diags.warnings@));
        }
        match &config.update {
            Value::Known(l) => {
                let ghost lv = crate::state::ulist_view(l@);
                let n = l.len();
                let mut i: usize = 0;
                while i < n
                    invariant
                        n == l@.len(),
                        i <= n,
                        lv == crate::state::ulist_view(l@),
                        pre_e.is_prefix_of(diags.errors@),
                        pre_w.is_prefix_of(diags.warnings@),
                        (exists|j: int|
                            0 <= j < i && ((#[trigger] lv[j]) matches Value::Known(u)
                                && crate::blocks::update_cmd_of(u).len() == 0))
                            ==> diags.errors@.len() > 0,
                    decreases n - i,
                {
                    proof {
                        assert(lv[i as int] == l@[i as int]@);
                    }
                    match &l[i] {
                        Value::Known(u) => {
                            if u.cmd().is_empty() {
                                let path = AttrPath::new("update").index(i as u64).attribute(
                                    "cmd",
                                );
                                diags.error_short(
                                    "`update` cmd should not be null or empty".to_owned(),
                                    path,
                                );
                            }
                        },
                        _ => {},
                    }
                    i = i + 1;
                }
            },
            _ => {},
        }
        if diags.has_errors() {
            None
        } else {
            Some(())
        }
    }

    /// Re-run the declared reads against the current inputs and outputs.
    /// A freshly imported, never reconciled resource (version unknown)
    /// passes through untouched: it is unsafe to read before the resource
    /// has been reconciled once.
    pub fn read(&self, diags: &mut Diagnostics, state: ResourceState, private_version: Value<
        u64,
    >) -> (r: Option<(ResourceState, Value<u64>)>)
        requires
            rs_wf(state@),
        ensures
            r matches Some(p) && p.1 == private_version,
            private_version is Unknown ==> (r matches Some(p) && p.0@ == state@),
            old(diags).errors@.is_prefix_of(final(diags).errors@),
            old(diags).warnings@.is_prefix_of(final(diags).warnings@),
            !(private_version is Unknown) ==> (r matches Some(p) && {
                let s2 = p.0@;
                &&& rs_wf(s2)
                &&& s2.id == norm_id(state@.id)
                &&& s2.inputs == norm_inputs(state@.inputs)
                &&& s2.read == state@.read
                &&& s2.create == state@.create
                &&& s2.destroy == state@.destroy
                &&& s2.update == state@.update
                &&& s2.connect == state@.connect
                &&& s2.command_concurrency == state@.command_concurrency
                &&& outputs_resolved(s2)
                &&& (s2.state matches Value::Known(nd) && nd.len() == unknown_outputs(
                    state@.read,
                ).len() && (forall|j: int|
                    0 <= j < nd.len() ==> (#[trigger] nd[j]).0 == unknown_outputs(
                        state@.read,
                    )[j].0))
                &&& crate::read::read_diag_spec(
                    *old(diags),
                    *final(diags),
                    unknown_outputs(state@.read),
                    state@.read,
                    s2.state->Known_0,
                    true,
                )
            }),
    {
        let version_str: String = match &private_version {
            Value::Known(v) => u64_to_string(*v),
            Value::Null => String::new(),
            Value::Unknown => {
                return Some((state, private_version));
            },
        };
        let mut env = env_pairs(&state.inputs, "INPUT_");
        let mut state_part = env_pairs(&state.state, "STATE_");
        env.append(&mut state_part);
        let idstr = match &state.id {
            Value::Known(s) => s.clone(),
            _ => String::new(),
        };
        push_var(&mut env, "ID", idstr);
        push_var(&mut env, "VERSION", version_str);
        let mut state = state;
        let ghost before = state@;
        state.normalize();
        proof {
            lemma_normalize_wf(before);
        }
        let filled = make_unknown_outputs(&state.read);
        state.state = Value::Known(filled);
        proof {
            lemma_unknown_outputs_wf(state@.read);
        }
        state.read(diags, &self.connect, &env, true);
        Some((state, private_version))
    }

    /// Plan the creation of a resource: the id and every output become
    /// unknown, and the declaration is normalized.  The private version
    /// starts absent.
    pub fn plan_create(&self, diags: &mut Diagnostics, proposed: ResourceState) -> (r: Option<
        (ResourceState, Value<u64>),
    >)
        requires
            rs_wf(proposed@),
        ensures
            final(diags).errors@ == old(diags).errors@,
            final(diags).warnings@ == old(diags).warnings@,
            r matches Some(p) && p.1 is Null && p.0@ == normalize_spec(
                ResourceStateV { id: Value::Unknown, state: Value::Unknown, ..proposed@ },
            ) && rs_wf(p.0@),
    {
        let mut state = proposed;
        state.id = Value::Unknown;
        state.state = Value::Unknown;
        let ghost before = state@;
        state.normalize();
        proof {
            lemma_normalize_wf(before);
        }
        Some((state, Value::Null))
    }

    /// Plan the destruction of a resource.  A freshly imported, never
    /// reconciled resource is only dropped from tracked state: a warning
    /// says that its destroy command will not run.
    pub fn plan_destroy(&self, diags: &mut Diagnostics, prior_private: Value<u64>) -> (r: Option<
        Value<u64>,
    >)
        ensures
            r == Some(prior_private),
            final(diags).errors@ == old(diags).errors@,
            !(prior_private is Unknown) ==> final(diags).warnings@ == old(diags).warnings@,
            prior_private is Unknown ==> final(diags).warnings@.len() == old(
                diags,
            ).warnings@.len() + 1 && old(diags).warnings@.is_prefix_of(final(diags).warnings@)
                && final(diags).warnings@.last()@.summary
                == "Destroy ignored on newly imported resource"@
                && final(diags).warnings@.last()@.path =~= Seq::<PathStepV>::empty(),
    {
        if prior_private.unknown() {
            let ghost pre_w = diags.warnings@;
            diags.warning(
                "Destroy ignored on newly imported resource".to_owned(),
                "The resource has just been imported and need to be applied once in order to know how it should be destroyed.\nAs it has not been applied since import, it will be removed from state without calling the destroy command.".to_owned(),
                AttrPath::root(),
            );
            proof {
                assert(diags.warnings@.subrange(0, pre_w.len() as int) =~= pre_w);
            }
        }
        Some(prior_private)
    }

    /// Create the resource: bump the version, settle the id (the declared
    /// one, or a fresh 30-character random token), run the create command
    /// if one is declared — its failure aborts the step — and resolve
    /// every output.  Commands are expected silent: output on success is
    /// surfaced as a warning.
    pub fn create(&self, diags: &mut Diagnostics, planned: ResourceState, private_version: Value<
        u64,
    >) -> (r: Option<(ResourceState, Value<u64>)>)
        requires
            rs_wf(planned@),
            version_of(private_version) < u64::MAX,
        ensures
            old(diags).errors@.is_prefix_of(final(diags).errors@),
            old(diags).warnings@.is_prefix_of(final(diags).warnings@),
            r is None ==> final(diags).errors@.len() > 0,
            old(diags).errors@.len() > 0 ==> r is None,
            (cmd_of(planned@.create).len() == 0 && old(diags).errors@.len() == 0) ==> r is Some,
            (r is None && old(diags).errors@.len() == 0) ==> (final(diags).errors@.len() == 1
                && final(diags).errors@[0]@.path == path_root("create"@).push(
                PathStepV::Index(0),
            ).push(PathStepV::Attribute("cmd"@)) && ((exists|st: int|
                final(diags).errors@[0]@.summary == "`create` failed with status code: "@
                    + crate::text::status_chars(st)) || final(diags).errors@[0]@.summary
                == "Failed to create resource"@)),
            r matches Some(p) ==> ({
                let s2 = p.0@;
                &&& p.1 == Value::<u64>::Known((version_of(private_version) + 1) as u64)
                &&& s2.id is Known
                &&& (planned@.id matches Value::Known(idv) ==> s2.id == Value::<Seq<char>>::Known(
                    idv,
                ))
                &&& (!(planned@.id is Known) ==> s2.id->Known_0.len() == 30)
                &&& s2.inputs == norm_inputs(planned@.inputs)
                &&& s2.read == planned@.read
                &&& s2.create == planned@.create
                &&& s2.destroy == planned@.destroy
                &&& s2.update == planned@.update
                &&& s2.connect == planned@.connect
                &&& s2.command_concurrency == planned@.command_concurrency
                &&& (!(planned@.state is Null) ==> outputs_resolved(s2))
                &&& (planned@.state is Null ==> s2.state is Null)
                &&& (crate::state::norm_state(planned@.state, planned@.read)
                    matches Value::Known(pd) ==> (s2.state matches Value::Known(nd) && nd.len()
                    == pd.len() && (forall|j: int|
                    0 <= j < nd.len() ==> (#[trigger] nd[j]).0 == pd[j].0) && (forall|j: int|
                    0 <= j < nd.len() && !(pd[j].1 is Unknown) ==> (#[trigger] nd[j]).1
                        == pd[j].1)))
                &&& rs_wf(s2)
            }),
    {
        let mut state = planned;
        let ghost before = state@;
        state.normalize();
        proof {
            lemma_normalize_wf(before);
        }
        let version = version_number(&private_version) + 1;
        let id: String = match state.id.take() {
            Value::Known(s) => s,
            _ => crate::token::random_alphanumeric(30),
        };
        let mut env = env_pairs(&state.inputs, "INPUT_");
        push_var(&mut env, "ID", id.clone());
        push_var(&mut env, "VERSION", u64_to_string(version));
        let create_cmd = state.create.cmd().to_owned();
        let create_dir = state.create.dir().to_owned();
        if !create_cmd.as_str().is_empty() {
            let none_env: Value<Dict<Value<String>>> = Value::Null;
            let task_env = match &state.create {
                Value::Known(c) => with_env(&env, &c.env),
                _ => with_env(&env, &none_env),
            };
            let task = CommandTask { cmd: create_cmd, dir: create_dir, env: task_env };
            let result = self.connect.execute(&state.connect, &task);
            let path = AttrPath::new("create").index(0).attribute("cmd");
            report_exec_outcome(
                diags,
                &result,
                path,
                "`create` stdout was not empty",
                "`create` succeeded but stderr was not empty",
                "`create` failed with status code: ",
                "Failed to create resource",
            );
        }
        if diags.has_errors() {
            return None;
        }
        state.read(diags, &self.connect, &env, false);
        state.id = Value::Known(id);
        Some((state, Value::Known(version)))
    }

    /// Destroy the resource: run the destroy command if one is declared.
    /// Failures are reported but never prevent the resource from being
    /// dropped from tracked state.
    pub fn destroy(&self, diags: &mut Diagnostics, state: ResourceState, planned_private: Value<
        u64,
    >) -> (r: Option<()>)
        requires
            rs_wf(state@),
        ensures
            r is Some,
            old(diags).errors@.is_prefix_of(final(diags).errors@),
            old(diags).warnings@.is_prefix_of(final(diags).warnings@),
            cmd_of(state@.destroy).len() == 0 ==> final(diags).errors@ == old(diags).errors@
                && final(diags).warnings@ == old(diags).warnings@,
    {
        let mut env = env_pairs(&state.inputs, "INPUT_");
        let mut state_part = env_pairs(&state.state, "STATE_");
        env.append(&mut state_part);
        let idstr = match &state.id {
            Value::Known(s) => s.clone(),
            _ => String::new(),
        };
        push_var(&mut env, "ID", idstr);
        push_var(&mut env, "VERSION", u64_to_string(version_number(&planned_private)));
        let destroy_cmd = state.destroy.cmd().to_owned();
        let destroy_dir = state.destroy.dir().to_owned();
        if !destroy_cmd.as_str().is_empty() {
            let none_env: Value<Dict<Value<String>>> = Value::Null;
            let task_env = match &state.destroy {
                Value::Known(c) => with_env(&env, &c.env),
                _ => with_env(&env, &none_env),
            };
            let task = CommandTask { cmd: destroy_cmd, dir: destroy_dir, env: task_env };
            let result = self.connect.execute(&state.connect, &task);
            let path = AttrPath::new("destroy").index(0).attribute("cmd");
            report_exec_outcome(
                diags,
                &result,
                path,
                "`destroy` stdout was not empty",
                "`destroy` succeeded but stderr was not empty",
                "`destroy` failed with status code: ",
                "Failed to destroy resource",
            );
        }
        Some(())
    }
}

impl<T: Connection> GenericCmdResource<T> {
    /// Import an existing resource from an opaque identifier: a
    /// comma-separated `key=value` list becomes the outputs, the id is
    /// the `id` output when one is declared (a fresh random token
    /// otherwise), and the private version is left unknown to signal
    /// that a baseline read must happen on the first plan.
    pub fn import(&self, diags: &mut Diagnostics, id: String) -> (r: Option<
        (ResourceState, Value<u64>),
    >)
        ensures
            final(diags).errors@ == old(diags).errors@,
            final(diags).warnings@ == old(diags).warnings@,
            r matches Some(p) && p.1 is Unknown && ({
                let s2 = p.0@;
                let m = crate::import::import_map(id@);
                &&& (s2.inputs matches Value::Known(d) && d.len() == 0)
                &&& (s2.read matches Value::Known(d) && d.len() == 0)
                &&& (s2.update matches Value::Known(l) && l.len() == 0)
                &&& s2.create is Null
                &&& s2.destroy is Null
                &&& s2.connect is Null
                &&& s2.command_concurrency is Null
                &&& (s2.state matches Value::Known(outs) && dict_wf(outs) && crate::dict::dict_map(
                    outs,
                ) =~= m)
                &&& s2.id is Known
                &&& ((m.dom().contains("id"@) && m["id"@] is Known) ==> s2.id
                    == Value::<Seq<char>>::Known(m["id"@]->Known_0))
                &&& (!(m.dom().contains("id"@) && m["id"@] is Known) ==> s2.id->Known_0.len()
                    == 30)
                &&& rs_wf(s2)
            }),
    {
        let outs = crate::import::parse_outputs(id.as_str());
        let id_key: String = "id".to_owned();
        let idv: String = match outs.get(&id_key) {
            Some(v) => match v {
                Value::Known(s) => s.clone(),
                _ => crate::token::random_alphanumeric(30),
            },
            None => crate::token::random_alphanumeric(30),
        };
        let state = ResourceState {
            id: Value::Known(idv),
            inputs: Value::Known(Dict::empty()),
            state: Value::Known(outs),
            read: Value::Known(Dict::empty()),
            create: Value::Null,
            destroy: Value::Null,
            update: Value::Known(Vec::new()),
            connect: Value::Null,
            command_concurrency: Value::Null,
        };
        let mut state = state;
        let ghost before = state@;
        state.normalize();
        proof {
            lemma_normalize_wf(before);
            assert(crate::state::ulist_view(Seq::<Value<UpdateSpec>>::empty()).len() == 0);
        }
        Some((state, Value::Unknown))
    }
}

/// Whether one update rule came out of the update step as it must: a
/// scheduled marker (unknown) was reset to null, everything else is
/// untouched.
pub open spec fn marker_cleared(
    pre: Value<crate::blocks::UpdateSpecV>,
    post: Value<crate::blocks::UpdateSpecV>,
) -> bool {
    match pre {
        Value::Known(u) => post == Value::Known(
            crate::blocks::UpdateSpecV {
                update_triggered: if u.update_triggered is Unknown {
                    Value::Null
                } else {
                    u.update_triggered
                },
                ..u
            },
        ),
        _ => post == pre,
    }
}

/// Whether update rule `i` would abort the update step: it is scheduled
/// to run but declares no command.
pub open spec fn fatal_update_at(l: Seq<Value<crate::blocks::UpdateSpecV>>, i: int) -> bool {
    0 <= i < l.len() && (l[i] matches Value::Known(u) && u.update_triggered is Unknown
        && crate::blocks::update_cmd_of(u).len() == 0)
}

/// Take one update rule out of the list, leaving `Unknown` in its place.
pub(crate) fn take_entry(l: &mut Vec<Value<UpdateSpec>>, i: usize) -> (r: Value<UpdateSpec>)
    requires
        i < old(l)@.len(),
    ensures
        r == old(l)@[i as int],
        final(l)@ == old(l)@.update(i as int, Value::Unknown),
{
    let mut tmp: Value<UpdateSpec> = Value::Unknown;
    core::mem::swap(&mut l[i], &mut tmp);
    tmp
}

impl<T: Connection> GenericCmdResource<T> {
    /// Apply the planned update: bump the version, run every update rule
    /// scheduled during planning (marker unknown), in declaration order,
    /// resetting each marker, then resolve the outputs.  A scheduled rule
    /// without a command is a fatal configuration error; a failing
    /// command is reported but the remaining rules still run.
    #[verifier::loop_isolation(false)]
    pub fn update(
        &self,
        diags: &mut Diagnostics,
        prior: ResourceState,
        planned: ResourceState,
        private_version: Value<u64>,
    ) -> (r: Option<(ResourceState, Value<u64>)>)
        requires
            rs_wf(prior@),
            rs_wf(planned@),
            version_of(private_version) < u64::MAX,
        ensures
            old(diags).errors@.is_prefix_of(final(diags).errors@),
            old(diags).warnings@.is_prefix_of(final(diags).warnings@),
            r is Some <==> !(planned@.update matches Value::Known(l) && (exists|i: int|
                fatal_update_at(l, i))),
            r is None ==> final(diags).errors@.len() > old(diags).errors@.len(),
            r is None ==> (planned@.update matches Value::Known(l) && (exists|i: int|
                {
                    &&& #[trigger] fatal_update_at(l, i)
                    &&& (forall|j: int| 0 <= j < i ==> !fatal_update_at(l, j))
                    &&& final(diags).errors@.last()@.summary
                        == "`update` cmd should not be null or empty"@
                    &&& final(diags).errors@.last()@.detail =~= Seq::<char>::empty()
                    &&& final(diags).errors@.last()@.path == path_root("update"@).push(
                        PathStepV::Index(i as u64),
                    ).push(PathStepV::Attribute("cmd"@))
                })),
            r matches Some(p) ==> ({
                let s2 = p.0@;
                &&& p.1 == Value::<u64>::Known((version_of(private_version) + 1) as u64)
                &&& s2.id is Known
                &&& (planned@.id matches Value::Known(idv) ==> s2.id == Value::<Seq<char>>::Known(
                    idv,
                ))
                &&& (!(planned@.id is Known) ==> s2.id->Known_0.len() == 30)
                &&& s2.inputs == norm_inputs(planned@.inputs)
                &&& s2.read == planned@.read
                &&& s2.create == planned@.create
                &&& s2.destroy == planned@.destroy
                &&& s2.connect == planned@.connect
                &&& s2.command_concurrency == planned@.command_concurrency
                &&& (planned@.update matches Value::Known(l) ==> (s2.update matches Value::Known(
                    l2,
                ) && l2.len() == l.len() && (forall|j: int|
                    0 <= j < l.len() ==> marker_cleared(l[j], #[trigger] l2[j]))))
                &&& (!(planned@.update is Known) ==> s2.update == planned@.update)
                &&& (!(planned@.state is Null) ==> outputs_resolved(s2))
                &&& (crate::state::norm_state(planned@.state, planned@.read)
                    matches Value::Known(pd) ==> (s2.state matches Value::Known(nd) && nd.len()
                    == pd.len() && (forall|j: int|
                    0 <= j < nd.len() ==> (#[trigger] nd[j]).0 == pd[j].0) && (forall|j: int|
                    0 <= j < nd.len() && !(pd[j].1 is Unknown) ==> (#[trigger] nd[j]).1
                        == pd[j].1)))
                &&& rs_wf(s2)
            }),
    {
        let version = version_number(&private_version) + 1;
        let mut state = planned;
        let ghost before = state@;
        state.normalize();
        proof {
            lemma_normalize_wf(before);
        }
        let id: String = match state.id.take() {
            Value::Known(s) => s,
            _ => crate::token::random_alphanumeric(30),
        };
        let mut env = env_pairs(&state.inputs, "INPUT_");
        let mut prev_part = env_pairs(&prior.inputs, "PREVIOUS_");
        env.append(&mut prev_part);
        let mut st_part = env_pairs(&prior.state, "STATE_");
        env.append(&mut st_part);
        push_var(&mut env, "ID", id.clone());
        push_var(&mut env, "VERSION", u64_to_string(version));
        let ghost pre_e = diags.errors@;
        let ghost pu = state@.update;
        proof {
            assert(pu == planned@.update);
        }
        let taken = state.update.take();
        match taken {
            Value::Known(mut l) => {
                let ghost lv0 = crate::state::ulist_view(l@);
                proof {
                    assert(pu == Value::<Seq<Value<crate::blocks::UpdateSpecV>>>::Known(lv0));
                }
                let n = l.len();
                let mut i: usize = 0;
                while i < n
                    invariant
                        n == l@.len(),
                        lv0.len() == n,
                        i <= n,
                        pre_e.is_prefix_of(diags.errors@),
                        old(diags).errors@.is_prefix_of(diags.errors@),
                        old(diags).warnings@.is_prefix_of(diags.warnings@),
                        forall|j: int|
                            i <= j < n ==> crate::state::ulist_view(l@)[j] == lv0[j],
                        forall|j: int|
                            0 <= j < i ==> marker_cleared(
                                lv0[j],
                                #[trigger] crate::state::ulist_view(l@)[j],
                            ),
                        forall|j: int| 0 <= j < i ==> !fatal_update_at(lv0, j),
                    decreases n - i,
                {
                    let ghost seq_at_entry = l@;
                    let ghost lv_at_entry = crate::state::ulist_view(l@);
                    proof {
                        assert(forall|j: int|
                            0 <= j < i ==> marker_cleared(lv0[j], #[trigger] lv_at_entry[j]));
                        assert(forall|j: int|
                            i <= j < n ==> #[trigger] lv_at_entry[j] == lv0[j]);
                    }
                    let entry = take_entry(&mut l, i);
                    proof {
                        assert(entry@ == lv_at_entry[i as int]);
                        assert(entry@ == lv0[i as int]);
                    }
                    match entry {
                        Value::Known(mut u) => {
                            if u.update_triggered.unknown() {
                                u.update_triggered = Value::Null;
                                let cmd = u.cmd().to_owned();
                                let dir = u.dir().to_owned();
                                if cmd.as_str().is_empty() {
                                    let path = AttrPath::new("update").index(i as u64).attribute(
                                        "cmd",
                                    );
                                    let ghost mid_e = diags.errors@;
                                    diags.error_short(
                                        "`update` cmd should not be null or empty".to_owned(),
                                        path,
                                    );
                                    proof {
                                        assert(fatal_update_at(lv0, i as int));
                                        assert(pu->Known_0 == lv0);
                                        assert(fatal_update_at(pu->Known_0, i as int));
                                        assert(planned@.update == pu);
                                        assert(fatal_update_at(planned@.update->Known_0, i as int));
                                        assert(exists|ii: int|
                                            {
                                                &&& #[trigger] fatal_update_at(lv0, ii)
                                                &&& (forall|j: int|
                                                    0 <= j < ii ==> !fatal_update_at(lv0, j))
                                                &&& diags.errors@.last()@.summary
                                                    == "`update` cmd should not be null or empty"@
                                                &&& diags.errors@.last()@.detail =~= Seq::<
                                                    char,
                                                >::empty()
                                                &&& diags.errors@.last()@.path == path_root(
                                                    "update"@,
                                                ).push(PathStepV::Index(ii as u64)).push(
                                                    PathStepV::Attribute("cmd"@),
                                                )
                                            }) by {
                                            assert(fatal_update_at(lv0, i as int)
                                                && (forall|j: int|
                                                0 <= j < i as int ==> !fatal_update_at(lv0, j))
                                                && diags.errors@.last()@.summary
                                                == "`update` cmd should not be null or empty"@
                                                && diags.errors@.last()@.detail =~= Seq::<
                                                char,
                                            >::empty() && diags.errors@.last()@.path == path_root(
                                                "update"@,
                                            ).push(PathStepV::Index(i as u64)).push(
                                                PathStepV::Attribute("cmd"@),
                                            ));
                                        }
                                        assert(diags.errors@.subrange(0, mid_e.len() as int)
                                            =~= mid_e);
                                        assert(old(diags).errors@.is_prefix_of(diags.errors@));
                                        assert(old(diags).warnings@.is_prefix_of(
                                            diags.warnings@,
                                        ));
                                        assert(diags.errors@.len() > old(diags).errors@.len());
                                    }
                                    return None;
                                }
                                let task_env = with_env(&env, &u.env);
                                let task = CommandTask { cmd, dir, env: task_env };
                                let result = self.connect.execute(&state.connect, &task);
                                let path = AttrPath::new("update").index(i as u64).attribute(
                                    "cmd",
                                );
                                report_exec_outcome(
                                    diags,
                                    &result,
                                    path,
                                    "`update` stdout was not empty",
                                    "`update` succeeded but stderr was not empty",
                                    "`update` failed with status code: ",
                                    "Failed to update resource",
                                );
                            }
                            let ghost uv = u@;
                            l[i] = Value::Known(u);
                            proof {
                                assert(crate::state::ulist_view(l@)[i as int]
                                    == Value::<crate::blocks::UpdateSpecV>::Known(uv));
                                assert(marker_cleared(
                                    lv0[i as int],
                                    crate::state::ulist_view(l@)[i as int],
                                ));
                                assert forall|j: int|
                                    0 <= j < n && j != i as int implies crate::state::ulist_view(
                                    l@,
                                )[j] == lv_at_entry[j] by {
                                    assert(l@[j] == seq_at_entry[j]);
                                    assert(crate::state::ulist_view(l@)[j] == l@[j]@);
                                    assert(lv_at_entry[j] == seq_at_entry[j]@);
                                }
                                assert forall|j: int|
                                    0 <= j < i + 1 implies marker_cleared(
                                    lv0[j],
                                    #[trigger] crate::state::ulist_view(l@)[j],
                                ) by {
                                    if j < i {
                                        assert(marker_cleared(lv0[j], lv_at_entry[j]));
                                        assert(crate::state::ulist_view(l@)[j] == lv_at_entry[j]);
                                    }
                                }
                            }
                        },
                        other => {
                            let ghost ov = other@;
                            l[i] = other;
                            proof {
                                assert(crate::state::ulist_view(l@)[i as int] == ov);
                                assert(marker_cleared(
                                    lv0[i as int],
                                    crate::state::ulist_view(l@)[i as int],
                                ));
                                assert forall|j: int|
                                    0 <= j < n && j != i as int implies crate::state::ulist_view(
                                    l@,
                                )[j] == lv_at_entry[j] by {
                                    assert(l@[j] == seq_at_entry[j]);
                                    assert(crate::state::ulist_view(l@)[j] == l@[j]@);
                                    assert(lv_at_entry[j] == seq_at_entry[j]@);
                                }
                                assert forall|j: int|
                                    0 <= j < i + 1 implies marker_cleared(
                                    lv0[j],
                                    #[trigger] crate::state::ulist_view(l@)[j],
                                ) by {
                                    if j < i {
                                        assert(marker_cleared(lv0[j], lv_at_entry[j]));
                                        assert(crate::state::ulist_view(l@)[j] == lv_at_entry[j]);
                                    }
                                }
                            }
                        },
                    }
                    i = i + 1;
                }
                state.update = Value::Known(l);
            },
            Value::Null => {
                state.update = Value::Null;
            },
            Value::Unknown => {
                state.update = Value::Unknown;
            },
        }
        state.read(diags, &self.connect, &env, false);
        state.id = Value::Known(id);
        Some((state, Value::Known(version)))
    }
}

/// Report one lifecycle command's outcome, exactly: a warning carrying
/// the command's standard output when it is non-empty (commands are
/// expected silent), a warning carrying the standard error on a noisy
/// success, and an error on a non-zero status (summary: the given prefix
/// plus the status in decimal, detail: the standard error) or on a
/// transport failure (detail: its message) — all at the given path.  The
/// error list is untouched exactly when the command succeeded.
fn report_exec_outcome(
    diags: &mut Diagnostics,
    result: &Result<crate::connection::ExecutionResult, crate::connection::TransportError>,
    path: AttrPath,
    stdout_warn: &str,
    stderr_warn: &str,
    fail_prefix: &str,
    err_summary: &str,
)
    ensures
        old(diags).errors@.is_prefix_of(final(diags).errors@),
        old(diags).warnings@.is_prefix_of(final(diags).warnings@),
        (final(diags).errors@ == old(diags).errors@) <==> (result matches Ok(res) && res.status
            == 0),
        match result {
            Ok(res) => {
                &&& (res.status == 0 ==> final(diags).errors@ == old(diags).errors@)
                &&& (res.status != 0 ==> crate::diag::pushed_diag(
                    old(diags).errors@,
                    final(diags).errors@,
                    fail_prefix@ + crate::text::status_chars(res.status as int),
                    res.stderr@,
                    path@,
                ))
                &&& final(diags).warnings@.len() == old(diags).warnings@.len() + (
                if res.stdout@.len() > 0 {
                    1int
                } else {
                    0int
                }) + (if res.status == 0 && res.stderr@.len() > 0 {
                    1int
                } else {
                    0int
                })
                &&& (res.stdout@.len() > 0 ==> ({
                    let d = final(diags).warnings@[old(diags).warnings@.len() as int];
                    d@.summary == stdout_warn@ && d@.detail == res.stdout@ && d@.path == path@
                }))
                &&& ((res.status == 0 && res.stderr@.len() > 0) ==> ({
                    let d = final(diags).warnings@.last();
                    d@.summary == stderr_warn@ && d@.detail == res.stderr@ && d@.path == path@
                }))
            },
            Err(err) => {
                &&& final(diags).warnings@ == old(diags).warnings@
                &&& crate::diag::pushed_diag(
                    old(diags).errors@,
                    final(diags).errors@,
                    err_summary@,
                    err.message@,
                    path@,
                )
            },
        },
{
    let ghost pre_e = diags.errors@;
    let ghost pre_w = diags.warnings@;
    let ghost pv = path@;
    match result {
        Ok(res) => {
            if !res.stdout.as_str().is_empty() {
                let stdout_path = path.duplicate();
                diags.warning(stdout_warn.to_owned(), res.stdout.clone(), stdout_path);
                proof {
                    assert(diags.warnings@.subrange(0, pre_w.len() as int) =~= pre_w);
                    assert(diags.warnings@[pre_w.len() as int]@.path == pv);
                }
            }
            let ghost mid_w = diags.warnings@;
            if res.status == 0 {
                if !res.stderr.as_str().is_empty() {
                    diags.warning(stderr_warn.to_owned(), res.stderr.clone(), path);
                    proof {
                        assert(diags.warnings@.subrange(0, mid_w.len() as int) =~= mid_w);
                        assert(pre_w.is_prefix_of(diags.warnings@));
                        assert(diags.warnings@[pre_w.len() as int] == mid_w[pre_w.len() as int]
                            || pre_w.len() == mid_w.len());
                    }
                }
            } else {
                let mut summary = fail_prefix.to_owned();
                summary.append(crate::text::i32_to_string(res.status).as_str());
                diags.error(summary, res.stderr.clone(), path);
                proof {
                    assert(diags.errors@.subrange(0, pre_e.len() as int) =~= pre_e);
                    assert(diags.errors@.len() > pre_e.len());
                }
            }
        },
        Err(err) => {
            diags.error(err_summary.to_owned(), err.message.clone(), path);
            proof {
                assert(diags.errors@.subrange(0, pre_e.len() as int) =~= pre_e);
                assert(diags.errors@.len() > pre_e.len());
            }
        },
    }
}

} // verus!
