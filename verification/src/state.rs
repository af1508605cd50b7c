//! The declared state of a resource and its normalization.
//!
//! A declaration is immutable within one reconciliation cycle; only the
//! outputs and the update rules' `triggered` markers mutate during planning
//! and apply.  The normalizer fixes degenerate states up front so later
//! stages need not special-case them.

use vstd::prelude::*;

use crate::blocks::{CmdSpec, CmdSpecV, ReadSpec, ReadSpecV, UpdateSpec, UpdateSpecV};
use crate::dict::{dict_wf, Dict};
use crate::value::Value;

verus! {

/// The view of an ordered string-to-string mapping.
pub type StrDictV = Seq<(Seq<char>, Value<Seq<char>>)>;

/// The view of an ordered mapping from output keys to read rules.
pub type ReadDictV = Seq<(Seq<char>, Value<ReadSpecV>)>;

/// The view of an ordered update rule list.
pub open spec fn ulist_view(l: Seq<Value<UpdateSpec>>) -> Seq<Value<UpdateSpecV>> {
    l.map_values(|u: Value<UpdateSpec>| u@)
}

/// A resource declaration, carried through one reconciliation cycle.
#[derive(Debug, Clone)]
pub struct ResourceState {
    /// Opaque identifier; unknown during planning, known after create/import.
    pub id: Value<String>,
    /// Configuration keys and their string values.
    pub inputs: Value<Dict<Value<String>>>,
    /// Output keys and their string values, each independently tri-state.
    pub state: Value<Dict<Value<String>>>,
    /// Read rules, one per declared output key.
    pub read: Value<Dict<Value<ReadSpec>>>,
    /// The command run when the resource is created.
    pub create: Value<CmdSpec>,
    /// The command run when the resource is destroyed.
    pub destroy: Value<CmdSpec>,
    /// The ordered update rules.
    pub update: Value<Vec<Value<UpdateSpec>>>,
    /// Transport configuration, opaque to the core.
    pub connect: Value<Dict<Value<String>>>,
    /// Maximum number of simultaneous read commands (default 4).
    pub command_concurrency: Value<u64>,
}

/// The view of a resource declaration.
pub ghost struct ResourceStateV {
    pub id: Value<Seq<char>>,
    pub inputs: Value<StrDictV>,
    pub state: Value<StrDictV>,
    pub read: Value<ReadDictV>,
    pub create: Value<CmdSpecV>,
    pub destroy: Value<CmdSpecV>,
    pub update: Value<Seq<Value<UpdateSpecV>>>,
    pub connect: Value<StrDictV>,
    pub command_concurrency: Value<u64>,
}

impl View for ResourceState {
    type V = ResourceStateV;

    open spec fn view(&self) -> ResourceStateV {
        ResourceStateV {
            id: self.id@,
            inputs: self.inputs@,
            state: self.state@,
            read: self.read@,
            create: self.create@,
            destroy: self.destroy@,
            update: match &self.update {
                Value::Known(l) => Value::Known(ulist_view(l@)),
                Value::Null => Value::Null,
                Value::Unknown => Value::Unknown,
            },
            connect: self.connect@,
            command_concurrency: self.command_concurrency@,
        }
    }
}

/// Whether the keys of every known dictionary of the declaration are
/// pairwise distinct.
pub open spec fn rs_wf(s: ResourceStateV) -> bool {
    &&& (s.inputs matches Value::Known(d) ==> dict_wf(d))
    &&& (s.state matches Value::Known(d) ==> dict_wf(d))
    &&& (s.connect matches Value::Known(d) ==> dict_wf(d))
    &&& (s.read matches Value::Known(d) ==> dict_wf(d))
}

/// The identifier after normalization: an absent id must still be produced,
/// so null becomes unknown.
pub open spec fn norm_id(id: Value<Seq<char>>) -> Value<Seq<char>> {
    if id is Null {
        Value::Unknown
    } else {
        id
    }
}

/// The inputs after normalization: an absent mapping becomes an empty one.
pub open spec fn norm_inputs(inputs: Value<StrDictV>) -> Value<StrDictV> {
    if inputs is Null {
        Value::Known(Seq::empty())
    } else {
        inputs
    }
}

/// One unknown output per declared read key: every declared output is
/// forced to be (re)computed.
pub open spec fn unknown_outputs(read: Value<ReadDictV>) -> StrDictV {
    match read {
        Value::Known(rd) => rd.map_values(
            |e: (Seq<char>, Value<ReadSpecV>)| (e.0, Value::<Seq<char>>::Unknown),
        ),
        _ => Seq::empty(),
    }
}

/// The outputs after normalization: a wholly unknown mapping becomes a
/// known mapping with every declared read key unknown.
pub open spec fn norm_state(state: Value<StrDictV>, read: Value<ReadDictV>) -> Value<StrDictV> {
    if state is Unknown {
        Value::Known(unknown_outputs(read))
    } else {
        state
    }
}

/// The whole declaration after normalization.
pub open spec fn normalize_spec(s: ResourceStateV) -> ResourceStateV {
    ResourceStateV {
        id: norm_id(s.id),
        inputs: norm_inputs(s.inputs),
        state: norm_state(s.state, s.read),
        ..s
    }
}

/// Filling unknown outputs keeps keys, and hence well-formedness.
pub proof fn lemma_unknown_outputs_wf(read: Value<ReadDictV>)
    requires
        read matches Value::Known(rd) ==> dict_wf(rd),
    ensures
        dict_wf(unknown_outputs(read)),
{
}

/// Normalization keeps well-formedness.
pub proof fn lemma_normalize_wf(s: ResourceStateV)
    requires
        rs_wf(s),
    ensures
        rs_wf(normalize_spec(s)),
{
    lemma_unknown_outputs_wf(s.read);
}

/// Build the mapping with one unknown output per declared read key.
pub fn make_unknown_outputs(read: &Value<Dict<Value<ReadSpec>>>) -> (r: Dict<Value<String>>)
    ensures
        r@ =~= unknown_outputs(read@),
{
    let mut entries: Vec<(String, Value<String>)> = Vec::new();
    match read {
        Value::Known(rd) => {
            let n = rd.entries.len();
            let mut i: usize = 0;
            while i < n
                invariant
                    n == rd.entries@.len(),
                    i <= n,
                    entries@.len() == i,
                    forall|j: int| #![auto]
                        0 <= j < i ==> entries@[j].0@ == rd.entries@[j].0@ && entries@[j].1
                            is Unknown,
                decreases n - i,
            {
                entries.push((rd.entries[i].0.clone(), Value::Unknown));
                i = i + 1;
            }
            Dict { entries }
        },
        _ => Dict { entries },
    }
}

impl ResourceState {
    /// Fix degenerate states: an absent id becomes unknown, absent inputs
    /// become an empty mapping, wholly unknown outputs become one unknown
    /// output per declared read key.  Nothing else changes.
    pub fn normalize(&mut self)
        ensures
            final(self)@ == normalize_spec(old(self)@),
    {
        if self.id.null() {
            self.id = Value::Unknown;
        }
        if self.inputs.null() {
            self.inputs = Value::Known(Dict::empty());
        }
        if self.state.unknown() {
            let filled = make_unknown_outputs(&self.read);
            self.state = Value::Known(filled);
        }
        proof {
            assert(final(self)@.state =~~= normalize_spec(old(self)@).state);
            assert(final(self)@.inputs =~~= normalize_spec(old(self)@).inputs);
            assert(final(self)@ =~~= normalize_spec(old(self)@));
        }
    }

    /// A copy of the read rules.
    pub fn dup_read(&self) -> (r: Value<Dict<Value<ReadSpec>>>)
        ensures
            r@ == self@.read,
    {
        match &self.read {
            Value::Known(rd) => {
                let n = rd.entries.len();
                let mut entries: Vec<(String, Value<ReadSpec>)> = Vec::new();
                let mut i: usize = 0;
                while i < n
                    invariant
                        n == rd.entries@.len(),
                        i <= n,
                        entries@.len() == i,
                        forall|j: int| #![auto]
                            0 <= j < i ==> entries@[j].0@ == rd.entries@[j].0@ && entries@[j].1@
                                == rd.entries@[j].1@,
                    decreases n - i,
                {
                    let k = rd.entries[i].0.clone();
                    let v = rd.entries[i].1.dup();
                    entries.push((k, v));
                    i = i + 1;
                }
                let d = Dict { entries };
                proof {
                    assert(d@ =~= rd@);
                }
                Value::Known(d)
            },
            Value::Null => Value::Null,
            Value::Unknown => Value::Unknown,
        }
    }
}

/// A data source declaration: inputs, outputs and the read rules that
/// produce the outputs.
#[derive(Debug, Clone)]
pub struct DataSourceState {
    /// Configuration keys and their string values.
    pub inputs: Value<Dict<Value<String>>>,
    /// Output keys and their string values.
    pub outputs: Value<Dict<Value<String>>>,
    /// Read rules, one per declared output key.
    pub read: Value<Dict<Value<ReadSpec>>>,
    /// Transport configuration, opaque to the core.
    pub connect: Value<Dict<Value<String>>>,
    /// Maximum number of simultaneous read commands (default 4).
    pub command_concurrency: Value<u64>,
}

/// The view of a data source declaration.
pub ghost struct DataSourceStateV {
    pub inputs: Value<StrDictV>,
    pub outputs: Value<StrDictV>,
    pub read: Value<ReadDictV>,
    pub connect: Value<StrDictV>,
    pub command_concurrency: Value<u64>,
}

impl View for DataSourceState {
    type V = DataSourceStateV;

    open spec fn view(&self) -> DataSourceStateV {
        DataSourceStateV {
            inputs: self.inputs@,
            outputs: self.outputs@,
            read: self.read@,
            connect: self.connect@,
            command_concurrency: self.command_concurrency@,
        }
    }
}

/// Whether the keys of every known dictionary of the declaration are
/// pairwise distinct.
pub open spec fn ds_wf(s: DataSourceStateV) -> bool {
    &&& (s.inputs matches Value::Known(d) ==> dict_wf(d))
    &&& (s.outputs matches Value::Known(d) ==> dict_wf(d))
    &&& (s.connect matches Value::Known(d) ==> dict_wf(d))
    &&& (s.read matches Value::Known(d) ==> dict_wf(d))
}

/// The effective read concurrency: the declared bound, or 4 when absent.
pub open spec fn concurrency_of(c: Value<u64>) -> u64 {
    match c {
        Value::Known(n) => n,
        _ => 4,
    }
}

/// The effective read concurrency of a declaration.
pub fn effective_concurrency(c: &Value<u64>) -> (r: u64)
    ensures
        r == concurrency_of(*c),
{
    match c {
        Value::Known(n) => *n,
        _ => 4,
    }
}

} // verus!
