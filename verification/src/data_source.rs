//! A read-only data source driven by shell-like commands.
//!
//! A data source declares inputs and read rules; reading it resolves
//! every declared output by running the rules through the transport.

use vstd::prelude::*;

use crate::connection::Connection;
use crate::diag::Diagnostics;
use crate::state::{ds_wf, make_unknown_outputs, unknown_outputs, DataSourceState};
use crate::value::Value;

verus! {

/// A data source backed by a transport.
#[derive(Debug)]
pub struct GenericCmdDataSource<T: Connection> {
    connect: T,
}

impl<T: Connection> GenericCmdDataSource<T> {
    /// A data source backed by the given transport.
    pub fn new(connect: T) -> Self {
        GenericCmdDataSource { connect }
    }

    /// Check the declaration: the transport configuration must pass the
    /// transport's own checks.  Returns a result exactly when no error
    /// was collected.
    pub fn validate(&self, diags: &mut Diagnostics, config: &DataSourceState) -> (r: Option<()>)
        ensures
            old(diags).errors@.is_prefix_of(final(diags).errors@),
            old(diags).warnings@.is_prefix_of(final(diags).warnings@),
            r is Some <==> final(diags).errors@.len() == 0,
    {
        let ghost pre_e = diags.errors@;
        let ghost pre_w = diags.warnings@;
        let from_transport = self.connect.validate(&config.connect);
        diags.absorb(from_transport);
        proof {
            assert(pre_e.is_prefix_of(diags.errors@));
            assert(pre_w.is_prefix_of(diags.warnings@));
        }
        if diags.has_errors() {
            None
        } else {
            Some(())
        }
    }

    /// Read the data source: every declared output is marked unknown and
    /// then resolved through its read rule against the `INPUT_*`
    /// environment.  No output is left unknown.
    pub fn read(&self, diags: &mut Diagnostics, config: DataSourceState) -> (r: Option<
        DataSourceState,
    >)
        requires
            ds_wf(config@),
        ensures
            old(diags).errors@.is_prefix_of(final(diags).errors@),
            old(diags).warnings@.is_prefix_of(final(diags).warnings@),
            r matches Some(s) && ({
                let s2 = s@;
                &&& ds_wf(s2)
                &&& s2.inputs == config@.inputs
                &&& s2.read == config@.read
                &&& s2.connect == config@.connect
                &&& s2.command_concurrency == config@.command_concurrency
                &&& (s2.outputs matches Value::Known(nd) && nd.len() == unknown_outputs(
                    config@.read,
                ).len() && (forall|j: int|
                    0 <= j < nd.len() ==> (#[trigger] nd[j]).0 == unknown_outputs(
                        config@.read,
                    )[j].0) && (forall|j: int|
                    0 <= j < nd.len() ==> !((#[trigger] nd[j]).1 is Unknown)))
                &&& crate::read::read_diag_spec(
                    *old(diags),
                    *final(diags),
                    unknown_outputs(config@.read),
                    config@.read,
                    s2.outputs->Known_0,
                    false,
                )
            }),
    {
        let env = crate::envs::env_pairs(&config.inputs, "INPUT_");
        let mut state = config;
        let filled = make_unknown_outputs(&state.read);
        state.outputs = Value::Known(filled);
        proof {
            crate::state::lemma_unknown_outputs_wf(state@.read);
        }
        state.read(diags, &self.connect, &env);
        Some(state)
    }
}

} // verus!
