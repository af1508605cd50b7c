//! The provider shell around the reconciliation core.
//!
//! The provider itself carries no configuration: its schema is a single
//! versioned empty block, and validating or configuring it always
//! succeeds.  The resources and data sources it offers are built from a
//! transport with [`crate::resource::GenericCmdResource::new`] and
//! [`crate::data_source::GenericCmdDataSource::new`].

use vstd::prelude::*;

verus! {

/// The provider: stateless, configuration-free.
#[derive(Debug, Clone)]
pub struct GenericProvider {}

impl GenericProvider {
    /// A fresh provider.
    pub fn new() -> Self {
        GenericProvider {  }
    }

    /// The provider's schema version.
    pub fn schema_version(&self) -> (r: u64)
        ensures
            r == 1,
    {
        1
    }

    /// The provider block carries nothing to check.
    pub fn validate(&self) -> (r: Option<()>)
        ensures
            r is Some,
    {
        Some(())
    }

    /// The provider needs no configuration.
    pub fn configure(&self) -> (r: Option<()>)
        ensures
            r is Some,
    {
        Some(())
    }
}

} // verus!
