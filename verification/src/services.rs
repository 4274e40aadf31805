//! The tagged-union registry entry: one type for every pluggable service the
//! process registers, so that an ordered registration list can hold services
//! of different concrete types and the registry treats them uniformly.

use vstd::prelude::*;

use crate::errors::BuildError;
use crate::librarian::LibrarianService;
use crate::my_other_service::OtherService;
use crate::my_service::MyService;
use crate::registry::Service;
use crate::routing::{Subtree, SubtreeView};

verus! {

/// One registered service of the process.
pub enum RegisteredService {
    My(MyService),
    Other(OtherService),
    Librarian(LibrarianService),
}

impl Service for RegisteredService {
    open spec fn prefix_spec(&self) -> Seq<char> {
        match self {
            RegisteredService::My(s) => s.prefix_spec(),
            RegisteredService::Other(s) => s.prefix_spec(),
            RegisteredService::Librarian(s) => s.prefix_spec(),
        }
    }

    open spec fn build_spec(&self) -> Result<SubtreeView, BuildError> {
        match self {
            RegisteredService::My(s) => s.build_spec(),
            RegisteredService::Other(s) => s.build_spec(),
            RegisteredService::Librarian(s) => s.build_spec(),
        }
    }

    fn prefix(&self) -> (r: String) {
        match self {
            RegisteredService::My(s) => s.prefix(),
            RegisteredService::Other(s) => s.prefix(),
            RegisteredService::Librarian(s) => s.prefix(),
        }
    }

    fn build_web_service(&self) -> (r: Result<Subtree, BuildError>) {
        match self {
            RegisteredService::My(s) => s.build_web_service(),
            RegisteredService::Other(s) => s.build_web_service(),
            RegisteredService::Librarian(s) => s.build_web_service(),
        }
    }
}

} // verus!
