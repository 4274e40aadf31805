//! A second minimal pluggable service, mounted under `/api/v2`.

use vstd::prelude::*;

use crate::errors::BuildError;
use crate::registry::Service;
use crate::routing::{Route, RouteView, Subtree, SubtreeView};

verus! {

/// The service's configuration, loaded by the process entry point and passed
/// down explicitly.
#[derive(Debug, Default)]
pub struct OtherConfig {
    pub some_text: String,
}

/// The service itself. It carries its configuration when the load succeeded;
/// without one, building its subtree fails.
#[derive(Default)]
pub struct OtherService {
    pub config: Option<OtherConfig>,
}

/// The routes of this service's subtree.
pub open spec fn other_service_routes() -> Seq<RouteView> {
    seq![RouteView { path: "/show_config"@, protected: false }]
}

impl Service for OtherService {
    open spec fn prefix_spec(&self) -> Seq<char> {
        "/api/v2"@
    }

    open spec fn build_spec(&self) -> Result<SubtreeView, BuildError> {
        match self.config {
            Some(_) => Ok(SubtreeView { routes: other_service_routes() }),
            None => Err(BuildError::Configuration),
        }
    }

    fn prefix(&self) -> (r: String) {
        "/api/v2".to_owned()
    }

    fn build_web_service(&self) -> (r: Result<Subtree, BuildError>) {
        match &self.config {
            None => Err(BuildError::Configuration),
            Some(_) => {
                let mut routes: Vec<Route> = Vec::new();
                routes.push(Route { path: "/show_config".to_owned(), protected: false });
                let subtree = Subtree { routes };
                assert(subtree@.routes =~= other_service_routes());
                Ok(subtree)
            },
        }
    }
}

} // verus!
