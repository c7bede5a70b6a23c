use vstd::prelude::*;

use crate::map::StrMap;

verus! {

/// Named values, service bindings and secret references that bind a workflow for a run.
#[derive(Debug, Clone)]
pub struct RuntimeEnvironment {
    pub name: Option<String>,
    pub services: StrMap<ServiceBinding>,
    pub values: StrMap<String>,
    pub secret_refs: StrMap<String>,
}

/// Where a named service is reached.
#[derive(Debug, Clone)]
pub struct ServiceBinding {
    pub base_url: String,
}

impl Default for RuntimeEnvironment {
    fn default() -> (r: Self)
        ensures
            r.name is None,
            r.services.items().len() == 0,
            r.values.items().len() == 0,
            r.secret_refs.items().len() == 0,
            r.services.wf(),
            r.values.wf(),
            r.secret_refs.wf(),
    {
        RuntimeEnvironment {
            name: None,
            services: StrMap::new(),
            values: StrMap::new(),
            secret_refs: StrMap::new(),
        }
    }
}

} // verus!
