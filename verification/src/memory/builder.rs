//! How an application sets its memory up.
use vstd::prelude::*;

use crate::memory::store::BoundedMemoryStore;
use crate::memory::tool::{DEFAULT_MEMORY_TOOL_DESCRIPTION, MemoryTool};

verus! {

/// What was asked of the memory.
#[derive(Debug)]
pub struct Memory {
    pub path: String,
    pub scoped: bool,
    pub tool: bool,
    pub tool_description: Option<String>,
    pub create: bool,
    pub curate_every_turns: u32,
    pub curation_guidance: Option<String>,
}

/// Memory under the given path, with nothing else asked.
pub fn memory(path: String) -> (r: Memory)
    ensures
        r == (Memory {
            path,
            scoped: false,
            tool: false,
            tool_description: None,
            create: false,
            curate_every_turns: 0,
            curation_guidance: None,
        }),
{
    Memory {
        path,
        scoped: false,
        tool: false,
        tool_description: None,
        create: false,
        curate_every_turns: 0,
        curation_guidance: None,
    }
}

/// Where a tenant's memory is, and what to do before it is used.
#[derive(Debug)]
pub struct StorePlan {
    /// The root of all memory.
    pub root: String,
    /// The directory of the tenant under the root, where tenants are apart.
    pub tenant_dir: Option<String>,
    /// Whether to create the directory.
    pub create: bool,
    /// Whether tenants were to be apart and this one has no name, so that memory is
    /// shared.
    pub shared_by_mistake: bool,
}

impl Memory {
    /// Create the directory before it is used.
    pub fn init(self) -> (r: Memory)
        ensures
            r == (Memory { create: true, ..self }),
    {
        Memory { create: true, ..self }
    }

    /// Keep the memory of tenants apart.
    pub fn scope_per_tenant(self) -> (r: Memory)
        ensures
            r == (Memory { scoped: true, ..self }),
    {
        Memory { scoped: true, ..self }
    }

    /// Hand the agent the `memory` tool.
    pub fn include_memory_tool(self) -> (r: Memory)
        ensures
            r == (Memory { tool: true, ..self }),
    {
        Memory { tool: true, ..self }
    }

    /// Describe the tool in other words.
    pub fn memory_tool_description(self, description: String) -> (r: Memory)
        ensures
            r == (Memory { tool_description: Some(description), ..self }),
    {
        Memory { tool_description: Some(description), ..self }
    }

    /// Curate in the background every so many turns.
    pub fn curate_every_turns(self, turns: u32) -> (r: Memory)
        ensures
            r == (Memory { curate_every_turns: turns, ..self }),
    {
        Memory { curate_every_turns: turns, ..self }
    }

    /// Guide the curation in other words.
    pub fn curation_guidance(self, guidance: String) -> (r: Memory)
        ensures
            r == (Memory { curation_guidance: Some(guidance), ..self }),
    {
        Memory { curation_guidance: Some(guidance), ..self }
    }

    /// Turns between two curations.
    pub fn curation_interval_turns(&self) -> (r: u32)
        ensures
            r == self.curate_every_turns,
    {
        self.curate_every_turns
    }

    /// The words that guide the curation, where they were given.
    pub fn curation_guidance_override(&self) -> (r: Option<&str>)
        ensures
            r.deep_view() == self.curation_guidance.deep_view(),
    {
        match &self.curation_guidance {
            Some(guidance) => Some(guidance.as_str()),
            None => None,
        }
    }

    /// Where the memory of `tenant` is, and what to do before it is used.
    pub fn plan(&self, tenant: &str) -> (r: StorePlan)
        ensures
            r.root@ == self.path@,
            r.tenant_dir.deep_view() == if self.scoped {
                Some(tenant@)
            } else {
                None
            },
            r.create == self.create,
            r.shared_by_mistake == (self.scoped && tenant@.len() == 0),
    {
        let tenant_dir = if self.scoped {
            Some(tenant.to_owned())
        } else {
            None
        };
        StorePlan {
            root: self.path.clone(),
            tenant_dir,
            create: self.create,
            shared_by_mistake: self.scoped && tenant.is_empty(),
        }
    }

    /// The store in the directory `dir`, locked by files beside it.
    pub fn store(&self, dir: String) -> (r: BoundedMemoryStore)
        ensures
            r@.memory_limit == crate::memory::store::DEFAULT_MEMORY_LIMIT,
            r@.user_limit == crate::memory::store::DEFAULT_USER_LIMIT,
            r@.threat_scanning,
            r.locks() == Some(dir@),
    {
        BoundedMemoryStore::new().with_lock_dir(dir)
    }

    /// The `memory` tool over `store`, where it was asked for.
    pub fn tools(&self, store: BoundedMemoryStore) -> (r: Option<MemoryTool>)
        ensures
            match r {
                Some(tool) => {
                    &&& self.tool
                    &&& tool.store == store
                    &&& tool.description@ == match self.tool_description {
                        Some(description) => description@,
                        None => DEFAULT_MEMORY_TOOL_DESCRIPTION@,
                    }
                },
                None => !self.tool,
            },
    {
        if self.tool {
            let tool = MemoryTool::new(store);
            match &self.tool_description {
                Some(description) => Some(tool.with_description(description.clone())),
                None => Some(tool),
            }
        } else {
            None
        }
    }
}

} // verus!
