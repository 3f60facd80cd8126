//! The built-in provider: the bounded store behind the `memory` tool, shown in the system
//! prompt.
use vstd::prelude::*;

use crate::memory::files::{Files, MemoryFs};
use crate::memory::store::{
    BoundedMemoryStore, StoreView, Target, block_text, entries_in, shown_blocks,
};
use crate::memory::tool::{DEFAULT_MEMORY_TOOL_DESCRIPTION, MemoryTool};
use crate::text::join;

verus! {

/// Whose memory it is.
#[derive(Debug)]
pub struct MemoryScope {
    pub user_id: String,
    pub session_id: String,
    pub chat_id: Option<String>,
}

impl Default for MemoryScope {
    fn default() -> (r: MemoryScope)
        ensures
            r.user_id@ == Seq::<char>::empty(),
            r.session_id@ == Seq::<char>::empty(),
            r.chat_id is None,
    {
        MemoryScope { user_id: String::new(), session_id: String::new(), chat_id: None }
    }
}

/// Where a write came from.
#[derive(Debug)]
pub struct MemoryWriteMeta {
    pub write_origin: String,
    pub execution_context: String,
    pub session_id: String,
}

impl Default for MemoryWriteMeta {
    fn default() -> (r: MemoryWriteMeta)
        ensures
            r.write_origin@ == Seq::<char>::empty(),
            r.execution_context@ == Seq::<char>::empty(),
            r.session_id@ == Seq::<char>::empty(),
    {
        MemoryWriteMeta {
            write_origin: String::new(),
            execution_context: String::new(),
            session_id: String::new(),
        }
    }
}

/// The built-in provider.
#[derive(Debug)]
pub struct BuiltinProvider {
    store: BoundedMemoryStore,
    memory_enabled: bool,
    user_enabled: bool,
}

/// The section of the system prompt that the stores come to.
pub open spec fn prompt_section(
    store: StoreView,
    files: Files,
    memory_enabled: bool,
    user_enabled: bool,
) -> Seq<char> {
    join(
        shown_blocks(
            block_text(
                Target::Memory,
                entries_in(files, Target::Memory),
                store.limit(Target::Memory),
            ),
            block_text(Target::User, entries_in(files, Target::User), store.limit(Target::User)),
            memory_enabled,
            user_enabled,
        ),
        "\n\n"@,
    )
}

impl BuiltinProvider {
    /// The store behind the provider.
    pub closed spec fn backing(&self) -> BoundedMemoryStore {
        self.store
    }

    /// Whether the memory store is shown.
    pub closed spec fn shows_memory(&self) -> bool {
        self.memory_enabled
    }

    /// Whether the user store is shown.
    pub closed spec fn shows_user(&self) -> bool {
        self.user_enabled
    }

    /// A provider that shows both stores.
    pub fn new(store: BoundedMemoryStore) -> (r: BuiltinProvider)
        ensures
            r.backing() == store,
            r.shows_memory(),
            r.shows_user(),
    {
        BuiltinProvider { store, memory_enabled: true, user_enabled: true }
    }

    /// The provider, showing the memory store or not.
    pub fn with_memory_enabled(self, on: bool) -> (r: BuiltinProvider)
        ensures
            r.backing() == self.backing(),
            r.shows_memory() == on,
            r.shows_user() == self.shows_user(),
    {
        BuiltinProvider { memory_enabled: on, ..self }
    }

    /// The provider, showing the user store or not.
    pub fn with_user_enabled(self, on: bool) -> (r: BuiltinProvider)
        ensures
            r.backing() == self.backing(),
            r.shows_memory() == self.shows_memory(),
            r.shows_user() == on,
    {
        BuiltinProvider { user_enabled: on, ..self }
    }

    /// The store behind the provider.
    pub fn store(&self) -> (r: &BoundedMemoryStore)
        ensures
            *r == self.backing(),
    {
        &self.store
    }

    /// The name of the provider.
    pub fn name(&self) -> (r: &'static str)
        ensures
            r@ == "builtin"@,
    {
        "builtin"
    }

    /// The block for the system prompt; nothing where it would be empty.
    pub fn system_prompt_block(&self, files: &MemoryFs) -> (r: Option<String>)
        ensures
            ({
                let section = prompt_section(
                    self.backing()@,
                    files@,
                    self.shows_memory(),
                    self.shows_user(),
                );
                r.deep_view() == if section.len() == 0 {
                    None
                } else {
                    Some(section)
                }
            }),
    {
        let section = self.store.snapshot(files).section(self.memory_enabled, self.user_enabled);
        if section.as_str().is_empty() {
            None
        } else {
            Some(section)
        }
    }

    /// The tools that the provider adds: the `memory` tool over its store.
    pub fn tools(&self) -> (r: Vec<MemoryTool>)
        ensures
            r@.len() == 1,
            r@[0].store@ == self.backing()@,
            r@[0].store.locks() == self.backing().locks(),
            r@[0].description@ == DEFAULT_MEMORY_TOOL_DESCRIPTION@,
    {
        let mut tools: Vec<MemoryTool> = Vec::new();
        tools.push(MemoryTool::new(self.store.clone()));
        tools
    }

    /// The stores that the provider shows.
    pub fn enabled_targets(&self) -> (r: Vec<Target>)
        ensures
            r@ == (if self.shows_memory() {
                Seq::empty().push(Target::Memory)
            } else {
                Seq::empty()
            }) + (if self.shows_user() {
                Seq::empty().push(Target::User)
            } else {
                Seq::empty()
            }),
    {
        let mut targets: Vec<Target> = Vec::new();
        if self.memory_enabled {
            targets.push(Target::Memory);
        }
        if self.user_enabled {
            targets.push(Target::User);
        }
        targets
    }
}

} // verus!
