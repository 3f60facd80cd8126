//! What the `memory` tool answers, and what it says of itself.
use vstd::prelude::*;

use crate::json::{JsonView, entry_push};
use crate::json_laws::list_under;
use crate::memory::files::Files;
use crate::memory::store::{
    StoreView, Target, added, entries_in, key_of, label_of, rendered, scan_of, target_named,
};
use crate::memory::tool::{call_outcome, excerpt, schema};
use crate::text::{contains, decimal, trim};
use crate::text_laws::{holds_still, holds_the_end};

verus! {

/// A store is known by its label, and by no other name; and the two stores are kept in two
/// files.
pub proof fn labels_name_the_stores(target: Target, name: Seq<char>)
    ensures
        target_named(label_of(target)) matches Ok(found) && found == target,
        target_named(name) matches Ok(found) ==> name == label_of(found),
        label_of(Target::Memory) == "memory"@,
        label_of(Target::User) == "user"@,
        key_of(Target::Memory) == "memory/MEMORY.md"@,
        key_of(Target::User) == "memory/USER.md"@,
{
    reveal_strlit("memory");
    reveal_strlit("user");
    assert("memory"@.len() == 6 && "user"@.len() == 4);
}

/// An answer names the store that was asked for. The answer to an addition also says how
/// many entries there are now, how many characters they take up and how many they may.
pub proof fn answers_name_the_store(
    store: StoreView,
    files: Files,
    input: JsonView,
    name: Seq<char>,
    now: u64,
)
    requires
        input.at("target"@) == JsonView::Text(name),
        call_outcome(store, files, input, now).result is Ok,
    ensures
        ({
            let done = call_outcome(store, files, input, now);
            let answer = done.result->Ok_0;
            let target = target_named(name)->Ok_0;
            let limit = store.limit(target);
            &&& input.at("action"@) == JsonView::Text("read"@) ==> (entries_in(files, target).len()
                == 0 ==> contains(answer, name))
            &&& input.at("action"@) == JsonView::Text("remove"@) ==> contains(answer, name)
            &&& input.at("action"@) == JsonView::Text("replace"@) ==> contains(answer, name)
            &&& input.at("action"@) == JsonView::Text("add"@) ==> {
                let content = input.at("content"@)->Text_0;
                let add = added(store, files, target, content, scan_of(trim(content)), now);
                &&& contains(answer, name)
                &&& contains(
                    answer,
                    decimal(add.result->Ok_0) + " entries, "@ + decimal(
                        rendered(entries_in(done.files, target)).len(),
                    ) + "/"@ + decimal(limit) + " chars"@,
                )
            }
        }),
{
    reveal_strlit("read");
    reveal_strlit("add");
    reveal_strlit("remove");
    reveal_strlit("replace");
    assert("read"@.len() == 4 && "add"@.len() == 3 && "remove"@.len() == 6 && "replace"@.len() == 7);
    let done = call_outcome(store, files, input, now);
    let answer = done.result->Ok_0;
    let target = target_named(name)->Ok_0;
    let limit = store.limit(target);
    labels_name_the_stores(target, name);
    if input.at("action"@) == JsonView::Text("read"@) {
        if entries_in(files, target).len() == 0 {
            holds_the_end("(empty — no entries in "@, name);
            holds_still("(empty — no entries in "@ + name, ")"@, name);
        }
    } else if input.at("action"@) == JsonView::Text("remove"@) {
        let search = input.at("search"@)->Text_0;
        let entry = crate::memory::store::removed(store, files, target, search, now).result->Ok_0;
        holds_the_end("ok — removed from "@, name);
        holds_still("ok — removed from "@ + name, ": "@, name);
        holds_still("ok — removed from "@ + name + ": "@, excerpt(entry, 120), name);
    } else if input.at("action"@) == JsonView::Text("replace"@) {
        holds_the_end("ok — replaced in "@, name);
    } else if input.at("action"@) == JsonView::Text("add"@) {
        let content = input.at("content"@)->Text_0;
        let add = added(store, files, target, content, scan_of(trim(content)), now);
        let count = decimal(add.result->Ok_0);
        let total = decimal(rendered(entries_in(done.files, target)).len());
        let told = count + " entries, "@ + total + "/"@ + decimal(limit) + " chars"@;
        reveal_strlit(" chars)");
        reveal_strlit(" chars");
        reveal_strlit(")");
        assert(" chars)"@ =~= " chars"@ + ")"@);
        let a = "ok — added to "@ + name;
        holds_the_end("ok — added to "@, name);
        holds_still(a, " ("@ + told + ")"@, name);
        holds_the_end(a + " ("@, told);
        holds_still(a + " ("@ + told, ")"@, told);
        assert(answer =~= a + " ("@ + told + ")"@);
        assert(answer =~= a + (" ("@ + told + ")"@));
    }
}

/// The tool says that it needs an action and a store, which actions and which stores there
/// are, and that it takes a content, a text to search for and a replacement.
pub proof fn the_tool_says_what_it_takes()
    ensures
        ({
            let takes = schema().at("properties"@);
            &&& schema().at("type"@) == JsonView::Text("object"@)
            &&& schema().at("additionalProperties"@) == JsonView::Bool(false)
            &&& list_under(schema(), "required"@) == seq![
                JsonView::Text("action"@),
                JsonView::Text("target"@),
            ]
            &&& list_under(takes.at("action"@), "enum"@) == seq![
                JsonView::Text("add"@),
                JsonView::Text("replace"@),
                JsonView::Text("remove"@),
                JsonView::Text("read"@),
            ]
            &&& list_under(takes.at("target"@), "enum"@) == seq![
                JsonView::Text("memory"@),
                JsonView::Text("user"@),
            ]
            &&& takes.at("content"@).at("type"@) == JsonView::Text("string"@)
            &&& takes.at("search"@).at("type"@) == JsonView::Text("string"@)
            &&& takes.at("replacement"@).at("type"@) == JsonView::Text("string"@)
        }),
{
    broadcast use entry_push;

    reveal_strlit("type");
    reveal_strlit("enum");
    reveal_strlit("description");
    reveal_strlit("properties");
    reveal_strlit("required");
    reveal_strlit("additionalProperties");
    reveal_strlit("action");
    reveal_strlit("target");
    reveal_strlit("content");
    reveal_strlit("search");
    reveal_strlit("replacement");
    assert("type"@.len() == 4 && "enum"@.len() == 4 && "type"@[0] != "enum"@[0]);
    assert("description"@.len() == 11 && "properties"@.len() == 10 && "required"@.len() == 8);
    assert("additionalProperties"@.len() == 20 && "action"@.len() == 6 && "target"@.len() == 6);
    assert("action"@[0] != "target"@[0] && "content"@.len() == 7 && "search"@.len() == 6);
    assert("search"@[0] != "target"@[0] && "search"@[0] != "action"@[0]);
    assert("replacement"@.len() == 11);
    let takes = schema().at("properties"@);
    assert(list_under(schema(), "required"@) =~= seq![
        JsonView::Text("action"@),
        JsonView::Text("target"@),
    ]);
    assert(list_under(takes.at("action"@), "enum"@) =~= seq![
        JsonView::Text("add"@),
        JsonView::Text("replace"@),
        JsonView::Text("remove"@),
        JsonView::Text("read"@),
    ]);
    assert(list_under(takes.at("target"@), "enum"@) =~= seq![
        JsonView::Text("memory"@),
        JsonView::Text("user"@),
    ]);
}

} // verus!
