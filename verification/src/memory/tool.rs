//! The `memory` tool: one tool, told apart by `action` and `target`.
use vstd::prelude::*;

use crate::json::{Json, JsonView, array, empty_fields, no_fields, object, put, text};
use crate::memory::error::{MemoryError, MemoryErrorView, memory_message};
use crate::memory::files::{Files, MemoryFs};
use crate::memory::store::{
    BoundedMemoryStore, Outcome, StoreView, Target, added, entries_in, label_of, removed, rendered,
    replaced, scan_of, target_named,
};
use crate::text::{decimal, decimal_of, join, joined, labelled, push_to, same, trim};
use crate::tool::ToolResult;

verus! {

/// When to save what, and in which words.
pub const DEFAULT_MEMORY_TOOL_DESCRIPTION: &'static str =
    "Persistent curated memory you control, injected into your prompt every session. Two stores:\n- target='memory' (MEMORY.md): your own notes — environment facts, project conventions, tool quirks, lessons learned. Cap 2200 chars.\n- target='user' (USER.md): who the user is — preferences, role, communication style, pet peeves, workflow habits. Cap 1375 chars.\n\nWHEN TO SAVE (proactively, don't wait to be asked): the user corrects you or says 'remember this'; shares a preference or personal detail; you discover an environment fact (OS, tooling, project layout); you learn a convention or API quirk. Priority: user preferences/corrections > environment facts > procedural knowledge — the best memory stops the user repeating themselves.\n\nDO NOT SAVE task progress, session outcomes, PR/issue numbers, commit SHAs, 'Phase N done', or anything stale within a week. If it will be stale in a week, it does not belong here. Procedures/workflows belong in skills, not memory.\n\nWrite DECLARATIVE FACTS, not instructions: 'User prefers concise responses' OK — 'Always respond concisely' WRONG. Imperative phrasing gets re-read as a directive in later sessions and causes repeated work.\n\nActions:\n- action='read', target=<store>: list current entries.\n- action='add', target=<store>, content='<single fact>': append a pithy single-fact line. Idempotent. Errors if it would breach the cap — `remove` or `replace` first.\n- action='remove', target=<store>, search='<unique substring>': delete one entry (substring must match exactly one).\n- action='replace', target=<store>, search='<unique substring>', replacement='<new content>': swap one entry (same uniqueness rule).\n\nStyle: one short self-contained line per entry. No paragraphs, no timestamps/dates.";

/// The beginning of a text: all of it where it has at most `n` characters, else its first
/// `n` and an ellipsis.
pub open spec fn excerpt(s: Seq<char>, n: nat) -> Seq<char> {
    if s.len() <= n {
        s
    } else {
        s.take(n as int) + "…"@
    }
}

/// The beginning of a text.
pub fn truncate(s: &str, n: usize) -> (r: String)
    ensures
        r@ == excerpt(s@, n as nat),
{
    if s.unicode_len() <= n {
        s.to_owned()
    } else {
        let head = s.substring_char(0, n);
        assert(head@ =~= s@.take(n as int));
        labelled(head, "…")
    }
}

/// The entries as numbered lines.
pub open spec fn numbered(entries: Seq<Seq<char>>) -> Seq<Seq<char>> {
    Seq::new(entries.len(), |i: int| decimal((i + 1) as nat) + ". "@ + entries[i])
}

/// What reading a store answers.
pub open spec fn read_answer(target: Target, entries: Seq<Seq<char>>, limit: nat) -> Seq<char> {
    if entries.len() == 0 {
        "(empty — no entries in "@ + label_of(target) + ")"@
    } else {
        join(numbered(entries), "\n"@) + "\n\n["@ + decimal(entries.len()) + " entries, "@
            + decimal(rendered(entries).len()) + "/"@ + decimal(limit) + " chars]"@
    }
}

/// What adding an entry answers.
pub open spec fn add_answer(target: Target, count: nat, total: nat, limit: nat) -> Seq<char> {
    "ok — added to "@ + label_of(target) + " ("@ + decimal(count) + " entries, "@ + decimal(total)
        + "/"@ + decimal(limit) + " chars)"@
}

/// What removing an entry answers.
pub open spec fn remove_answer(target: Target, entry: Seq<char>) -> Seq<char> {
    "ok — removed from "@ + label_of(target) + ": "@ + excerpt(entry, 120)
}

/// A field that is missing.
pub open spec fn missing(field: Seq<char>, files: Files) -> Outcome<Seq<char>> {
    Outcome { result: Err(MemoryErrorView::MissingField { field }), files }
}

/// What comes of an action on a store.
pub open spec fn action_outcome(
    store: StoreView,
    files: Files,
    action: Seq<char>,
    target: Target,
    input: JsonView,
    now: u64,
) -> Outcome<Seq<char>> {
    let limit = store.limit(target);
    if action == "read"@ {
        Outcome { result: Ok(read_answer(target, entries_in(files, target), limit)), files }
    } else if action == "add"@ {
        match input.at("content"@).text() {
            None => missing("content"@, files),
            Some(content) => {
                let done = added(store, files, target, content, scan_of(trim(content)), now);
                match done.result {
                    Ok(count) => Outcome {
                        result: Ok(
                            add_answer(
                                target,
                                count,
                                rendered(entries_in(done.files, target)).len(),
                                limit,
                            ),
                        ),
                        files: done.files,
                    },
                    Err(error) => Outcome { result: Err(error), files: done.files },
                }
            },
        }
    } else if action == "remove"@ {
        match input.at("search"@).text() {
            None => missing("search"@, files),
            Some(search) => {
                let done = removed(store, files, target, search, now);
                match done.result {
                    Ok(entry) => Outcome {
                        result: Ok(remove_answer(target, entry)),
                        files: done.files,
                    },
                    Err(error) => Outcome { result: Err(error), files: done.files },
                }
            },
        }
    } else if action == "replace"@ {
        match input.at("search"@).text() {
            None => missing("search"@, files),
            Some(search) => match input.at("replacement"@).text() {
                None => missing("replacement"@, files),
                Some(replacement) => {
                    let done = replaced(
                        store,
                        files,
                        target,
                        search,
                        replacement,
                        scan_of(trim(replacement)),
                        now,
                    );
                    match done.result {
                        Ok(_) => Outcome {
                            result: Ok("ok — replaced in "@ + label_of(target)),
                            files: done.files,
                        },
                        Err(error) => Outcome { result: Err(error), files: done.files },
                    }
                },
            },
        }
    } else {
        Outcome { result: Err(MemoryErrorView::InvalidAction { action }), files }
    }
}

/// What comes of a call of the tool.
pub open spec fn call_outcome(store: StoreView, files: Files, input: JsonView, now: u64) -> Outcome<
    Seq<char>,
> {
    match input.at("action"@).text() {
        None => missing("action"@, files),
        Some(action) => match input.at("target"@).text() {
            None => missing("target"@, files),
            Some(name) => match target_named(name) {
                Err(error) => Outcome { result: Err(error), files },
                Ok(target) => action_outcome(store, files, action, target, input, now),
            },
        },
    }
}

/// The `memory` tool.
#[derive(Debug)]
pub struct MemoryTool {
    pub store: BoundedMemoryStore,
    pub description: String,
}

fn numbered_lines(entries: &Vec<String>) -> (r: Vec<String>)
    ensures
        r.deep_view() == numbered(entries.deep_view()),
{
    let mut out: Vec<String> = Vec::new();
    let mut i: usize = 0;
    while i < entries.len()
        invariant
            i <= entries@.len(),
            out.deep_view() =~= numbered(entries.deep_view()).take(i as int),
        decreases entries@.len() - i,
    {
        let mut line = decimal_of(i as u128 + 1);
        line.append(". ");
        line.append(entries[i].as_str());
        push_to(&mut out, line);
        i = i + 1;
    }
    assert(numbered(entries.deep_view()).take(i as int) =~= numbered(entries.deep_view()));
    out
}

impl MemoryTool {
    /// The tool over a store, with its own description.
    pub fn new(store: BoundedMemoryStore) -> (r: MemoryTool)
        ensures
            r.store == store,
            r.description@ == DEFAULT_MEMORY_TOOL_DESCRIPTION@,
    {
        MemoryTool { store, description: DEFAULT_MEMORY_TOOL_DESCRIPTION.to_owned() }
    }

    /// The tool with another description.
    pub fn with_description(self, description: String) -> (r: MemoryTool)
        ensures
            r.store == self.store,
            r.description@ == description@,
    {
        MemoryTool { store: self.store, description }
    }

    /// The name of the tool.
    pub fn name(&self) -> (r: &'static str)
        ensures
            r@ == "memory"@,
    {
        "memory"
    }

    /// The description of the tool.
    pub fn description(&self) -> (r: &str)
        ensures
            r@ == self.description@,
    {
        self.description.as_str()
    }

    fn read_store(&self, files: &MemoryFs, target: Target) -> (r: String)
        ensures
            r@ == read_answer(target, entries_in(files@, target), self.store@.limit(target)),
    {
        let entries = self.store.read(files, target);
        if entries.len() == 0 {
            let mut out = labelled("(empty — no entries in ", target.label());
            out.append(")");
            return out;
        }
        let mut out = joined(&numbered_lines(&entries), "\n");
        out.append("\n\n[");
        out.append(decimal_of(entries.len() as u128).as_str());
        out.append(" entries, ");
        out.append(decimal_of(self.store.char_count(files, target) as u128).as_str());
        out.append("/");
        out.append(decimal_of(self.store.limit_for(target) as u128).as_str());
        out.append(" chars]");
        out
    }

    fn act(
        &self,
        files: &mut MemoryFs,
        action: &str,
        target: Target,
        input: &Json,
        now: u64,
    ) -> (r: Result<String, MemoryError>)
        ensures
            ({
                let outcome = action_outcome(
                    self.store@,
                    old(files)@,
                    action@,
                    target,
                    input.deep_view(),
                    now,
                );
                &&& final(files)@ == outcome.files
                &&& match r {
                    Ok(answer) => outcome.result == Ok::<Seq<char>, MemoryErrorView>(answer@),
                    Err(error) => outcome.result == Err::<Seq<char>, MemoryErrorView>(
                        error.deep_view(),
                    ),
                }
            }),
    {
        if same(action, "read") {
            return Ok(self.read_store(files, target));
        }
        if same(action, "add") {
            let content = match input.text_at("content") {
                Some(content) => content,
                None => {
                    return Err(MemoryError::MissingField { field: "content" });
                },
            };
            return match self.store.add(files, target, content.as_str(), now) {
                Ok(count) => {
                    let mut out = labelled("ok — added to ", target.label());
                    out.append(" (");
                    out.append(decimal_of(count as u128).as_str());
                    out.append(" entries, ");
                    out.append(decimal_of(self.store.char_count(files, target) as u128).as_str());
                    out.append("/");
                    out.append(decimal_of(self.store.limit_for(target) as u128).as_str());
                    out.append(" chars)");
                    Ok(out)
                },
                Err(error) => Err(error),
            };
        }
        if same(action, "remove") {
            let search = match input.text_at("search") {
                Some(search) => search,
                None => {
                    return Err(MemoryError::MissingField { field: "search" });
                },
            };
            return match self.store.remove(files, target, search.as_str(), now) {
                Ok(entry) => {
                    let mut out = labelled("ok — removed from ", target.label());
                    out.append(": ");
                    out.append(truncate(entry.as_str(), 120).as_str());
                    Ok(out)
                },
                Err(error) => Err(error),
            };
        }
        if same(action, "replace") {
            let search = match input.text_at("search") {
                Some(search) => search,
                None => {
                    return Err(MemoryError::MissingField { field: "search" });
                },
            };
            let replacement = match input.text_at("replacement") {
                Some(replacement) => replacement,
                None => {
                    return Err(MemoryError::MissingField { field: "replacement" });
                },
            };
            return match self.store.replace(
                files,
                target,
                search.as_str(),
                replacement.as_str(),
                now,
            ) {
                Ok(_) => Ok(labelled("ok — replaced in ", target.label())),
                Err(error) => Err(error),
            };
        }
        Err(MemoryError::InvalidAction { action: action.to_owned() })
    }

    /// Carries out a call of the tool.
    pub fn dispatch(&self, files: &mut MemoryFs, input: &Json, now: u64) -> (r: Result<
        String,
        MemoryError,
    >)
        ensures
            ({
                let outcome = call_outcome(self.store@, old(files)@, input.deep_view(), now);
                &&& final(files)@ == outcome.files
                &&& match r {
                    Ok(answer) => outcome.result == Ok::<Seq<char>, MemoryErrorView>(answer@),
                    Err(error) => outcome.result == Err::<Seq<char>, MemoryErrorView>(
                        error.deep_view(),
                    ),
                }
            }),
    {
        let action = match input.text_at("action") {
            Some(action) => action,
            None => {
                return Err(MemoryError::MissingField { field: "action" });
            },
        };
        let target = match input.text_at("target") {
            Some(name) => match Target::parse(name.as_str()) {
                Ok(target) => target,
                Err(error) => {
                    return Err(error);
                },
            },
            None => {
                return Err(MemoryError::MissingField { field: "target" });
            },
        };
        self.act(files, action.as_str(), target, input, now)
    }

    /// Carries out a call of the tool; an error is an answer too.
    pub fn execute(&self, files: &mut MemoryFs, input: &Json, now: u64) -> (r: ToolResult)
        ensures
            ({
                let outcome = call_outcome(self.store@, old(files)@, input.deep_view(), now);
                &&& final(files)@ == outcome.files
                &&& match outcome.result {
                    Ok(answer) => r.success && r.output.deep_view() == JsonView::Text(answer),
                    Err(error) => !r.success && r.output.deep_view() == JsonView::Text(
                        memory_message(error),
                    ),
                }
            }),
    {
        match self.dispatch(files, input, now) {
            Ok(answer) => ToolResult::ok_text(answer),
            Err(error) => ToolResult::error(error.message()),
        }
    }

    /// The JSON schema of the tool's input.
    pub fn parameters_schema(&self) -> (r: Json)
        ensures
            r.deep_view() == schema(),
    {
        let mut actions: Vec<Json> = Vec::new();
        assert(actions.deep_view() =~= Seq::empty());
        push_to(&mut actions, text("add"));
        push_to(&mut actions, text("replace"));
        push_to(&mut actions, text("remove"));
        push_to(&mut actions, text("read"));
        let mut targets: Vec<Json> = Vec::new();
        assert(targets.deep_view() =~= Seq::empty());
        push_to(&mut targets, text("memory"));
        push_to(&mut targets, text("user"));
        let mut required: Vec<Json> = Vec::new();
        assert(required.deep_view() =~= Seq::empty());
        push_to(&mut required, text("action"));
        push_to(&mut required, text("target"));
        let mut properties = empty_fields();
        put(
            &mut properties,
            "action",
            make_choice(array(actions), "What to do with the store."),
        );
        put(
            &mut properties,
            "target",
            make_choice(
                array(targets),
                "Which store: 'memory' (MEMORY.md) or 'user' (USER.md).",
            ),
        );
        put(&mut properties, "content", make_text("Entry content. Required for action=add."));
        put(
            &mut properties,
            "search",
            make_text(
                "Unique substring of an existing entry. Required for action=remove and action=replace.",
            ),
        );
        put(
            &mut properties,
            "replacement",
            make_text("New content for the matched entry. Required for action=replace."),
        );
        let mut fields = empty_fields();
        put(&mut fields, "type", text("object"));
        put(&mut fields, "properties", object(properties));
        put(&mut fields, "required", array(required));
        put(&mut fields, "additionalProperties", Json::Bool(false));
        object(fields)
    }
}

/// The schema of a text out of a few.
pub open spec fn choice(options: JsonView, description: Seq<char>) -> JsonView {
    JsonView::Object(
        no_fields().push(("type"@, JsonView::Text("string"@))).push(("enum"@, options)).push(
            ("description"@, JsonView::Text(description)),
        ),
    )
}

/// The schema of a text.
pub open spec fn free_text(description: Seq<char>) -> JsonView {
    JsonView::Object(
        no_fields().push(("type"@, JsonView::Text("string"@))).push(
            ("description"@, JsonView::Text(description)),
        ),
    )
}

fn make_choice(options: Json, description: &str) -> (r: Json)
    ensures
        r.deep_view() == choice(options.deep_view(), description@),
{
    let mut fields = empty_fields();
    put(&mut fields, "type", text("string"));
    put(&mut fields, "enum", options);
    put(&mut fields, "description", text(description));
    object(fields)
}

fn make_text(description: &str) -> (r: Json)
    ensures
        r.deep_view() == free_text(description@),
{
    let mut fields = empty_fields();
    put(&mut fields, "type", text("string"));
    put(&mut fields, "description", text(description));
    object(fields)
}

/// The JSON schema of the tool's input.
pub open spec fn schema() -> JsonView {
    let actions = Seq::empty().push(JsonView::Text("add"@)).push(JsonView::Text("replace"@)).push(
        JsonView::Text("remove"@),
    ).push(JsonView::Text("read"@));
    let targets = Seq::empty().push(JsonView::Text("memory"@)).push(JsonView::Text("user"@));
    let required = Seq::empty().push(JsonView::Text("action"@)).push(JsonView::Text("target"@));
    let properties = no_fields().push(
        ("action"@, choice(JsonView::Array(actions), "What to do with the store."@)),
    ).push(
        (
            "target"@,
            choice(
                JsonView::Array(targets),
                "Which store: 'memory' (MEMORY.md) or 'user' (USER.md)."@,
            ),
        ),
    ).push(("content"@, free_text("Entry content. Required for action=add."@))).push(
        (
            "search"@,
            free_text(
                "Unique substring of an existing entry. Required for action=remove and action=replace."@,
            ),
        ),
    ).push(
        (
            "replacement"@,
            free_text("New content for the matched entry. Required for action=replace."@),
        ),
    );
    JsonView::Object(
        no_fields().push(("type"@, JsonView::Text("object"@))).push(
            ("properties"@, JsonView::Object(properties)),
        ).push(("required"@, JsonView::Array(required))).push(
            ("additionalProperties"@, JsonView::Bool(false)),
        ),
    )
}

} // verus!
