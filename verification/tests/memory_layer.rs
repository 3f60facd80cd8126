use std::hash::{Hash, Hasher};

use runic::json::Json;
use runic::memory::builder::memory;
use runic::memory::config::{ExternalProviderConfig, MemoryConfig, ProviderConfig};
use runic::memory::error::MemoryError;
use runic::memory::files::MemoryFs;
use runic::memory::lock::lock_path_for;
use runic::memory::manager::{prefetch_all, system_prompt};
use runic::memory::provider::BuiltinProvider;
use runic::memory::review::{MEMORY_REVIEW_GUIDANCE, ReviewScheduler};
use runic::memory::storage::{
    MemStorage, MemoryStorage, MemoryStorageError, check_revision, revision_for,
};
use runic::memory::store::{BoundedMemoryStore, Target};
use runic::memory::tool::{DEFAULT_MEMORY_TOOL_DESCRIPTION, MemoryTool, truncate};
use runic::tool::ToolResult;

const NOW: u64 = 1_700_000_000;

fn json(text: &str) -> Json {
    Json::parse(text).unwrap()
}

fn make() -> (MemoryTool, MemoryFs) {
    (MemoryTool::new(BoundedMemoryStore::new()), MemoryFs::new())
}

fn run(tool: &MemoryTool, files: &mut MemoryFs, input: &str) -> ToolResult {
    tool.execute(files, &json(input), NOW)
}

#[test]
fn fires_every_interval_turns() {
    let mut s = ReviewScheduler::new(3);
    assert!(s.enabled());
    assert!(!s.record_turn());
    assert!(!s.record_turn());
    assert!(s.record_turn());
    assert_eq!(s.turns_since(), 0);
    assert!(!s.record_turn());
    assert!(!s.record_turn());
    assert!(s.record_turn());
}

#[test]
fn interval_zero_never_fires() {
    let mut s = ReviewScheduler::new(0);
    assert!(!s.enabled());
    for _ in 0..50 {
        assert!(!s.record_turn());
    }
}

#[test]
fn interval_one_fires_every_turn() {
    let mut s = ReviewScheduler::new(1);
    assert!(s.record_turn());
    assert!(s.record_turn());
    assert!(s.record_turn());
}

#[test]
fn guidance_is_declarative_not_imperative() {
    assert!(MEMORY_REVIEW_GUIDANCE.contains("declarative"));
    assert!(MEMORY_REVIEW_GUIDANCE.contains("memory"));
}

#[test]
fn defaults_match_hermes() {
    let c = MemoryConfig::default();
    assert!(c.enabled && c.memory_enabled && c.user_profile_enabled);
    assert_eq!(c.memory_char_limit, 2200);
    assert_eq!(c.user_char_limit, 1375);
    assert_eq!(c.nudge_interval, 10);
    assert!(matches!(c.provider, ProviderConfig::Builtin));
    assert!(c.nudge_enabled());
}

#[test]
fn nudge_disabled_when_interval_zero() {
    let c = MemoryConfig { nudge_interval: 0, ..Default::default() };
    assert!(!c.nudge_enabled());
}

#[test]
fn provider_config_roundtrips_through_json() {
    let value = json(
        r#"{
            "kind": "external",
            "name": "mem0",
            "base_url": "https://api.mem0.ai",
            "api_key": "sk-x",
            "options": { "org": "acme" }
        }"#,
    );
    match ProviderConfig::from_json(&value).unwrap() {
        ProviderConfig::External(e) => {
            assert_eq!(e.name, "mem0");
            assert_eq!(e.base_url.as_deref(), Some("https://api.mem0.ai"));
            assert_eq!(e.options, vec![("org".to_string(), Json::Text("acme".to_string()))]);
        },
        _ => panic!("expected external"),
    }
}

#[test]
fn configurations_are_read_back_from_their_json() {
    let text = a_configuration();
    let config = MemoryConfig::from_json(&json(&text)).unwrap();
    let written = config.to_json();
    assert_eq!(json(&written.print()), json(&text));
    let again = MemoryConfig::from_json(&written).unwrap();
    assert_eq!((again.memory_char_limit, again.user_char_limit), (10, 20));
    assert_eq!(again.nudge_interval, 0);
    assert!(again.enabled && !again.memory_enabled && again.user_profile_enabled);
    assert!(!again.threat_scanning);
    match again.provider {
        ProviderConfig::External(e) => {
            assert_eq!((e.name.as_str(), e.base_url.as_deref()), ("mem0", Some("u")));
            assert!(e.api_key.is_none());
            assert_eq!(e.options, vec![("org".to_string(), Json::Text("acme".to_string()))]);
            let alone = ExternalProviderConfig::from_json(&e.to_json()).unwrap();
            assert_eq!((alone.name, alone.options), (e.name, e.options));
        },
        _ => panic!("expected external"),
    }
    assert_eq!(ProviderConfig::Builtin.to_json(), json(r#"{"kind":"builtin"}"#));
}

fn a_configuration() -> String {
    let mut text = String::from(r#"{"enabled":true,"memory_enabled":false,"#);
    text.push_str(r#""user_profile_enabled":true,"memory_char_limit":10,"user_char_limit":20,"#);
    text.push_str(r#""threat_scanning":false,"nudge_interval":0,"provider":{"kind":"external","#);
    text.push_str(r#""name":"mem0","base_url":"u","api_key":null,"options":{"org":"acme"}}}"#);
    text
}

#[test]
fn builtin_is_the_default_variant() {
    let p = ProviderConfig::from_json(&json(r#"{"kind": "builtin"}"#)).unwrap();
    assert!(matches!(p, ProviderConfig::Builtin));
    assert!(matches!(ProviderConfig::default(), ProviderConfig::Builtin));
    assert!(ProviderConfig::from_json(&json(r#"{"kind": "other"}"#)).is_none());
}

#[test]
fn configurations_default_what_they_leave_out() {
    let c = MemoryConfig::from_json(&json(r#"{"nudge_interval": 3, "enabled": false}"#)).unwrap();
    assert_eq!(c.nudge_interval, 3);
    assert!(!c.enabled && c.threat_scanning);
    assert_eq!(c.user_char_limit, 1375);
    assert!(!c.nudge_enabled());
    assert!(MemoryConfig::from_json(&json(r#"{"nudge_interval": 4294967296}"#)).is_none());
    assert!(MemoryConfig::from_json(&json(r#"{"enabled": null}"#)).is_none());
}

#[test]
fn add_then_read_via_tool() {
    let (tool, mut files) = make();
    let add = run(
        &tool,
        &mut files,
        r#"{"action": "add", "target": "user", "content": "lives in Paris"}"#,
    );
    assert!(add.success, "{:?}", add.output);

    let read = run(&tool, &mut files, r#"{"action": "read", "target": "user"}"#);
    assert!(read.success);
    assert!(read.text().contains("lives in Paris"));
    assert!(read.text().contains("1 entries"));
}

#[test]
fn add_missing_content_errors() {
    let (tool, mut files) = make();
    let result = run(&tool, &mut files, r#"{"action": "add", "target": "user"}"#);
    assert!(!result.success);
    assert!(result.text().contains("content"));
}

#[test]
fn invalid_action_errors() {
    let (tool, mut files) = make();
    let result = run(&tool, &mut files, r#"{"action": "yeet", "target": "memory"}"#);
    assert!(!result.success);
    assert!(result.text().contains("yeet"));
}

#[test]
fn invalid_target_errors() {
    let (tool, mut files) = make();
    let result = run(&tool, &mut files, r#"{"action": "read", "target": "nope"}"#);
    assert!(!result.success);
    assert!(result.text().contains("nope"));
}

#[test]
fn read_empty_reports_empty() {
    let (tool, mut files) = make();
    let result = run(&tool, &mut files, r#"{"action": "read", "target": "memory"}"#);
    assert!(result.success);
    assert!(result.text().contains("empty"));
}

#[test]
fn full_flow_add_replace_remove_read() {
    let (tool, mut files) = make();
    run(
        &tool,
        &mut files,
        r#"{"action": "add", "target": "memory", "content": "uses fish shell"}"#,
    );
    run(
        &tool,
        &mut files,
        r#"{"action": "replace", "target": "memory", "search": "fish", "replacement": "uses zsh shell"}"#,
    );
    let read = run(&tool, &mut files, r#"{"action": "read", "target": "memory"}"#);
    assert!(read.text().contains("zsh"));
    assert!(!read.text().contains("fish"));

    let removed =
        run(&tool, &mut files, r#"{"action": "remove", "target": "memory", "search": "zsh"}"#);
    assert!(removed.success);
    let after = run(&tool, &mut files, r#"{"action": "read", "target": "memory"}"#);
    assert!(after.text().contains("empty"));
}

#[test]
fn shared_store_is_visible_across_tool_invocations() {
    let (tool1, mut files) = make();
    let tool2 = MemoryTool::new(BoundedMemoryStore::new());
    run(
        &tool1,
        &mut files,
        r#"{"action": "add", "target": "user", "content": "shared fact"}"#,
    );
    let read = run(&tool2, &mut files, r#"{"action": "read", "target": "user"}"#);
    assert!(read.text().contains("shared fact"));
}

#[test]
fn tool_writes_show_up_when_a_separate_reader_reads() {
    let (tool, mut files) = make();
    let result = run(
        &tool,
        &mut files,
        r#"{"action": "add", "target": "memory", "content": "shell is zsh"}"#,
    );
    assert!(result.success, "{}", result.text());
    assert!(files.read("memory/MEMORY.md").unwrap().contains("shell is zsh"));
}

#[test]
fn calls_need_their_fields() {
    let (tool, mut files) = make();
    let missing = |input: &str, files: &mut MemoryFs| match tool.dispatch(files, &json(input), NOW) {
        Err(MemoryError::MissingField { field }) => field,
        other => panic!("{other:?}"),
    };
    assert_eq!(missing("{}", &mut files), "action");
    assert_eq!(missing(r#"{"action":"read"}"#, &mut files), "target");
    assert_eq!(missing(r#"{"action":"remove","target":"user"}"#, &mut files), "search");
    assert_eq!(
        missing(r#"{"action":"replace","target":"user","search":"x"}"#, &mut files),
        "replacement"
    );
    assert_eq!(tool.name(), "memory");
    assert_eq!(tool.description(), DEFAULT_MEMORY_TOOL_DESCRIPTION);
    assert_eq!(tool.parameters_schema().text_at("type").unwrap(), "object");
    assert_eq!(truncate("abcdef", 3).chars().count(), 4);
}

#[test]
fn errors_of_the_store_have_words() {
    assert!(MemoryError::EntryTooLong { actual: 9, limit: 5 }.message().contains('9'));
    assert!(MemoryError::NoMatch { search: "x y".into() }.message().contains("\"x y\""));
    assert!(MemoryError::Storage("disk".into()).message().contains("disk"));
    let lock = MemoryError::Lock { target: "user".into(), source: "busy".into() };
    assert!(lock.message().contains("busy"));
}

#[test]
fn builtin_block_is_none_when_empty() {
    let p = BuiltinProvider::new(BoundedMemoryStore::new());
    assert!(p.system_prompt_block(&MemoryFs::new()).is_none());
}

#[test]
fn builtin_block_renders_after_a_write() {
    let p = BuiltinProvider::new(BoundedMemoryStore::new());
    let mut files = MemoryFs::new();
    p.store().add(&mut files, Target::User, "user prefers terse answers", NOW).unwrap();
    let block = p.system_prompt_block(&files).unwrap();
    assert!(block.contains("USER PROFILE"));
    assert!(block.contains("user prefers terse answers"));
}

#[test]
fn builtin_block_respects_target_gates() {
    let store = BoundedMemoryStore::new();
    let mut files = MemoryFs::new();
    store.add(&mut files, Target::Memory, "uses zsh", NOW).unwrap();
    store.add(&mut files, Target::User, "lives in Paris", NOW).unwrap();
    let p = BuiltinProvider::new(store).with_user_enabled(false);
    let block = p.system_prompt_block(&files).unwrap();
    assert!(block.contains("uses zsh"));
    assert!(!block.contains("Paris"));
    assert_eq!(p.enabled_targets(), vec![Target::Memory]);
}

#[test]
fn builtin_exposes_the_memory_tool() {
    let p = BuiltinProvider::new(BoundedMemoryStore::new());
    let tools = p.tools();
    assert_eq!(tools.len(), 1);
    assert_eq!(tools[0].name(), "memory");
}

#[test]
fn system_prompt_collects_builtin_block_only() {
    let store = BoundedMemoryStore::new();
    let mut files = MemoryFs::new();
    store.add(&mut files, Target::Memory, "uses nix", NOW).unwrap();
    let builtin = BuiltinProvider::new(store);
    let sp = system_prompt(&vec![builtin.system_prompt_block(&files), None]);
    assert!(sp.contains("MEMORY (your personal notes)"));
    assert!(sp.contains("uses nix"));
    let blocks = vec![Some("a".to_string()), Some(String::new()), None, Some("b".to_string())];
    assert_eq!(system_prompt(&blocks), "a\n\nb");
}

#[test]
fn prefetch_wraps_external_recall_in_fence() {
    let pf = prefetch_all(&vec![Some("recalled: what shell".to_string())]);
    assert!(pf.starts_with("<memory-context>"));
    assert!(pf.contains("recalled: what shell"));
    assert!(pf.ends_with("</memory-context>"));
    assert_eq!(pf, "<memory-context>\nrecalled: what shell\n</memory-context>");
}

#[test]
fn prefetch_is_empty_when_nothing_recalled() {
    assert!(prefetch_all(&vec![None]).is_empty());
    assert!(prefetch_all(&vec![Some("  \n".to_string())]).is_empty());
}

#[test]
fn tools_are_gathered_across_providers() {
    let builtin = BuiltinProvider::new(BoundedMemoryStore::new());
    let tools = builtin.tools();
    assert_eq!(tools.len(), 1);
    assert_eq!(tools[0].name(), "memory");
}

#[test]
fn mem_roundtrip() {
    let mut s = MemStorage::new();
    assert!(s.read("k").unwrap().is_none());
    s.write("k", "v", None).unwrap();
    assert_eq!(s.read("k").unwrap().map(|o| o.content).as_deref(), Some("v"));
}

#[test]
fn stale_revision_conflicts() {
    let mut s = MemStorage::new();
    let first = s.write("k", "v1", None).unwrap();
    s.write("k", "v2", Some(&first)).unwrap();
    assert!(matches!(
        s.write("k", "v3", Some(&first)).unwrap_err(),
        MemoryStorageError::Conflict { .. }
    ));
}

#[test]
fn local_roundtrip_overwrites() {
    let mut s = MemStorage::new();
    assert!(s.read("memory/MEMORY.md").unwrap().is_none());
    s.write("memory/MEMORY.md", "one", None).unwrap();
    let one = s.read("memory/MEMORY.md").unwrap().unwrap();
    assert_eq!(one.content, "one");
    s.write("memory/MEMORY.md", "two", Some(&one.revision)).unwrap();
    assert_eq!(
        s.read("memory/MEMORY.md").unwrap().map(|o| o.content).as_deref(),
        Some("two")
    );
}

#[test]
fn revisions_are_hashes_in_hexadecimal() {
    let mut hasher = std::collections::hash_map::DefaultHasher::new();
    "hello".hash(&mut hasher);
    assert_eq!(revision_for("hello").as_str(), format!("{:016x}", hasher.finish()));
    let now = revision_for("hello");
    assert!(check_revision("k", Some("hello"), Some(&now)).is_ok());
    assert!(check_revision("k", Some("hello"), None).is_err());
    assert!(check_revision("k", None, Some(&now)).is_err());
    assert!(check_revision("k", None, None).is_ok());
}

#[test]
fn lock_files_stand_beside_the_data() {
    assert_eq!(lock_path_for("memory/USER.md"), "memory/USER.md.lock");
}

#[test]
fn memory_is_set_up_as_asked() {
    let plain = memory("root".into());
    assert!(plain.tools(plain.store("root".into())).is_none());
    assert!(plain.plan("acme").tenant_dir.is_none());
    assert_eq!(plain.curation_interval_turns(), 0);
    let full = memory("root".into())
        .init()
        .scope_per_tenant()
        .include_memory_tool()
        .memory_tool_description("notes".into())
        .curate_every_turns(4)
        .curation_guidance("be brief".into());
    let plan = full.plan("acme");
    assert_eq!(plan.tenant_dir.as_deref(), Some("acme"));
    assert!(plan.create && !plan.shared_by_mistake);
    assert!(full.plan("").shared_by_mistake);
    let store = full.store("root/acme".into());
    assert_eq!(store.lock_dir(), Some("root/acme"));
    assert_eq!(full.tools(store).unwrap().description(), "notes");
    assert_eq!(full.curation_interval_turns(), 4);
    assert_eq!(full.curation_guidance_override(), Some("be brief"));
}
