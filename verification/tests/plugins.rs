use runic::plugins::{
    Contribution, Manifest, Plugin, PluginManager, namespace_of, read_manifest,
};

fn item(name: &str, body: &str) -> Contribution {
    Contribution { name: name.to_string(), body: body.to_string() }
}

fn plugin(folder: &str, manifest: Option<&str>, skills: Option<usize>) -> Option<Plugin> {
    Plugin::load(folder, read_manifest(manifest), skills, vec![], vec![])
}

#[test]
fn loads_and_aggregates_a_plugin_bundle() {
    let alpha = Plugin::load(
        "alpha",
        Manifest::default(),
        Some(0),
        vec![item("helper", "Help.")],
        vec![item("hi", "Say hi to $ARGUMENTS")],
    )
    .unwrap();
    let beta = plugin("beta", None, Some(1)).unwrap();

    let mgr = PluginManager::from_found(&vec![beta, alpha]);
    assert_eq!(mgr.len(), 2);
    assert!(mgr.get("alpha").is_some());
    assert_eq!(mgr.names(), vec!["alpha", "beta"]);

    let skills = mgr.skills();
    assert_eq!(skills.get("alpha"), Some(&0));
    assert_eq!(skills.get("beta"), Some(&1));
    assert_eq!(skills.len(), 2);

    assert_eq!(mgr.agents(), vec![item("helper", "Help.")]);
    assert_eq!(mgr.commands(), vec![item("hi", "Say hi to $ARGUMENTS")]);
}

#[test]
fn manifest_name_overrides_and_disable_skips() {
    let renamed = plugin("raw", Some(r#"{"name": "acme"}"#), Some(0)).unwrap();
    let off = plugin("off", Some(r#"{"enabled": false}"#), Some(1)).unwrap();
    let mgr = PluginManager::from_found(&vec![renamed, off]);
    let skills = mgr.skills();
    assert_eq!(skills.len(), 1);
    assert_eq!(skills.get("acme"), Some(&0));
    assert!(mgr.get("acme").is_some());
}

#[test]
fn malformed_manifest_falls_back_to_folder() {
    let plug = plugin("plug", Some("{ not valid json "), Some(7)).unwrap();
    let mgr = PluginManager::from_found(&vec![plug]);
    assert_eq!(mgr.skills().get("plug"), Some(&7));
    let odd = plugin("odd", Some(r#"{"name": 3}"#), None).unwrap();
    assert_eq!(odd.name, "odd");
    assert!(plugin("odd", Some(r#"{"enabled": null, "name": "x"}"#), None).unwrap().enabled);
}

#[test]
fn invalid_namespace_skips_plugin() {
    assert!(plugin("bad", Some(r#"{"name": "a:b"}"#), None).is_none());
    let found: Vec<Plugin> =
        plugin("bad", Some(r#"{"name": "a:b"}"#), None).into_iter().collect();
    let mgr = PluginManager::from_found(&found);
    assert!(mgr.is_empty());
}

#[test]
fn empty_root_is_fine() {
    let mgr = PluginManager::from_found(&vec![]);
    assert!(mgr.is_empty());
    assert_eq!(mgr.skills().len(), 0);
}

#[test]
fn namespaces_are_collapsed_and_bounded() {
    assert_eq!(namespace_of("  code \t review\n").as_deref(), Some("code review"));
    assert_eq!(namespace_of("code review").as_deref(), Some("code review"));
    assert!(namespace_of("   ").is_none());
    assert!(namespace_of("a:b").is_none());
    assert!(namespace_of(&"é".repeat(64)).is_some());
    assert!(namespace_of(&"é".repeat(65)).is_none());
}

#[test]
fn manifests_say_what_they_say() {
    let m = read_manifest(Some(r#"{"name":"n","version":"1","description":"d","extra":[]}"#));
    assert_eq!(m.name.as_deref(), Some("n"));
    assert_eq!(m.version.as_deref(), Some("1"));
    assert_eq!(m.description.as_deref(), Some("d"));
    assert!(m.enabled);
    assert!(read_manifest(None).name.is_none());
}

#[test]
fn later_plugins_win_and_disabled_ones_do_not() {
    let with = |folder: &str, manifest: &str, body: &str| {
        Plugin::load(
            folder,
            read_manifest(Some(manifest)),
            None,
            vec![item("shared", body)],
            vec![item(folder, body)],
        )
        .unwrap()
    };
    let found = vec![
        with("zz", r#"{"enabled": false}"#, "off"),
        with("b", "{}", "from b"),
        with("a", "{}", "from a"),
    ];
    let mgr = PluginManager::from_found(&found);
    assert_eq!(mgr.names(), vec!["a", "b", "zz"]);
    assert_eq!(mgr.agents(), vec![item("shared", "from b")]);
    assert_eq!(mgr.commands(), vec![item("a", "from a"), item("b", "from b")]);
}
