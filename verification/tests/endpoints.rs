use bs::usage::{ModuleData, UsageAccumulator};
use bs::client_config::ClientLoaderConfig;
use bs::bundle::{BundlePolicy, GroupRule, Module};
use bs::handlers::{serve_req_dump_json, serve_config_dump_json, serve_build_json,
    serve_loaders_dump_json, serve_seed_dump_json, handle_post_data, serve_requirejs_config,
    get_deps_from_str, render_loaders, SeedData};
use bs::preset::{M2Preset, M2PresetOptions, ReqCatcher, Preset, PresetRegistry, RewriteFnId,
    HookId, HttpMethod, Endpoint, apply_rewrites};
use bs::rewrites::RewriteContext;
use bs::wire::extract_data;

#[test]
fn extract_data_decodes_the_documented_payload() {
    let data = r#"{
  "url": "https://127.0.0.1:8080/static/version1536567404/frontend/Acme/default/en_GB/Magento_Ui/js/form/form.js",
  "id": "Magento_Ui/js/form/form",
  "referrer": "/"
}"#;
    let d = extract_data(Some(&data.to_string())).unwrap();
    assert_eq!(
        d.url,
        "https://127.0.0.1:8080/static/version1536567404/frontend/Acme/default/en_GB/Magento_Ui/js/form/form.js"
    );
    assert_eq!(d.id, "Magento_Ui/js/form/form");
    assert_eq!(d.referrer, "/");
}

#[test]
fn extract_data_drops_malformed_payloads() {
    assert!(extract_data(Some(&String::from("not json"))).is_none());
    assert!(extract_data(Some(&String::from("{\"url\": 3}"))).is_none());
    assert!(extract_data(None).is_none());
}

#[test]
fn tracking_then_dump_returns_exactly_one_record() {
    let mut acc = UsageAccumulator::new();
    let catcher = ReqCatcher::new();
    let payload = String::from(r#"{"url":"https://h/f.js","id":"Magento_Ui/js/form/form","referrer":"/"}"#);
    catcher.finish(&mut acc, Some(&payload));
    catcher.finish(&mut acc, Some(&payload));
    catcher.finish(&mut acc, None);
    let snap = acc.snapshot();
    let body = serve_req_dump_json(&snap);
    assert_eq!(
        body,
        "[\n  {\n    \"url\": \"https://h/f.js\",\n    \"id\": \"Magento_Ui/js/form/form\",\n    \"referrer\": \"/\"\n  }\n]"
    );
}

#[test]
fn config_dump_of_a_fresh_store_is_exact() {
    let store = ClientLoaderConfig::new();
    let body = serve_config_dump_json(&store);
    assert_eq!(
        body,
        "{\n  \"baseUrl\": \"\",\n  \"deps\": [],\n  \"map\": {},\n  \"config\": {},\n  \"paths\": {},\n  \"shim\": {}\n}"
    );
}

#[test]
fn build_with_empty_accumulator_and_empty_blacklist_passes_state_through() {
    let records: Vec<ModuleData> = vec![];
    let store = ClientLoaderConfig::new();
    let policy = BundlePolicy { module_blacklist: Some(vec![]), groups: vec![] };
    let (status, body) = serve_build_json(&records, &store, Some(&policy));
    assert_eq!(status, 200);
    assert_eq!(
        body,
        "{\n  \"deps\": [],\n  \"map\": {},\n  \"config\": {},\n  \"paths\": {},\n  \"shim\": {},\n  \"modules\": []\n}"
    );
}

#[test]
fn build_without_policy_answers_a_structured_error() {
    let records: Vec<ModuleData> = vec![];
    let store = ClientLoaderConfig::new();
    let (status, body) = serve_build_json(&records, &store, None);
    assert_eq!(status, 500);
    assert_eq!(body, "{\n  \"message\": \"bundle policy is not configured\"\n}");
}

#[test]
fn generation_is_deterministic_across_calls() {
    let records = vec![
        ModuleData {
            url: String::from("u1"),
            id: String::from("a"),
            referrer: String::from("/"),
        },
        ModuleData {
            url: String::from("u2"),
            id: String::from("b"),
            referrer: String::from("/"),
        },
    ];
    let store = ClientLoaderConfig::new();
    let policy = BundlePolicy {
        module_blacklist: None,
        groups: vec![GroupRule { name: String::from("home"), referrers: vec![String::from("/")] }],
    };
    let first = serve_build_json(&records, &store, Some(&policy));
    let second = serve_build_json(&records, &store, Some(&policy));
    assert_eq!(first, second);
}

#[test]
fn loaders_listing_renders_groups_and_failure_is_nah() {
    let ms = vec![
        Module {
            name: String::from("checkout"),
            includes: vec![String::from("a"), String::from("b")],
        },
        Module { name: String::from("home"), includes: vec![String::from("c")] },
    ];
    assert_eq!(render_loaders(&ms), "checkout -> a,b\nhome -> c\n");
    let records: Vec<ModuleData> = vec![];
    let store = ClientLoaderConfig::new();
    assert_eq!(serve_loaders_dump_json(&records, &store, None), "NAH");
}

#[test]
fn seed_dump_combines_config_and_records() {
    let store = ClientLoaderConfig::new();
    let records = vec![ModuleData {
        url: String::from("u"),
        id: String::from("i"),
        referrer: String::from("/"),
    }];
    let body = serve_seed_dump_json(&SeedData { client_config: store, module_items: records });
    assert!(body.starts_with("{\n  \"client_config\": {\n"));
    assert!(body.contains("\"module_items\": [\n"));
    assert!(body.contains("\"id\": \"i\""));
}

#[test]
fn posted_config_replaces_fields_and_acknowledges() {
    let mut store = ClientLoaderConfig::new();
    store.merge_deps(vec![String::from("kept")]);
    let body = r#"{
        "baseUrl": "https://origin/",
        "deps": ["ignored-on-post"],
        "map": {"*": {"x": "y"}},
        "paths": {"lib": "https://origin/js/lib"},
        "shim": {"legacy": {"deps": ["jquery"], "exports": "L"}}
    }"#;
    let reply = handle_post_data(&mut store, body);
    assert_eq!(reply, "Was Good!");
    assert_eq!(store.base_url, "https://origin/");
    assert_eq!(store.deps, vec![String::from("kept")]);
    assert_eq!(store.paths.len(), 1);
    assert_eq!(store.paths[0].id, "lib");
    assert_eq!(store.paths[0].path, "https://origin/js/lib");
    assert_eq!(store.shim.len(), 1);
    assert_eq!(store.shim[0].deps, vec![String::from("jquery")]);
    assert_eq!(store.shim[0].exports, Some(String::from("L")));
}

#[test]
fn posted_garbage_changes_nothing_and_reports_the_parse_error() {
    let mut store = ClientLoaderConfig::new();
    let reply = handle_post_data(&mut store, "{nope");
    assert_eq!(reply, "could not parse the posted configuration");
    assert_eq!(store.base_url, "");
}

#[test]
fn posted_non_object_or_mistyped_document_changes_nothing() {
    let mut store = ClientLoaderConfig::new();
    store.base_url = String::from("untouched");
    for body in ["[1]", "\"hello\"", "3", "{\"baseUrl\": 3}", "{\"deps\": [1]}",
        "{\"paths\": {\"lib\": 3}}", "{\"shim\": {\"legacy\": \"oops\"}}"] {
        let reply = handle_post_data(&mut store, body);
        assert_eq!(reply, "could not parse the posted configuration");
        assert_eq!(store.base_url, "untouched");
    }
}

#[test]
fn deps_are_extracted_from_a_loader_configuration_body() {
    let body = "var config = { deps: [\"jquery\", \"mage/bootstrap\"] };";
    let deps = get_deps_from_str(body).unwrap();
    assert_eq!(deps, vec![String::from("jquery"), String::from("mage/bootstrap")]);
    assert!(get_deps_from_str("no dependency list here").is_none());
    assert_eq!(get_deps_from_str("deps: []").unwrap(), Vec::<String>::new());
}

#[test]
fn intercepted_loader_config_merges_deps_and_appends_the_snippet() {
    let mut store = ClientLoaderConfig::new();
    let body = String::from("require.config({ deps: [\"a\"] });");
    let out = serve_requirejs_config(&mut store, &body.clone().into_bytes()).ok().unwrap();
    assert!(out.starts_with("require.config({ deps: [\"a\"] });"));
    assert!(out.len() > body.len());
    assert!(out.contains("/__bs/post"));
    assert_eq!(store.deps, vec![String::from("a")]);
}

#[test]
fn served_require_js_carries_the_tracking_snippet() {
    let body = String::from("var requirejs;/*loader*/");
    let out = bs::handlers::serve_instrumented_require_js(&body.clone().into_bytes())
        .ok()
        .unwrap();
    assert!(out.starts_with("var requirejs;/*loader*/"));
    assert!(out.contains("bs_track"));
    assert!(out.len() > body.len());
}

#[test]
fn intercepted_body_without_a_dependency_list_keeps_deps() {
    let mut store = ClientLoaderConfig::new();
    store.merge_deps(vec![String::from("kept")]);
    let body = String::from("console.log('nothing to see');");
    let out = serve_requirejs_config(&mut store, &body.into_bytes()).ok().unwrap();
    assert!(out.contains("/__bs/post"));
    assert_eq!(store.deps, vec![String::from("kept")]);
}

#[test]
fn loaders_listing_includes_the_configured_mixins() {
    let chars: Vec<char> =
        r#"{"mixins": {"mage/form": {"My_Mod/js/form-mixin": true, "Off/mixin": false}}}"#
        .chars()
        .collect();
    let mut cfg = ClientLoaderConfig::new();
    cfg.config = bs::json::parse_json(&chars).unwrap();
    let records: Vec<ModuleData> = vec![];
    let policy = BundlePolicy { module_blacklist: None, groups: vec![] };
    let body = serve_loaders_dump_json(&records, &cfg, Some(&policy));
    assert_eq!(body, "mixins -> My_Mod/js/form-mixin\n");
}

#[test]
fn tracking_payload_with_unicode_escapes_decodes() {
    let data = String::from(r#"{"url":"\u0041B","id":"\uD83D\uDE00","referrer":"/"}"#);
    let d = extract_data(Some(&data)).unwrap();
    assert_eq!(d.url, "AB");
    assert_eq!(d.id, "\u{1F600}");
    assert_eq!(d.referrer, "/");
    let lone = String::from(r#"{"url":"\uD83D","id":"i","referrer":"/"}"#);
    assert!(extract_data(Some(&lone)).is_none());
}

#[test]
fn renderer_escapes_control_characters() {
    let chars: Vec<char> = "{\"a\": \"x\\u0001y\"}".chars().collect();
    let parsed = bs::json::parse_json(&chars).unwrap();
    assert_eq!(bs::json::to_text(&parsed), "{\n  \"a\": \"x\\u0001y\"\n}");
}

#[test]
fn preset_contributes_resources_hooks_and_rewrites_in_order() {
    let preset = M2Preset::new(M2PresetOptions { require_path: None, bundle_config: None });
    let resources = preset.add_resources();
    assert_eq!(resources.len(), 8);
    assert_eq!(resources[1].path, "/__bs/reqs.json");
    assert!(matches!(resources[1].method, HttpMethod::Get));
    assert!(matches!(resources[1].endpoint, Endpoint::ReqsDump));
    assert_eq!(resources[6].path, "/__bs/post");
    assert!(matches!(resources[6].method, HttpMethod::Post));

    let mut registry = PresetRegistry::new();
    registry.register(Preset::M2(M2Preset::new(M2PresetOptions {
        require_path: None,
        bundle_config: None,
    })));
    registry.register(Preset::M2(M2Preset::new(M2PresetOptions {
        require_path: None,
        bundle_config: None,
    })));
    assert_eq!(registry.contribute_resources().len(), 16);
    let rewrites = registry.contribute_rewrites();
    assert_eq!(rewrites.len(), 2);
    assert!(matches!(rewrites[0], RewriteFnId::CookieDomain));
    let hooks = registry.contribute_before_hooks();
    assert_eq!(hooks.len(), 2);
    assert!(matches!(hooks[0], HookId::ReqCatcher));
}

#[test]
fn shared_containers_track_post_and_snapshot_consistently() {
    let acc = bs::shared::SharedAccumulator::new();
    let payload = String::from(r#"{"url":"u","id":"i","referrer":"/"}"#);
    acc.track(Some(&payload));
    acc.track(Some(&payload));
    acc.track(Some(&String::from("not json")));
    let snap = acc.snapshot();
    assert_eq!(snap.len(), 1);
    assert_eq!(snap[0].id, "i");

    let store = bs::shared::SharedConfigStore::new();
    let reply = store.post(r#"{"baseUrl": "https://origin/"}"#);
    assert_eq!(reply, "Was Good!");
    assert_eq!(store.post("{nope"), "could not parse the posted configuration");
    assert_eq!(store.snapshot().base_url, "https://origin/");
    let body = String::from("x = { deps: [\"a\"] };");
    let out = store.instrument_loader_config(&body.into_bytes()).ok().unwrap();
    assert!(out.contains("/__bs/post"));
    assert_eq!(store.snapshot().deps, vec![String::from("a")]);
}

#[test]
fn unknown_preset_names_select_nothing() {
    let opts = M2PresetOptions { require_path: None, bundle_config: None };
    assert!(bs::preset::preset_of_name("m2", opts).is_some());
    let opts2 = M2PresetOptions { require_path: None, bundle_config: None };
    assert!(bs::preset::preset_of_name("unknown", opts2).is_none());
}

#[test]
fn the_registered_rewrite_list_is_applied_in_order() {
    let mut registry = PresetRegistry::new();
    registry.register(Preset::M2(M2Preset::new(M2PresetOptions {
        require_path: None,
        bundle_config: None,
    })));
    let fns = registry.contribute_rewrites();
    let ctx = RewriteContext {
        host_to_replace: String::from("www.acme.com"),
        target_host: String::from("127.0.0.1"),
        target_port: 80,
    };
    let body = String::from(r#"a"domain": ".www.acme.com",b"#);
    assert_eq!(apply_rewrites(body, &fns, &ctx), "ab");
}
