use bs::rewrites::{RewriteContext, replace_cookie_domain_on_page};
use bs::usage::{ModuleData, UsageAccumulator};
use bs::client_config::{ClientLoaderConfig, PathMapping, ShimEntry};
use bs::bundle::{BundlePolicy, GroupRule, drop_blacklisted, strip_path_str, fix_shims,
    generate_modules, gather_state};
use bs::json::Json;
use bs::proxy::{decode_proxy_body, ProxyBodyError, create_outgoing, dec_of};
use bs::text::chars_to_string;

fn ctx(host: &str) -> RewriteContext {
    RewriteContext {
        host_to_replace: String::from(host),
        target_host: String::from("127.0.0.1"),
        target_port: 80,
    }
}

#[test]
fn test_replace_cookie_domain_on_page() {
    let bytes = r#"
        <script type="text/x-magento-init">
            {
                "*": {
                    "mage/cookies": {
                        "expires": null,
                        "path": "/",
                        "domain": ".www.acme.com",
                        "secure": false,
                        "lifetime": "10800"
                    }
                }
            }
        </script>
    "#;
    let replaced = replace_cookie_domain_on_page(
        &bytes,
        &RewriteContext {
            host_to_replace: String::from("www.acme.com"),
            target_host: String::from("127.0.0.1"),
            target_port: 80,
        },
    );
    println!("-> {}", replaced);
}

#[test]
fn cookie_domain_exact_host_is_removed_and_others_kept() {
    let body = r#"{"domain": ".www.acme.com","domain": ".other.com",}"#;
    let out = replace_cookie_domain_on_page(body, &ctx("www.acme.com"));
    assert_eq!(out, r#"{"domain": ".other.com",}"#);
}

#[test]
fn cookie_domain_absent_pattern_returns_input_unchanged() {
    let body = r#"{"domain": ".sub.www.acme.com",}"#;
    let out = replace_cookie_domain_on_page(body, &ctx("acme.com"));
    assert_eq!(out, body);
}

fn md(url: &str, id: &str, referrer: &str) -> ModuleData {
    ModuleData {
        url: String::from(url),
        id: String::from(id),
        referrer: String::from(referrer),
    }
}

#[test]
fn accumulator_dedupes_and_keeps_first_seen_order() {
    let mut acc = UsageAccumulator::new();
    acc.record(md("u1", "a", "/"));
    acc.record(md("u2", "b", "/"));
    acc.record(md("u1", "a", "/"));
    acc.record(md("u3", "c", "/x"));
    let snap = acc.snapshot();
    assert_eq!(snap.len(), 3);
    assert_eq!(snap[0].id, "a");
    assert_eq!(snap[1].id, "b");
    assert_eq!(snap[2].id, "c");
}

#[test]
fn store_replace_swaps_posted_fields_and_keeps_deps() {
    let mut store = ClientLoaderConfig::new();
    store.merge_deps(vec![String::from("jquery")]);
    let mut next = ClientLoaderConfig::new();
    next.base_url = String::from("https://origin/");
    next.deps = vec![String::from("should-not-arrive")];
    store.replace(next);
    assert_eq!(store.base_url, "https://origin/");
    assert_eq!(store.deps, vec![String::from("jquery")]);
}

#[test]
fn strip_path_removes_absolute_url_prefixes() {
    assert_eq!(strip_path_str(&String::from("https://h/static/js/lib")), "static/js/lib");
    assert_eq!(strip_path_str(&String::from("http://h/one")), "one");
    assert_eq!(strip_path_str(&String::from("js/lib")), "js/lib");
    assert_eq!(strip_path_str(&String::from("https://h")), "");
}

#[test]
fn strip_path_is_idempotent_on_examples() {
    for p in ["https://h/a/b", "http://x/y", "plain/path", "https://h/http://y/z"] {
        let once = strip_path_str(&String::from(p));
        let twice = strip_path_str(&once);
        assert_eq!(once, twice);
    }
}

#[test]
fn blacklist_filtering_is_exact_match() {
    let records = vec![
        md("u1", "js-translation", "/"),
        md("u2", "js-translation-extra", "/"),
        md("u3", "js-translatio", "/"),
        md("u4", "other", "/"),
    ];
    let blacklist = vec![String::from("js-translation")];
    let kept = drop_blacklisted(&records, &blacklist);
    assert_eq!(kept.len(), 3);
    assert_eq!(kept[0].id, "js-translation-extra");
    assert_eq!(kept[1].id, "js-translatio");
    assert_eq!(kept[2].id, "other");
}

#[test]
fn fix_shims_assigns_placeholder_exports() {
    let shims = vec![
        ShimEntry { id: String::from("legacy"), deps: vec![], exports: None },
        ShimEntry {
            id: String::from("named"),
            deps: vec![String::from("jquery")],
            exports: Some(String::from("$")),
        },
    ];
    let fixed = fix_shims(&shims);
    assert_eq!(fixed[0].exports, Some(String::from("legacy")));
    assert_eq!(fixed[1].exports, Some(String::from("$")));
}

#[test]
fn generate_modules_groups_by_referrer_in_first_seen_order() {
    let records = vec![
        md("u1", "mod-b", "/checkout"),
        md("u2", "mod-a", "/"),
        md("u3", "mod-b", "/checkout"),
        md("u4", "mod-c", "/checkout"),
        md("u5", "mod-d", "/unmatched"),
    ];
    let rules = vec![
        GroupRule { name: String::from("checkout"), referrers: vec![String::from("/checkout")] },
        GroupRule { name: String::from("home"), referrers: vec![String::from("/")] },
        GroupRule { name: String::from("empty"), referrers: vec![String::from("/nothing")] },
    ];
    let modules = generate_modules(&records, &rules);
    assert_eq!(modules.len(), 2);
    assert_eq!(modules[0].name, "checkout");
    assert_eq!(modules[0].includes, vec![String::from("mod-b"), String::from("mod-c")]);
    assert_eq!(modules[1].name, "home");
    assert_eq!(modules[1].includes, vec![String::from("mod-a")]);
}

#[test]
fn gather_state_without_policy_fails_with_configuration_error() {
    let records: Vec<ModuleData> = vec![];
    let config = ClientLoaderConfig::new();
    let out = gather_state(&records, &config, None);
    assert!(out.is_err());
    assert_eq!(out.err().unwrap(), "bundle policy is not configured");
}

#[test]
fn gather_state_applies_builtin_blacklist() {
    let records = vec![md("u1", "js-translation", "/"), md("u2", "kept", "/")];
    let config = ClientLoaderConfig::new();
    let policy = BundlePolicy {
        module_blacklist: None,
        groups: vec![GroupRule { name: String::from("home"), referrers: vec![String::from("/")] }],
    };
    let (_derived, modules) = gather_state(&records, &config, Some(&policy)).ok().unwrap();
    assert_eq!(modules.len(), 1);
    assert_eq!(modules[0].includes, vec![String::from("kept")]);
}

#[test]
fn gather_state_strips_paths_and_fixes_shims() {
    let records: Vec<ModuleData> = vec![];
    let mut config = ClientLoaderConfig::new();
    config.paths = vec![PathMapping {
        id: String::from("lib"),
        path: String::from("https://origin/static/js/lib"),
    }];
    config.shim = vec![ShimEntry { id: String::from("legacy"), deps: vec![], exports: None }];
    let policy = BundlePolicy { module_blacklist: Some(vec![]), groups: vec![] };
    let (derived, modules) = gather_state(&records, &config, Some(&policy)).ok().unwrap();
    assert!(modules.is_empty());
    assert_eq!(derived.paths[0].path, "static/js/lib");
    assert_eq!(derived.shim[0].exports, Some(String::from("legacy")));
}

#[test]
fn proxy_body_over_cap_is_a_size_limit_error() {
    let body = vec![b'a'; 1_000_001];
    match decode_proxy_body(&body) {
        Err(ProxyBodyError::TooLarge) => {}
        _ => panic!("expected the size-limit error"),
    }
    let msg = ProxyBodyError::TooLarge.message();
    assert_eq!(msg, "proxied body exceeded the size limit");
}

#[test]
fn proxy_body_decodes_utf8_and_rejects_other_bytes() {
    let good: Vec<u8> = String::from("caf\u{e9} \u{2603}").into_bytes();
    assert_eq!(decode_proxy_body(&good).ok().unwrap(), "caf\u{e9} \u{2603}");
    let bad: Vec<u8> = vec![0xff, 0xfe, b'a'];
    match decode_proxy_body(&bad) {
        Err(ProxyBodyError::NotText) => {}
        _ => panic!("expected the decode error"),
    }
}

#[test]
fn create_outgoing_recomputes_length_and_translates_host() {
    let headers = vec![
        (String::from("content-length"), String::from("999")),
        (String::from("transfer-encoding"), String::from("chunked")),
        (String::from("set-cookie"), String::from("sid=1; Domain=www.acme.com; Path=/")),
        (String::from("x-plain"), String::from("unrelated")),
    ];
    let out = create_outgoing(
        &headers,
        &String::from("www.acme.com"),
        &String::from("127.0.0.1:8080"),
        42,
    );
    assert_eq!(out.len(), 3);
    assert_eq!(out[0].0, "set-cookie");
    assert_eq!(out[0].1, "sid=1; Domain=127.0.0.1:8080; Path=/");
    assert_eq!(out[1], (String::from("x-plain"), String::from("unrelated")));
    assert_eq!(out[2], (String::from("content-length"), String::from("42")));
}

#[test]
fn decimal_rendering_is_exact() {
    assert_eq!(chars_to_string(&dec_of(0)), "0");
    assert_eq!(chars_to_string(&dec_of(10)), "10");
    assert_eq!(chars_to_string(&dec_of(1000000)), "1000000");
}

#[test]
fn json_parse_rejects_malformed_text() {
    let chars: Vec<char> = "{\"a\": ".chars().collect();
    assert!(bs::json::parse_json(&chars).is_none());
    let trailing: Vec<char> = "{} x".chars().collect();
    assert!(bs::json::parse_json(&trailing).is_none());
}

#[test]
fn json_parse_enforces_the_number_and_member_grammar() {
    for bad in ["-", "1e+", "01", "1.", "+1", "1.e2", "{\"a\": 1, \"a\": 2}", "\"x\u{0001}y\""] {
        let chars: Vec<char> = bad.chars().collect();
        assert!(bs::json::parse_json(&chars).is_none(), "accepted: {}", bad);
    }
    for good in ["0", "-0.5", "10e-3", "1.25E+2", "{\"a\": 1, \"b\": 2}"] {
        let chars: Vec<char> = good.chars().collect();
        assert!(bs::json::parse_json(&chars).is_some(), "rejected: {}", good);
    }
}

#[test]
fn json_round_trip_is_exact() {
    let chars: Vec<char> = "{ \"a\": [1, 2], \"b\": \"x\\ny\" }".chars().collect();
    let parsed: Json = bs::json::parse_json(&chars).unwrap();
    let text = bs::json::to_text(&parsed);
    assert_eq!(text, "{\n  \"a\": [\n    1,\n    2\n  ],\n  \"b\": \"x\\ny\"\n}");
}
