use nimbusdns::api::config_patch::{
    config_section, patch_config, strip_secrets_from_config, updated_config,
};
use nimbusdns::api::json::{json_merge, Json};
use nimbusdns::api::requests::{
    apply_blocking_delta, benchmark_target, blocking_action, blocklist_domain, control_number,
    cpu_usage, domain_of_entry, page, query_filter, suggestion_request, AddDomainRequest, ApiState,
    BlockingDelta, CreateGroupRequest, QueriesParams, SuggestionField, SuggestionsParams,
};
use nimbusdns::blocking::lists::{BlockingEngine, GravityRows};
use nimbusdns::config::{BlockingMode, Config};
use nimbusdns::database::gravity::DomainListEntry;

fn object(members: Vec<(&str, Json)>) -> Json {
    Json::Object(members.into_iter().map(|(k, v)| (k.to_string(), v)).collect())
}

fn text(t: &str) -> Json {
    Json::Text(t.to_string())
}

fn number(n: &str) -> Json {
    Json::Number(n.to_string())
}

// A value of serde_json with the same contents, to compare by.
fn plain(j: &Json) -> serde_json::Value {
    match j {
        Json::Null => serde_json::Value::Null,
        Json::Bool(b) => serde_json::Value::Bool(*b),
        Json::Number(n) => serde_json::from_str(n).unwrap(),
        Json::Text(t) => serde_json::Value::String(t.clone()),
        Json::Array(v) => serde_json::Value::Array(v.iter().map(plain).collect()),
        Json::Object(v) => {
            serde_json::Value::Object(v.iter().map(|(k, v)| (k.clone(), plain(v))).collect())
        }
    }
}

fn parsed(s: &str) -> serde_json::Value {
    serde_json::from_str(s).unwrap()
}

#[test]
fn test_strip_secrets_removes_password_hash() {
    let mut json = object(vec![
        (
            "webserver",
            object(vec![
                ("password-hash", text("$argon2id$secret")),
                ("ports", Json::Array(vec![text("80o")])),
            ]),
        ),
        ("dns", object(vec![("upstreams", Json::Array(vec![]))])),
    ]);
    strip_secrets_from_config(&mut json);
    let json = plain(&json);
    assert!(json["webserver"].get("password-hash").is_none());
    assert!(json["webserver"]["ports"].is_array());
    assert!(json["dns"].is_object());
}

#[test]
fn test_strip_secrets_no_webserver_is_noop() {
    let mut json = object(vec![("dns", object(vec![("upstreams", Json::Array(vec![]))]))]);
    strip_secrets_from_config(&mut json);
    assert_eq!(plain(&json)["dns"]["upstreams"], parsed("[]"));
    let mut not_an_object = text("x");
    strip_secrets_from_config(&mut not_an_object);
    assert_eq!(plain(&not_an_object), parsed("\"x\""));
    let mut odd = object(vec![("webserver", number("5"))]);
    strip_secrets_from_config(&mut odd);
    assert_eq!(plain(&odd), parsed("{\"webserver\":5}"));
}

#[test]
fn test_json_merge_null_removes_key() {
    let mut base = object(vec![(
        "dns",
        object(vec![
            (
                "upstreams",
                Json::Array(vec![object(vec![("address", text("8.8.8.8")), ("port", number("53"))])]),
            ),
            ("rate_limit", number("100")),
        ]),
    )]);
    let patch = object(vec![("dns", object(vec![("upstreams", Json::Null)]))]);
    json_merge(&mut base, &patch);
    let base = plain(&base);
    assert!(
        base["dns"].get("upstreams").is_none(),
        "null patch must REMOVE the key, got {:?}",
        base
    );
    assert_eq!(base["dns"]["rate_limit"], parsed("100"));
}

#[test]
fn test_json_merge_nested_object_merge() {
    let mut base = object(vec![
        ("a", object(vec![("x", number("1")), ("y", number("2"))])),
        ("b", number("3")),
    ]);
    let patch = object(vec![("a", object(vec![("y", number("20"))]))]);
    json_merge(&mut base, &patch);
    let base = plain(&base);
    assert_eq!(base["a"]["x"], parsed("1"));
    assert_eq!(base["a"]["y"], parsed("20"));
    assert_eq!(base["b"], parsed("3"));
}

// The examples of RFC 7396, appendix A, as far as they are objects.
#[test]
fn merge_follows_the_rfc() {
    let cases: Vec<(Json, Json, &str)> = vec![
        (object(vec![("a", text("b"))]), object(vec![("a", text("c"))]), r#"{"a":"c"}"#),
        (object(vec![("a", text("b"))]), object(vec![("b", text("c"))]), r#"{"a":"b","b":"c"}"#),
        (object(vec![("a", text("b"))]), object(vec![("a", Json::Null)]), "{}"),
        (
            object(vec![("a", Json::Array(vec![text("b")]))]),
            object(vec![("a", text("c"))]),
            r#"{"a":"c"}"#,
        ),
        (
            object(vec![("a", object(vec![("b", text("c"))]))]),
            object(vec![("a", object(vec![("b", text("d")), ("c", Json::Null)]))]),
            r#"{"a":{"b":"d"}}"#,
        ),
        (object(vec![("e", Json::Null)]), object(vec![("a", number("1"))]), r#"{"e":null,"a":1}"#),
        (
            Json::Array(vec![number("1")]),
            object(vec![("a", text("b")), ("c", Json::Null)]),
            r#"{"a":"b"}"#,
        ),
        (
            object(vec![]),
            object(vec![("a", object(vec![("bb", object(vec![("ccc", Json::Null)]))]))]),
            r#"{"a":{"bb":{}}}"#,
        ),
        (object(vec![("a", text("b"))]), Json::Array(vec![text("c")]), r#"["c"]"#),
        (object(vec![("a", text("b"))]), Json::Null, "null"),
        (object(vec![("a", text("b"))]), Json::Bool(true), "true"),
    ];
    for (mut base, patch, want) in cases {
        json_merge(&mut base, &patch);
        assert_eq!(plain(&base), parsed(want));
        json_merge(&mut base, &patch);
        assert_eq!(plain(&base), parsed(want), "twice is once");
    }
}

fn config() -> Json {
    object(vec![
        ("webserver", object(vec![("password-hash", text("old")), ("ports", Json::Array(vec![]))])),
        ("dns", object(vec![("rate_limit", number("100"))])),
    ])
}

#[test]
fn patches_never_change_the_hash() {
    let mut current = config();
    let body = object(vec![
        ("webserver", object(vec![("password-hash", text("new")), ("session", number("5"))])),
        ("dhcp", object(vec![("enabled", Json::Bool(true))])),
    ]);
    assert!(patch_config(&mut current, body));
    let c = plain(&current);
    assert_eq!(c["webserver"]["password-hash"], parsed("\"old\""));
    assert_eq!(c["webserver"]["session"], parsed("5"));
    assert_eq!(c["dhcp"]["enabled"], parsed("true"));
    let nulled = object(vec![("webserver", object(vec![("password-hash", Json::Null)]))]);
    assert!(!patch_config(&mut current, nulled));
    assert_eq!(plain(&current)["webserver"]["password-hash"], parsed("\"old\""));
}

#[test]
fn a_removed_web_section_leaves_the_hash() {
    let mut current = config();
    let removed = object(vec![("webserver", Json::Null), ("dns", Json::Null)]);
    assert!(!patch_config(&mut current, removed));
    assert_eq!(plain(&current), parsed(r#"{"webserver":{"password-hash":"old"}}"#));
    // Without a hash there is none to be kept.
    let mut bare = object(vec![("webserver", object(vec![("ports", Json::Array(vec![]))]))]);
    let removed = object(vec![("webserver", Json::Null)]);
    assert!(!patch_config(&mut bare, removed));
    assert_eq!(plain(&bare), parsed("{}"));
}

#[test]
fn patches_without_a_place_for_the_hash_are_merged() {
    let bodies = [
        (Json::Null, "null"),
        (number("5"), "5"),
        (Json::Array(vec![]), "[]"),
        (text("webserver"), "\"webserver\""),
    ];
    for (body, want) in bodies {
        let mut current = config();
        assert!(!patch_config(&mut current, body));
        assert_eq!(plain(&current), parsed(want));
    }
    let sections = [(number("5"), "5"), (Json::Array(vec![Json::Null]), "[null]")];
    for (web, want) in sections {
        let mut current = config();
        let body = object(vec![("webserver", web), ("dhcp", Json::Bool(true))]);
        assert!(patch_config(&mut current, body));
        let c = plain(&current);
        assert_eq!(c["webserver"], parsed(want));
        assert_eq!(c["dns"], parsed(r#"{"rate_limit":100}"#));
    }
}

#[test]
fn updates_are_validated_and_keep_the_hash() {
    let mut current = Config::default();
    current.webserver.password_hash = Some("old".into());
    let mut new = Config::default();
    new.webserver.password_hash = Some("new".into());
    new.webserver.session_timeout = 77;
    new.dns.rate_limit = 5;
    let c = updated_config(&current, Ok(new.clone())).unwrap();
    assert_eq!(c.webserver.password_hash.as_deref(), Some("old"));
    assert_eq!((c.webserver.session_timeout, c.dns.rate_limit), (77, 5));
    new.dns.rate_limit = 0;
    assert_eq!(
        updated_config(&current, Ok(new)).unwrap_err(),
        (400, "Invalid config: Validation error: Rate limit must be > 0".to_string())
    );
    assert_eq!(
        updated_config(&current, Err("bad".into())).unwrap_err(),
        (400, "Invalid config: bad".to_string())
    );
}

#[test]
fn sections_are_shown_without_the_hash() {
    let web = config_section(config(), "webserver").unwrap();
    assert_eq!(plain(&web), parsed(r#"{"ports":[]}"#));
    assert_eq!(plain(&config_section(config(), "dns").unwrap()), parsed(r#"{"rate_limit":100}"#));
    assert_eq!(
        config_section(config(), "nope").unwrap_err(),
        (404, "Unknown config section: nope".to_string())
    );
}

#[test]
fn copies_are_deep() {
    let j = object(vec![("a", Json::Array(vec![Json::Bool(true), object(vec![("b", Json::Null)])]))]);
    assert_eq!(plain(&j.copy()), plain(&j));
    assert!(j.member("a").is_some());
    assert!(j.member("b").is_none());
    assert!(text("a").member("a").is_none());
    assert!(text("a").as_text().is_some());
    assert!(j.as_text().is_none());
}

fn params(limit: Option<i64>, offset: Option<i64>) -> QueriesParams {
    QueriesParams {
        domain: Some("d".into()),
        client: None,
        status: Some(3),
        from: Some(1),
        until: Some(2),
        limit,
        offset,
    }
}

#[test]
fn pages_are_limited() {
    let f = query_filter(params(None, None));
    assert_eq!((f.limit, f.offset), (100, 0));
    assert_eq!(f.domain.as_deref(), Some("d"));
    assert_eq!((f.status, f.from, f.until), (Some(3), Some(1), Some(2)));
    assert_eq!(query_filter(params(Some(-5), Some(-1))).limit, 1);
    assert_eq!(query_filter(params(Some(5000), Some(7))).limit, 1000);
    assert_eq!(page(&params(Some(50), Some(20))), Some((20, 50)));
    assert_eq!(page(&params(None, Some(-20))), Some((0, 100)));
}

#[test]
fn suggestions_are_for_domains_or_clients() {
    let ask = |q: Option<&str>, field: Option<&str>| {
        suggestion_request(SuggestionsParams {
            q: q.map(String::from),
            field: field.map(String::from),
        })
    };
    assert_eq!(ask(Some("a"), None), Ok((SuggestionField::Domain, "a".to_string())));
    assert_eq!(ask(None, Some("client")), Ok((SuggestionField::Client, String::new())));
    assert_eq!(
        ask(None, Some("Client")),
        Err((400, "field must be 'domain' or 'client'".to_string()))
    );
}

#[test]
fn changes_reach_the_running_engine() {
    let rows = GravityRows {
        allow: vec![],
        deny: vec![],
        allow_patterns: vec![],
        deny_patterns: vec![],
        gravity: vec![],
        adlist_count: 0,
    };
    let mut engine = BlockingEngine::load(&rows, BlockingMode::Null);
    apply_blocking_delta(&mut engine, BlockingDelta::AddDeny, "ads.com");
    assert!(engine.is_blocked("ads.com"));
    apply_blocking_delta(&mut engine, BlockingDelta::AddAllow, "ads.com");
    assert!(!engine.is_blocked("ads.com"));
    apply_blocking_delta(&mut engine, BlockingDelta::RemoveAllow, "ads.com");
    assert!(engine.is_blocked("ads.com"));
    apply_blocking_delta(&mut engine, BlockingDelta::RemoveDeny, "ads.com");
    assert!(!engine.is_blocked("ads.com"));
    apply_blocking_delta(&mut engine, BlockingDelta::AddGravity, "g.com");
    assert!(engine.is_blocked("g.com"));
    apply_blocking_delta(&mut engine, BlockingDelta::RemoveGravity, "g.com");
    assert!(!engine.is_blocked("g.com"));
}

#[test]
fn entries_are_found_by_identifier() {
    let entry = |id: i32, domain: &str| DomainListEntry {
        id,
        domain_type: 0,
        domain: domain.to_string(),
        enabled: true,
        date_added: 0,
        date_modified: 0,
        comment: None,
    };
    let list = vec![entry(1, "a"), entry(2, "b"), entry(2, "c")];
    assert_eq!(domain_of_entry(&list, 2).as_deref(), Some("b"));
    assert_eq!(domain_of_entry(&list, 3), None);
}

#[test]
fn blocking_is_switched_by_its_action() {
    let act = |a: &str, mode: BlockingMode| blocking_action(&object(vec![("action", text(a))]), mode);
    assert_eq!(act("enable", BlockingMode::Disabled), Ok(BlockingMode::Null));
    assert_eq!(act("on", BlockingMode::Nxdomain), Ok(BlockingMode::Null));
    assert_eq!(act("disable", BlockingMode::Null), Ok(BlockingMode::Disabled));
    assert_eq!(act("off", BlockingMode::Null), Ok(BlockingMode::Disabled));
    assert_eq!(act("toggle", BlockingMode::Disabled), Ok(BlockingMode::Null));
    assert_eq!(act("toggle", BlockingMode::Ip), Ok(BlockingMode::Disabled));
    let refused = Err((400, "action must be 'enable', 'disable', or 'toggle'".to_string()));
    assert_eq!(act("Enable", BlockingMode::Null), refused);
    assert_eq!(blocking_action(&Json::Null, BlockingMode::Null), refused);
}

#[test]
fn bodies_are_read() {
    assert_eq!(blocklist_domain(&object(vec![("domain", text("a.com"))])).unwrap(), "a.com");
    let missing = Err((400, "domain is required".to_string()));
    assert_eq!(blocklist_domain(&object(vec![("domain", text(""))])), missing);
    assert_eq!(blocklist_domain(&object(vec![("domain", number("1"))])), missing);
    let target = |members: Vec<(&str, Json)>| benchmark_target(&object(members));
    assert_eq!(target(vec![("ip", text("1.1.1.1"))]), Some(("1.1.1.1".to_string(), 853)));
    assert_eq!(
        target(vec![("ip", text("1.1.1.1")), ("port", number("53"))]),
        Some(("1.1.1.1".to_string(), 53))
    );
    assert_eq!(
        target(vec![("ip", text("1.1.1.1")), ("port", number("-1"))]),
        Some(("1.1.1.1".to_string(), 853))
    );
    assert_eq!(target(vec![("port", number("53"))]), None);
    let add = AddDomainRequest { domain: "a".into(), comment: None };
    let group = CreateGroupRequest { name: "g".into(), description: Some("d".into()) };
    assert_eq!((add.domain.as_str(), group.name.as_str()), ("a", "g"));
}

#[test]
fn control_group_files_are_read() {
    assert_eq!(control_number(" 123456\n"), Some(123456));
    assert_eq!(control_number("max\n"), None);
    assert_eq!(control_number(""), None);
    let stat = "nr_periods 0\nusage_usec 998877\nuser_usec 5\n";
    assert_eq!(cpu_usage(stat), Some(998877));
    assert_eq!(cpu_usage("user_usec 5\n"), None);
    assert_eq!(cpu_usage("usage_usec x\nusage_usec 5"), None);
    assert_eq!(cpu_usage("usage_usec"), None);
}

#[test]
fn uptime_is_counted_in_whole_seconds() {
    let s = ApiState::new(5_000_000_000);
    assert_eq!(s.query_count, 0);
    assert_eq!(s.uptime_seconds(7_999_999_999), 2);
    assert_eq!(s.uptime_seconds(1), 0);
}
