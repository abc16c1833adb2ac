use matrix_gotify_bridge::config::{
    default_device_id, default_store_path, default_template_path, is_absolute, resolve_path,
    to_ws_scheme, Config, ConfigError, GotifySection, MatrixSection, RawConfig, StreamSection,
};

fn stream(name: Option<&str>, apps: Vec<i64>, rooms: Vec<&str>, template: Option<&str>) -> StreamSection {
    StreamSection {
        name: name.map(|s| s.to_string()),
        apps,
        rooms: rooms.into_iter().map(|r| r.to_string()).collect(),
        template_path: template.map(|t| t.to_string()),
    }
}

fn raw(streams: Vec<StreamSection>, room_id: Option<&str>) -> RawConfig {
    RawConfig {
        gotify: GotifySection { url: "https://gotify.example.com/".to_string(), api_token: "tok".to_string() },
        matrix: MatrixSection {
            homeserver_url: "https://matrix.example.org".to_string(),
            matrix_domain: None,
            username: "bridge".to_string(),
            token: "secret".to_string(),
            room_id: room_id.map(|r| r.to_string()),
            encrypted: true,
            device_id: default_device_id(),
            store_path: default_store_path(),
        },
        streams,
        debug: false,
        template_path: default_template_path(),
    }
}

fn invalid_message(r: Result<Config, ConfigError>) -> String {
    match r {
        Err(ConfigError::Invalid(m)) => m,
        Err(_) => panic!("unexpected error kind"),
        Ok(_) => panic!("expected an error"),
    }
}

#[test]
fn defaults_are_the_documented_values() {
    assert_eq!(default_template_path(), "messageTamplate.md");
    assert_eq!(default_device_id(), "MGBRIDGE");
    assert_eq!(default_store_path(), ".matrix-gotify-bridge-store");
}

#[test]
fn ws_scheme_conversions() {
    assert_eq!(to_ws_scheme("https://g.example"), "wss://g.example");
    assert_eq!(to_ws_scheme("http://g.example:80"), "ws://g.example:80");
    assert_eq!(to_ws_scheme("ws://g"), "ws://g");
    assert_eq!(to_ws_scheme("wss://g"), "wss://g");
    assert_eq!(to_ws_scheme("g.example"), "wss://g.example");
    assert_eq!(to_ws_scheme(""), "wss://");
    assert_eq!(to_ws_scheme("https://"), "wss://");
}

#[test]
fn ws_scheme_is_idempotent_on_examples() {
    for u in ["https://a", "http://b/", "ws://c", "wss://d", "e", "", "HTTPS://f"] {
        let once = to_ws_scheme(u);
        assert_eq!(to_ws_scheme(&once), once);
        assert!(once.starts_with("ws://") || once.starts_with("wss://"));
    }
}

#[test]
fn path_resolution() {
    assert!(is_absolute("/etc/x"));
    assert!(!is_absolute("etc/x"));
    assert!(!is_absolute(""));
    assert_eq!(resolve_path("/data", "tpl.md"), "/data/tpl.md");
    assert_eq!(resolve_path("/data/", "tpl.md"), "/data/tpl.md");
    assert_eq!(resolve_path("", "tpl.md"), "tpl.md");
    assert_eq!(resolve_path("/data", "/abs/tpl.md"), "/abs/tpl.md");
    assert_eq!(resolve_path(".", "a/b.md"), "./a/b.md");
    assert_eq!(resolve_path("/data", ""), "/data/");
}

#[test]
fn path_resolution_matches_std_join() {
    for (base, p) in [("/data", "t.md"), ("/data/", "t.md"), ("", "t.md"), ("/d", "/x"), ("rel/dir", "sub/t.md")] {
        let expected = std::path::Path::new(base).join(p);
        assert_eq!(resolve_path(base, p), expected.to_str().unwrap());
    }
}

#[test]
fn missing_gotify_url_is_reported() {
    let mut r = raw(vec![], Some("!room:x"));
    r.gotify.url = String::new();
    assert_eq!(invalid_message(Config::from_raw(r, "/cfg")), "gotify.url is required");
}

#[test]
fn missing_api_token_is_reported() {
    let mut r = raw(vec![], Some("!room:x"));
    r.gotify.api_token = String::new();
    assert_eq!(invalid_message(Config::from_raw(r, "/cfg")), "gotify.apiToken is required");
}

#[test]
fn missing_homeserver_is_reported() {
    let mut r = raw(vec![], Some("!room:x"));
    r.matrix.homeserver_url = String::new();
    assert_eq!(invalid_message(Config::from_raw(r, "/cfg")), "matrix.homeserverURL is required");
}

#[test]
fn missing_username_is_reported() {
    let mut r = raw(vec![], Some("!room:x"));
    r.matrix.username = String::new();
    assert_eq!(invalid_message(Config::from_raw(r, "/cfg")), "matrix.username is required");
}

#[test]
fn missing_token_is_reported() {
    let mut r = raw(vec![], Some("!room:x"));
    r.matrix.token = String::new();
    assert_eq!(invalid_message(Config::from_raw(r, "/cfg")), "matrix.token is required");
}

#[test]
fn no_room_and_no_stream_is_reported() {
    let r = raw(vec![], None);
    assert_eq!(invalid_message(Config::from_raw(r, "/cfg")), "Provide matrix.roomID or at least one stream");
}

#[test]
fn first_problem_wins() {
    let mut r = raw(vec![], None);
    r.gotify.api_token = String::new();
    r.matrix.token = String::new();
    assert_eq!(invalid_message(Config::from_raw(r, "/cfg")), "gotify.apiToken is required");
}

#[test]
fn valid_config_is_settled() {
    let streams = vec![
        stream(Some("alerts"), vec![1, 2], vec!["!a:x"], Some("alerts.md")),
        stream(None, vec![3], vec!["#b:x"], Some("/abs/t.md")),
        stream(None, vec![4], vec![], None),
    ];
    let c = match Config::from_raw(raw(streams, None), "/etc/bridge") {
        Ok(c) => c,
        Err(_) => panic!("expected a valid configuration"),
    };
    assert_eq!(c.gotify_url, "wss://gotify.example.com/");
    assert_eq!(c.gotify_token, "tok");
    assert_eq!(c.matrix_homeserver, "https://matrix.example.org");
    assert_eq!(c.matrix_domain, "matrix.example.org");
    assert_eq!(c.matrix_username, "bridge");
    assert_eq!(c.matrix_token, "secret");
    assert_eq!(c.matrix_room, None);
    assert!(c.encrypted);
    assert_eq!(c.device_id, "MGBRIDGE");
    assert_eq!(c.store_path, ".matrix-gotify-bridge-store");
    assert!(!c.debug);
    assert_eq!(c.template_path, "/etc/bridge/messageTamplate.md");
    assert_eq!(c.streams.len(), 3);
    assert_eq!(c.streams[0].template_path.as_deref(), Some("/etc/bridge/alerts.md"));
    assert_eq!(c.streams[0].name.as_deref(), Some("alerts"));
    assert_eq!(c.streams[0].apps, vec![1, 2]);
    assert_eq!(c.streams[1].template_path.as_deref(), Some("/abs/t.md"));
    assert_eq!(c.streams[2].template_path, None);
}

#[test]
fn configured_domain_wins_over_homeserver() {
    let mut r = raw(vec![], Some("!r:x"));
    r.matrix.matrix_domain = Some("example.net".to_string());
    let c = Config::from_raw(r, "").ok().unwrap();
    assert_eq!(c.matrix_domain, "example.net");
    assert_eq!(c.user_id(), "@bridge:example.net");
    assert_eq!(c.template_path, "messageTamplate.md");
}

#[test]
fn domain_drops_every_scheme_prefix() {
    let mut r = raw(vec![], Some("!r:x"));
    r.matrix.homeserver_url = "http://host:8008/https://x".to_string();
    let c = Config::from_raw(r, "").ok().unwrap();
    assert_eq!(c.matrix_domain, "host:8008/x");
    assert_eq!(c.user_id(), "@bridge:host:8008/x");
}

#[test]
fn stream_url_trims_trailing_slashes() {
    let c = Config::from_raw(raw(vec![], Some("!r:x")), "").ok().unwrap();
    assert_eq!(c.stream_url(), "wss://gotify.example.com/stream?token=tok");
    let mut r = raw(vec![], Some("!r:x"));
    r.gotify.url = "http://g///".to_string();
    let c = Config::from_raw(r, "").ok().unwrap();
    assert_eq!(c.stream_url(), "ws://g/stream?token=tok");
}

#[test]
fn template_paths_are_listed_once() {
    let streams = vec![
        stream(None, vec![1], vec!["!a:x"], Some("a.md")),
        stream(None, vec![2], vec!["!b:x"], Some("/d/messageTamplate.md")),
        stream(None, vec![3], vec!["!c:x"], Some("a.md")),
        stream(None, vec![4], vec!["!d:x"], None),
    ];
    let c = Config::from_raw(raw(streams, None), "/d").ok().unwrap();
    assert_eq!(c.template_paths(), vec!["/d/messageTamplate.md".to_string(), "/d/a.md".to_string()]);
}

#[test]
fn room_targets_are_listed_once() {
    let streams = vec![
        stream(None, vec![1], vec!["!a:x", "!b:x"], None),
        stream(None, vec![2], vec!["!b:x", "!def:x", "#c:x"], None),
    ];
    let c = Config::from_raw(raw(streams, Some("!def:x")), "").ok().unwrap();
    assert_eq!(
        c.room_targets(),
        vec!["!def:x".to_string(), "!a:x".to_string(), "!b:x".to_string(), "#c:x".to_string()]
    );
}

#[test]
fn template_paths_naming_the_same_file_count_once() {
    let streams = vec![
        stream(None, vec![1], vec!["!a:x"], Some("t/a.md")),
        stream(None, vec![2], vec!["!b:x"], Some("/d//t/./a.md")),
        stream(None, vec![3], vec!["!c:x"], Some("/d/messageTamplate.md/")),
    ];
    let c = Config::from_raw(raw(streams, None), "/d").ok().unwrap();
    assert_eq!(c.template_paths(), vec!["/d/messageTamplate.md".to_string(), "/d/t/a.md".to_string()]);
}

#[test]
fn checked_user_id_follows_matrix_parsing() {
    let c = Config::from_raw(raw(vec![], Some("!r:x")), "").ok().unwrap();
    assert_eq!(c.checked_user_id().as_deref(), Some("@bridge:matrix.example.org"));
    let mut r = raw(vec![], Some("!r:x"));
    r.matrix.matrix_domain = Some("bad host".to_string());
    let c = Config::from_raw(r, "").ok().unwrap();
    assert_eq!(c.checked_user_id(), None);
    assert!(c.user_id().parse::<matrix_sdk::ruma::OwnedUserId>().is_err());
}
