use matrix_gotify_bridge::config::{Config, GotifySection, MatrixSection, RawConfig, StreamSection};
use matrix_gotify_bridge::status::{join_app_ids, pad_right, status_string, status_table, stream_source_name, StatusEntry};

fn config(default_room: Option<&str>, streams: Vec<StreamSection>) -> Config {
    let raw = RawConfig {
        gotify: GotifySection { url: "g".to_string(), api_token: "t".to_string() },
        matrix: MatrixSection {
            homeserver_url: "https://m".to_string(),
            matrix_domain: None,
            username: "u".to_string(),
            token: "k".to_string(),
            room_id: default_room.map(|r| r.to_string()),
            encrypted: false,
            device_id: "D".to_string(),
            store_path: "s".to_string(),
        },
        streams,
        debug: false,
        template_path: "t.md".to_string(),
    };
    Config::from_raw(raw, "").ok().unwrap()
}

fn stream(name: Option<&str>, apps: Vec<i64>, rooms: Vec<&str>) -> StreamSection {
    StreamSection {
        name: name.map(|s| s.to_string()),
        apps,
        rooms: rooms.into_iter().map(|r| r.to_string()).collect(),
        template_path: None,
    }
}

/// The table as the formatting of `{:<w$}` lays it out, widths in bytes.
fn expected_table(rows: &[(String, String, String, String)]) -> Vec<String> {
    let mut ws = "Source".len();
    let mut wa = "Apps".len();
    let mut wr = "Room".len();
    let mut wt = "Status".len();
    for r in rows {
        ws = ws.max(r.0.len());
        wa = wa.max(r.1.len());
        wr = wr.max(r.2.len());
        wt = wt.max(r.3.len());
    }
    let sep = format!("+-{}-+-{}-+-{}-+-{}-+", "-".repeat(ws), "-".repeat(wa), "-".repeat(wr), "-".repeat(wt));
    let line = |a: &str, b: &str, c: &str, d: &str| format!("| {:<ws$} | {:<wa$} | {:<wr$} | {:<wt$} |", a, b, c, d);
    let mut out = vec![sep.clone(), line("Source", "Apps", "Room", "Status"), sep.clone()];
    for r in rows {
        out.push(line(&r.0, &r.1, &r.2, &r.3));
    }
    out.push(sep);
    out
}

fn entries_as_tuples(entries: &[StatusEntry]) -> Vec<(String, String, String)> {
    entries.iter().map(|e| (e.source.clone(), e.apps.clone(), e.room.clone())).collect()
}

#[test]
fn entries_list_default_room_then_stream_rooms() {
    let c = config(
        Some("!def:x"),
        vec![stream(Some("alerts"), vec![1, 2], vec!["!a:x"]), stream(None, vec![3], vec!["#room:example.org", "!b:x"])],
    );
    let t = |a: &str, b: &str, c: &str| (a.to_string(), b.to_string(), c.to_string());
    assert_eq!(
        entries_as_tuples(&c.status_entries()),
        vec![
            t("default", "-", "!def:x"),
            t("alerts", "1,2", "!a:x"),
            t("stream2", "3", "#room:example.org"),
            t("stream2", "3", "!b:x"),
        ]
    );
}

#[test]
fn entries_without_default_room() {
    let c = config(None, vec![stream(None, vec![], vec!["!a:x"]), stream(None, vec![-4, 5], vec![])]);
    assert_eq!(entries_as_tuples(&c.status_entries()), vec![("stream1".to_string(), String::new(), "!a:x".to_string())]);
}

#[test]
fn table_matches_formatted_layout() {
    let c = config(
        Some("!def:x"),
        vec![stream(Some("alerts"), vec![1, 2], vec!["!a:x"]), stream(None, vec![3], vec!["#room:example.org", "!b:x"])],
    );
    let entries = c.status_entries();
    let joined = vec![true, false, true, true];
    let rows: Vec<(String, String, String, String)> = entries
        .iter()
        .zip(joined.iter())
        .map(|(e, j)| (e.source.clone(), e.apps.clone(), e.room.clone(), if *j { "joined" } else { "not joined" }.to_string()))
        .collect();
    let table = status_table(&entries, &joined);
    assert_eq!(table, expected_table(&rows));
    assert_eq!(table[0], "+---------+------+-------------------+------------+");
    assert_eq!(table[3], "| default | -    | !def:x            | joined     |");
    let width = table[0].chars().count();
    assert!(table.iter().all(|l| l.chars().count() == width));
}

#[test]
fn table_widths_count_bytes_like_the_formatter() {
    let entries = vec![StatusEntry { source: "café".to_string(), apps: "1".to_string(), room: "#ü:x".to_string() }];
    let joined = vec![false];
    let rows = vec![("café".to_string(), "1".to_string(), "#ü:x".to_string(), "not joined".to_string())];
    assert_eq!(status_table(&entries, &joined), expected_table(&rows));
}

#[test]
fn empty_table_has_header_only() {
    let table = status_table(&vec![], &vec![]);
    assert_eq!(
        table,
        vec![
            "+--------+------+------+--------+".to_string(),
            "| Source | Apps | Room | Status |".to_string(),
            "+--------+------+------+--------+".to_string(),
            "+--------+------+------+--------+".to_string(),
        ]
    );
}

#[test]
fn helpers() {
    assert_eq!(join_app_ids(&vec![]), "");
    assert_eq!(join_app_ids(&vec![7]), "7");
    assert_eq!(join_app_ids(&vec![1, -2, 30]), "1,-2,30");
    assert_eq!(stream_source_name(&None, 0), "stream1");
    assert_eq!(stream_source_name(&None, 41), "stream42");
    assert_eq!(stream_source_name(&Some("n".to_string()), 3), "n");
    assert_eq!(status_string(true), "joined");
    assert_eq!(status_string(false), "not joined");
    assert_eq!(pad_right("ab", 4), "ab  ");
    assert_eq!(pad_right("abcdef", 4), "abcdef");
    assert_eq!(pad_right("é", 3), format!("{:<3}", "é"));
}
