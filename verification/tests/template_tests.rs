use matrix_gotify_bridge::gotify::GotifyMessage;
use matrix_gotify_bridge::template::{default_template, render_text, TemplateEngine};
use matrix_gotify_bridge::text::{i64_text, replace_str, starts_with, trim_end_matches_char, u64_text};

fn msg(title: Option<&str>, message: Option<&str>, app_id: i64, id: i64, priority: i64) -> GotifyMessage {
    GotifyMessage {
        app_id,
        id,
        title: title.map(|s| s.to_string()),
        message: message.map(|s| s.to_string()),
        priority,
        extras: serde_json::Value::Null,
        raw: serde_json::Value::Null,
    }
}

#[test]
fn default_template_text() {
    assert_eq!(
        default_template(),
        "### [TITLE]\n\n[MESSAGE]\n\nApp: [APP_ID] • Priority: [PRIORITY] • Message ID: [MESSAGE_ID]\n"
    );
}

#[test]
fn default_template_renders_all_fields() {
    let m = msg(Some("Disk full"), Some("/dev/sda1 at 99%"), 7, 1234, 8);
    assert_eq!(
        TemplateEngine::render(None, &m),
        "### Disk full\n\n/dev/sda1 at 99%\n\nApp: 7 • Priority: 8 • Message ID: 1234\n"
    );
}

#[test]
fn missing_title_and_message() {
    let m = msg(None, None, 1, 2, 0);
    assert_eq!(TemplateEngine::render(None, &m), "### (no title)\n\n\n\nApp: 1 • Priority: 0 • Message ID: 2\n");
}

#[test]
fn loaded_template_is_used_and_repeated_placeholders_filled() {
    let m = msg(Some("T"), Some("M"), -5, 0, -1);
    let t = "[TITLE]/[TITLE] [APP_ID] [PRIORITY] [MESSAGE_ID] [UNKNOWN] [MESSAGE]".to_string();
    assert_eq!(TemplateEngine::render(Some(t), &m), "T/T -5 -1 0 [UNKNOWN] M");
}

#[test]
fn rendering_matches_str_replace_chain() {
    let m = msg(Some("[MESSAGE] in title"), Some("body [APP_ID]"), 42, 9, 3);
    let t = "[TITLE] | [MESSAGE] | [[APP_ID]] | [PRIORITY][MESSAGE_ID]";
    let expected = t
        .replace("[TITLE]", "[MESSAGE] in title")
        .replace("[MESSAGE]", "body [APP_ID]")
        .replace("[APP_ID]", "42")
        .replace("[MESSAGE_ID]", "9")
        .replace("[PRIORITY]", "3");
    assert_eq!(render_text(t, &m), expected);
}

#[test]
fn plain_template_is_unchanged() {
    let m = msg(Some("x"), Some("y"), 1, 2, 3);
    let t = "No placeholders here — just text.\n";
    assert_eq!(render_text(t, &m), t);
}

#[test]
fn template_path_choice() {
    let e = TemplateEngine::new("/etc/default.md".to_string());
    assert_eq!(e.template_path(None), "/etc/default.md");
    assert_eq!(e.template_path(Some("/etc/other.md")), "/etc/other.md");
}

#[test]
fn replace_matches_std() {
    let cases = [
        ("aaaa", "aa", "b"),
        ("abcabc", "bc", "XYZ"),
        ("", "x", "y"),
        ("xyz", "xyzw", "q"),
        ("ééé", "é", "e"),
        ("[A][A]", "[A]", "[A][A]"),
        ("aaa", "a", ""),
        ("abc", "", "X"),
        ("", "", "X"),
        ("é", "", "-"),
    ];
    for (s, pat, rep) in cases {
        assert_eq!(replace_str(s, pat, rep), s.replace(pat, rep));
    }
}

#[test]
fn replacing_with_itself_changes_nothing() {
    for s in ["", "abab", "[TITLE][TITLE]", "x[TITLE"] {
        assert_eq!(replace_str(s, "[TITLE]", "[TITLE]"), s);
        assert_eq!(replace_str(s, "ab", "ab"), s);
    }
}

#[test]
fn integer_text_matches_to_string() {
    for x in [0i64, 1, 9, 10, 99, 100, -1, -10, 1234567890, i64::MAX, i64::MIN] {
        assert_eq!(i64_text(x), x.to_string());
    }
    for n in [0u64, 7, 10, 4096, u64::MAX] {
        assert_eq!(u64_text(n), n.to_string());
    }
}

#[test]
fn prefix_and_trim() {
    assert!(starts_with("https://x", "https://"));
    assert!(starts_with("abc", ""));
    assert!(!starts_with("http", "https"));
    assert_eq!(trim_end_matches_char("a///", '/'), "a");
    assert_eq!(trim_end_matches_char("///", '/'), "");
    assert_eq!(trim_end_matches_char("a/b", '/'), "a/b");
}
