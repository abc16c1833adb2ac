use matrix_gotify_bridge::rooms::{
    classify_room_ref, markdown_message, reference_is_valid, room_lookup, unsupported_room_ref_message, AliasCache,
    JoinAction, JoinEvent, RoomJoin, RoomLookup, RoomRefKind,
};

#[test]
fn room_references_are_classified_by_first_character() {
    assert!(classify_room_ref("!abc:x") == RoomRefKind::RoomId);
    assert!(classify_room_ref("#abc:x") == RoomRefKind::Alias);
    assert!(classify_room_ref("abc") == RoomRefKind::Unsupported);
    assert!(classify_room_ref("") == RoomRefKind::Unsupported);
    assert_eq!(unsupported_room_ref_message(), "Room must be a room ID (!...) or alias (#...)");
}

#[test]
fn cache_reads_back_latest_write() {
    let mut c = AliasCache::new();
    assert_eq!(c.get("#a:x"), None);
    c.insert("#a:x".to_string(), "!1:x".to_string());
    c.insert("#b:x".to_string(), "!2:x".to_string());
    assert_eq!(c.get("#a:x").as_deref(), Some("!1:x"));
    c.insert("#a:x".to_string(), "!3:x".to_string());
    assert_eq!(c.get("#a:x").as_deref(), Some("!3:x"));
    assert_eq!(c.get("#b:x").as_deref(), Some("!2:x"));
    assert_eq!(c.get("#c:x"), None);
}

#[test]
fn reference_validity_follows_matrix_parsing() {
    assert!(reference_is_valid("!abc:example.org"));
    assert!(reference_is_valid("#room:example.org"));
    assert!(!reference_is_valid("#room"));
    assert!(!reference_is_valid("#room:bad host"));
    assert!(!reference_is_valid("room:example.org"));
    for id in ["!", "!r", "!r:example.org", "!no server", "!é"] {
        assert!(reference_is_valid(id));
        assert!(id.parse::<matrix_sdk::ruma::OwnedRoomId>().is_ok());
    }
    let long_id = format!("!{}:x", "a".repeat(300));
    assert!(reference_is_valid(&long_id));
}

#[test]
fn lookup_of_joined_rooms() {
    let mut c = AliasCache::new();
    c.insert("#a:x".to_string(), "!1:x".to_string());
    assert!(matches!(room_lookup("!r:x", &c), RoomLookup::RoomId(id) if id == "!r:x"));
    assert!(matches!(room_lookup("#a:x", &c), RoomLookup::Alias { alias, cached: Some(id) } if alias == "#a:x" && id == "!1:x"));
    assert!(matches!(room_lookup("#b:x", &c), RoomLookup::Alias { cached: None, .. }));
    assert!(matches!(room_lookup("#b", &c), RoomLookup::MalformedAlias));
    assert!(matches!(room_lookup("room", &c), RoomLookup::Unsupported));
}

#[test]
fn joining_a_room_id() {
    let mut cache = AliasCache::new();
    let (mut j, a) = RoomJoin::start("!r:x", &cache);
    assert!(matches!(a, JoinAction::CheckJoined(ref id) if id == "!r:x"));
    assert!(matches!(j.step(JoinEvent::JoinedState(false), &mut cache), JoinAction::JoinRoom(ref id) if id == "!r:x"));
    assert!(matches!(j.step(JoinEvent::JoinSucceeded, &mut cache), JoinAction::Succeeded));
    assert!(j.is_finished());
    assert_eq!(cache.get("!r:x"), None);
}

#[test]
fn already_joined_room_is_not_joined_again() {
    let mut cache = AliasCache::new();
    let (mut j, _) = RoomJoin::start("!r:x", &cache);
    assert!(matches!(j.step(JoinEvent::JoinedState(true), &mut cache), JoinAction::Succeeded));
    assert!(j.is_finished());
}

#[test]
fn joining_an_unresolved_alias_caches_it() {
    let mut cache = AliasCache::new();
    let (mut j, a) = RoomJoin::start("#a:x", &cache);
    assert!(matches!(a, JoinAction::ResolveAlias(ref r) if r == "#a:x"));
    assert!(matches!(j.step(JoinEvent::Resolved("!9:x".to_string()), &mut cache), JoinAction::JoinRoom(ref id) if id == "!9:x"));
    assert_eq!(cache.get("#a:x"), None);
    assert!(matches!(j.step(JoinEvent::JoinSucceeded, &mut cache), JoinAction::Succeeded));
    assert_eq!(cache.get("#a:x").as_deref(), Some("!9:x"));
}

#[test]
fn cached_alias_is_checked_then_resolved_again_when_not_joined() {
    let mut cache = AliasCache::new();
    cache.insert("#a:x".to_string(), "!old:x".to_string());
    let (mut j, a) = RoomJoin::start("#a:x", &cache);
    assert!(matches!(a, JoinAction::CheckJoined(ref id) if id == "!old:x"));
    assert!(matches!(j.step(JoinEvent::JoinedState(false), &mut cache), JoinAction::ResolveAlias(_)));
    j.step(JoinEvent::Resolved("!new:x".to_string()), &mut cache);
    j.step(JoinEvent::JoinSucceeded, &mut cache);
    assert_eq!(cache.get("#a:x").as_deref(), Some("!new:x"));
}

#[test]
fn failures_end_the_join_without_caching() {
    let mut cache = AliasCache::new();
    let (mut j, _) = RoomJoin::start("#a:x", &cache);
    j.step(JoinEvent::Resolved("!9:x".to_string()), &mut cache);
    assert!(matches!(j.step(JoinEvent::JoinFailed, &mut cache), JoinAction::Failed));
    assert!(j.is_finished());
    assert_eq!(cache.get("#a:x"), None);
    let (mut l, _) = RoomJoin::start("#b:x", &cache);
    assert!(matches!(l.step(JoinEvent::ResolveFailed, &mut cache), JoinAction::Failed));
    let (mut m, _) = RoomJoin::start("!r:x", &cache);
    assert!(matches!(m.step(JoinEvent::JoinSucceeded, &mut cache), JoinAction::Failed));
}

#[test]
fn malformed_reference_fails_at_once() {
    let cache = AliasCache::new();
    let (j, a) = RoomJoin::start("#no-server", &cache);
    assert!(matches!(a, JoinAction::MalformedAlias));
    assert!(j.is_finished());
}

#[test]
fn unsupported_reference_is_rejected_at_once() {
    let cache = AliasCache::new();
    let (j, a) = RoomJoin::start("general", &cache);
    assert!(matches!(a, JoinAction::Rejected));
    assert!(j.is_finished());
}

#[test]
fn markdown_is_rendered_to_html() {
    let m = markdown_message("### Title\n\n**bold** text");
    assert_eq!(m.body, "### Title\n\n**bold** text");
    assert_eq!(m.html, "<h3>Title</h3>\n<p><strong>bold</strong> text</p>\n");
    assert_eq!(markdown_message("").html, "");
}
