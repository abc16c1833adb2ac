use matrix_gotify_bridge::config::StreamSection;
use matrix_gotify_bridge::router::{Route, Router};

fn stream(apps: Vec<i64>, rooms: Vec<&str>, template: Option<&str>) -> StreamSection {
    StreamSection {
        name: None,
        apps,
        rooms: rooms.into_iter().map(|r| r.to_string()).collect(),
        template_path: template.map(|t| t.to_string()),
    }
}

fn pairs(routes: &[Route]) -> Vec<(String, Option<String>)> {
    routes.iter().map(|r| (r.room_id.clone(), r.template.clone())).collect()
}

fn p(room: &str, t: Option<&str>) -> (String, Option<String>) {
    (room.to_string(), t.map(|x| x.to_string()))
}

#[test]
fn one_app_to_many_rooms() {
    let router = Router::new(vec![stream(vec![1], vec!["!a:x", "!b:x"], None)], None);
    assert_eq!(pairs(&router.routes_for(1)), vec![p("!a:x", None), p("!b:x", None)]);
}

#[test]
fn every_matching_stream_contributes_in_order() {
    let router = Router::new(
        vec![
            stream(vec![1, 2], vec!["!a:x"], Some("t1.md")),
            stream(vec![3], vec!["!z:x"], None),
            stream(vec![2], vec!["!b:x"], Some("t2.md")),
        ],
        Some("!default:x".to_string()),
    );
    assert_eq!(pairs(&router.routes_for(2)), vec![p("!a:x", Some("t1.md")), p("!b:x", Some("t2.md"))]);
    assert_eq!(pairs(&router.routes_for(3)), vec![p("!z:x", None)]);
}

#[test]
fn duplicate_routes_are_dropped() {
    let router = Router::new(
        vec![
            stream(vec![1], vec!["!a:x", "!a:x"], Some("t.md")),
            stream(vec![1], vec!["!a:x"], Some("t.md")),
            stream(vec![1], vec!["!a:x"], None),
        ],
        None,
    );
    assert_eq!(pairs(&router.routes_for(1)), vec![p("!a:x", Some("t.md")), p("!a:x", None)]);
}

#[test]
fn unmatched_app_goes_to_default_room() {
    let router = Router::new(vec![stream(vec![1], vec!["!a:x"], Some("t.md"))], Some("!default:x".to_string()));
    assert_eq!(pairs(&router.routes_for(9)), vec![p("!default:x", None)]);
}

#[test]
fn matching_stream_without_rooms_falls_back_to_default() {
    let router = Router::new(vec![stream(vec![1], vec![], Some("t.md"))], Some("!default:x".to_string()));
    assert_eq!(pairs(&router.routes_for(1)), vec![p("!default:x", None)]);
}

#[test]
fn default_room_not_added_when_a_stream_matches() {
    let router = Router::new(vec![stream(vec![5], vec!["!a:x"], None)], Some("!default:x".to_string()));
    assert_eq!(pairs(&router.routes_for(5)), vec![p("!a:x", None)]);
}

#[test]
fn unmatched_app_without_default_is_dropped() {
    let router = Router::new(vec![stream(vec![1], vec!["!a:x"], None)], None);
    assert!(router.routes_for(2).is_empty());
    let empty = Router::new(vec![], None);
    assert!(empty.routes_for(1).is_empty());
}

#[test]
fn negative_and_extreme_app_ids() {
    let router = Router::new(vec![stream(vec![i64::MIN, -1, i64::MAX], vec!["!a:x"], None)], None);
    assert_eq!(pairs(&router.routes_for(i64::MIN)).len(), 1);
    assert_eq!(pairs(&router.routes_for(-1)).len(), 1);
    assert_eq!(pairs(&router.routes_for(i64::MAX)).len(), 1);
    assert!(router.routes_for(0).is_empty());
}

#[test]
fn templates_naming_the_same_path_count_once() {
    let router = Router::new(
        vec![
            stream(vec![1], vec!["!a:x"], Some("x/t.md")),
            stream(vec![1], vec!["!a:x"], Some("x//t.md")),
            stream(vec![1], vec!["!a:x"], Some("x/./t.md")),
            stream(vec![1], vec!["!a:x"], Some("x/t.md/")),
            stream(vec![1], vec!["!a:x"], Some("./x/t.md")),
            stream(vec![1], vec!["!b:x"], Some("x//t.md")),
        ],
        None,
    );
    assert_eq!(
        pairs(&router.routes_for(1)),
        vec![p("!a:x", Some("x/t.md")), p("!a:x", Some("./x/t.md")), p("!b:x", Some("x//t.md"))]
    );
}
