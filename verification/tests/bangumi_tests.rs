use manhuaviewer::json::JsonNumber;
use manhuaviewer::metadata::{parse_bangumi_search, BangumiCandidate};
use manhuaviewer::versions::release_of_answer;

fn score(c: &BangumiCandidate) -> Option<f64> {
    match &c.score {
        Some(JsonNumber::PosInt(u)) => Some(*u as f64),
        Some(JsonNumber::NegInt(i)) => Some(*i as f64),
        Some(JsonNumber::Float(t)) => t.parse().ok(),
        None => None,
    }
}

#[test]
fn parse_bangumi_sample() {
    let body = r#"{"results":1,"list":[{"id":"123","name":"One Piece","name_cn":"海贼王","images":{"large":"https://lain.bgm.tv/pic/cover/l/xx.jpg"},"rating":{"score":8.5},"tags":[{"name":"漫画"},{"name":"热血"}]}]}"#;
    let items = parse_bangumi_search(body);
    assert_eq!(items.len(), 1);
    assert_eq!(items[0].title, "海贼王");
    assert_eq!(items[0].source_id, "123");
    assert_eq!(items[0].cover.as_deref(), Some("https://lain.bgm.tv/pic/cover/l/xx.jpg"));
    assert_eq!(score(&items[0]), Some(8.5));
    assert_eq!(items[0].tags, vec!["漫画", "热血"]);
}

#[test]
fn parse_handles_empty_and_garbage() {
    assert!(parse_bangumi_search("not json").is_empty());
    assert!(parse_bangumi_search(r#"{"list":[]}"#).is_empty());
}

#[test]
fn bangumi_falls_back_and_drops_untitled_items() {
    let body = r#"{"list":[
        {"id":"1","name":"Name","name_cn":"","images":{"medium":"m.jpg"},"rating":{"score":7},
         "tags":[{"name":"a"},{"x":1},{"name":"b"},{"name":"c"},{"name":"d"},{"name":"e"},{"name":"f"}]},
        {"id":"2","name":"","name_cn":""},
        {"id":3,"name":"numeric id"},
        {"id":"4","name":"No extras"}
    ]}"#;
    let items = parse_bangumi_search(body);
    assert_eq!(items.len(), 2);
    assert_eq!(items[0].title, "Name");
    assert_eq!(items[0].cover.as_deref(), Some("m.jpg"));
    assert_eq!(score(&items[0]), Some(7.0));
    assert_eq!(items[0].tags, vec!["a", "b", "c", "d", "e"]);
    assert_eq!(items[1].source_id, "4");
    assert!(items[1].cover.is_none() && items[1].score.is_none() && items[1].tags.is_empty());
}

#[test]
fn release_answer_gives_tag_and_page() {
    let body = br#"{"tag_name":"v3.5.0","html_url":"https://github.com/x/y/releases/tag/v3.5.0","name":"r"}"#;
    assert_eq!(
        release_of_answer(body),
        Some(("v3.5.0".to_string(), "https://github.com/x/y/releases/tag/v3.5.0".to_string()))
    );
    assert_eq!(release_of_answer(br#"{"message":"Not Found"}"#), Some((String::new(), String::new())));
    assert_eq!(release_of_answer(br#"{"tag_name":5}"#), Some((String::new(), String::new())));
    assert_eq!(release_of_answer(b"<html>rate limited</html>"), None);
}
