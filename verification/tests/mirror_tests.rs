use manhuaviewer::mirror::{distinct_ids, linkable_tags, tag_mirror, tags_of_title, MirrorRow};
use manhuaviewer::models::TagRef;

fn row(title: &str, tag: Option<(&str, &str, &str)>) -> MirrorRow {
    match tag {
        Some((ns, name, color)) => MirrorRow {
            title: title.to_string(),
            namespace: Some(ns.to_string()),
            name: Some(name.to_string()),
            color: Some(color.to_string()),
        },
        None => MirrorRow { title: title.to_string(), namespace: None, name: None, color: None },
    }
}

fn keys(tags: &[TagRef]) -> Vec<(String, String, String)> {
    tags.iter().map(|t| (t.namespace.clone(), t.name.clone(), t.color.clone())).collect()
}

#[test]
fn mirror_groups_each_title_once_with_sorted_distinct_tags() {
    let rows = vec![
        row("海贼王", Some(("genre", "shonen", "#f00"))),
        row("海贼王", Some(("", "adventure", "#0f0"))),
        row("海贼王", Some(("genre", "shonen", "#f00"))),
        row("无标签", None),
        row("火影", Some(("genre", "ninja", "#00f"))),
    ];
    let groups = tag_mirror(&rows);
    assert_eq!(groups.len(), 3);
    let one_piece = groups.iter().find(|g| g.title == "海贼王").unwrap();
    assert_eq!(
        keys(&one_piece.tags),
        vec![
            ("".to_string(), "adventure".to_string(), "#0f0".to_string()),
            ("genre".to_string(), "shonen".to_string(), "#f00".to_string()),
        ]
    );
    let untagged = groups.iter().find(|g| g.title == "无标签").unwrap();
    assert!(untagged.tags.is_empty());
    let naruto = groups.iter().find(|g| g.title == "火影").unwrap();
    assert_eq!(naruto.tags.len(), 1);
}

#[test]
fn rows_without_a_tag_name_carry_no_tag() {
    let rows = vec![
        MirrorRow { title: "A".to_string(), namespace: Some("x".to_string()), name: Some(String::new()), color: None },
        row("A", Some(("b", "y", "#1"))),
        row("A", Some(("a", "z", "#2"))),
    ];
    let tags = tags_of_title(&rows, "A");
    assert_eq!(
        keys(&tags),
        vec![
            ("a".to_string(), "z".to_string(), "#2".to_string()),
            ("b".to_string(), "y".to_string(), "#1".to_string()),
        ]
    );
    assert!(tags_of_title(&rows, "B").is_empty());
}

#[test]
fn received_tags_without_names_are_not_linked() {
    let tags = vec![
        TagRef { namespace: "g".to_string(), name: String::new(), color: "#1".to_string() },
        TagRef { namespace: "g".to_string(), name: "kept".to_string(), color: "#2".to_string() },
    ];
    let kept = linkable_tags(&tags);
    assert_eq!(keys(&kept), vec![("g".to_string(), "kept".to_string(), "#2".to_string())]);
}

#[test]
fn tag_ids_are_linked_once_in_first_order() {
    assert_eq!(distinct_ids(&vec![4, 2, 4, 9, 2]), vec![4, 2, 9]);
    assert!(distinct_ids(&vec![]).is_empty());
}
