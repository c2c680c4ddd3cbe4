use manhuaviewer::json::{
    array_member, backup_archive_list, backup_tag_list, bool_member, export_settings, get_member,
    import_settings, int_member, is_private_key, str_member, strip_private_fields,
    validate_import_payload, JsonNumber, JsonValue,
};

/// Reads JSON text into the library's value type.
fn v(text: &str) -> JsonValue {
    let parsed: serde_json::Value = serde_json::from_str(text).unwrap();
    to_json(&parsed)
}

fn to_json(value: &serde_json::Value) -> JsonValue {
    match value {
        serde_json::Value::Null => JsonValue::Null,
        serde_json::Value::Bool(b) => JsonValue::Bool(*b),
        serde_json::Value::Number(n) => {
            if let Some(u) = n.as_u64() {
                JsonValue::Number(JsonNumber::PosInt(u))
            } else if let Some(i) = n.as_i64() {
                JsonValue::Number(JsonNumber::NegInt(i))
            } else {
                JsonValue::Number(JsonNumber::Float(n.to_string()))
            }
        }
        serde_json::Value::String(s) => JsonValue::Str(s.clone()),
        serde_json::Value::Array(items) => JsonValue::Array(items.iter().map(to_json).collect()),
        serde_json::Value::Object(map) => {
            JsonValue::Object(map.iter().map(|(k, x)| (k.clone(), to_json(x))).collect())
        }
    }
}

fn s(text: &str) -> JsonValue {
    JsonValue::Str(text.to_string())
}

fn obj(members: Vec<(&str, JsonValue)>) -> JsonValue {
    JsonValue::Object(members.into_iter().map(|(k, x)| (k.to_string(), x)).collect())
}

fn num(n: u64) -> JsonValue {
    JsonValue::Number(JsonNumber::PosInt(n))
}

#[test]
fn strip_private_fields_handles_top_level_arrays_and_new_keys() {
    let mut value = JsonValue::Array(vec![obj(vec![
        ("id", num(1)),
        ("title", s("A")),
        ("path", s("/Users/host/secret/a.cbz")),
        ("_parentDir", s("/Users/host/secret")),
        ("filepath", s("/Users/host/secret/pages/1.jpg")),
        ("cover_image", s("/Users/host/secret/c.jpg")),
        ("thumbnail_path", s("thumbnails/1")),
        ("extras", JsonValue::Array(vec![obj(vec![("path", s("/leak")), ("name", s("ok"))])])),
    ])]);
    strip_private_fields(&mut value);
    let first = match &value {
        JsonValue::Array(items) => &items[0],
        _ => panic!("still an array"),
    };
    assert!(get_member(first, "path").is_none());
    assert!(get_member(first, "_parentDir").is_none());
    assert!(get_member(first, "filepath").is_none());
    assert!(get_member(first, "cover_image").is_none());
    assert!(get_member(first, "thumbnail_path").is_none());
    assert_eq!(str_member(first, "title"), Some("A".to_string()));
    let extras = array_member(first, "extras").unwrap();
    assert_eq!(str_member(&extras[0], "name"), Some("ok".to_string()));
    assert!(get_member(&extras[0], "path").is_none());
}

#[test]
fn strip_private_fields_removes_sensitive_settings_and_keeps_the_rest() {
    let mut value = v(r#"{"server_token":"x","server_bind":"0.0.0.0","theme":"dark","n":[1,{"root_dir":"/r"}]}"#);
    strip_private_fields(&mut value);
    assert!(get_member(&value, "server_token").is_none());
    assert!(get_member(&value, "server_bind").is_none());
    assert_eq!(str_member(&value, "theme"), Some("dark".to_string()));
    let n = array_member(&value, "n").unwrap();
    assert_eq!(n.len(), 2);
    assert!(get_member(&n[1], "root_dir").is_none());
    assert!(is_private_key("cbz_export_dir"));
    assert!(!is_private_key("title"));
}

#[test]
fn import_payload_rejects_tampered_archives() {
    assert!(validate_import_payload(&v(
        r#"{"archives":[{"title":"t","path":"/m/a.cbz","archive_type":"cbz","page_count":9}]}"#
    ))
    .is_ok());
    assert!(validate_import_payload(&v(
        r#"{"archives":[{"title":"t","path":"/m/A.ZIP","archive_type":"zip","page_count":9}]}"#
    ))
    .is_ok());
    assert!(validate_import_payload(&v(
        r#"{"archives":[{"title":"t","path":"/m/My.Folder","archive_type":"folder","page_count":9}]}"#
    ))
    .is_ok());

    assert!(validate_import_payload(&v(
        r#"{"archives":[{"title":"t","path":"/Users/x/.ssh/id_rsa","archive_type":"zip","page_count":1}]}"#
    ))
    .is_err());
    assert!(validate_import_payload(&v(
        r#"{"archives":[{"title":"t","path":"/m/a.zip","archive_type":"rar","page_count":1}]}"#
    ))
    .is_err());
    assert!(validate_import_payload(&v(
        r#"{"archives":[{"title":"t","path":"/m/a","archive_type":"exe","page_count":1}]}"#
    ))
    .is_err());
    assert!(validate_import_payload(&v(
        r#"{"archives":[{"title":"t","path":"","archive_type":"zip","page_count":1}]}"#
    ))
    .is_err());
    assert!(validate_import_payload(&v(
        r#"{"archives":[{"title":"t","path":"/m/a\u0000.cbz","archive_type":"cbz","page_count":1}]}"#
    ))
    .is_err());

    assert!(validate_import_payload(&v(r#"{"archives":[{"path":"/x/id_rsa","archive_type":"zip"}]}"#)).is_ok());
    assert!(validate_import_payload(&v(r#"{"tags":[]}"#)).is_ok());
}

#[test]
fn member_readers() {
    let x = v(r#"{"a":"t","b":-4,"c":true,"d":[1,2],"e":1.5,"f":18446744073709551615}"#);
    assert_eq!(str_member(&x, "a"), Some("t".to_string()));
    assert_eq!(str_member(&x, "b"), None);
    assert_eq!(int_member(&x, "b"), Some(-4));
    assert_eq!(int_member(&x, "e"), None);
    assert_eq!(int_member(&x, "f"), None);
    assert_eq!(bool_member(&x, "c"), Some(true));
    assert_eq!(array_member(&x, "d").map(|a| a.len()), Some(2));
    assert!(get_member(&x, "zz").is_none());
    assert!(get_member(&JsonValue::Null, "a").is_none());
}

#[test]
fn sensitive_settings_never_cross_backups() {
    let settings = vec![
        ("theme".to_string(), "dark".to_string()),
        ("server_token".to_string(), "sec".to_string()),
        ("server_bind".to_string(), "0.0.0.0".to_string()),
        ("page_mode".to_string(), "single".to_string()),
    ];
    assert_eq!(
        export_settings(&settings),
        vec![("theme".to_string(), "dark".to_string()), ("page_mode".to_string(), "single".to_string())]
    );
    let imported = import_settings(&v(r#"{"settings":{"server_token":"evil","theme":"light","n":3}}"#));
    assert_eq!(imported, vec![("theme".to_string(), "light".to_string())]);
    assert!(import_settings(&v(r#"{"tags":[]}"#)).is_empty());
}

#[test]
fn backup_records_are_read_with_defaults() {
    let b = v(r##"{"archives":[{"title":"t","path":"/m/a.cbz","archive_type":"cbz","page_count":9},{"path":"/x"}],
                 "tags":[{"namespace":"","name":"n","color":"#fff"},{"namespace":"ns"}]}"##);
    let archives = backup_archive_list(&b);
    assert_eq!(archives.len(), 1);
    assert_eq!(archives[0].path, "/m/a.cbz");
    assert_eq!(archives[0].page_count, 9);
    assert_eq!(archives[0].file_size, 0);
    let tags = backup_tag_list(&b);
    assert_eq!(tags.len(), 1);
    assert_eq!(tags[0].name, "n");
    assert_eq!(tags[0].namespace, "");
    assert_eq!(tags[0].color, "#fff");
}

#[test]
fn backup_settings_come_back_as_written() {
    let settings = vec![
        ("root_dir".to_string(), "/books".to_string()),
        ("server_token".to_string(), "secret".to_string()),
        ("theme".to_string(), "dark".to_string()),
        ("server_bind".to_string(), "0.0.0.0".to_string()),
    ];
    let exported = export_settings(&settings);
    let backup = JsonValue::Object(vec![(
        "settings".to_string(),
        JsonValue::Object(exported.iter().map(|(k, x)| (k.clone(), JsonValue::Str(x.clone()))).collect()),
    )]);
    assert_eq!(import_settings(&backup), exported);
    assert_eq!(
        exported,
        vec![("root_dir".to_string(), "/books".to_string()), ("theme".to_string(), "dark".to_string())]
    );
}
