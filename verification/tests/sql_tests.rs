use manhuaviewer::search::{build_archive_filters, list_archives_sql, SqlParam};
use rusqlite::Connection;

fn library() -> Connection {
    let conn = Connection::open_in_memory().unwrap();
    conn.execute_batch(
        "CREATE TABLE archives (
            id INTEGER PRIMARY KEY AUTOINCREMENT,
            title TEXT NOT NULL,
            path TEXT NOT NULL UNIQUE,
            archive_type TEXT NOT NULL DEFAULT 'folder',
            page_count INTEGER DEFAULT 0,
            cover_image TEXT,
            file_size INTEGER DEFAULT 0,
            thumbnail_path TEXT,
            group_id INTEGER,
            created_at TEXT DEFAULT (datetime('now')),
            updated_at TEXT DEFAULT (datetime('now'))
        );
        CREATE TABLE tags (id INTEGER PRIMARY KEY AUTOINCREMENT, namespace TEXT DEFAULT '', name TEXT NOT NULL, color TEXT);
        CREATE TABLE archive_tags (archive_id INTEGER NOT NULL, tag_id INTEGER NOT NULL, PRIMARY KEY (archive_id, tag_id));
        CREATE TABLE categories (id INTEGER PRIMARY KEY AUTOINCREMENT, name TEXT NOT NULL UNIQUE, color TEXT, pinned INTEGER DEFAULT 0, search TEXT DEFAULT '');
        CREATE TABLE archive_categories (archive_id INTEGER NOT NULL, category_id INTEGER NOT NULL, PRIMARY KEY (archive_id, category_id));
        CREATE TABLE history (archive_id INTEGER PRIMARY KEY, page_index INTEGER DEFAULT 0, total_pages INTEGER DEFAULT 0, updated_at TEXT DEFAULT (datetime('now')));",
    )
    .unwrap();
    conn
}

fn insert(conn: &Connection, title: &str, path: &str) -> i64 {
    conn.execute("INSERT INTO archives (title, path, archive_type) VALUES (?1, ?2, 'zip')", (title, path)).unwrap();
    conn.last_insert_rowid()
}

fn tag(conn: &Connection, namespace: &str, name: &str) -> i64 {
    conn.execute("INSERT INTO tags (namespace, name, color) VALUES (?1, ?2, '#000')", (namespace, name)).unwrap();
    conn.last_insert_rowid()
}

fn titles(
    conn: &Connection,
    search: Option<&str>,
    added_from: Option<&str>,
    added_to: Option<&str>,
    sort: &str,
    order: &str,
) -> Vec<String> {
    let filters = build_archive_filters(search, None, None, None, added_from, added_to);
    let sql = list_archives_sql(&filters, None, sort, order);
    let args: Vec<rusqlite::types::Value> = filters
        .params
        .iter()
        .map(|p| match p {
            SqlParam::Text(s) => rusqlite::types::Value::Text(s.clone()),
            SqlParam::Int(n) => rusqlite::types::Value::Integer(*n),
        })
        .collect();
    let mut stmt = conn.prepare(&sql).unwrap();
    let rows = stmt.query_map(rusqlite::params_from_iter(args.iter()), |r| r.get::<_, String>(1)).unwrap();
    rows.map(|r| r.unwrap()).collect()
}

#[test]
fn added_range_filter_selects_by_bounds() {
    let conn = library();
    for (title, date) in [("三月书", "2026-03-15 12:00:00"), ("四月书", "2026-04-15 12:00:00")] {
        let id = insert(&conn, title, &format!("/x/{title}.cbz"));
        conn.execute("UPDATE archives SET created_at = ?1 WHERE id = ?2", (date, id)).unwrap();
    }
    assert_eq!(titles(&conn, None, Some("2026-03-01"), Some("2026-04-01"), "created", "desc"), vec!["三月书"]);
    assert_eq!(titles(&conn, None, Some("2026-04-01"), None, "created", "desc"), vec!["四月书"]);
    assert_eq!(titles(&conn, None, None, Some("2026-04-01"), "created", "desc"), vec!["三月书"]);
    assert_eq!(titles(&conn, None, None, None, "created", "desc").len(), 2);
}

#[test]
fn test_list_archives_search_syntax() {
    let conn = library();
    let naruto = insert(&conn, "Naruto", "/path/naruto");
    let naruto_2 = insert(&conn, "Naruto Shippuden", "/path/naruto2");
    let one_piece = insert(&conn, "One Piece", "/path/onepiece");
    let shonen = tag(&conn, "genre", "shonen");
    let adventure = tag(&conn, "", "adventure");
    for (a, t) in [(naruto, shonen), (naruto_2, shonen), (one_piece, adventure)] {
        conn.execute("INSERT INTO archive_tags (archive_id, tag_id) VALUES (?1, ?2)", (a, t)).unwrap();
    }

    assert_eq!(titles(&conn, Some("shonen"), None, None, "title", "asc").len(), 2);
    let r = titles(&conn, Some("tag:adventure"), None, None, "title", "asc");
    assert_eq!(r.len(), 1);
    assert_eq!(r[0], "One Piece");
    assert_eq!(titles(&conn, Some("tag:genre:shonen"), None, None, "title", "asc").len(), 2);
    let r = titles(&conn, Some("-Shippuden"), None, None, "title", "asc");
    assert!(r.iter().all(|t| t != "Naruto Shippuden"));
    assert_eq!(titles(&conn, Some("Naruto tag:genre:shonen"), None, None, "title", "asc").len(), 2);
}

#[test]
fn title_sort_orders_rows_in_sqlite() {
    let conn = library();
    insert(&conn, "b", "/b");
    insert(&conn, "a", "/a");
    insert(&conn, "c", "/c");
    assert_eq!(titles(&conn, None, None, None, "title", "asc"), vec!["a", "b", "c"]);
    assert_eq!(titles(&conn, None, None, None, "title", "desc"), vec!["c", "b", "a"]);
}
