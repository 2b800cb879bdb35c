use taurigo::migrations::{bytes_le_exec, is_sql_file, select_migration_files};

fn names(list: &[&str]) -> Vec<Vec<u8>> {
    list.iter().map(|n| n.as_bytes().to_vec()).collect()
}

#[test]
fn select_migration_files_keeps_sql_files_in_byte_order() {
    let selected = select_migration_files(names(&[
        "010_c.sql", ".gitkeep", "002_b.sql", "001_a.sql", "notes.txt", "a.SQL", "x.sql.bak",
    ]));
    assert_eq!(selected, names(&["001_a.sql", "002_b.sql", "010_c.sql"]));
}

#[test]
fn select_migration_files_of_an_empty_directory_is_empty() {
    assert!(select_migration_files(Vec::new()).is_empty());
    assert!(select_migration_files(names(&[".gitkeep"])).is_empty());
}

#[test]
fn sql_extension_follows_path_extension() {
    for name in ["a.sql", "..sql", "a.b.sql", ".sql", "sql", "a.sq", "a.sqlx", "a.SQL", ""] {
        let expected = std::path::Path::new(name).extension().and_then(|e| e.to_str()) == Some("sql");
        assert_eq!(is_sql_file(&name.as_bytes().to_vec()), expected, "{name}");
    }
}

#[test]
fn byte_order_matches_path_order() {
    let samples = ["a", "ab", "b", "", "A", "a.sql", "a_sql", "001", "01"];
    for x in samples {
        for y in samples {
            let px = std::path::Path::new("/m").join(x);
            let py = std::path::Path::new("/m").join(y);
            assert_eq!(
                bytes_le_exec(&x.as_bytes().to_vec(), &y.as_bytes().to_vec()),
                px <= py,
                "{x} {y}"
            );
        }
    }
}
