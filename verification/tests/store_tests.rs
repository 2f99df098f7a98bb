use ascii_art_studio::store::{safe_name, sorted_with_extension};

#[test]
fn safe_name_appends_extension_once() {
    assert_eq!(safe_name("demo").unwrap(), "demo.ax");
    assert_eq!(safe_name("demo.ax").unwrap(), "demo.ax");
}

#[test]
fn safe_name_rejects_traversal_and_separators() {
    for bad in ["", "../evil", "..", "a/b", "a\\b", "..\\up", "dir/../x"] {
        assert!(safe_name(bad).is_err(), "должно отклоняться: {bad:?}");
    }
}

#[test]
fn safe_name_allows_normal_names() {
    for ok in ["render", "my_script", "batch-01", "тест", "a.b"] {
        assert!(safe_name(ok).is_ok(), "должно приниматься: {ok:?}");
    }
}

#[test]
fn safe_name_error_message() {
    assert_eq!(safe_name("a/b").unwrap_err(), "недопустимое имя скрипта");
}

#[test]
fn safe_name_keeps_name_with_other_extension() {
    assert_eq!(safe_name("a.b").unwrap(), "a.b.ax");
    assert_eq!(safe_name("x.axe").unwrap(), "x.axe.ax");
}

#[test]
fn listing_keeps_extension_and_sorts() {
    let names = vec![
        "b.ax".to_string(),
        "notes.txt".to_string(),
        "a.ax".to_string(),
        ".ax".to_string(),
        "c.AX".to_string(),
        "d.ax.bak".to_string(),
    ];
    let listed = sorted_with_extension(names, "ax");
    assert_eq!(listed, vec!["a.ax".to_string(), "b.ax".to_string()]);
}

#[test]
fn frames_are_ordered_by_name() {
    let names = vec![
        "000010.png".to_string(),
        "000002.png".to_string(),
        "000001.png".to_string(),
        "palette.txt".to_string(),
    ];
    let listed = sorted_with_extension(names, "png");
    assert_eq!(
        listed,
        vec!["000001.png".to_string(), "000002.png".to_string(), "000010.png".to_string()]
    );
}

#[test]
fn safe_name_twice_changes_nothing() {
    for ok in ["render", "demo.ax", "a.b", "тест"] {
        let once = safe_name(ok).unwrap();
        assert_eq!(safe_name(&once).unwrap(), once);
    }
    // A name ending in '.' gets "..ax", which is then refused.
    let once = safe_name("a.").unwrap();
    assert_eq!(once, "a..ax");
    assert!(safe_name(&once).is_err());
}

#[test]
fn accepted_names_stay_in_folder() {
    for ok in [".ax", "x", "..ax"] {
        if let Ok(f) = safe_name(ok) {
            assert!(!f.contains('/') && !f.contains('\\') && f != "." && f != "..", "{f}");
        }
    }
}

#[test]
fn safe_name_rejects_drive_prefixes() {
    for bad in ["C:x", "C:", "c:\\evil", "D:script.ax", "a:b", "\\\\server\\share"] {
        assert!(safe_name(bad).is_err(), "должно отклоняться: {bad:?}");
    }
}

#[test]
fn safe_name_keeps_other_colons() {
    // Only a drive prefix leaves the folder; other colons are kept.
    assert_eq!(safe_name("ab:c").unwrap(), "ab:c.ax");
    assert_eq!(safe_name("1:x").unwrap(), "1:x.ax");
    assert_eq!(safe_name("render:v2.ax").unwrap(), "render:v2.ax");
}
