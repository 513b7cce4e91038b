use rurl::storage::{meta_file_name, FileManager};

#[test]
fn the_state_stands_beside_the_file() {
    assert_eq!(FileManager::get_meta_path("game.zip"), "game.zip.meta");
    assert_eq!(FileManager::get_meta_path("./downloads/game.zip"), "./downloads/game.zip.meta");
    assert_eq!(FileManager::get_meta_path("/tmp/a/b"), "/tmp/a/b.meta");
    assert_eq!(FileManager::get_meta_path("/b"), "/b.meta");
    assert_eq!(FileManager::get_meta_path("dir/"), "dir.meta");
    assert_eq!(FileManager::get_meta_path("a//b"), "a/b.meta");
    assert_eq!(FileManager::get_meta_path("a/./b/."), "a/b.meta");
    assert_eq!(FileManager::get_meta_path("../b"), "../b.meta");
    assert_eq!(FileManager::get_meta_path(".hidden"), ".hidden.meta");
    assert_eq!(
        FileManager::get_meta_path("./tests/output/qq_rurl_default.exe"),
        "./tests/output/qq_rurl_default.exe.meta"
    );
    assert_eq!(FileManager::get_meta_path("12:30.mp4"), "12:30.mp4.meta");
    assert_eq!(FileManager::get_meta_path("day:1/at 12:30.mp4"), "day:1/at 12:30.mp4.meta");
}

#[test]
fn a_path_without_a_name_stays() {
    assert_eq!(FileManager::get_meta_path(""), "");
    assert_eq!(FileManager::get_meta_path("/"), "/");
    assert_eq!(FileManager::get_meta_path("a/.."), "a/..");
    assert_eq!(FileManager::get_meta_path("."), ".");
    assert_eq!(FileManager::get_meta_path(".."), "..");
    assert_eq!(FileManager::get_meta_path("./."), "./.");
}

#[test]
fn names_of_state_files() {
    assert_eq!(meta_file_name("game.zip"), "game.zip.meta");
    assert_eq!(meta_file_name(""), ".meta");
}

#[test]
fn odd_paths_have_state_files_too() {
    for (path, name) in [
        ("a\\b", "b"),
        ("C:\\dir\\f", "f"),
        ("C:\\Users\\me\\f.zip", "f.zip"),
        ("C:/dir/f", "f"),
        ("\\f", "f"),
        ("dir/x:y", "x:y"),
        ("//server/share/f", "f"),
        ("\\\\server\\share\\dir\\f.zip", "f.zip"),
    ] {
        let meta = FileManager::get_meta_path(path);
        assert_ne!(meta, path);
        let last = meta.rsplit(['/', '\\']).next().unwrap();
        assert_eq!(last, format!("{}.meta", name));
    }
    assert!(FileManager::get_meta_path("a:bc").ends_with("bc.meta"));
    let meta = FileManager::get_meta_path("//server/share");
    assert!(meta == "//server/share" || meta.ends_with("share.meta"));
}

#[test]
fn state_files_of_different_names_differ() {
    let paths = ["C:\\d\\a", "C:\\d\\xa", "C:\\d\\a.meta", "d/a.b", "d/a"];
    for (i, a) in paths.iter().enumerate() {
        for b in &paths[i + 1..] {
            assert_ne!(FileManager::get_meta_path(a), FileManager::get_meta_path(b));
        }
        assert_ne!(FileManager::get_meta_path(a), *a);
    }
}
