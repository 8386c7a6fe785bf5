use smart_organizer::config::{Category, Config};
use smart_organizer::junk::{is_hidden_name, is_hidden_or_junk, RUN_LOG_NAME};
use smart_organizer::paths::{
    extension_of, file_name_of, file_stem_of, find_last, join_path, parent_of, relative_path,
};
use smart_organizer::text::{
    contains_text, decimal_text, eq_ignore_ascii_case, fold_code, same_text,
};

/// Builds a configuration from the text of a configuration file: the table
/// `categories` maps each category to its extensions, and a file without that
/// table stands for the built-in configuration.
fn config_from_toml(text: &str) -> Config {
    let table: toml::Table = toml::from_str(text).unwrap();
    let categories = match table.get("categories") {
        Some(value) => value.as_table().unwrap(),
        None => return Config::default(),
    };
    let mut list = Vec::new();
    for (name, extensions) in categories.iter() {
        let extensions: Vec<&str> = extensions
            .as_array()
            .unwrap()
            .iter()
            .map(|e| e.as_str().unwrap())
            .collect();
        list.push(Category::new(name, &extensions));
    }
    Config::new(list)
}

// ── Config::categorize ──

#[test]
fn categorize_known_extensions() {
    let cfg = Config::default();
    assert_eq!(cfg.categorize("jpg"), Some("Images"));
    assert_eq!(cfg.categorize("pdf"), Some("Documents"));
    assert_eq!(cfg.categorize("mp4"), Some("Videos"));
    assert_eq!(cfg.categorize("mp3"), Some("Music"));
    assert_eq!(cfg.categorize("zip"), Some("Archives"));
}

#[test]
fn categorize_is_case_insensitive() {
    let cfg = Config::default();
    assert_eq!(cfg.categorize("JPG"), Some("Images"));
    assert_eq!(cfg.categorize("Pdf"), Some("Documents"));
    assert_eq!(cfg.categorize("MP4"), Some("Videos"));
}

#[test]
fn categorize_unknown_returns_none() {
    let cfg = Config::default();
    assert_eq!(cfg.categorize("xyz"), None);
    assert_eq!(cfg.categorize("randomext"), None);
    assert_eq!(cfg.categorize(""), None);
}

#[test]
fn categorize_agrees_for_every_default_extension_in_capitals() {
    let cfg = Config::default();
    for category in cfg.categories.iter() {
        for ext in category.extensions.iter() {
            let upper = ext.to_ascii_uppercase();
            assert_eq!(cfg.categorize(&upper), cfg.categorize(ext));
            assert_eq!(cfg.categorize(ext), Some(category.name.as_str()));
        }
    }
}

#[test]
fn categorize_folds_ascii_only() {
    let cfg = Config::new(vec![Category::new("Notes", &["é"])]);
    assert_eq!(cfg.categorize("é"), Some("Notes"));
    assert_eq!(cfg.categorize("É"), None);
}

#[test]
fn categorize_gives_the_first_category_that_lists_an_extension() {
    let cfg = Config::new(vec![
        Category::new("Texts", &["md", "txt"]),
        Category::new("Notes", &["TXT", "org"]),
    ]);
    assert_eq!(cfg.categorize("txt"), Some("Texts"));
    assert_eq!(cfg.categorize("org"), Some("Notes"));
    assert_eq!(Config::new(Vec::new()).categorize("txt"), None);
}

// ── Config defaults and configuration files ──

#[test]
fn default_config_has_all_categories() {
    let cfg = Config::default();
    let names = cfg.category_names();
    assert!(names.contains(&"Images".to_string()));
    assert!(names.contains(&"Documents".to_string()));
    assert!(names.contains(&"Videos".to_string()));
    assert!(names.contains(&"Music".to_string()));
    assert!(names.contains(&"Archives".to_string()));
}

#[test]
fn default_config_lists_the_known_extensions() {
    let cfg = Config::default();
    assert_eq!(
        cfg.category_names(),
        vec!["Images", "Documents", "Videos", "Music", "Archives"]
    );
    assert_eq!(
        cfg.categories[0].extensions,
        vec!["jpg", "jpeg", "png", "gif", "bmp", "webp", "svg"]
    );
    assert_eq!(
        cfg.categories[1].extensions,
        vec!["pdf", "doc", "docx", "txt", "rtf", "odt", "xlsx", "csv"]
    );
    assert_eq!(cfg.categories[2].extensions, vec!["mp4", "mkv", "mov", "avi", "webm"]);
    assert_eq!(cfg.categories[3].extensions, vec!["mp3", "wav", "flac", "aac", "ogg"]);
    assert_eq!(cfg.categories[4].extensions, vec!["zip", "rar", "7z", "tar", "gz"]);
}

#[test]
fn parse_valid_toml() {
    let toml_str = r#"
        [categories]
        Photos = ["jpg", "png"]
        Texts  = ["txt", "md"]
    "#;
    let cfg = config_from_toml(toml_str);
    assert_eq!(cfg.categorize("jpg"), Some("Photos"));
    assert_eq!(cfg.categorize("md"), Some("Texts"));
    assert_eq!(cfg.categorize("mp4"), None); // not in custom config
}

#[test]
fn empty_toml_falls_back_to_defaults() {
    let cfg = config_from_toml("");
    assert!(cfg.categorize("jpg").is_some());
}

// ── is_hidden_or_junk ──

#[test]
fn detects_hidden_files() {
    assert!(is_hidden_or_junk("/tmp/.DS_Store"));
    assert!(is_hidden_or_junk("/tmp/.gitignore"));
    assert!(is_hidden_or_junk("/tmp/.hidden"));
}

#[test]
fn detects_os_junk() {
    assert!(is_hidden_or_junk("/tmp/Thumbs.db"));
    assert!(is_hidden_or_junk("/tmp/desktop.ini"));
    assert!(is_hidden_or_junk("/tmp/organizer_log.txt"));
}

#[test]
fn normal_files_are_not_junk() {
    assert!(!is_hidden_or_junk("/tmp/photo.jpg"));
    assert!(!is_hidden_or_junk("/tmp/report.pdf"));
    assert!(!is_hidden_or_junk("/tmp/song.mp3"));
}

#[test]
fn junk_goes_by_the_file_name_alone() {
    assert_eq!(RUN_LOG_NAME, "organizer_log.txt");
    assert!(is_hidden_or_junk(RUN_LOG_NAME));
    assert!(is_hidden_or_junk(".DS_Store"));
    assert!(is_hidden_or_junk(""));
    assert!(is_hidden_or_junk("/tmp/"));
    assert!(is_hidden_or_junk("a/.."));
    assert!(!is_hidden_or_junk(".hidden/photo.jpg"));
    assert!(!is_hidden_or_junk("/tmp/thumbs.db"));
    assert!(!is_hidden_or_junk("/tmp/Thumbs.db.bak"));
    assert!(!is_hidden_or_junk("/tmp/my.desktop.ini"));
    assert!(is_hidden_name(".git"));
    assert!(!is_hidden_name("git."));
    assert!(!is_hidden_name(""));
}

// ── paths ──

#[test]
fn file_name_is_what_follows_the_last_separator() {
    assert_eq!(file_name_of("/tmp/photo.jpg"), "photo.jpg");
    assert_eq!(file_name_of("photo.jpg"), "photo.jpg");
    assert_eq!(file_name_of("a/b/"), "");
    assert_eq!(file_name_of(""), "");
    assert_eq!(file_name_of("ä/ö.txt"), "ö.txt");
    assert_eq!(find_last("a/b/c", '/'), Some(3));
    assert_eq!(find_last("ä/ö", '/'), Some(1));
    assert_eq!(find_last("abc", '/'), None);
}

#[test]
fn parent_is_what_precedes_the_last_separator() {
    assert_eq!(parent_of("projects/work/report.pdf"), "projects/work");
    assert_eq!(parent_of("report.pdf"), "");
    assert_eq!(parent_of("/report.pdf"), "");
    assert_eq!(parent_of("a/"), "a");
}

#[test]
fn extension_follows_a_dot_that_is_not_first() {
    assert_eq!(extension_of("photo.jpg"), Some("jpg"));
    assert_eq!(extension_of("archive.tar.gz"), Some("gz"));
    assert_eq!(extension_of("Makefile"), None);
    assert_eq!(extension_of(".profile"), None);
    assert_eq!(extension_of(".profile.bak"), Some("bak"));
    assert_eq!(extension_of("name."), Some(""));
    assert_eq!(extension_of(""), None);
    assert_eq!(file_stem_of("photo.jpg"), "photo");
    assert_eq!(file_stem_of("archive.tar.gz"), "archive.tar");
    assert_eq!(file_stem_of("Makefile"), "Makefile");
    assert_eq!(file_stem_of(".profile"), ".profile");
    assert_eq!(file_stem_of("name."), "name");
}

#[test]
fn join_puts_one_separator_between() {
    assert_eq!(join_path("/tmp", "photo.jpg"), "/tmp/photo.jpg");
    assert_eq!(join_path("/tmp/", "photo.jpg"), "/tmp/photo.jpg");
    assert_eq!(join_path("", "photo.jpg"), "photo.jpg");
    assert_eq!(join_path("a", "b/c"), "a/b/c");
    assert_eq!(join_path("a", ""), "a/");
}

#[test]
fn relative_path_undoes_join() {
    assert_eq!(relative_path("/tmp/a/photo.jpg", "/tmp"), "a/photo.jpg");
    assert_eq!(relative_path("/tmp/a/photo.jpg", "/tmp/"), "a/photo.jpg");
    assert_eq!(relative_path("a/photo.jpg", ""), "a/photo.jpg");
    assert_eq!(relative_path("/tmpx/photo.jpg", "/tmp"), "/tmpx/photo.jpg");
    assert_eq!(relative_path("/other/photo.jpg", "/tmp"), "/other/photo.jpg");
    assert_eq!(relative_path("/tmp", "/tmp"), "/tmp");
    assert_eq!(relative_path("/tmp/", "/tmp"), "");
    for (root, rest) in [("/tmp", "a/b.txt"), ("", "b.txt"), ("r/", "x"), (".", "ö/ä")] {
        assert_eq!(relative_path(&join_path(root, rest), root), rest);
    }
}

// ── text ──

#[test]
fn texts_are_compared_character_by_character() {
    assert!(same_text("photo", "photo"));
    assert!(!same_text("photo", "Photo"));
    assert!(!same_text("photo", "photos"));
    assert!(same_text("", ""));
    assert!(eq_ignore_ascii_case("JpG", "jPg"));
    assert!(eq_ignore_ascii_case("", ""));
    assert!(!eq_ignore_ascii_case("jpg", "jpeg"));
    assert!(!eq_ignore_ascii_case("jp@", "jp`"));
    assert!(!eq_ignore_ascii_case("[", "{"));
    assert_eq!(fold_code('A'), 'a' as u32);
    assert_eq!(fold_code('Z'), 'z' as u32);
    assert_eq!(fold_code('a'), 'a' as u32);
    assert_eq!(fold_code('@'), '@' as u32);
    assert_eq!(fold_code('['), '[' as u32);
    assert_eq!(fold_code('É'), 'É' as u32);
    let list = vec!["a".to_string(), "b".to_string()];
    assert!(contains_text(&list, "b"));
    assert!(!contains_text(&list, "B"));
    assert!(!contains_text(&Vec::new(), ""));
}

#[test]
fn numbers_are_written_in_base_ten() {
    assert_eq!(decimal_text(0), "0");
    assert_eq!(decimal_text(7), "7");
    assert_eq!(decimal_text(10), "10");
    assert_eq!(decimal_text(2026), "2026");
    assert_eq!(decimal_text(u128::MAX), u128::MAX.to_string());
    for n in 0u128..1200 {
        assert_eq!(decimal_text(n), n.to_string());
    }
}
