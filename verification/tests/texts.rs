use katana::filetype::FileType;
use katana::path::{
    components_of, extension_of, file_name_of, join_paths, relative_path, without_leading_slashes,
};
use katana::text::{
    chars_of, contains_chars, decimal_text, find_char, same_text, starts_with, text_of,
    text_of_all, trim_bounds, trimmed,
};
use katana::utils::{FoundEntry, Utils};

fn chars(text: &str) -> Vec<char> {
    text.chars().collect()
}

fn text(chars: Vec<char>) -> String {
    chars.into_iter().collect()
}

#[test]
fn characters_go_to_a_vector_and_back() {
    let all = chars_of("héllo wörld");
    assert_eq!(all, chars("héllo wörld"));
    assert_eq!(text_of_all(&all), "héllo wörld");
    assert_eq!(text_of(&all, 1, 5), "éllo");
    assert_eq!(text_of(&all, 3, 3), "");
}

#[test]
fn decimal_notation() {
    assert_eq!(decimal_text(0), "0");
    assert_eq!(decimal_text(7), "7");
    assert_eq!(decimal_text(10), "10");
    assert_eq!(decimal_text(405), "405");
    assert_eq!(decimal_text(u64::MAX), "18446744073709551615");
}

#[test]
fn trimming_takes_white_space_from_both_ends() {
    assert_eq!(trimmed("  text/html \t\r\n"), "text/html");
    assert_eq!(trimmed("a b"), "a b");
    assert_eq!(trimmed(" \t "), "");
    assert_eq!(trimmed(""), "");
    assert_eq!(trimmed("\u{a0}x\u{3000}"), "x");
    assert_eq!(trimmed("\u{200b}x"), "\u{200b}x");
    let line = chars("x:  value  ");
    assert_eq!(trim_bounds(&line, 2, line.len()), (4, 9));
}

#[test]
fn trimming_agrees_with_the_standard_library() {
    for code in 0u32..0x3100 {
        if let Some(c) = char::from_u32(code) {
            let sample = format!("{}a{}", c, c);
            assert_eq!(trimmed(&sample), sample.trim(), "for U+{:04X}", code);
        }
    }
}

#[test]
fn searching_in_texts() {
    let hay = chars(".well-known/acme");
    assert!(contains_chars(&hay, &chars(".well-known")));
    assert!(contains_chars(&hay, &chars("acme")));
    assert!(contains_chars(&hay, &chars("")));
    assert!(!contains_chars(&hay, &chars(".well-knowm")));
    assert!(!contains_chars(&chars("ab"), &chars("abc")));
    assert!(starts_with(&hay, &chars(".well")));
    assert!(!starts_with(&hay, &chars("well")));
    assert!(starts_with(&hay, &chars("")));
    assert_eq!(find_char(&hay, 0, hay.len(), '/'), 11);
    assert_eq!(find_char(&hay, 0, 5, '/'), 5);
    assert_eq!(find_char(&hay, 12, hay.len(), 'c'), 13);
    assert!(same_text("abc", "abc"));
    assert!(!same_text("abc", "abd"));
    assert!(!same_text("abc", "ab"));
}

#[test]
fn hidden_entries_are_not_valid() {
    assert!(Utils::is_valid_entry("index.html"));
    assert!(Utils::is_valid_entry("a.b"));
    assert!(Utils::is_valid_entry(""));
    assert!(!Utils::is_valid_entry(".git"));
    assert!(!Utils::is_valid_entry(".well-known"));
    assert!(!Utils::is_valid_entry("."));
}

#[test]
fn normal_forms_of_paths() {
    assert_eq!(Utils::normalize_path("/a/b/../c"), "/a/c");
    assert_eq!(Utils::normalize_path("a/./b//c/"), "a/b/c");
    assert_eq!(Utils::normalize_path("../x"), "x");
    assert_eq!(Utils::normalize_path("/.."), "/");
    assert_eq!(Utils::normalize_path("/"), "/");
    assert_eq!(Utils::normalize_path(""), "");
    assert_eq!(Utils::normalize_path("a/b/../../.."), "");
    assert_eq!(Utils::normalize_path("public/../../etc/passwd"), "etc/passwd");
    assert_eq!(Utils::normalize_path("a\\b/c"), "a/b/c");
    assert_eq!(Utils::normalize_path("a/.../b"), "a/.../b");
    assert_eq!(Utils::normalize_path("/a/.hidden/..b"), "/a/.hidden/..b");
}

#[test]
fn normal_form_is_stable() {
    for path in ["/a/b/../c", "a/./b//c/", "x/../../y", "/", "a/b/c", "//a//"] {
        let once = Utils::normalize_path(path);
        assert_eq!(Utils::normalize_path(&once), once);
    }
}

#[test]
fn segments_of_paths() {
    let parts: Vec<String> = components_of(&chars("/srv/www/./a/../b")).into_iter().map(text).collect();
    assert_eq!(parts, vec!["srv", "www", "b"]);
    assert!(components_of(&chars("..")).is_empty());
}

#[test]
fn a_resolved_path_keeps_the_segments_of_its_root() {
    let root = chars("/srv/www");
    for request in ["/", "/a/b", "//a", "/a/../b", "/a/./b/", "/a/b/../../c"] {
        let below = without_leading_slashes(&chars(request));
        let resolved = join_paths(&root, &below);
        let mut expected = components_of(&root);
        expected.extend(components_of(&below));
        assert_eq!(components_of(&resolved), expected, "for {}", request);
    }
}

#[test]
fn joining_and_taking_apart() {
    assert_eq!(text(join_paths(&chars("public"), &chars("a/b.txt"))), "public/a/b.txt");
    assert_eq!(text(join_paths(&chars("public/"), &chars("a"))), "public/a");
    assert_eq!(text(join_paths(&chars("public"), &chars(""))), "public/");
    assert_eq!(text(join_paths(&chars(""), &chars("a"))), "a");
    assert_eq!(text(without_leading_slashes(&chars("///a/b"))), "a/b");
    assert_eq!(text(without_leading_slashes(&chars("/"))), "");
    assert_eq!(text(relative_path(&chars("public/a/b"), &chars("public"))), "a/b");
    assert_eq!(text(relative_path(&chars("public//a"), &chars("public"))), "a");
    assert_eq!(text(relative_path(&chars("public"), &chars("public"))), "");
    assert_eq!(text(relative_path(&chars("publicity/a"), &chars("public"))), "/");
    assert_eq!(text(relative_path(&chars("other/a"), &chars("public"))), "/");
    assert_eq!(text(relative_path(&chars("a/b"), &chars(""))), "a/b");
    assert_eq!(text(file_name_of(&chars("public/a/b.txt"))), "b.txt");
    assert_eq!(text(file_name_of(&chars("b.txt"))), "b.txt");
    assert_eq!(text(file_name_of(&chars("public/"))), "");
    assert_eq!(text(extension_of(&chars("b.tar.gz"))), "gz");
    assert_eq!(text(extension_of(&chars(".profile"))), "");
    assert_eq!(text(extension_of(&chars("Makefile"))), "");
    assert_eq!(text(extension_of(&chars("a."))), "");
    assert_eq!(text(extension_of(&chars(".a.b"))), "b");
}

#[test]
fn known_file_types() {
    let html = FileType::from_extension("html").unwrap();
    assert_eq!(html.extension, "html");
    assert_eq!(html.content_type, "text/html");
    assert_eq!(html.description, "HTML Document");
    assert_eq!(html.content_disposition(), "inline");
    assert_eq!(FileType::from_extension("htm").unwrap().content_type, "text/html");
    assert_eq!(FileType::from_extension("jpeg").unwrap().content_type, "image/jpeg");
    assert_eq!(FileType::from_extension("json").unwrap().content_type, "application/json");
    assert_eq!(FileType::from_extension("bin").unwrap().content_disposition(), "attachment");
    assert_eq!(FileType::from_extension("HTML"), None);
    assert_eq!(FileType::from_extension(""), None);
    assert_eq!(FileType::from_extension("unknown"), None);
}

#[test]
fn unknown_extensions_fall_back_to_binary() {
    let fallback = FileType::resolve("xyz");
    assert_eq!(fallback, FileType::new("bin", "application/octet-stream", "Binary File"));
    assert_eq!(fallback, FileType::fallback());
    assert_eq!(fallback.content_disposition(), "attachment");
    assert_eq!(FileType::resolve("css").content_type, "text/css");
}

#[test]
fn walking_a_directory_lists_what_is_visible() {
    let found = vec![
        FoundEntry { name: "a.txt".into(), is_directory: false, path: "public/docs/a.txt".into() },
        FoundEntry { name: ".git".into(), is_directory: true, path: "public/docs/.git".into() },
        FoundEntry { name: "img".into(), is_directory: true, path: "public/docs/img".into() },
        FoundEntry { name: "old".into(), is_directory: true, path: "public\\docs\\old\\".into() },
        FoundEntry { name: ".env".into(), is_directory: false, path: "public/docs/.env".into() },
        FoundEntry { name: "b\\c".into(), is_directory: false, path: "public/docs/b\\c".into() },
    ];
    let listed = Utils::walk_dir(&found);
    let expected: Vec<(String, String, String)> = vec![
        ("file".into(), "a.txt".into(), "public/docs/a.txt".into()),
        ("directory".into(), "img".into(), "public/docs/img/".into()),
        ("directory".into(), "old".into(), "public/docs/old/".into()),
        ("file".into(), "b\\c".into(), "public/docs/b/c".into()),
    ];
    assert_eq!(listed, expected);
    assert!(Utils::walk_dir(&Vec::new()).is_empty());
}
