use media_stats::paths::{
    anchor_glob, file_info_for, file_name_of, get_matcher, get_walker, has_hidden_segment,
    is_hidden, is_hidden_name, select_file, starts_with_base, within_bounds, ConfigurationError,
    MAX_GLOB_DEPTH, MAX_GLOB_LENGTH,
};
use media_stats::text::{remove_leading_slash, remove_trailing_slash};

#[test]
fn trailing_slash_is_stripped_once() {
    assert_eq!(remove_trailing_slash("/media/"), "/media");
    assert_eq!(remove_trailing_slash("/media//"), "/media/");
    assert_eq!(remove_trailing_slash("/media"), "/media");
    assert_eq!(remove_trailing_slash("/"), "");
    assert_eq!(remove_trailing_slash(""), "");
    assert_eq!(remove_trailing_slash("vidéos/"), "vidéos");
}

#[test]
fn leading_slash_is_stripped_once() {
    assert_eq!(remove_leading_slash("/*.mkv"), "*.mkv");
    assert_eq!(remove_leading_slash("//*.mkv"), "/*.mkv");
    assert_eq!(remove_leading_slash("*.mkv"), "*.mkv");
    assert_eq!(remove_leading_slash("/"), "");
    assert_eq!(remove_leading_slash(""), "");
    assert_eq!(remove_leading_slash("/é*.mkv"), "é*.mkv");
}

#[test]
fn anchored_glob_joins_base_and_pattern() {
    assert_eq!(anchor_glob("/media/", "/*.mkv"), "/media/*.mkv");
    assert_eq!(anchor_glob("/media", "*.mkv"), "/media/*.mkv");
    assert_eq!(anchor_glob("/media//", "//*.mkv"), "/media///*.mkv");
    assert_eq!(anchor_glob("", ""), "/");
}

#[test]
fn matcher_is_anchored_at_the_base() {
    let matcher = get_matcher("/media/", "/*.mkv").unwrap();
    assert_eq!(matcher.base_dir(), "/media");
    assert!(matcher.matches("/media/x.mkv"));
    assert!(!matcher.matches("/media/sub/x.mkv"));
    assert!(select_file(&matcher, "/media/x.mkv", true).is_some());
    assert!(select_file(&matcher, "/media/sub/x.mkv", true).is_none());
    assert!(select_file(&matcher, "/other/x.mkv", true).is_none());
    assert!(select_file(&matcher, "/media/x.mp4", true).is_none());
    assert!(select_file(&matcher, "/media/X.MKV", true).is_none());
}

#[test]
fn recursive_token_crosses_directories() {
    let matcher = get_matcher("/media", "**/*.mkv").unwrap();
    assert!(select_file(&matcher, "/media/sub/x.mkv", true).is_some());
    assert!(select_file(&matcher, "/media/a/b/x.mkv", true).is_some());
    assert!(select_file(&matcher, "/elsewhere/sub/x.mkv", true).is_none());
}

#[test]
fn malformed_glob_is_a_configuration_error() {
    assert_eq!(get_matcher("/media", "[a").err(), Some(ConfigurationError::MalformedGlob));
    assert_eq!(get_matcher("/media", "{a,b").err(), Some(ConfigurationError::MalformedGlob));
    assert!(get_matcher("/media", "{a,b}").is_ok());
}

#[test]
fn only_matched_regular_files_are_selected() {
    let matcher = get_matcher("/videos", "*.mp4").unwrap();
    let file = select_file(&matcher, "/videos/a.mp4", true).unwrap();
    assert_eq!(file.absolute_path, "/videos/a.mp4");
    assert_eq!(file.filename, "a.mp4");
    assert!(select_file(&matcher, "/videos/a.mp4", false).is_none());
    assert!(file_info_for("/videos", "/videos/a.mp4", true, false).is_none());
    assert!(file_info_for("/videos", "/videos/a.mp4", false, true).is_none());
    assert!(file_info_for("/video", "/videos/a.mp4", true, true).is_none());
    assert!(file_info_for("/videos", "/videos", true, true).is_none());
    assert!(file_info_for("/videos", "/videos/.a.mp4", true, true).is_none());
    assert!(file_info_for("/videos", "/videos/.sub/c.mp4", true, true).is_none());
    assert!(file_info_for("/.videos", "/.videos/a.b.mp4", true, true).is_some());
    let chosen = file_info_for("/videos", "/videos/sub/c.mp4", true, true).unwrap();
    assert_eq!(chosen.absolute_path, "/videos/sub/c.mp4");
    assert_eq!(chosen.filename, "c.mp4");
}

#[test]
fn file_name_is_the_last_segment() {
    assert_eq!(file_name_of("/videos/a.mp4"), "a.mp4");
    assert_eq!(file_name_of("a.mp4"), "a.mp4");
    assert_eq!(file_name_of("/videos/"), "");
    assert_eq!(file_name_of(""), "");
    assert_eq!(file_name_of("/a/b/é.mkv"), "é.mkv");
}

#[test]
fn names_with_a_leading_dot_are_hidden() {
    assert!(is_hidden_name(".hidden"));
    assert!(is_hidden_name(".b.mp4"));
    assert!(is_hidden_name("."));
    assert!(!is_hidden_name("a.mp4"));
    assert!(!is_hidden_name("a."));
    assert!(!is_hidden_name(""));
}

#[test]
fn hidden_entries_are_told_by_their_name() {
    let mut walker = get_walker("./");
    if let Some(Ok(root)) = walker.next() {
        assert_eq!(root.path().to_str(), Some("."));
        assert!(is_hidden(&root));
    }
    for entry in walker {
        if let Ok(entry) = entry {
            let name = entry.file_name().to_str().unwrap().to_string();
            assert_eq!(is_hidden(&entry), name.starts_with('.'));
        }
    }
}

#[test]
fn walker_starts_at_the_normalised_base() {
    let mut walker = get_walker("src/");
    if let Some(Ok(root)) = walker.next() {
        assert_eq!(root.path().to_str(), Some("src"));
        assert!(!is_hidden(&root));
    }
    let mut names: Vec<String> = Vec::new();
    for entry in walker {
        if let Ok(entry) = entry {
            if entry.depth() == 1 {
                names.push(entry.file_name().to_str().unwrap().to_string());
            }
        }
    }
    let mut sorted = names.clone();
    sorted.sort();
    assert_eq!(names, sorted);
}

#[test]
fn hidden_entries_are_never_selected() {
    let matcher = get_matcher("/media", "**/*.mkv").unwrap();
    assert!(matcher.matches("/media/.hidden/x.mkv"));
    assert!(select_file(&matcher, "/media/.hidden/x.mkv", true).is_none());
    assert!(select_file(&matcher, "/media/a/.x.mkv", true).is_none());
    assert!(select_file(&matcher, "/media/a/.b/c/x.mkv", true).is_none());
    assert!(select_file(&matcher, "/media/a.b/x.y.mkv", true).is_some());
}

#[test]
fn paths_outside_the_base_are_never_matched() {
    let matcher = get_matcher("/med*", "x.mkv").unwrap();
    assert_eq!(matcher.base_dir(), "/med*");
    assert!(!matcher.matches("/media/x.mkv"));
    assert!(select_file(&matcher, "/media/x.mkv", true).is_none());
    assert!(matcher.matches("/med*/x.mkv"));
}

#[test]
fn base_prefix_needs_a_separator() {
    assert!(starts_with_base("/media", "/media/x"));
    assert!(starts_with_base("/media", "/media/"));
    assert!(starts_with_base("", "/x"));
    assert!(!starts_with_base("/media", "/media"));
    assert!(!starts_with_base("/media", "/mediax/y"));
    assert!(!starts_with_base("/media", "/medi"));
    assert!(!starts_with_base("/media", ""));
    assert!(!starts_with_base("/médìa", "/media/x"));
}

#[test]
fn hidden_segments_are_found() {
    assert!(has_hidden_segment(".a", 0));
    assert!(has_hidden_segment("a/.b", 0));
    assert!(has_hidden_segment("a/.b/c", 2));
    assert!(!has_hidden_segment("a/.b/c", 3));
    assert!(!has_hidden_segment("a.b/c.d", 0));
    assert!(!has_hidden_segment("", 0));
    assert!(!has_hidden_segment("/.x/y", 5));
}

#[test]
fn configuration_error_names_the_glob() {
    let error = get_matcher("/media/", "/[a").err().unwrap();
    assert_eq!(error.message("/media/", "/[a"), "malformed glob: /media/[a");
}

fn nested(levels: usize, inner: &str) -> String {
    format!("{}{}{}", "{".repeat(levels), inner, "}".repeat(levels))
}

fn builds_at_full_length(unit: &str) {
    let count = (MAX_GLOB_LENGTH - 3) / unit.chars().count();
    assert!(get_matcher("/m", &unit.repeat(count)).is_ok());
}

#[test]
fn glob_bounds_are_fixed() {
    assert_eq!(MAX_GLOB_LENGTH, 16384);
    assert_eq!(MAX_GLOB_DEPTH, 64);
    assert!(within_bounds(""));
    assert!(within_bounds("/media/*.mkv"));
    assert!(within_bounds(&"a".repeat(16384)));
    assert!(!within_bounds(&"a".repeat(16385)));
    assert!(within_bounds(&"é".repeat(16384)));
}

#[test]
fn plain_braces_are_bounded_by_their_nesting() {
    assert!(within_bounds(&nested(64, "a")));
    assert!(!within_bounds(&nested(65, "a")));
    assert!(within_bounds(&"{".repeat(64)));
    assert!(!within_bounds(&"{".repeat(65)));
    assert!(within_bounds(&"{a,b}".repeat(1000)));
    assert!(within_bounds(&format!("{}{}", "}".repeat(10), nested(64, "a"))));
    assert!(!within_bounds(&format!("{}{}", nested(1, "a"), nested(65, "b"))));
    assert!(within_bounds(&format!("{}{}", nested(40, "a"), nested(40, "b"))));
}

#[test]
fn other_braces_are_bounded_by_their_number() {
    assert!(within_bounds(&format!("[a]{}", "{a,b}".repeat(64))));
    assert!(!within_bounds(&format!("[a]{}", "{a,b}".repeat(65))));
    assert!(!within_bounds(&format!("{}[", "{a,b}".repeat(65))));
    assert!(within_bounds(&"\\{".repeat(64)));
    assert!(!within_bounds(&"\\{".repeat(65)));
    assert!(!within_bounds(&"{[}]".repeat(65)));
    assert!(within_bounds(&"{[}]".repeat(64)));
}

#[test]
fn deeply_nested_alternates_build_within_the_bound() {
    let matcher = get_matcher("/m", &nested(64, "a")).unwrap();
    assert!(matcher.matches("/m/a"));
    assert!(!matcher.matches("/m/b"));
    let matcher = get_matcher("/m", &nested(64, "x/**/y*,?")).unwrap();
    assert!(matcher.matches("/m/x/a/b/yes"));
    assert!(matcher.matches("/m/q"));
    assert!(!matcher.matches("/m/qq"));
}

#[test]
fn classes_inside_braces_build_within_the_bound() {
    let matcher = get_matcher("/m", &nested(64, "x/**/[a-z]*,?")).unwrap();
    assert!(matcher.matches("/m/x/y/z/abc"));
    assert!(matcher.matches("/m/q"));
    let glob = "{[}]".repeat(64) + &"}".repeat(64);
    assert!(get_matcher("/m", &glob).is_ok());
}

#[test]
fn many_alternations_side_by_side_build() {
    let pattern = "{a,b}".repeat(65);
    let matcher = get_matcher("/m", &pattern).unwrap();
    assert!(matcher.matches(&format!("/m/{}", "ab".repeat(32) + "a")));
    assert!(!matcher.matches(&format!("/m/{}", "ab".repeat(32))));
    assert!(get_matcher("/m", &"{a,b}".repeat(3000)).is_ok());
}

#[test]
fn braces_nested_too_deep_are_a_configuration_error() {
    assert_eq!(
        get_matcher("/m", &nested(65, "a")).err(),
        Some(ConfigurationError::OversizedGlob)
    );
    assert_eq!(
        get_matcher("/m", &nested(400, "a")).err(),
        Some(ConfigurationError::OversizedGlob)
    );
    assert_eq!(
        get_matcher("/m", &"{".repeat(65)).err(),
        Some(ConfigurationError::OversizedGlob)
    );
    assert_eq!(
        get_matcher("/m", &"{".repeat(64)).err(),
        Some(ConfigurationError::MalformedGlob)
    );
    assert_eq!(
        get_matcher("/m", &format!("[a]{}", "{a,b}".repeat(65))).err(),
        Some(ConfigurationError::OversizedGlob)
    );
}

#[test]
fn long_globs_of_letters_build() {
    builds_at_full_length("a");
    let pattern = "a".repeat(MAX_GLOB_LENGTH - 3);
    let matcher = get_matcher("/m", &pattern).unwrap();
    assert!(matcher.matches(&format!("/m/{}", pattern)));
}

#[test]
fn long_globs_of_wildcards_build() {
    builds_at_full_length("?");
    builds_at_full_length("*a");
}

#[test]
fn long_globs_of_wide_characters_build() {
    builds_at_full_length("é");
    builds_at_full_length("🎬");
}

#[test]
fn long_globs_of_classes_build() {
    builds_at_full_length("[a-z]");
    builds_at_full_length("[!a]*");
}

#[test]
fn long_globs_of_separators_and_alternates_build() {
    builds_at_full_length("a/");
    builds_at_full_length("**/");
    builds_at_full_length("{a,b}");
    builds_at_full_length("{é,🎬,*}?");
}

#[test]
fn overlong_globs_are_a_configuration_error() {
    assert_eq!(
        get_matcher("/m", &"a".repeat(MAX_GLOB_LENGTH - 2)).err(),
        Some(ConfigurationError::OversizedGlob)
    );
}

#[test]
fn oversized_glob_is_named_in_the_diagnostic() {
    assert_eq!(
        ConfigurationError::OversizedGlob.message("/m/", "/{"),
        "oversized glob: /m/{"
    );
}
