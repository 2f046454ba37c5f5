use path_master::PathError;
use path_master::envmap::EnvMap;
use path_master::expand::expand_env_vars;
use path_master::paths::{
    FileEntry, PATHSD, Pathd, ROOTD, SubdirEntry, envkey, get_paths_dirs_regex,
};
use path_master::pattern::DirPattern;

fn record(dir: &str) -> Pathd {
    Pathd { dir: dir.to_string(), key: "PATH".to_string(), paths: Vec::new() }
}

fn file(path: &str, data: &[u8]) -> FileEntry {
    FileEntry { path: path.to_string(), is_file: true, data: data.to_vec() }
}

fn default_pattern() -> DirPattern {
    DirPattern::compile(PATHSD).unwrap()
}

#[test]
fn envkey_defaults_to_path_on_empty_capture() {
    let p = default_pattern();
    let key = envkey("/etc/paths.d", ROOTD, &p);
    assert_eq!(key, Some("PATH".to_string()));
}

#[test]
fn envkey_returns_capture_verbatim() {
    let p = default_pattern();
    assert_eq!(envkey("/etc/manpaths.d", ROOTD, &p), Some("man".to_string()));
    // Case is preserved exactly as captured.
    assert_eq!(envkey("/etc/MANpaths.d", ROOTD, &p), Some("MAN".to_string()));
}

#[test]
fn envkey_needs_root_prefix_and_match() {
    let p = default_pattern();
    assert_eq!(envkey("/opt/paths.d", ROOTD, &p), None);
    assert_eq!(envkey("/etc/other.d", ROOTD, &p), None);
}

#[test]
fn expansion_without_dollar_is_identity() {
    let mut env = EnvMap::new();
    env.push("FOO".to_string(), "bar".to_string());
    assert_eq!(expand_env_vars("/usr/local/bin", &env), "/usr/local/bin");
    assert_eq!(expand_env_vars("", &env), "");
}

#[test]
fn expansion_substitutes_set_variables() {
    let mut env = EnvMap::new();
    env.push("FOO".to_string(), "bar".to_string());
    assert_eq!(expand_env_vars("$FOO/baz", &env), "bar/baz");
    assert_eq!(expand_env_vars("${FOO}/baz", &env), "bar/baz");
}

#[test]
fn expansion_keeps_unset_variables_literal() {
    let env = EnvMap::new();
    assert_eq!(expand_env_vars("$FOO/baz", &env), "$FOO/baz");
    assert_eq!(expand_env_vars("${FOO}/baz", &env), "${FOO}/baz");
}

#[test]
fn expansion_is_single_pass() {
    let mut env = EnvMap::new();
    env.push("FOO".to_string(), "$BAR".to_string());
    env.push("BAR".to_string(), "z".to_string());
    // Substituted text is not expanded again.
    assert_eq!(expand_env_vars("$FOO", &env), "$BAR");
}

#[test]
fn expansion_first_entry_wins() {
    let mut env = EnvMap::new();
    env.push("FOO".to_string(), "a".to_string());
    env.push("FOO".to_string(), "b".to_string());
    assert_eq!(expand_env_vars("$FOO", &env), "a");
}

#[test]
fn expansion_leaves_malformed_tokens() {
    let env = EnvMap::new();
    assert_eq!(expand_env_vars("$ FOO", &env), "$ FOO");
    assert_eq!(expand_env_vars("${FOO", &env), "${FOO");
    assert_eq!(expand_env_vars("$", &env), "$");
}

#[test]
fn aggregation_round_trip() {
    let env = EnvMap::new();
    let mut d = record("/etc/paths.d");
    let files = vec![file("/etc/paths.d/a", b"/usr/bin\n# comment\n\n/opt/bin\n")];
    d.get_files(&files, &env);
    assert_eq!(d.paths, vec!["/usr/bin".to_string(), "/opt/bin".to_string()]);
    assert_eq!(d.path_string(), Some("/usr/bin:/opt/bin".to_string()));
}

#[test]
fn aggregation_sorts_files_as_strings() {
    let env = EnvMap::new();
    let mut d = record("/etc/paths.d");
    let files = vec![
        file("/etc/paths.d/2-b", b"Y"),
        file("/etc/paths.d/10-a", b"X"),
    ];
    d.get_files(&files, &env);
    // String sort, not numeric: "10-a" comes before "2-b".
    assert_eq!(d.paths, vec!["X".to_string(), "Y".to_string()]);
}

#[test]
fn aggregation_skips_non_utf8_and_non_files() {
    let env = EnvMap::new();
    let mut d = record("/etc/paths.d");
    let files = vec![
        file("/etc/paths.d/bin", &[0xFF, 0xFE, 0x00]),
        FileEntry { path: "/etc/paths.d/sub".to_string(), is_file: false, data: b"/nope".to_vec() },
        file("/etc/paths.d/ok", b"/usr/bin"),
    ];
    d.get_files(&files, &env);
    assert_eq!(d.paths, vec!["/usr/bin".to_string()]);
}

#[test]
fn aggregation_splits_crlf_lines() {
    let env = EnvMap::new();
    let mut d = record("/etc/paths.d");
    let files = vec![file("/etc/paths.d/a", b"/a\r\n/b\r\n")];
    d.get_files(&files, &env);
    assert_eq!(d.paths, vec!["/a".to_string(), "/b".to_string()]);
}

#[test]
fn add_path_keeps_untrimmed_expanded_line() {
    let mut env = EnvMap::new();
    env.push("FOO".to_string(), "bar".to_string());
    let mut d = record("/etc/paths.d");
    d.add_path(&"  $FOO/x  ".to_string(), &env);
    assert_eq!(d.paths, vec!["  bar/x  ".to_string()]);
}

#[test]
fn add_path_drops_comments_and_blanks() {
    let env = EnvMap::new();
    let mut d = record("/etc/paths.d");
    d.add_path(&"# comment".to_string(), &env);
    d.add_path(&"   # indented comment".to_string(), &env);
    d.add_path(&"".to_string(), &env);
    d.add_path(&"   ".to_string(), &env);
    assert!(d.paths.is_empty());
}

#[test]
fn add_path_rejects_forbidden_characters() {
    let env = EnvMap::new();
    let mut d = record("/etc/paths.d");
    d.add_path(&"/usr\0/bin".to_string(), &env);
    d.add_path(&"/usr/*".to_string(), &env);
    d.add_path(&"C:\\foo".to_string(), &env);
    d.add_path(&"/ok|no".to_string(), &env);
    assert!(d.paths.is_empty());
    d.add_path(&"/usr/bin".to_string(), &env);
    assert_eq!(d.paths, vec!["/usr/bin".to_string()]);
}

#[test]
fn join_does_not_escape_colons_in_values() {
    // A collected value may itself contain a colon (for instance via
    // expansion); joining blends it into its neighbours, by design.
    let mut env = EnvMap::new();
    env.push("DRIVE".to_string(), "C:\\foo".to_string());
    let mut d = record("/etc/paths.d");
    d.add_path(&"$DRIVE".to_string(), &env);
    d.add_path(&"/bin".to_string(), &env);
    assert_eq!(d.path_string(), Some("C:\\foo:/bin".to_string()));
}

#[test]
fn path_string_is_none_when_nothing_collected() {
    let d = record("/etc/paths.d");
    assert_eq!(d.path_string(), None);
    let mut one = record("/etc/paths.d");
    one.paths.push("/bin".to_string());
    assert_eq!(one.path_string(), Some("/bin".to_string()));
}

fn subdir(name: &str, exists: bool, is_dir: bool, is_empty: bool) -> SubdirEntry {
    SubdirEntry { name: name.to_string(), exists, is_dir, is_empty }
}

#[test]
fn discovery_keeps_only_valid_matching_directories() {
    let entries = vec![
        subdir("paths.d", true, true, false),
        subdir("manpaths.d", true, true, true),    // empty: dropped
        subdir("notes.txt", true, false, true),    // not a directory
        subdir("xpaths.d", true, true, false),
        subdir("unrelated", true, true, false),    // no match
    ];
    let dirs = get_paths_dirs_regex(ROOTD, PATHSD, &entries).unwrap();
    assert_eq!(dirs.len(), 2);
    assert_eq!(dirs[0].dir, "/etc/paths.d");
    assert_eq!(dirs[0].key, "PATH");
    assert!(dirs[0].paths.is_empty());
    assert_eq!(dirs[1].dir, "/etc/xpaths.d");
    assert_eq!(dirs[1].key, "x");
}

#[test]
fn discovery_joins_root_without_trailing_slash() {
    let entries = vec![subdir("paths.d", true, true, false)];
    let dirs = get_paths_dirs_regex("/etc", PATHSD, &entries).unwrap();
    assert_eq!(dirs.len(), 1);
    assert_eq!(dirs[0].dir, "/etc/paths.d");
}

#[test]
fn discovery_rejects_bad_pattern() {
    let entries: Vec<SubdirEntry> = Vec::new();
    let r = get_paths_dirs_regex(ROOTD, "(", &entries);
    assert!(matches!(r, Err(PathError::RegexCompile(_))));
}

#[test]
fn is_valid_follows_the_three_checks() {
    let d = record("/etc/paths.d");
    assert!(d.is_valid(&subdir("paths.d", true, true, false)));
    assert!(!d.is_valid(&subdir("paths.d", false, true, false)));
    assert!(!d.is_valid(&subdir("paths.d", true, false, false)));
    assert!(!d.is_valid(&subdir("paths.d", true, true, true)));
}

#[test]
fn new_derives_key_once_at_construction() {
    let p = default_pattern();
    let d = Pathd::new("/etc/ldpaths.d".to_string(), ROOTD, &p).unwrap();
    assert_eq!(d.dir, "/etc/ldpaths.d");
    assert_eq!(d.key, "ld");
    assert!(d.paths.is_empty());
    assert!(Pathd::new("/etc/other".to_string(), ROOTD, &p).is_none());
}

#[test]
fn aggregation_appends_and_is_not_idempotent() {
    let env = EnvMap::new();
    let mut d = record("/etc/paths.d");
    let files = vec![file("/etc/paths.d/a", b"/usr/bin")];
    d.get_files(&files, &env);
    d.get_files(&files, &env);
    // Values only grow; a second pass appends the same lines again.
    assert_eq!(d.paths, vec!["/usr/bin".to_string(), "/usr/bin".to_string()]);
}
