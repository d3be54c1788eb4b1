use depot_tools::gclient_eval::{is_local_config, parse_local_config};
use depot_tools::gclient_path::{
    accept_gclient_root, entry_directories, entry_key_path, is_within_entries, nearest_marked, path_starts_with,
    strip_path_prefix,
};
use depot_tools::gclient_utils::is_env_cog;
use depot_tools::string_map::StringMap;
use depot_tools::text::{find, join, split, str_equal, trim_start_matches};

fn p(parts: &[&str]) -> Vec<String> {
    parts.iter().map(|x| x.to_string()).collect()
}

#[test]
fn split_and_join() {
    assert_eq!(split("a,b,,c", ','), p(&["a", "b", "", "c"]));
    assert_eq!(split("", ','), p(&[""]));
    assert_eq!(split(",", ','), p(&["", ""]));
    assert_eq!(join(&split("a,b,,c", ','), ","), "a,b,,c");
    assert_eq!(join(&p(&["x", "y"]), ", "), "x, y");
}

#[test]
fn trim_find_equal() {
    assert_eq!(trim_start_matches("--x-y", '-'), "x-y");
    assert_eq!(trim_start_matches("---", '-'), "");
    assert_eq!(find("ab=c=d", '='), Some(2));
    assert_eq!(find("abc", '='), None);
    assert!(str_equal("héllo", "héllo"));
    assert!(!str_equal("hello", "hell"));
}

#[test]
fn string_map_insert_get_entries() {
    let mut m = StringMap::new();
    m.insert("b".to_string(), "1".to_string());
    m.insert("a".to_string(), "2".to_string());
    m.insert("b".to_string(), "3".to_string());
    assert_eq!(m.len(), 2);
    assert_eq!(m.get("b"), Some(&"3".to_string()));
    assert!(m.contains_key("a"));
    assert!(!m.contains_key("c"));
    assert_eq!(m.entry(0), (&"b".to_string(), &"3".to_string()));
    assert_eq!(m.entry(1), (&"a".to_string(), &"2".to_string()));
    let mut other = StringMap::new();
    other.insert("a".to_string(), "9".to_string());
    other.insert("z".to_string(), "0".to_string());
    m.extend(&other);
    assert_eq!(m.len(), 3);
    assert_eq!(m.get("a"), Some(&"9".to_string()));
    assert_eq!(m.get("z"), Some(&"0".to_string()));
}

#[test]
fn cog_workspace_detection() {
    assert!(is_env_cog(&p(&["/", "google", "cog", "cloud", "me", "ws"])));
    assert!(is_env_cog(&p(&["/", "google", "cog", "cloud"])));
    assert!(!is_env_cog(&p(&["/", "google", "cog"])));
    assert!(!is_env_cog(&p(&["/", "google", "cog", "cloudy"])));
    assert!(!is_env_cog(&p(&["/", "home", "me"])));
}

#[test]
fn path_prefixes() {
    assert!(path_starts_with(&p(&["/", "a", "b"]), &p(&["/", "a"])));
    assert!(!path_starts_with(&p(&["/", "a"]), &p(&["/", "a", "b"])));
    assert_eq!(strip_path_prefix(&p(&["/", "a", "b", "c"]), &p(&["/", "a"])), Some(p(&["b", "c"])));
    assert_eq!(strip_path_prefix(&p(&["/", "a"]), &p(&["/", "a"])), Some(p(&[])));
    assert_eq!(strip_path_prefix(&p(&["/", "x"]), &p(&["/", "a"])), None);
}

#[test]
fn entries_relative_to_root() {
    let entries = vec![p(&["/", "r", "src"]), p(&["/", "elsewhere"]), p(&["/", "r", "src", "v8"])];
    assert_eq!(entry_directories(&entries, &p(&["/", "r"])), vec![p(&["src"]), p(&["src", "v8"])]);
}

#[test]
fn within_entries() {
    let dirs = vec![p(&["src"]), p(&["src", "third_party", "x"])];
    assert!(is_within_entries(&p(&["src"]), &dirs));
    assert!(is_within_entries(&p(&["src", "base", "deep"]), &dirs));
    assert!(!is_within_entries(&p(&["other", "src"]), &dirs));
    assert!(!is_within_entries(&p(&[]), &dirs));
}

#[test]
fn local_config_entries_file() {
    let text = "entries = {\n  'src': 'https://chromium.googlesource.com/chromium/src.git',\n  \"src/v8\": None,\n}\n";
    assert!(is_local_config(text));
    let c = parse_local_config(text, ".gclient_entries");
    assert_eq!(c.entries.len(), 2);
    assert_eq!(c.entries.get("src"), Some(&"https://chromium.googlesource.com/chromium/src.git".to_string()));
    assert_eq!(c.entries.get("src/v8"), Some(&"None".to_string()));
}

#[test]
fn local_config_gclient_file() {
    let text = "# comment\nsolutions = [\n  { 'name': 'src', 'url': 'u', 'custom_deps': {}, 'managed': False, },\n]\ntarget_os = ['android']\n";
    assert!(is_local_config(text));
    assert_eq!(parse_local_config(text, ".gclient").entries.len(), 0);
}

#[test]
fn local_config_later_entries_and_keys_win() {
    let text = "entries = {'a': '1'}\nentries = {'b': '2', 'b': '3', 'c': 'x\\'y'}";
    let c = parse_local_config(text, "f");
    assert_eq!(c.entries.len(), 2);
    assert_eq!(c.entries.get("a"), None);
    assert_eq!(c.entries.get("b"), Some(&"3".to_string()));
    assert_eq!(c.entries.get("c"), Some(&"x'y".to_string()));
}

#[test]
fn local_config_empty_and_invalid() {
    assert!(is_local_config(""));
    assert!(is_local_config("  # nothing\n"));
    assert!(!is_local_config("entries = {'a': }"));
    assert!(!is_local_config("entries = 'unterminated"));
    assert!(!is_local_config("= 1"));
    assert!(!is_local_config("x = [1, 2"));
    assert!(!is_local_config("x 1"));
}

#[test]
fn nearest_marked_directory() {
    assert_eq!(nearest_marked(&vec![false, true, true]), Some(1));
    assert_eq!(nearest_marked(&vec![true]), Some(0));
    assert_eq!(nearest_marked(&vec![false, false]), None);
    assert_eq!(nearest_marked(&vec![]), None);
}

#[test]
fn entry_key_paths() {
    assert_eq!(entry_key_path(&p(&["/", "r"]), "src/v8"), p(&["/", "r", "src", "v8"]));
    assert_eq!(entry_key_path(&p(&["/", "r"]), "src//./x/"), p(&["/", "r", "src", "x"]));
    assert_eq!(entry_key_path(&p(&["/", "r"]), "../up"), p(&["/", "r", "..", "up"]));
}

#[test]
fn accepting_gclient_roots() {
    let root = p(&["/", "r"]);
    let entries = vec![p(&["/", "r", "src"])];
    assert!(accept_gclient_root(&p(&["/", "r"]), &root, true, &entries));
    assert!(accept_gclient_root(&p(&["/", "r", "other"]), &root, false, &entries));
    assert!(accept_gclient_root(&p(&["/", "r", "src", "base"]), &root, true, &entries));
    assert!(!accept_gclient_root(&p(&["/", "r", "other"]), &root, true, &entries));
    assert!(!accept_gclient_root(&p(&["/", "x"]), &root, true, &entries));
    assert!(!accept_gclient_root(&p(&["/", "r", "src"]), &root, true, &vec![]));
}

#[test]
fn local_config_basic_operations() {
    let text = "entries = {'src': 'https://host/' + 'repo.git', 'n': 1 + 2, 'm': 'a' * 3}\nx = 'a' + 'b'\ny = [1 - 2, (3 % 2)]\n";
    assert!(is_local_config(text));
    let c = parse_local_config(text, ".gclient_entries");
    assert_eq!(c.entries.get("src"), Some(&"https://host/repo.git".to_string()));
    assert_eq!(c.entries.get("n"), Some(&"1 + 2".to_string()));
    assert_eq!(c.entries.get("m"), Some(&"'a' * 3".to_string()));
    assert!(!is_local_config("x = 'a' +"));
}
