use win_terminal_commands::paths::{join_path, path_exts};
use win_terminal_commands::which::{
    candidate_paths, command_candidates, is_runnable_file, normalize_for_dedupe, parse_args,
    select_matches,
};

fn strings(list: &[&str]) -> Vec<String> {
    list.iter().map(|s| s.to_string()).collect()
}

#[test]
fn finds_first_matching_path_with_pathext() {
    let candidates = command_candidates("tool", &strings(&["root/bin"]), &strings(&[".EXE"]), '/');
    assert_eq!(candidates, strings(&["root/bin/tool", "root/bin/tool.EXE"]));
    let runnable = vec![false, true];
    let keys: Vec<String> = candidates.iter().map(|c| normalize_for_dedupe(c, true)).collect();
    let picked = select_matches(&keys, &runnable, false);
    assert_eq!(picked, vec![1]);
}

#[test]
fn all_returns_every_matching_path() {
    let candidates =
        command_candidates("tool", &strings(&["one", "two"]), &strings(&[".cmd"]), '/');
    assert_eq!(candidates, strings(&["one/tool", "one/tool.cmd", "two/tool", "two/tool.cmd"]));
    let runnable = vec![false, true, false, true];
    let keys: Vec<String> = candidates.iter().map(|c| normalize_for_dedupe(c, false)).collect();
    assert_eq!(select_matches(&keys, &runnable, true), vec![1, 3]);
}

#[test]
fn explicit_path_is_checked_without_path_search() {
    let candidates = command_candidates("root/tool", &strings(&["unused"]), &strings(&[".exe"]), '/');
    assert_eq!(candidates, strings(&["root/tool", "root/tool.exe"]));
}

// ---- additional cases -------------------------------------------------

#[test]
fn duplicates_by_key_are_reported_once() {
    let keys = strings(&["c:\\bin\\tool.exe", "c:\\bin\\tool.exe", "d:\\tool.exe"]);
    assert_eq!(select_matches(&keys, &vec![true, true, true], true), vec![0, 2]);
    assert_eq!(select_matches(&keys, &vec![false, true, true], true), vec![1, 2]);
    assert_eq!(select_matches(&keys, &vec![false, false, false], true), Vec::<usize>::new());
    assert_eq!(normalize_for_dedupe("C:\\Bin\\TOOL.exe", true), "c:\\bin\\tool.exe");
    assert_eq!(normalize_for_dedupe("C:\\Bin", false), "C:\\Bin");
}

#[test]
fn extension_suppresses_pathext_candidates() {
    assert_eq!(candidate_paths("tool.exe", &strings(&[".EXE"])), strings(&["tool.exe"]));
    assert_eq!(candidate_paths(".hidden", &strings(&[".EXE"])), strings(&[".hidden", ".hidden.EXE"]));
    assert_eq!(candidate_paths("dir.d/tool", &strings(&[".EXE"])), strings(&["dir.d/tool", "dir.d/tool.EXE"]));
}

#[test]
fn pathext_entries_are_normalized() {
    assert_eq!(path_exts(&strings(&[".COM", " EXE ", "", "  "])), strings(&[".COM", ".EXE"]));
    assert_eq!(join_path("bin", "tool", '\\'), "bin\\tool");
    assert_eq!(join_path("bin/", "tool", '\\'), "bin/tool");
    assert_eq!(join_path("", "tool", '/'), "tool");
}

#[test]
fn which_options() {
    let o = parse_args(&strings(&["-a", "--silent", "git", "--", "-x"])).unwrap();
    assert!(o.all && o.silent);
    assert_eq!(o.commands, strings(&["git", "-x"]));
    assert_eq!(parse_args(&strings(&["-x"])).err().unwrap(), "unknown option: -x");
    assert_eq!(parse_args(&strings(&["--help"])).err().unwrap(), "help requested");
}

#[test]
fn runnable_needs_execute_bit_where_there_are_modes() {
    assert!(is_runnable_file(true, None));
    assert!(!is_runnable_file(false, None));
    assert!(is_runnable_file(true, Some(0o755)));
    assert!(!is_runnable_file(true, Some(0o644)));
}

#[test]
fn bare_drive_joins_without_separator() {
    assert_eq!(join_path("C:", "tool.exe", '\\'), "C:tool.exe");
    assert_eq!(join_path("C:\\", "tool.exe", '\\'), "C:\\tool.exe");
    assert_eq!(join_path("C:bin", "tool.exe", '\\'), "C:bin\\tool.exe");
    assert_eq!(join_path("C:", "tool", '/'), "C:/tool");
}
