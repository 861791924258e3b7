use transcriber_kun::paths::{
    components, default_python_candidates, is_supported_python, path_join, paths_equal, push_unique,
    python_version, resolve_script, script_path, tool_candidates, tool_path_env, tool_search_dirs,
    venv_python_path, VersionOutput,
};

fn out(stdout: &str, stderr: &str) -> Option<VersionOutput> {
    Some(VersionOutput { stdout: stdout.to_string(), stderr: stderr.to_string() })
}

#[test]
fn join_like_path_join() {
    assert_eq!(path_join("/usr/bin", "python3"), "/usr/bin/python3");
    assert_eq!(path_join("/usr/bin/", "python3"), "/usr/bin/python3");
    assert_eq!(path_join("", "python3"), "python3");
    assert_eq!(path_join("/home/u", "/abs"), "/abs");
    assert_eq!(venv_python_path("/data/venv"), "/data/venv/bin/python3");
}

#[test]
fn paths_compare_by_components() {
    assert!(paths_equal("/usr/bin", "/usr/bin/"));
    assert!(paths_equal("/usr//bin", "/usr/bin"));
    assert!(paths_equal("a/./b", "a/b"));
    assert!(!paths_equal("./a", "a"));
    assert!(!paths_equal("/a", "a"));
    assert_eq!(components("/usr/./bin/"), vec!["/", "usr", "bin"]);
    assert_eq!(components("./x"), vec![".", "x"]);
}

#[test]
fn push_unique_skips_empty_and_repeats() {
    let mut v: Vec<String> = Vec::new();
    push_unique(&mut v, "/usr/bin".to_string());
    push_unique(&mut v, "".to_string());
    push_unique(&mut v, "/usr/bin/".to_string());
    push_unique(&mut v, "/bin".to_string());
    assert_eq!(v, vec!["/usr/bin", "/bin"]);
}

#[test]
fn search_dirs_in_order() {
    let dirs = tool_search_dirs(Some("/home/u".to_string()), Some("/usr/bin:/custom::/home/u/.local/bin".to_string()));
    assert_eq!(dirs[0], "/opt/homebrew/bin");
    assert_eq!(dirs[9], "/sbin");
    assert_eq!(dirs[10], "/home/u/.pyenv/shims");
    assert_eq!(dirs[14], "/home/u/.local/bin");
    assert_eq!(dirs[15], "/opt/homebrew/opt/python@3.14/bin");
    assert_eq!(dirs[16], "/usr/local/opt/python@3.14/bin");
    assert_eq!(dirs[23], "/opt/homebrew/opt/python@3.10/bin");
    assert_eq!(dirs[24], "/usr/local/opt/python@3.10/bin");
    assert_eq!(dirs[25], "/custom");
    assert_eq!(dirs.len(), 26);
    let none = tool_search_dirs(None, None);
    assert_eq!(none.len(), 20);
}

#[test]
fn path_env_joins_or_falls_back() {
    let dirs = vec!["/a".to_string(), "/b".to_string()];
    assert_eq!(tool_path_env(&dirs, None), "/a:/b");
    let bad = vec!["/a".to_string(), "/b:c".to_string()];
    assert_eq!(tool_path_env(&bad, Some("/x".to_string())), "/x");
    assert_eq!(tool_path_env(&bad, None), "");
}

#[test]
fn candidates_for_a_tool() {
    let dirs = vec!["/usr/bin".to_string(), "/bin".to_string()];
    assert_eq!(tool_candidates("ffmpeg", &dirs), vec!["/usr/bin/ffmpeg", "/bin/ffmpeg", "ffmpeg"]);
}

#[test]
fn python_candidates_order() {
    let dirs = vec!["/usr/bin".to_string()];
    let c = default_python_candidates(Some("/h".to_string()), &dirs);
    assert_eq!(c[0], "/opt/homebrew/bin/python3.14");
    assert_eq!(c[1], "/usr/local/bin/python3.14");
    assert_eq!(c[2], "/opt/homebrew/opt/python@3.14/bin/python3.14");
    assert_eq!(c[7], "/Library/Frameworks/Python.framework/Versions/3.14/bin/python3");
    assert_eq!(c[40], "/h/.pyenv/shims/python3");
    assert_eq!(c[43], "/usr/bin/python3");
    assert_eq!(c[44], "/usr/bin/python");
    assert_eq!(c.len(), 45);
}

#[test]
fn version_parsing() {
    assert_eq!(python_version(&out("Python 3.12.4\n", "")), Some((3, 12)));
    assert_eq!(python_version(&out("", "Python 3.9.6")), Some((3, 9)));
    assert_eq!(python_version(&out("Python 3\n", "")), None);
    assert_eq!(python_version(&out("python 3.11.1", "")), None);
    assert_eq!(python_version(&out("Python 3.x.1", "")), None);
    assert_eq!(python_version(&None), None);
    assert!(is_supported_python(&out("Python 3.10.0", "")));
    assert!(is_supported_python(&out("Python 4.0", "")));
    assert!(!is_supported_python(&out("Python 3.9.18", "")));
    assert!(!is_supported_python(&out("", "")));
}

#[test]
fn script_location() {
    assert_eq!(script_path("/res", "transcriber.py"), "/res/python/transcriber.py");
    assert_eq!(resolve_script("/res", "/src", "memo_generator.py", true), "/src/python/memo_generator.py");
    assert_eq!(resolve_script("/res", "/src", "memo_generator.py", false), "/res/python/memo_generator.py");
}
