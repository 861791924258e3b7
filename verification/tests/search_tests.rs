use std::collections::HashMap;
use transcriber_kun::paths::VersionOutput;
use transcriber_kun::search::{
    find_python, find_python_from_candidates, find_supported_python_from_candidates, Probe, ProbeAnswer,
    PythonSearch,
};

/// A pretend file system: which paths exist, and what each prints for `--version`.
struct World {
    files: HashMap<String, Option<String>>,
    probes: Vec<String>,
}

impl World {
    fn new() -> Self {
        World { files: HashMap::new(), probes: Vec::new() }
    }
    fn python(mut self, path: &str, version: &str) -> Self {
        self.files.insert(path.to_string(), Some(format!("Python {version}\n")));
        self
    }
    fn empty_file(mut self, path: &str) -> Self {
        self.files.insert(path.to_string(), None);
        self
    }
    fn run(&mut self, mut search: PythonSearch) -> Option<String> {
        for _ in 0..1000 {
            match search.next_probe() {
                Probe::Done(found) => return found,
                Probe::Exists(p) => {
                    self.probes.push(format!("exists {p}"));
                    let e = self.files.contains_key(&p);
                    search.answer(ProbeAnswer::Exists(e));
                }
                Probe::Version(p) => {
                    self.probes.push(format!("version {p}"));
                    let out = match self.files.get(&p) {
                        Some(Some(text)) => Some(VersionOutput { stdout: text.clone(), stderr: String::new() }),
                        _ => None,
                    };
                    search.answer(ProbeAnswer::Version(out));
                }
            }
        }
        panic!("search did not end");
    }
}

#[test]
fn find_python_from_candidates_returns_none_when_no_candidate_exists() {
    let mut w = World::new();
    let found = w.run(find_python_from_candidates("/tmp/missing", vec!["/tmp/missing/missing-python3".to_string()]));
    assert!(found.is_none());
}

#[test]
fn find_python_from_candidates_prefers_app_managed_venv() {
    let mut w = World::new().empty_file("/data/venv/bin/python3").empty_file("/data/fallback-python3");
    let found = w.run(find_python_from_candidates("/data", vec!["/data/fallback-python3".to_string()]));
    assert_eq!(found, Some("/data/venv/bin/python3".to_string()));
}

#[test]
fn find_python_from_candidates_ignores_stale_venv_when_supported_python_exists() {
    let mut w = World::new().python("/data/venv/bin/python3", "3.9.6").python("/data/python3.11", "3.11.9");
    let found = w.run(find_python_from_candidates("/data", vec!["/data/python3.11".to_string()]));
    assert_eq!(found, Some("/data/python3.11".to_string()));
}

#[test]
fn supported_venv_wins_and_nothing_else_is_probed() {
    let mut w = World::new().python("/d/venv/bin/python3", "3.12.1").python("/c", "3.13.0");
    let found = w.run(find_python_from_candidates("/d", vec!["/c".to_string()]));
    assert_eq!(found, Some("/d/venv/bin/python3".to_string()));
    assert_eq!(w.probes, vec!["exists /d/venv/bin/python3", "version /d/venv/bin/python3"]);
}

#[test]
fn version_is_asked_only_of_existing_paths() {
    let mut w = World::new().python("/b", "3.8.0");
    let found = w.run(find_python_from_candidates("/d", vec!["/a".to_string(), "/b".to_string()]));
    assert_eq!(found, Some("/b".to_string()));
    assert_eq!(
        w.probes,
        vec![
            "exists /d/venv/bin/python3",
            "exists /a",
            "exists /b",
            "version /b",
            "exists /d/venv/bin/python3",
            "exists /a",
            "exists /b",
        ]
    );
}

#[test]
fn supported_only_search_gives_up_without_fallback() {
    let mut w = World::new().python("/d/venv/bin/python3", "3.9.0").python("/old", "2.7.18");
    let found = w.run(find_supported_python_from_candidates("/d", vec!["/old".to_string()]));
    assert_eq!(found, None);
}

#[test]
fn default_locations_are_searched() {
    let mut w = World::new().python("/usr/local/bin/python3.11", "3.11.2");
    let dirs = vec!["/usr/bin".to_string()];
    let found = w.run(find_python("/d", Some("/h".to_string()), &dirs));
    assert_eq!(found, Some("/usr/local/bin/python3.11".to_string()));
}
