use transcriber_kun::paths::VersionOutput;
use transcriber_kun::setup::{
    complete_setup_status, find_ffmpeg_available, find_tool_available, install_deps, join_strings,
    pip_stderr_message, setup_check_json_line, setup_status_without_python, InstallAction, InstallEvent,
    SetupStatus, ToolProbe, ToolSearch,
};

fn v(x: &[&str]) -> Vec<String> {
    x.iter().map(|s| s.to_string()).collect()
}

/// Runs a tool search against a set of existing paths and a set of programs that run.
fn run_tool(mut search: ToolSearch, present: &[&str], runs: &[&str], log: &mut Vec<String>) -> Option<String> {
    for _ in 0..1000 {
        match search.next_probe() {
            ToolProbe::Done(found) => return found,
            ToolProbe::Exists(p) => {
                log.push(format!("exists {p}"));
                search.answer(present.contains(&p.as_str()));
            }
            ToolProbe::Run(p) => {
                log.push(format!("run {p}"));
                search.answer(runs.contains(&p.as_str()));
            }
        }
    }
    panic!("tool search did not end");
}

#[test]
fn tool_found_in_first_directory_that_has_it_and_runs() {
    let dirs = v(&["/opt/homebrew/bin", "/usr/local/bin"]);
    let mut log = Vec::new();
    let found = run_tool(
        find_tool_available("ffmpeg", &dirs),
        &["/usr/local/bin/ffmpeg"],
        &["/usr/local/bin/ffmpeg"],
        &mut log,
    );
    assert_eq!(found, Some("/usr/local/bin/ffmpeg".to_string()));
    assert_eq!(log, vec!["exists /opt/homebrew/bin/ffmpeg", "exists /usr/local/bin/ffmpeg", "run /usr/local/bin/ffmpeg"]);
}

#[test]
fn tool_falls_back_to_bare_name() {
    let dirs = v(&["/opt/homebrew/bin"]);
    let mut log = Vec::new();
    let found = run_tool(find_tool_available("ffprobe", &dirs), &["/opt/homebrew/bin/ffprobe"], &["ffprobe"], &mut log);
    assert_eq!(found, Some("ffprobe".to_string()));
    assert_eq!(log, vec!["exists /opt/homebrew/bin/ffprobe", "run /opt/homebrew/bin/ffprobe", "run ffprobe"]);
    let mut log2 = Vec::new();
    assert_eq!(run_tool(find_tool_available("ffprobe", &dirs), &[], &[], &mut log2), None);
}

#[test]
fn ffmpeg_needs_ffprobe() {
    assert_eq!(find_ffmpeg_available(Some("/b/ffmpeg".to_string()), Some("/b/ffprobe".to_string())), Some("/b/ffmpeg".to_string()));
    assert_eq!(find_ffmpeg_available(Some("/b/ffmpeg".to_string()), None), None);
    assert_eq!(find_ffmpeg_available(None, Some("/b/ffprobe".to_string())), None);
}

#[test]
fn setup_reports() {
    let none = setup_status_without_python(Some("/b/ffmpeg".to_string()));
    assert!(!none.python_ok && none.python_version.is_none() && none.python_path.is_none());
    assert!(none.ffmpeg_ok);
    assert_eq!(none.ffmpeg_path.as_deref(), Some("/b/ffmpeg"));
    assert!(none.missing_packages.is_empty());
    assert!(!setup_status_without_python(None).ffmpeg_ok);

    let reported = SetupStatus {
        python_ok: true,
        python_version: Some("3.12.1".to_string()),
        python_path: None,
        ffmpeg_ok: true,
        ffmpeg_path: Some("/from/script".to_string()),
        missing_packages: v(&["faster-whisper"]),
    };
    let done = complete_setup_status(reported, "/usr/bin/python3".to_string(), None);
    assert!(done.python_ok);
    assert_eq!(done.python_version.as_deref(), Some("3.12.1"));
    assert_eq!(done.python_path.as_deref(), Some("/usr/bin/python3"));
    assert!(!done.ffmpeg_ok);
    assert_eq!(done.ffmpeg_path, None);
    assert_eq!(done.missing_packages, vec!["faster-whisper"]);
}

#[test]
fn setup_check_output_line() {
    assert_eq!(
        setup_check_json_line("warning: x\n  {\"python_ok\": true}\n{\"b\":1}\n", ""),
        Ok("  {\"python_ok\": true}".to_string())
    );
    assert_eq!(
        setup_check_json_line("no json here", "boom"),
        Err("No JSON in setup_check output.\nstdout: no json here\nstderr: boom".to_string())
    );
}

#[test]
fn joining_and_stderr_lines() {
    assert_eq!(join_strings(&v(&["a", "b", "c"]), ", "), "a, b, c");
    assert_eq!(join_strings(&v(&["only"]), ", "), "only");
    assert_eq!(join_strings(&v(&[]), ", "), "");
    assert_eq!(pip_stderr_message("  "), None);
    assert_eq!(pip_stderr_message("ERROR: x"), Some("⚠️ ERROR: x".to_string()));
}

fn version(text: &str) -> InstallEvent {
    InstallEvent::Version(Some(VersionOutput { stdout: text.to_string(), stderr: String::new() }))
}

fn expect_done(a: InstallAction) -> Result<(), String> {
    match a {
        InstallAction::Done(r) => r,
        _ => panic!("expected the installation to be over"),
    }
}

#[test]
fn nothing_to_install() {
    let inst = install_deps(Vec::new(), "/data");
    assert_eq!(expect_done(inst.next_action()), Ok(()));
}

#[test]
fn install_creates_venv_then_installs() {
    let mut inst = install_deps(v(&["numpy", "faster-whisper"]), "/data");
    match inst.next_action() {
        InstallAction::CheckExists(d) => assert_eq!(d, "/data/venv"),
        _ => panic!(),
    }
    assert!(inst.answer(InstallEvent::Exists(false)).is_empty());
    assert!(matches!(inst.next_action(), InstallAction::CheckExists(_)));
    assert_eq!(inst.answer(InstallEvent::Exists(false)), vec!["⚙️ Creating isolated Python environment..."]);
    assert!(matches!(inst.next_action(), InstallAction::FindSupportedPython));
    inst.answer(InstallEvent::Found(Some("/usr/bin/python3.12".to_string())));
    match inst.next_action() {
        InstallAction::Run(p, args) => {
            assert_eq!(p, "/usr/bin/python3.12");
            assert_eq!(args, vec!["-m", "venv", "/data/venv"]);
        }
        _ => panic!(),
    }
    assert_eq!(inst.answer(InstallEvent::Ran(Ok(true))), vec!["✅ Virtual environment created."]);
    match inst.next_action() {
        InstallAction::CheckVersion(p) => assert_eq!(p, "/data/venv/bin/python3"),
        _ => panic!(),
    }
    assert_eq!(
        inst.answer(version("Python 3.12.4")),
        vec!["📦 Installing: numpy, faster-whisper", "⚙️ Upgrading pip..."]
    );
    match inst.next_action() {
        InstallAction::Run(p, args) => {
            assert_eq!(p, "/data/venv/bin/python3");
            assert_eq!(args, vec!["-m", "pip", "install", "--upgrade", "pip"]);
        }
        _ => panic!(),
    }
    inst.answer(InstallEvent::Ran(Err("no pip".to_string())));
    match inst.next_action() {
        InstallAction::RunStreaming(p, args) => {
            assert_eq!(p, "/data/venv/bin/python3");
            assert_eq!(args, vec!["-m", "pip", "install", "numpy", "faster-whisper"]);
        }
        _ => panic!(),
    }
    assert_eq!(inst.answer(InstallEvent::Exited(true, Vec::new())), vec!["✅ All packages installed successfully!"]);
    assert_eq!(expect_done(inst.next_action()), Ok(()));
}

#[test]
fn install_recreates_outdated_venv() {
    let mut inst = install_deps(v(&["x"]), "/d");
    inst.answer(InstallEvent::Exists(true));
    assert!(matches!(inst.next_action(), InstallAction::CheckVersion(_)));
    assert_eq!(inst.answer(version("Python 3.9.6")), vec!["♻️ Recreating outdated Python environment..."]);
    match inst.next_action() {
        InstallAction::RemoveDir(d) => assert_eq!(d, "/d/venv"),
        _ => panic!(),
    }
    inst.answer(InstallEvent::Removed(Err("busy".to_string())));
    assert_eq!(
        expect_done(inst.next_action()),
        Err("Failed to remove outdated Python virtual environment: busy".to_string())
    );
}

#[test]
fn install_errors() {
    let mut a = install_deps(v(&["x"]), "/d");
    a.answer(InstallEvent::Exists(false));
    a.answer(InstallEvent::Exists(false));
    a.answer(InstallEvent::Found(None));
    assert!(expect_done(a.next_action()).unwrap_err().starts_with("Python 3.10+ is required"));

    let mut b = install_deps(v(&["x"]), "/d");
    b.answer(InstallEvent::Exists(false));
    b.answer(InstallEvent::Exists(false));
    b.answer(InstallEvent::Found(Some("py".to_string())));
    b.answer(InstallEvent::Ran(Ok(false)));
    assert_eq!(expect_done(b.next_action()), Err("Failed to create Python virtual environment.".to_string()));

    let mut c = install_deps(v(&["x"]), "/d");
    c.answer(InstallEvent::Exists(false));
    c.answer(InstallEvent::Exists(false));
    c.answer(InstallEvent::Found(Some("py".to_string())));
    c.answer(InstallEvent::Ran(Err("no such file".to_string())));
    assert_eq!(expect_done(c.next_action()), Err("Failed to create venv: no such file".to_string()));

    let mut d = install_deps(v(&["x"]), "/d");
    d.answer(InstallEvent::Exists(true));
    d.answer(version("Python 3.11.2"));
    assert!(matches!(d.next_action(), InstallAction::CheckExists(_)));
    d.answer(InstallEvent::Exists(true));
    d.answer(InstallEvent::Version(None));
    assert_eq!(expect_done(d.next_action()), Err("Python virtual environment is not Python 3.10+.".to_string()));

    let mut e = install_deps(v(&["x"]), "/d");
    e.answer(InstallEvent::Exists(true));
    e.answer(version("Python 3.11.2"));
    e.answer(InstallEvent::Exists(true));
    e.answer(version("Python 3.11.2"));
    e.answer(InstallEvent::Ran(Ok(true)));
    e.answer(InstallEvent::StartFailed("denied".to_string()));
    assert_eq!(expect_done(e.next_action()), Err("pip install failed to start: denied".to_string()));

    let mut f = install_deps(v(&["x"]), "/d");
    f.answer(InstallEvent::Exists(true));
    f.answer(version("Python 3.11.2"));
    f.answer(InstallEvent::Exists(true));
    f.answer(version("Python 3.11.2"));
    f.answer(InstallEvent::Ran(Ok(true)));
    f.answer(InstallEvent::Exited(false, v(&["E1", "E2"])));
    assert_eq!(expect_done(f.next_action()), Err("pip install failed:\nE1\nE2".to_string()));

    let mut g = install_deps(v(&["x"]), "/d");
    g.answer(InstallEvent::Exists(true));
    g.answer(version("Python 3.11.2"));
    g.answer(InstallEvent::Exists(true));
    g.answer(version("Python 3.11.2"));
    g.answer(InstallEvent::Ran(Ok(true)));
    g.answer(InstallEvent::WaitFailed("lost".to_string()));
    assert_eq!(expect_done(g.next_action()), Err("lost".to_string()));
}

#[test]
fn unexpected_answers_change_nothing() {
    let mut inst = install_deps(v(&["x"]), "/d");
    assert!(inst.answer(InstallEvent::Found(None)).is_empty());
    assert!(matches!(inst.next_action(), InstallAction::CheckExists(_)));
}
