//! Checking the environment and installing Python packages: finding a tool that runs,
//! reading the setup check's report, and the steps of installing packages into the
//! app-managed virtual environment.
use vstd::prelude::*;
use crate::paths::{
    join_path, path_join, python_version_spec, tool_candidates, tool_candidates_spec, version_supported,
    is_supported_python, VersionOutput,
};
use crate::text::{concat, trim, trim_str, views};
use crate::output::{first_json_line, first_json_line_spec, no_json, no_json_message, opt_seq};

verus! {

// ---------------------------------------------------------------------------
// Finding a tool
// ---------------------------------------------------------------------------

/// Where a tool search stands.
#[derive(Clone, Copy, PartialEq, Eq, Debug)]
pub enum ToolStage {
    /// Does candidate `i` (an absolute path) exist?
    CheckExists(usize),
    /// Does running candidate `i` with `-version` succeed?
    Run(usize),
    /// The search is over.
    Finished,
}

/// What a tool search needs to know next.
pub enum ToolProbe {
    /// Whether this path exists.
    Exists(String),
    /// Whether running this program with `-version` (output discarded) succeeds.
    Run(String),
    /// The search is over, with the tool found, if any.
    Done(Option<String>),
}

/// A search for a tool that runs, among its candidate locations in order.
pub struct ToolSearch {
    candidates: Vec<String>,
    stage: ToolStage,
    found: Option<String>,
}

/// A tool search as values.
pub struct ToolState {
    pub cands: Seq<Seq<char>>,
    pub stage: ToolStage,
    pub found: Option<Seq<char>>,
}

impl View for ToolSearch {
    type V = ToolState;

    closed spec fn view(&self) -> ToolState {
        ToolState { cands: views(self.candidates@), stage: self.stage, found: opt_seq(self.found) }
    }
}

/// An absolute path (one that starts at the root).
pub open spec fn is_absolute(p: Seq<char>) -> bool {
    p.len() > 0 && p[0] == '/'
}

/// Try candidate `i`: an absolute path is first checked to exist; other names are run
/// directly. Past the last candidate the search ends with nothing found.
pub open spec fn tool_from(s: ToolState, i: int) -> ToolState {
    if 0 <= i < s.cands.len() {
        if is_absolute(s.cands[i]) {
            ToolState { stage: ToolStage::CheckExists(i as usize), ..s }
        } else {
            ToolState { stage: ToolStage::Run(i as usize), ..s }
        }
    } else {
        ToolState { stage: ToolStage::Finished, found: None, ..s }
    }
}

/// The next state once `yes` answers the current probe.
pub open spec fn tool_step(s: ToolState, yes: bool) -> ToolState {
    match s.stage {
        ToolStage::CheckExists(i) => if yes {
            ToolState { stage: ToolStage::Run(i), ..s }
        } else {
            tool_from(s, i + 1)
        },
        ToolStage::Run(i) => if yes {
            ToolState { stage: ToolStage::Finished, found: Some(s.cands[i as int]), ..s }
        } else {
            tool_from(s, i + 1)
        },
        ToolStage::Finished => s,
    }
}

pub open spec fn tool_stage_in_range(s: ToolState) -> bool {
    match s.stage {
        ToolStage::CheckExists(i) => i < s.cands.len(),
        ToolStage::Run(i) => i < s.cands.len(),
        ToolStage::Finished => true,
    }
}

/// A fresh search over the candidates.
pub open spec fn tool_search_start(cands: Seq<Seq<char>>) -> ToolState {
    tool_from(ToolState { cands, stage: ToolStage::Finished, found: None }, 0)
}

/// A search for the tool named `binary` in the search directories (then by its bare
/// name).
pub fn find_tool_available(binary: &str, search_dirs: &Vec<String>) -> (r: ToolSearch)
    ensures
        r@ == tool_search_start(tool_candidates_spec(binary@, views(search_dirs@))),
        r.wf(),
{
    let candidates = tool_candidates(binary, search_dirs);
    let mut s = ToolSearch { candidates, stage: ToolStage::Finished, found: None };
    s.go_from(0);
    s
}

impl ToolSearch {
    /// The stage's index points into the candidates.
    pub open spec fn wf(&self) -> bool {
        tool_stage_in_range(self@)
    }

    fn go_from(&mut self, i: usize)
        requires
            i <= old(self).candidates.len(),
        ensures
            final(self)@ == tool_from(old(self)@, i as int),
            final(self).wf(),
    {
        if i < self.candidates.len() {
            let c = self.candidates[i].as_str();
            let absolute = crate::text::chars_of(c);
            assert(views(self.candidates@)[i as int] == self.candidates@[i as int]@);
            if absolute.len() > 0 && absolute[0] == '/' {
                self.stage = ToolStage::CheckExists(i);
            } else {
                self.stage = ToolStage::Run(i);
            }
        } else {
            self.stage = ToolStage::Finished;
            self.found = None;
        }
    }

    /// What the search needs to know next, or its outcome.
    pub fn next_probe(&self) -> (r: ToolProbe)
        requires
            self.wf(),
        ensures
            (match self@.stage {
                ToolStage::CheckExists(i) => r matches ToolProbe::Exists(p) && p@ == self@.cands[i as int],
                ToolStage::Run(i) => r matches ToolProbe::Run(p) && p@ == self@.cands[i as int],
                ToolStage::Finished => r matches ToolProbe::Done(f) && opt_seq(f) == self@.found,
            }),
    {
        match self.stage {
            ToolStage::CheckExists(i) => ToolProbe::Exists(self.candidates[i].clone()),
            ToolStage::Run(i) => ToolProbe::Run(self.candidates[i].clone()),
            ToolStage::Finished => ToolProbe::Done(
                match &self.found {
                    Some(f) => Some(f.clone()),
                    None => None,
                },
            ),
        }
    }

    /// Takes the answer to the current probe and moves on.
    pub fn answer(&mut self, yes: bool)
        requires
            old(self).wf(),
        ensures
            final(self)@ == tool_step(old(self)@, yes),
            final(self).wf(),
    {
        proof {
            assert(self@.cands.len() == self.candidates.len());
        }
        match self.stage {
            ToolStage::CheckExists(i) => {
                if yes {
                    self.stage = ToolStage::Run(i);
                } else {
                    self.go_from(i + 1);
                }
            },
            ToolStage::Run(i) => {
                if yes {
                    self.found = Some(self.candidates[i].clone());
                    self.stage = ToolStage::Finished;
                } else {
                    self.go_from(i + 1);
                }
            },
            ToolStage::Finished => {},
        }
    }
}

/// The first candidate from `i` on that is usable (not an absolute path that is missing)
/// and runs.
pub open spec fn first_runnable(
    cands: Seq<Seq<char>>,
    i: int,
    present: spec_fn(Seq<char>) -> bool,
    runs: spec_fn(Seq<char>) -> bool,
) -> Option<Seq<char>>
    decreases cands.len() - i,
{
    if i < 0 || i >= cands.len() {
        None
    } else if (!is_absolute(cands[i]) || present(cands[i])) && runs(cands[i]) {
        Some(cands[i])
    } else {
        first_runnable(cands, i + 1, present, runs)
    }
}

/// The true answer to the current probe.
pub open spec fn tool_true_answer(
    s: ToolState,
    present: spec_fn(Seq<char>) -> bool,
    runs: spec_fn(Seq<char>) -> bool,
) -> bool {
    match s.stage {
        ToolStage::CheckExists(i) => present(s.cands[i as int]),
        ToolStage::Run(i) => runs(s.cands[i as int]),
        ToolStage::Finished => false,
    }
}

/// The state after at most `fuel` truly answered probes.
pub open spec fn tool_run(
    s: ToolState,
    present: spec_fn(Seq<char>) -> bool,
    runs: spec_fn(Seq<char>) -> bool,
    fuel: nat,
) -> ToolState
    decreases fuel,
{
    if fuel == 0 || s.stage is Finished {
        s
    } else {
        tool_run(tool_step(s, tool_true_answer(s, present, runs)), present, runs, (fuel - 1) as nat)
    }
}

proof fn lemma_tool_run_from(
    s: ToolState,
    i: int,
    present: spec_fn(Seq<char>) -> bool,
    runs: spec_fn(Seq<char>) -> bool,
    fuel: nat,
)
    requires
        0 <= i <= s.cands.len(),
        s.cands.len() <= usize::MAX,
        fuel >= 2 * (s.cands.len() - i) + 1,
    ensures
        tool_run(tool_from(s, i), present, runs, fuel).stage is Finished,
        tool_run(tool_from(s, i), present, runs, fuel).found == first_runnable(s.cands, i, present, runs),
    decreases s.cands.len() - i,
{
    let t = tool_from(s, i);
    if i < s.cands.len() {
        let c = s.cands[i];
        let a1 = tool_true_answer(t, present, runs);
        assert(tool_run(t, present, runs, fuel) == tool_run(tool_step(t, a1), present, runs, (fuel - 1) as nat));
        let t2 = tool_step(t, a1);
        if is_absolute(c) {
            assert(a1 == present(c));
            if present(c) {
                assert(t2.stage == ToolStage::Run(i as usize));
                let a2 = tool_true_answer(t2, present, runs);
                assert(a2 == runs(c));
                assert(tool_run(t2, present, runs, (fuel - 1) as nat) == tool_run(tool_step(t2, a2), present, runs, (fuel - 2) as nat));
                let t3 = tool_step(t2, a2);
                if runs(c) {
                    assert(t3.stage is Finished && t3.found == Some(c));
                    assert(tool_run(t3, present, runs, (fuel - 2) as nat) == t3);
                } else {
                    assert(t3 == tool_from(s, i + 1));
                    lemma_tool_run_from(s, i + 1, present, runs, (fuel - 2) as nat);
                }
            } else {
                assert(t2 == tool_from(s, i + 1));
                lemma_tool_run_from(s, i + 1, present, runs, (fuel - 1) as nat);
            }
        } else {
            assert(a1 == runs(c));
            if runs(c) {
                assert(t2.stage is Finished && t2.found == Some(c));
                assert(tool_run(t2, present, runs, (fuel - 1) as nat) == t2);
            } else {
                assert(t2 == tool_from(s, i + 1));
                lemma_tool_run_from(s, i + 1, present, runs, (fuel - 1) as nat);
            }
        }
    } else {
        assert(tool_run(t, present, runs, fuel) == t);
    }
}

/// A tool search whose probes are answered truly ends within `2 * n + 1` answers for `n`
/// candidates and finds the first candidate that is usable and runs: an absolute path is
/// run only when it exists.
pub proof fn lemma_tool_search_finds(
    cands: Seq<Seq<char>>,
    present: spec_fn(Seq<char>) -> bool,
    runs: spec_fn(Seq<char>) -> bool,
)
    requires
        cands.len() <= usize::MAX,
    ensures
        tool_run(tool_search_start(cands), present, runs, 2 * cands.len() + 1).stage is Finished,
        tool_run(tool_search_start(cands), present, runs, 2 * cands.len() + 1).found == first_runnable(
            cands,
            0,
            present,
            runs,
        ),
{
    lemma_tool_run_from(ToolState { cands, stage: ToolStage::Finished, found: None }, 0, present, runs, 2 * cands.len() + 1);
}

/// `ffmpeg` counts as available only when `ffprobe` is too.
pub fn find_ffmpeg_available(ffmpeg: Option<String>, ffprobe: Option<String>) -> (r: Option<String>)
    ensures
        opt_seq(r) == (if ffprobe is Some {
            opt_seq(ffmpeg)
        } else {
            None
        }),
{
    match (ffmpeg, ffprobe) {
        (Some(f), Some(_)) => Some(f),
        _ => None,
    }
}

// ---------------------------------------------------------------------------
// The setup check
// ---------------------------------------------------------------------------

/// What the setup check finds.
pub struct SetupStatus {
    pub python_ok: bool,
    pub python_version: Option<String>,
    pub python_path: Option<String>,
    pub ffmpeg_ok: bool,
    pub ffmpeg_path: Option<String>,
    pub missing_packages: Vec<String>,
}

/// The report when no Python was found at all: nothing about Python, ffmpeg as found.
pub fn setup_status_without_python(ffmpeg_path: Option<String>) -> (r: SetupStatus)
    ensures
        !r.python_ok,
        r.python_version is None,
        r.python_path is None,
        r.ffmpeg_ok == ffmpeg_path is Some,
        opt_seq(r.ffmpeg_path) == opt_seq(ffmpeg_path),
        r.missing_packages@.len() == 0,
{
    let ok = ffmpeg_path.is_some();
    SetupStatus {
        python_ok: false,
        python_version: None,
        python_path: None,
        ffmpeg_ok: ok,
        ffmpeg_path,
        missing_packages: Vec::new(),
    }
}

/// The line of the setup check's output holding its JSON report: the first line whose
/// first non-blank character is `{`, or an error quoting both output streams.
pub fn setup_check_json_line(stdout: &str, stderr: &str) -> (r: Result<String, String>)
    ensures
        match r {
            Ok(l) => first_json_line_spec(stdout@) == Some(l@),
            Err(e) => first_json_line_spec(stdout@) is None && e@ == no_json_message(
                "setup_check"@,
                stdout@,
                stderr@,
            ),
        },
{
    match first_json_line(stdout) {
        Some(l) => Ok(l),
        None => Err(no_json("setup_check", stdout, stderr)),
    }
}

/// The setup check's report, completed: the interpreter that ran it, and ffmpeg as the
/// library found it (its own check is replaced).
pub fn complete_setup_status(status: SetupStatus, python: String, ffmpeg_path: Option<String>) -> (r:
    SetupStatus)
    ensures
        r.python_ok == status.python_ok,
        opt_seq(r.python_version) == opt_seq(status.python_version),
        opt_seq(r.python_path) == Some(python@),
        r.ffmpeg_ok == ffmpeg_path is Some,
        opt_seq(r.ffmpeg_path) == opt_seq(ffmpeg_path),
        views(r.missing_packages@) == views(status.missing_packages@),
{
    let mut status = status;
    status.python_path = Some(python);
    status.ffmpeg_ok = ffmpeg_path.is_some();
    status.ffmpeg_path = ffmpeg_path;
    status
}

// ---------------------------------------------------------------------------
// Installing packages
// ---------------------------------------------------------------------------

/// The texts joined with `sep` between them.
pub open spec fn join_texts(list: Seq<Seq<char>>, sep: Seq<char>) -> Seq<char>
    decreases list.len(),
{
    if list.len() == 0 {
        Seq::empty()
    } else if list.len() == 1 {
        list[0]
    } else {
        join_texts(list.drop_last(), sep) + sep + list.last()
    }
}

/// The texts joined with `sep` between them.
pub fn join_strings(list: &Vec<String>, sep: &str) -> (r: String)
    ensures
        r@ == join_texts(views(list@), sep@),
{
    let ghost l = views(list@);
    let mut r = String::new();
    let mut i: usize = 0;
    assert(l.take(0) =~= Seq::<Seq<char>>::empty());
    while i < list.len()
        invariant
            i <= list.len(),
            l == views(list@),
            r@ == join_texts(l.take(i as int), sep@),
        decreases list.len() - i,
    {
        assert(l.take(i + 1).drop_last() == l.take(i as int));
        assert(l.take(i + 1).last() == list@[i as int]@);
        if i > 0 {
            r.append(sep);
        } else {
            assert(l.take(1)[0] == l[0]);
            assert(r@ + list@[0]@ =~= list@[0]@);
        }
        r.append(list[i].as_str());
        i = i + 1;
    }
    assert(l.take(list.len() as int) == l);
    r
}

/// Where an installation stands.
pub enum InstallStage {
    /// Does the virtual environment directory exist?
    CheckVenv,
    /// What version is the environment's interpreter?
    CheckVenvVersion,
    /// Remove the outdated environment.
    RemoveVenv,
    /// Does the environment directory exist now?
    ExistsAgain,
    /// Find a supported interpreter to create the environment with.
    FindPython,
    /// Create the environment with this interpreter.
    CreateVenv(String),
    /// What version is the environment's interpreter, before installing?
    VerifyVenv,
    /// Upgrade pip (its outcome does not matter).
    UpgradePip,
    /// Install the packages, streaming pip's output.
    Install,
    /// Done.
    Finished(Result<(), String>),
}

/// What the installation needs done next.
pub enum InstallAction {
    /// Whether this directory exists.
    CheckExists(String),
    /// The output of running this interpreter with `--version`.
    CheckVersion(String),
    /// Remove this directory and all it holds.
    RemoveDir(String),
    /// A supported interpreter (Python 3.10 or newer), if any.
    FindSupportedPython,
    /// Run this program with these arguments and wait for it.
    Run(String, Vec<String>),
    /// Run this program with these arguments, streaming its output.
    RunStreaming(String, Vec<String>),
    /// The installation is over.
    Done(Result<(), String>),
}

/// The answer to an [`InstallAction`].
pub enum InstallEvent {
    Exists(bool),
    Version(Option<VersionOutput>),
    /// Removing failed with this error, or succeeded.
    Removed(Result<(), String>),
    Found(Option<String>),
    /// The program ran, and succeeded or not; or it could not be started.
    Ran(Result<bool, String>),
    /// The streamed program could not be started.
    StartFailed(String),
    /// Waiting for the streamed program failed.
    WaitFailed(String),
    /// The streamed program exited, with the non-blank lines it wrote to its error stream.
    Exited(bool, Vec<String>),
}

/// An installation of packages into the app-managed virtual environment.
pub struct PackageInstall {
    packages: Vec<String>,
    venv_dir: String,
    venv_python: String,
    stage: InstallStage,
}

/// What creating the environment with an unsupported interpreter everywhere says.
pub open spec fn no_python_message() -> Seq<char> {
    "Python 3.10+ is required before packages can be installed. Install Python from https://www.python.org/downloads/macos/ or run `brew install python`, then click Check Again."@
}

/// An installation as values.
pub struct InstallState {
    pub packages: Seq<Seq<char>>,
    pub venv_dir: Seq<char>,
    pub venv_python: Seq<char>,
    pub stage: InstallStageView,
}

/// Where an installation stands, as values.
pub enum InstallStageView {
    CheckVenv,
    CheckVenvVersion,
    RemoveVenv,
    ExistsAgain,
    FindPython,
    CreateVenv(Seq<char>),
    VerifyVenv,
    UpgradePip,
    Install,
    Finished(Result<(), Seq<char>>),
}

pub open spec fn stage_view(s: InstallStage) -> InstallStageView {
    match s {
        InstallStage::CheckVenv => InstallStageView::CheckVenv,
        InstallStage::CheckVenvVersion => InstallStageView::CheckVenvVersion,
        InstallStage::RemoveVenv => InstallStageView::RemoveVenv,
        InstallStage::ExistsAgain => InstallStageView::ExistsAgain,
        InstallStage::FindPython => InstallStageView::FindPython,
        InstallStage::CreateVenv(p) => InstallStageView::CreateVenv(p@),
        InstallStage::VerifyVenv => InstallStageView::VerifyVenv,
        InstallStage::UpgradePip => InstallStageView::UpgradePip,
        InstallStage::Install => InstallStageView::Install,
        InstallStage::Finished(r) => InstallStageView::Finished(
            match r {
                Ok(()) => Ok(()),
                Err(e) => Err(e@),
            },
        ),
    }
}

impl View for PackageInstall {
    type V = InstallState;

    closed spec fn view(&self) -> InstallState {
        InstallState {
            packages: views(self.packages@),
            venv_dir: self.venv_dir@,
            venv_python: self.venv_python@,
            stage: stage_view(self.stage),
        }
    }
}

/// The messages shown when the installation starts installing.
pub open spec fn installing_messages(packages: Seq<Seq<char>>) -> Seq<Seq<char>> {
    seq!["📦 Installing: "@ + join_texts(packages, ", "@), "⚙️ Upgrading pip..."@]
}

/// The error of a failed pip run, quoting what it wrote to its error stream.
pub open spec fn pip_failed_message(stderr_lines: Seq<Seq<char>>) -> Seq<char> {
    "pip install failed:\n"@ + join_texts(stderr_lines, "\n"@)
}

pub open spec fn with_install_stage(s: InstallState, stage: InstallStageView) -> InstallState {
    InstallState { stage, ..s }
}

pub open spec fn install_fail(s: InstallState, e: Seq<char>) -> InstallState {
    with_install_stage(s, InstallStageView::Finished(Err(e)))
}

/// The next state once `e` answers the current action, with the progress messages to
/// show at that point; an answer of the wrong kind changes nothing.
pub open spec fn install_step(s: InstallState, e: InstallEvent) -> (InstallState, Seq<Seq<char>>) {
    match (s.stage, e) {
        (InstallStageView::CheckVenv, InstallEvent::Exists(x)) => if x {
            (with_install_stage(s, InstallStageView::CheckVenvVersion), Seq::empty())
        } else {
            (with_install_stage(s, InstallStageView::ExistsAgain), Seq::empty())
        },
        (InstallStageView::CheckVenvVersion, InstallEvent::Version(o)) => if version_supported(
            python_version_spec(o),
        ) {
            (with_install_stage(s, InstallStageView::ExistsAgain), Seq::empty())
        } else {
            (
                with_install_stage(s, InstallStageView::RemoveVenv),
                seq!["♻️ Recreating outdated Python environment..."@],
            )
        },
        (InstallStageView::RemoveVenv, InstallEvent::Removed(r)) => match r {
            Ok(()) => (with_install_stage(s, InstallStageView::ExistsAgain), Seq::empty()),
            Err(err) => (
                install_fail(s, "Failed to remove outdated Python virtual environment: "@ + err@),
                Seq::empty(),
            ),
        },
        (InstallStageView::ExistsAgain, InstallEvent::Exists(x)) => if x {
            (with_install_stage(s, InstallStageView::VerifyVenv), Seq::empty())
        } else {
            (
                with_install_stage(s, InstallStageView::FindPython),
                seq!["⚙️ Creating isolated Python environment..."@],
            )
        },
        (InstallStageView::FindPython, InstallEvent::Found(p)) => match p {
            Some(py) => (with_install_stage(s, InstallStageView::CreateVenv(py@)), Seq::empty()),
            None => (install_fail(s, no_python_message()), Seq::empty()),
        },
        (InstallStageView::CreateVenv(_), InstallEvent::Ran(r)) => match r {
            Ok(true) => (
                with_install_stage(s, InstallStageView::VerifyVenv),
                seq!["✅ Virtual environment created."@],
            ),
            Ok(false) => (install_fail(s, "Failed to create Python virtual environment."@), Seq::empty()),
            Err(err) => (install_fail(s, "Failed to create venv: "@ + err@), Seq::empty()),
        },
        (InstallStageView::VerifyVenv, InstallEvent::Version(o)) => if version_supported(
            python_version_spec(o),
        ) {
            (with_install_stage(s, InstallStageView::UpgradePip), installing_messages(s.packages))
        } else {
            (install_fail(s, "Python virtual environment is not Python 3.10+."@), Seq::empty())
        },
        (InstallStageView::UpgradePip, InstallEvent::Ran(_)) => (
            with_install_stage(s, InstallStageView::Install),
            Seq::empty(),
        ),
        (InstallStageView::Install, InstallEvent::StartFailed(err)) => (
            install_fail(s, "pip install failed to start: "@ + err@),
            Seq::empty(),
        ),
        (InstallStageView::Install, InstallEvent::WaitFailed(err)) => (install_fail(s, err@), Seq::empty()),
        (InstallStageView::Install, InstallEvent::Exited(ok, lines)) => if ok {
            (
                with_install_stage(s, InstallStageView::Finished(Ok(()))),
                seq!["✅ All packages installed successfully!"@],
            )
        } else {
            (install_fail(s, pip_failed_message(views(lines@))), Seq::empty())
        },
        _ => (s, Seq::empty()),
    }
}

/// A new installation: nothing to do without packages; else it starts by looking at the
/// environment `venv` under the app data directory.
pub open spec fn install_start(packages: Seq<Seq<char>>, app_data_dir: Seq<char>) -> InstallState {
    InstallState {
        packages,
        venv_dir: join_path(app_data_dir, "venv"@),
        venv_python: join_path(join_path(app_data_dir, "venv"@), "bin/python3"@),
        stage: if packages.len() == 0 {
            InstallStageView::Finished(Ok(()))
        } else {
            InstallStageView::CheckVenv
        },
    }
}

fn text_vec1(a: &str) -> (r: Vec<String>)
    ensures
        views(r@) == seq![a@],
{
    let mut v: Vec<String> = Vec::new();
    v.push(String::from_str(a));
    assert(views(v@) =~= seq![a@]);
    v
}

/// An installation of `packages` into the environment under the app data directory.
pub fn install_deps(packages: Vec<String>, app_data_dir: &str) -> (r: PackageInstall)
    ensures
        r@ == install_start(views(packages@), app_data_dir@),
{
    let venv_dir = path_join(app_data_dir, "venv");
    let venv_python = crate::paths::venv_python_path(venv_dir.as_str());
    let stage = if packages.len() == 0 {
        InstallStage::Finished(Ok(()))
    } else {
        InstallStage::CheckVenv
    };
    PackageInstall { packages, venv_dir, venv_python, stage }
}

/// The arguments of a `python -m pip install` of the packages.
pub open spec fn pip_install_args(packages: Seq<Seq<char>>) -> Seq<Seq<char>> {
    seq!["-m"@, "pip"@, "install"@] + packages
}

impl PackageInstall {
    /// What the installation needs done next: look at the environment (directory or
    /// interpreter version), remove it, find an interpreter, create the environment with
    /// `-m venv <dir>`, upgrade pip with `-m pip install --upgrade pip`, install with
    /// `-m pip install <packages>`, or report the outcome.
    pub fn next_action(&self) -> (r: InstallAction)
        ensures
            match (self@.stage, r) {
                (InstallStageView::CheckVenv, InstallAction::CheckExists(d)) => d@ == self@.venv_dir,
                (InstallStageView::ExistsAgain, InstallAction::CheckExists(d)) => d@ == self@.venv_dir,
                (InstallStageView::CheckVenvVersion, InstallAction::CheckVersion(p)) => p@ == self@.venv_python,
                (InstallStageView::VerifyVenv, InstallAction::CheckVersion(p)) => p@ == self@.venv_python,
                (InstallStageView::RemoveVenv, InstallAction::RemoveDir(d)) => d@ == self@.venv_dir,
                (InstallStageView::FindPython, InstallAction::FindSupportedPython) => true,
                (InstallStageView::CreateVenv(py), InstallAction::Run(p, args)) => p@ == py && views(args@)
                    == seq!["-m"@, "venv"@, self@.venv_dir],
                (InstallStageView::UpgradePip, InstallAction::Run(p, args)) => p@ == self@.venv_python
                    && views(args@) == seq!["-m"@, "pip"@, "install"@, "--upgrade"@, "pip"@],
                (InstallStageView::Install, InstallAction::RunStreaming(p, args)) => p@ == self@.venv_python
                    && views(args@) == pip_install_args(self@.packages),
                (InstallStageView::Finished(res), InstallAction::Done(out)) => res == match out {
                    Ok(()) => Ok::<(), Seq<char>>(()),
                    Err(e) => Err(e@),
                },
                _ => false,
            },
    {
        match &self.stage {
            InstallStage::CheckVenv => InstallAction::CheckExists(self.venv_dir.clone()),
            InstallStage::ExistsAgain => InstallAction::CheckExists(self.venv_dir.clone()),
            InstallStage::CheckVenvVersion => InstallAction::CheckVersion(self.venv_python.clone()),
            InstallStage::VerifyVenv => InstallAction::CheckVersion(self.venv_python.clone()),
            InstallStage::RemoveVenv => InstallAction::RemoveDir(self.venv_dir.clone()),
            InstallStage::FindPython => InstallAction::FindSupportedPython,
            InstallStage::CreateVenv(py) => {
                let mut args: Vec<String> = Vec::new();
                args.push(String::from_str("-m"));
                args.push(String::from_str("venv"));
                args.push(self.venv_dir.clone());
                assert(views(args@) =~= seq!["-m"@, "venv"@, self.venv_dir@]);
                InstallAction::Run(py.clone(), args)
            },
            InstallStage::UpgradePip => {
                let mut args: Vec<String> = Vec::new();
                args.push(String::from_str("-m"));
                args.push(String::from_str("pip"));
                args.push(String::from_str("install"));
                args.push(String::from_str("--upgrade"));
                args.push(String::from_str("pip"));
                assert(views(args@) =~= seq!["-m"@, "pip"@, "install"@, "--upgrade"@, "pip"@]);
                InstallAction::Run(self.venv_python.clone(), args)
            },
            InstallStage::Install => {
                let mut args: Vec<String> = Vec::new();
                args.push(String::from_str("-m"));
                args.push(String::from_str("pip"));
                args.push(String::from_str("install"));
                let mut i: usize = 0;
                while i < self.packages.len()
                    invariant
                        i <= self.packages.len(),
                        views(args@) == seq!["-m"@, "pip"@, "install"@] + views(self.packages@).take(i as int),
                    decreases self.packages.len() - i,
                {
                    let ghost b = views(args@);
                    args.push(self.packages[i].clone());
                    assert(views(self.packages@).take(i + 1) == views(self.packages@).take(i as int).push(self.packages@[i as int]@));
                    assert(views(args@) =~= b.push(self.packages@[i as int]@));
                    i = i + 1;
                }
                assert(views(self.packages@).take(self.packages.len() as int) == views(self.packages@));
                InstallAction::RunStreaming(self.venv_python.clone(), args)
            },
            InstallStage::Finished(r) => InstallAction::Done(
                match r {
                    Ok(()) => Ok(()),
                    Err(e) => Err(e.clone()),
                },
            ),
        }
    }

    fn fail(&mut self, e: String)
        ensures
            final(self)@ == install_fail(old(self)@, e@),
    {
        self.stage = InstallStage::Finished(Err(e));
    }

    /// Takes the answer to the current action and moves on; hands back the progress
    /// messages to show now.
    pub fn answer(&mut self, e: InstallEvent) -> (msgs: Vec<String>)
        ensures
            (final(self)@, views(msgs@)) == install_step(old(self)@, e),
    {
        let mut msgs: Vec<String> = Vec::new();
        assert(views(msgs@) =~= Seq::<Seq<char>>::empty());
        let ghost e0 = e;
        match (&self.stage, e) {
            (InstallStage::CheckVenv, InstallEvent::Exists(x)) => {
                if x {
                    self.stage = InstallStage::CheckVenvVersion;
                } else {
                    self.stage = InstallStage::ExistsAgain;
                }
            },
            (InstallStage::CheckVenvVersion, InstallEvent::Version(o)) => {
                if is_supported_python(&o) {
                    self.stage = InstallStage::ExistsAgain;
                } else {
                    self.stage = InstallStage::RemoveVenv;
                    msgs = text_vec1("♻️ Recreating outdated Python environment...");
                }
            },
            (InstallStage::RemoveVenv, InstallEvent::Removed(r)) => {
                match r {
                    Ok(()) => {
                        self.stage = InstallStage::ExistsAgain;
                    },
                    Err(err) => {
                        self.fail(concat("Failed to remove outdated Python virtual environment: ", err.as_str()));
                    },
                }
            },
            (InstallStage::ExistsAgain, InstallEvent::Exists(x)) => {
                if x {
                    self.stage = InstallStage::VerifyVenv;
                } else {
                    self.stage = InstallStage::FindPython;
                    msgs = text_vec1("⚙️ Creating isolated Python environment...");
                }
            },
            (InstallStage::FindPython, InstallEvent::Found(p)) => {
                match p {
                    Some(py) => {
                        self.stage = InstallStage::CreateVenv(py);
                    },
                    None => {
                        self.fail(String::from_str(
                            "Python 3.10+ is required before packages can be installed. Install Python from https://www.python.org/downloads/macos/ or run `brew install python`, then click Check Again.",
                        ));
                    },
                }
            },
            (InstallStage::CreateVenv(_), InstallEvent::Ran(r)) => {
                match r {
                    Ok(true) => {
                        self.stage = InstallStage::VerifyVenv;
                        msgs = text_vec1("✅ Virtual environment created.");
                    },
                    Ok(false) => {
                        self.fail(String::from_str("Failed to create Python virtual environment."));
                    },
                    Err(err) => {
                        self.fail(concat("Failed to create venv: ", err.as_str()));
                    },
                }
            },
            (InstallStage::VerifyVenv, InstallEvent::Version(o)) => {
                if is_supported_python(&o) {
                    self.stage = InstallStage::UpgradePip;
                    let joined = join_strings(&self.packages, ", ");
                    let first = concat("📦 Installing: ", joined.as_str());
                    msgs.push(first);
                    msgs.push(String::from_str("⚙️ Upgrading pip..."));
                    assert(views(msgs@) =~= installing_messages(views(self.packages@)));
                } else {
                    self.fail(String::from_str("Python virtual environment is not Python 3.10+."));
                }
            },
            (InstallStage::UpgradePip, InstallEvent::Ran(_)) => {
                self.stage = InstallStage::Install;
            },
            (InstallStage::Install, InstallEvent::StartFailed(err)) => {
                self.fail(concat("pip install failed to start: ", err.as_str()));
            },
            (InstallStage::Install, InstallEvent::WaitFailed(err)) => {
                self.fail(err);
            },
            (InstallStage::Install, InstallEvent::Exited(ok, lines)) => {
                if ok {
                    self.stage = InstallStage::Finished(Ok(()));
                    msgs = text_vec1("✅ All packages installed successfully!");
                } else {
                    let joined = join_strings(&lines, "\n");
                    self.fail(concat("pip install failed:\n", joined.as_str()));
                }
            },
            _ => {},
        }
        msgs
    }
}

/// The progress line shown for a line pip wrote to its error stream, when not blank.
pub fn pip_stderr_message(line: &str) -> (r: Option<String>)
    ensures
        trim(line@).len() == 0 ==> r is None,
        trim(line@).len() > 0 ==> (r matches Some(m) && m@ == "⚠️ "@ + line@),
{
    let t = trim_str(line);
    if t.as_str().unicode_len() == 0 {
        None
    } else {
        Some(concat("⚠️ ", line))
    }
}

/// An installation reports success only once pip has installed the packages (or when
/// there was nothing to install), and installs only into an environment just checked to
/// be Python 3.10 or newer.
pub proof fn lemma_install_success_only_after_pip(s: InstallState, e: InstallEvent)
    ensures
        install_step(s, e).0.stage == InstallStageView::Finished(Ok(())) ==> (s.stage
            == InstallStageView::Finished(Ok(())) || (s.stage == InstallStageView::Install && (e matches InstallEvent::Exited(
            ok,
            _,
        ) && ok))),
        install_step(s, e).0.stage == InstallStageView::UpgradePip ==> (s.stage
            == InstallStageView::UpgradePip || (s.stage == InstallStageView::VerifyVenv && (e matches InstallEvent::Version(
            o,
        ) && version_supported(python_version_spec(o))))),
        install_step(s, e).0.stage == InstallStageView::Install ==> (s.stage == InstallStageView::Install
            || s.stage == InstallStageView::UpgradePip),
{
}

/// An outdated environment is replaced: once it was removed, the installation next
/// looks whether the environment directory exists (so that a new one gets created when
/// it does not). An interpreter's version is asked only right after the directory was
/// seen to exist, or right after the environment was created.
pub proof fn lemma_removed_venv_is_recreated(s: InstallState, e: InstallEvent)
    ensures
        s.stage == InstallStageView::RemoveVenv && (e matches InstallEvent::Removed(r) && r is Ok)
            ==> install_step(s, e).0.stage == InstallStageView::ExistsAgain,
        ({
            let t = install_step(s, e).0.stage;
            (t == InstallStageView::CheckVenvVersion || t == InstallStageView::VerifyVenv) && t != s.stage
        }) ==> ((s.stage == InstallStageView::CheckVenv || s.stage == InstallStageView::ExistsAgain) && (e matches InstallEvent::Exists(x) && x))
            || (s.stage is CreateVenv && (e matches InstallEvent::Ran(r) && r == Ok::<bool, String>(true))),
        s.stage == InstallStageView::ExistsAgain && (e matches InstallEvent::Exists(x) && !x)
            ==> install_step(s, e).0.stage == InstallStageView::FindPython,
{
}

} // verus!
