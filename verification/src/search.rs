//! Choosing the Python interpreter to run, as a step machine: the library decides which
//! path to look at next and what to conclude; the caller checks whether a path exists
//! and runs `python --version`, then hands the answer back.
use vstd::prelude::*;
use crate::text::views;
use crate::paths::{
    default_python_candidates, default_python_candidates_spec, join_path, opt_view, path_join,
    python_version_spec, version_supported, is_supported_python, VersionOutput,
};

verus! {

/// Where a search stands.
#[derive(Clone, Copy, PartialEq, Eq, Debug)]
pub enum SearchStage {
    /// Does the app-managed interpreter exist?
    SupportedVenvExists,
    /// What version is the app-managed interpreter?
    SupportedVenvVersion,
    /// Does candidate `i` exist?
    SupportedCandidateExists(usize),
    /// What version is candidate `i`?
    SupportedCandidateVersion(usize),
    /// No supported interpreter: does the app-managed one exist at all?
    FallbackVenvExists,
    /// No supported interpreter: does candidate `i` exist at all?
    FallbackCandidateExists(usize),
    /// The search is over.
    Finished,
}

/// What the search needs to know next.
pub enum Probe {
    /// Whether this path exists.
    Exists(String),
    /// The output of running this interpreter with `--version`.
    Version(String),
    /// The search is over, with the interpreter chosen, if any.
    Done(Option<String>),
}

/// The answer to a [`Probe`].
pub enum ProbeAnswer {
    Exists(bool),
    /// `None` when the interpreter could not be run.
    Version(Option<VersionOutput>),
}

/// A search for a Python interpreter among the app-managed one and a list of candidates.
pub struct PythonSearch {
    venv: String,
    candidates: Vec<String>,
    fallback: bool,
    stage: SearchStage,
    found: Option<String>,
}

/// The state of a search, as values.
pub struct SearchState {
    pub venv: Seq<char>,
    pub cands: Seq<Seq<char>>,
    pub fallback: bool,
    pub stage: SearchStage,
    pub found: Option<Seq<char>>,
}

impl View for PythonSearch {
    type V = SearchState;

    closed spec fn view(&self) -> SearchState {
        SearchState {
            venv: self.venv@,
            cands: views(self.candidates@),
            fallback: self.fallback,
            stage: self.stage,
            found: opt_view(self.found),
        }
    }
}

/// The stage's index, where it has one, points into the candidates.
pub open spec fn stage_in_range(s: SearchState) -> bool {
    match s.stage {
        SearchStage::SupportedCandidateExists(i) => i < s.cands.len(),
        SearchStage::SupportedCandidateVersion(i) => i < s.cands.len(),
        SearchStage::FallbackCandidateExists(i) => i < s.cands.len(),
        _ => true,
    }
}

pub open spec fn with_stage(s: SearchState, stage: SearchStage) -> SearchState {
    SearchState { stage, ..s }
}

pub open spec fn finish(s: SearchState, found: Option<Seq<char>>) -> SearchState {
    SearchState { stage: SearchStage::Finished, found, ..s }
}

/// No supported interpreter was found: go on to any existing one, or give up.
pub open spec fn after_supported(s: SearchState) -> SearchState {
    if s.fallback {
        with_stage(s, SearchStage::FallbackVenvExists)
    } else {
        finish(s, None)
    }
}

/// Look for a supported interpreter from candidate `i` on.
pub open spec fn supported_from(s: SearchState, i: int) -> SearchState {
    if 0 <= i < s.cands.len() {
        with_stage(s, SearchStage::SupportedCandidateExists(i as usize))
    } else {
        after_supported(s)
    }
}

/// Look for any existing candidate from `i` on.
pub open spec fn fallback_from(s: SearchState, i: int) -> SearchState {
    if 0 <= i < s.cands.len() {
        with_stage(s, SearchStage::FallbackCandidateExists(i as usize))
    } else {
        finish(s, None)
    }
}

/// The answer is supported Python 3.10 or newer.
pub open spec fn answer_supported(a: ProbeAnswer) -> bool {
    match a {
        ProbeAnswer::Version(o) => version_supported(python_version_spec(o)),
        _ => false,
    }
}

/// The next state once `a` answers the current probe; an answer of the wrong kind, or
/// one after the end, changes nothing.
pub open spec fn step_spec(s: SearchState, a: ProbeAnswer) -> SearchState {
    match (s.stage, a) {
        (SearchStage::SupportedVenvExists, ProbeAnswer::Exists(e)) => if e {
            with_stage(s, SearchStage::SupportedVenvVersion)
        } else {
            supported_from(s, 0)
        },
        (SearchStage::SupportedVenvVersion, ProbeAnswer::Version(_)) => if answer_supported(a) {
            finish(s, Some(s.venv))
        } else {
            supported_from(s, 0)
        },
        (SearchStage::SupportedCandidateExists(i), ProbeAnswer::Exists(e)) => if e {
            with_stage(s, SearchStage::SupportedCandidateVersion(i))
        } else {
            supported_from(s, i + 1)
        },
        (SearchStage::SupportedCandidateVersion(i), ProbeAnswer::Version(_)) => if answer_supported(
            a,
        ) {
            finish(s, Some(s.cands[i as int]))
        } else {
            supported_from(s, i + 1)
        },
        (SearchStage::FallbackVenvExists, ProbeAnswer::Exists(e)) => if e {
            finish(s, Some(s.venv))
        } else {
            fallback_from(s, 0)
        },
        (SearchStage::FallbackCandidateExists(i), ProbeAnswer::Exists(e)) => if e {
            finish(s, Some(s.cands[i as int]))
        } else {
            fallback_from(s, i + 1)
        },
        _ => s,
    }
}

/// The path the current probe is about (the app-managed interpreter when over).
pub open spec fn probe_path(s: SearchState) -> Seq<char> {
    match s.stage {
        SearchStage::SupportedCandidateExists(i) => s.cands[i as int],
        SearchStage::SupportedCandidateVersion(i) => s.cands[i as int],
        SearchStage::FallbackCandidateExists(i) => s.cands[i as int],
        _ => s.venv,
    }
}

/// The current probe asks for a version (otherwise, while not over, for existence).
pub open spec fn asks_version(s: SearchState) -> bool {
    s.stage is SupportedVenvVersion || s.stage is SupportedCandidateVersion
}

/// The app-managed interpreter under an app data directory.
pub open spec fn venv_python_of(app_data_dir: Seq<char>) -> Seq<char> {
    join_path(app_data_dir, "venv/bin/python3"@)
}

/// A fresh search.
pub open spec fn initial_search(venv: Seq<char>, cands: Seq<Seq<char>>, fallback: bool) -> SearchState {
    SearchState { venv, cands, fallback, stage: SearchStage::SupportedVenvExists, found: None }
}

impl PythonSearch {
    fn start(app_data_dir: &str, candidates: Vec<String>, fallback: bool) -> (r: PythonSearch)
        ensures
            r@ == initial_search(venv_python_of(app_data_dir@), views(candidates@), fallback),
    {
        PythonSearch {
            venv: path_join(app_data_dir, "venv/bin/python3"),
            candidates,
            fallback,
            stage: SearchStage::SupportedVenvExists,
            found: None,
        }
    }

    /// The search's stage indices point into its candidates.
    pub open spec fn wf(&self) -> bool {
        stage_in_range(self@)
    }

    /// What the search needs to know next, or its outcome.
    pub fn next_probe(&self) -> (r: Probe)
        requires
            self.wf(),
        ensures
            self@.stage is Finished ==> (r matches Probe::Done(f) && opt_view(f) == self@.found),
            !(self@.stage is Finished) && asks_version(self@) ==> (r matches Probe::Version(p) && p@
                == probe_path(self@)),
            !(self@.stage is Finished) && !asks_version(self@) ==> (r matches Probe::Exists(p) && p@
                == probe_path(self@)),
    {
        match self.stage {
            SearchStage::SupportedVenvExists => Probe::Exists(self.venv.clone()),
            SearchStage::SupportedVenvVersion => Probe::Version(self.venv.clone()),
            SearchStage::SupportedCandidateExists(i) => Probe::Exists(self.candidates[i].clone()),
            SearchStage::SupportedCandidateVersion(i) => Probe::Version(self.candidates[i].clone()),
            SearchStage::FallbackVenvExists => Probe::Exists(self.venv.clone()),
            SearchStage::FallbackCandidateExists(i) => Probe::Exists(self.candidates[i].clone()),
            SearchStage::Finished => Probe::Done(
                match &self.found {
                    Some(f) => Some(f.clone()),
                    None => None,
                },
            ),
        }
    }

    fn go_supported_from(&mut self, i: usize)
        requires
            i <= old(self).candidates.len(),
            stage_in_range(old(self)@),
        ensures
            final(self)@ == supported_from(old(self)@, i as int),
            stage_in_range(final(self)@),
    {
        if i < self.candidates.len() {
            self.stage = SearchStage::SupportedCandidateExists(i);
        } else if self.fallback {
            self.stage = SearchStage::FallbackVenvExists;
        } else {
            self.stage = SearchStage::Finished;
            self.found = None;
        }
    }

    fn go_fallback_from(&mut self, i: usize)
        requires
            i <= old(self).candidates.len(),
        ensures
            final(self)@ == fallback_from(old(self)@, i as int),
            stage_in_range(final(self)@),
    {
        if i < self.candidates.len() {
            self.stage = SearchStage::FallbackCandidateExists(i);
        } else {
            self.stage = SearchStage::Finished;
            self.found = None;
        }
    }

    /// Takes the answer to the current probe and moves on.
    pub fn answer(&mut self, a: ProbeAnswer)
        requires
            old(self).wf(),
        ensures
            final(self)@ == step_spec(old(self)@, a),
            final(self).wf(),
    {
        proof {
            assert(self@.cands.len() == self.candidates.len());
        }
        match (self.stage, a) {
            (SearchStage::SupportedVenvExists, ProbeAnswer::Exists(e)) => {
                if e {
                    self.stage = SearchStage::SupportedVenvVersion;
                } else {
                    self.go_supported_from(0);
                }
            },
            (SearchStage::SupportedVenvVersion, ProbeAnswer::Version(o)) => {
                if is_supported_python(&o) {
                    self.found = Some(self.venv.clone());
                    self.stage = SearchStage::Finished;
                } else {
                    self.go_supported_from(0);
                }
            },
            (SearchStage::SupportedCandidateExists(i), ProbeAnswer::Exists(e)) => {
                if e {
                    self.stage = SearchStage::SupportedCandidateVersion(i);
                } else {
                    self.go_supported_from(i + 1);
                }
            },
            (SearchStage::SupportedCandidateVersion(i), ProbeAnswer::Version(o)) => {
                if is_supported_python(&o) {
                    self.found = Some(self.candidates[i].clone());
                    self.stage = SearchStage::Finished;
                } else {
                    self.go_supported_from(i + 1);
                }
            },
            (SearchStage::FallbackVenvExists, ProbeAnswer::Exists(e)) => {
                if e {
                    self.found = Some(self.venv.clone());
                    self.stage = SearchStage::Finished;
                } else {
                    self.go_fallback_from(0);
                }
            },
            (SearchStage::FallbackCandidateExists(i), ProbeAnswer::Exists(e)) => {
                if e {
                    self.found = Some(self.candidates[i].clone());
                    self.stage = SearchStage::Finished;
                } else {
                    self.go_fallback_from(i + 1);
                }
            },
            _ => {},
        }
    }
}

/// A search for a supported interpreter (Python 3.10 or newer) that falls back to any
/// existing interpreter, so that the version found can be reported: the app-managed
/// one under `app_data_dir` is preferred, then the candidates in order.
pub fn find_python_from_candidates(app_data_dir: &str, candidates: Vec<String>) -> (r: PythonSearch)
    ensures
        r@ == initial_search(venv_python_of(app_data_dir@), views(candidates@), true),
{
    PythonSearch::start(app_data_dir, candidates, true)
}

/// A search for a supported interpreter only.
pub fn find_supported_python_from_candidates(app_data_dir: &str, candidates: Vec<String>) -> (r:
    PythonSearch)
    ensures
        r@ == initial_search(venv_python_of(app_data_dir@), views(candidates@), false),
{
    PythonSearch::start(app_data_dir, candidates, false)
}

/// [`find_python_from_candidates`] over the usual interpreter locations.
pub fn find_python(app_data_dir: &str, home: Option<String>, search_dirs: &Vec<String>) -> (r:
    PythonSearch)
    ensures
        r@ == initial_search(
            venv_python_of(app_data_dir@),
            default_python_candidates_spec(opt_view(home), views(search_dirs@)),
            true,
        ),
{
    let c = default_python_candidates(home, search_dirs);
    find_python_from_candidates(app_data_dir, c)
}

/// [`find_supported_python_from_candidates`] over the usual interpreter locations.
pub fn find_supported_python(app_data_dir: &str, home: Option<String>, search_dirs: &Vec<String>) -> (r:
    PythonSearch)
    ensures
        r@ == initial_search(
            venv_python_of(app_data_dir@),
            default_python_candidates_spec(opt_view(home), views(search_dirs@)),
            false,
        ),
{
    let c = default_python_candidates(home, search_dirs);
    find_supported_python_from_candidates(app_data_dir, c)
}


// ---------------------------------------------------------------------------
// What a whole search finds
// ---------------------------------------------------------------------------

/// The first candidate from `i` on that exists and is supported.
pub open spec fn first_supported(
    cands: Seq<Seq<char>>,
    i: int,
    present: spec_fn(Seq<char>) -> bool,
    version: spec_fn(Seq<char>) -> Option<VersionOutput>,
) -> Option<Seq<char>>
    decreases cands.len() - i,
{
    if i < 0 || i >= cands.len() {
        None
    } else if present(cands[i]) && version_supported(python_version_spec(version(cands[i]))) {
        Some(cands[i])
    } else {
        first_supported(cands, i + 1, present, version)
    }
}

/// The first candidate from `i` on that exists.
pub open spec fn first_existing(cands: Seq<Seq<char>>, i: int, present: spec_fn(Seq<char>) -> bool) -> Option<
    Seq<char>,
>
    decreases cands.len() - i,
{
    if i < 0 || i >= cands.len() {
        None
    } else if present(cands[i]) {
        Some(cands[i])
    } else {
        first_existing(cands, i + 1, present)
    }
}

/// The interpreter a search chooses when paths exist as `exists` says and interpreters
/// report versions as `version` says: the app-managed one if it exists and is supported,
/// else the first existing supported candidate; failing those, and only when falling
/// back, the app-managed one if it present, else the first existing candidate.
pub open spec fn chosen_python(
    venv: Seq<char>,
    cands: Seq<Seq<char>>,
    fallback: bool,
    present: spec_fn(Seq<char>) -> bool,
    version: spec_fn(Seq<char>) -> Option<VersionOutput>,
) -> Option<Seq<char>> {
    if present(venv) && version_supported(python_version_spec(version(venv))) {
        Some(venv)
    } else {
        match first_supported(cands, 0, present, version) {
            Some(c) => Some(c),
            None => if !fallback {
                None
            } else if present(venv) {
                Some(venv)
            } else {
                first_existing(cands, 0, present)
            },
        }
    }
}

/// The true answer to the current probe.
pub open spec fn true_answer(
    s: SearchState,
    present: spec_fn(Seq<char>) -> bool,
    version: spec_fn(Seq<char>) -> Option<VersionOutput>,
) -> ProbeAnswer {
    if asks_version(s) {
        ProbeAnswer::Version(version(probe_path(s)))
    } else {
        ProbeAnswer::Exists(present(probe_path(s)))
    }
}

/// The state after at most `fuel` truly answered probes.
pub open spec fn run(
    s: SearchState,
    present: spec_fn(Seq<char>) -> bool,
    version: spec_fn(Seq<char>) -> Option<VersionOutput>,
    fuel: nat,
) -> SearchState
    decreases fuel,
{
    if fuel == 0 || s.stage is Finished {
        s
    } else {
        run(step_spec(s, true_answer(s, present, version)), present, version, (fuel - 1) as nat)
    }
}

proof fn lemma_fallback_run(
    s: SearchState,
    i: int,
    present: spec_fn(Seq<char>) -> bool,
    version: spec_fn(Seq<char>) -> Option<VersionOutput>,
    fuel: nat,
)
    requires
        0 <= i <= s.cands.len(),
        s.cands.len() <= usize::MAX,
        fuel >= s.cands.len() - i + 1,
    ensures
        run(fallback_from(s, i), present, version, fuel).stage is Finished,
        run(fallback_from(s, i), present, version, fuel).found == first_existing(s.cands, i, present),
    decreases s.cands.len() - i,
{
    let t = fallback_from(s, i);
    if i < s.cands.len() {
        let a = true_answer(t, present, version);
        assert(t.stage == SearchStage::FallbackCandidateExists(i as usize));
        assert(probe_path(t) == s.cands[i]);
        assert(a == ProbeAnswer::Exists(present(s.cands[i])));
        assert(run(t, present, version, fuel) == run(step_spec(t, a), present, version, (fuel - 1) as nat));
        if !present(s.cands[i]) {
            lemma_fallback_run(s, i + 1, present, version, (fuel - 1) as nat);
            assert(step_spec(t, a) == fallback_from(s, i + 1));
        } else {
            let u = step_spec(t, a);
            assert(u == finish(s, Some(s.cands[i])));
            assert(run(u, present, version, (fuel - 1) as nat) == u);
        }
    } else {
        assert(t == finish(s, None));
        assert(run(t, present, version, fuel) == t);
    }
}

proof fn lemma_after_supported_run(
    s: SearchState,
    present: spec_fn(Seq<char>) -> bool,
    version: spec_fn(Seq<char>) -> Option<VersionOutput>,
    fuel: nat,
)
    requires
        s.cands.len() <= usize::MAX,
        fuel >= s.cands.len() + 2,
    ensures
        run(after_supported(s), present, version, fuel).stage is Finished,
        run(after_supported(s), present, version, fuel).found == (if !s.fallback {
            None
        } else if present(s.venv) {
            Some(s.venv)
        } else {
            first_existing(s.cands, 0, present)
        }),
{
    let t = after_supported(s);
    if s.fallback {
        let a = true_answer(t, present, version);
        assert(t.stage == SearchStage::FallbackVenvExists);
        assert(probe_path(t) == s.venv);
        assert(a == ProbeAnswer::Exists(present(s.venv)));
        assert(run(t, present, version, fuel) == run(step_spec(t, a), present, version, (fuel - 1) as nat));
        if !present(s.venv) {
            lemma_fallback_run(s, 0, present, version, (fuel - 1) as nat);
            assert(step_spec(t, a) == fallback_from(s, 0));
        } else {
            let u = step_spec(t, a);
            assert(u == finish(s, Some(s.venv)));
            assert(run(u, present, version, (fuel - 1) as nat) == u);
        }
    } else {
        assert(t == finish(s, None));
        assert(run(t, present, version, fuel) == t);
    }
}

proof fn lemma_supported_run(
    s: SearchState,
    i: int,
    present: spec_fn(Seq<char>) -> bool,
    version: spec_fn(Seq<char>) -> Option<VersionOutput>,
    fuel: nat,
)
    requires
        0 <= i <= s.cands.len(),
        s.cands.len() <= usize::MAX,
        fuel >= 2 * (s.cands.len() - i) + s.cands.len() + 2,
    ensures
        run(supported_from(s, i), present, version, fuel).stage is Finished,
        run(supported_from(s, i), present, version, fuel).found == (match first_supported(
            s.cands,
            i,
            present,
            version,
        ) {
            Some(c) => Some(c),
            None => if !s.fallback {
                None
            } else if present(s.venv) {
                Some(s.venv)
            } else {
                first_existing(s.cands, 0, present)
            },
        }),
    decreases s.cands.len() - i,
{
    let t = supported_from(s, i);
    if i < s.cands.len() {
        let c = s.cands[i];
        assert(t.stage == SearchStage::SupportedCandidateExists(i as usize));
        assert(probe_path(t) == c);
        let a1 = true_answer(t, present, version);
        assert(a1 == ProbeAnswer::Exists(present(c)));
        assert(run(t, present, version, fuel) == run(step_spec(t, a1), present, version, (fuel - 1) as nat));
        let t2 = step_spec(t, a1);
        if present(c) {
            assert(t2 == with_stage(t, SearchStage::SupportedCandidateVersion(i as usize)));
            assert(probe_path(t2) == c);
            let a2 = true_answer(t2, present, version);
            assert(a2 == ProbeAnswer::Version(version(c)));
            assert(run(t2, present, version, (fuel - 1) as nat) == run(step_spec(t2, a2), present, version, (fuel - 2) as nat));
            let t3 = step_spec(t2, a2);
            if !version_supported(python_version_spec(version(c))) {
                assert(t3 == supported_from(s, i + 1));
                lemma_supported_run(s, i + 1, present, version, (fuel - 2) as nat);
            } else {
                assert(t3 == finish(s, Some(c)));
                assert(run(t3, present, version, (fuel - 2) as nat) == t3);
            }
        } else {
            assert(t2 == supported_from(s, i + 1));
            lemma_supported_run(s, i + 1, present, version, (fuel - 1) as nat);
        }
    } else {
        assert(t == after_supported(s));
        lemma_after_supported_run(s, present, version, fuel);
    }
}

/// A search whose probes are answered truly ends, within `3 * n + 4` answers for `n`
/// candidates, and chooses exactly [`chosen_python`]: the supported app-managed
/// interpreter first, then the first existing supported candidate, then (when falling
/// back) any existing interpreter, app-managed first.
pub proof fn lemma_search_chooses(
    venv: Seq<char>,
    cands: Seq<Seq<char>>,
    fallback: bool,
    present: spec_fn(Seq<char>) -> bool,
    version: spec_fn(Seq<char>) -> Option<VersionOutput>,
)
    requires
        cands.len() <= usize::MAX,
    ensures
        run(initial_search(venv, cands, fallback), present, version, 3 * cands.len() + 4).stage is Finished,
        run(initial_search(venv, cands, fallback), present, version, 3 * cands.len() + 4).found
            == chosen_python(venv, cands, fallback, present, version),
{
    let s = initial_search(venv, cands, fallback);
    let fuel: nat = 3 * cands.len() + 4;
    let a1 = true_answer(s, present, version);
    assert(probe_path(s) == venv);
    assert(a1 == ProbeAnswer::Exists(present(venv)));
    assert(run(s, present, version, fuel) == run(step_spec(s, a1), present, version, (fuel - 1) as nat));
    let t2 = step_spec(s, a1);
    if present(venv) {
        assert(t2 == with_stage(s, SearchStage::SupportedVenvVersion));
        let a2 = true_answer(t2, present, version);
        assert(probe_path(t2) == venv);
        assert(a2 == ProbeAnswer::Version(version(venv)));
        assert(run(t2, present, version, (fuel - 1) as nat) == run(step_spec(t2, a2), present, version, (fuel - 2) as nat));
        let t3 = step_spec(t2, a2);
        if !version_supported(python_version_spec(version(venv))) {
            assert(t3 == supported_from(s, 0));
            lemma_supported_run(s, 0, present, version, (fuel - 2) as nat);
        } else {
            assert(t3 == finish(s, Some(venv)));
            assert(run(t3, present, version, (fuel - 2) as nat) == t3);
        }
    } else {
        assert(t2 == supported_from(s, 0));
        lemma_supported_run(s, 0, present, version, (fuel - 1) as nat);
    }
}

/// A version is asked of an interpreter only right after it was reported to exist.
pub proof fn lemma_version_only_after_exists(s: SearchState, a: ProbeAnswer)
    requires
        stage_in_range(s),
        asks_version(step_spec(s, a)),
        !asks_version(s),
    ensures
        a == ProbeAnswer::Exists(true),
        probe_path(step_spec(s, a)) == probe_path(s),
{
}

} // verus!
