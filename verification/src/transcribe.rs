//! Transcription jobs: the transcriber's command line, the registry of running jobs and
//! their final events, and what a job's end reports.
use vstd::prelude::*;
use crate::paths::{join_path, path_join};
use crate::text::{concat, decimal, decimal_string, str_eq, views};
use crate::output::{exit_code_text, exited_with_code};
use crate::table::KeyedTable;
use crate::json::{flat, json_parse_error, json_str_field, json_value, parse_str_field, parse_value};
use crate::output::{event_line, event_line_spec};

verus! {

/// What a transcription is asked to do.
pub struct TranscribeSettings {
    pub file_path: String,
    /// `gemini` or `whisper`.
    pub mode: String,
    /// `small` or `medium`.
    pub model_size: String,
    /// `ja` or `auto`.
    pub language: String,
    pub api_key: Option<String>,
    pub gemini_model: Option<String>,
    pub force_rerun: bool,
    /// Empty for the default place under the app data directory.
    pub cache_dir: String,
    /// Chunk length in minutes; 0 for the default.
    pub chunk_minutes: u32,
}

/// The default chunk length, in minutes.
pub fn default_chunk_minutes() -> (r: u32)
    ensures
        r == 10,
{
    10
}

/// The chunk length used: the one asked for, or 10 minutes for 0.
pub open spec fn chunk_minutes_used(asked: u32) -> u32 {
    if asked == 0 {
        10
    } else {
        asked
    }
}

/// An option with a non-empty text value.
pub open spec fn flag_with(flag: Seq<char>, value: Option<String>) -> Seq<Seq<char>> {
    match value {
        Some(v) => if v@.len() > 0 {
            seq![flag, v@]
        } else {
            Seq::empty()
        },
        None => Seq::empty(),
    }
}

/// The arguments the transcriber script is run with: the script, the file, mode, model
/// size, language and cache directory (the default one when none is set), the API key
/// and Gemini model when given and not empty, `--force-rerun` when asked, and the chunk
/// length.
pub open spec fn transcriber_args_spec(script: Seq<char>, s: TranscribeSettings, app_data_dir: Seq<char>) -> Seq<
    Seq<char>,
> {
    seq![
        script,
        "--file"@,
        s.file_path@,
        "--mode"@,
        s.mode@,
        "--model-size"@,
        s.model_size@,
        "--language"@,
        s.language@,
        "--cache-dir"@,
        if s.cache_dir@.len() == 0 {
            join_path(app_data_dir, "cache"@)
        } else {
            s.cache_dir@
        },
    ] + flag_with("--api-key"@, s.api_key) + flag_with("--gemini-model"@, s.gemini_model) + (if s.force_rerun {
        seq!["--force-rerun"@]
    } else {
        Seq::empty()
    }) + seq!["--chunk-minutes"@, decimal(chunk_minutes_used(s.chunk_minutes) as nat)]
}

fn push_text(v: &mut Vec<String>, s: &str)
    ensures
        views(final(v)@) == views(old(v)@).push(s@),
{
    let ghost b = views(v@);
    v.push(String::from_str(s));
    assert(views(v@) =~= b.push(s@));
}

fn push_flag(v: &mut Vec<String>, flag: &str, value: &Option<String>)
    ensures
        views(final(v)@) == views(old(v)@) + flag_with(flag@, *value),
{
    match value {
        Some(x) => {
            if x.as_str().unicode_len() > 0 {
                let ghost b = views(v@);
                push_text(v, flag);
                push_text(v, x.as_str());
                assert(views(v@) =~= b + seq![flag@, x@]);
            } else {
                assert(views(v@) =~= views(v@) + Seq::<Seq<char>>::empty());
            }
        },
        None => {
            assert(views(v@) =~= views(v@) + Seq::<Seq<char>>::empty());
        },
    }
}

/// The transcriber's command-line arguments, after the interpreter.
pub fn transcriber_args(script: &str, settings: &TranscribeSettings, app_data_dir: &str) -> (r: Vec<String>)
    ensures
        views(r@) == transcriber_args_spec(script@, *settings, app_data_dir@),
{
    let mut v: Vec<String> = Vec::new();
    push_text(&mut v, script);
    push_text(&mut v, "--file");
    push_text(&mut v, settings.file_path.as_str());
    push_text(&mut v, "--mode");
    push_text(&mut v, settings.mode.as_str());
    push_text(&mut v, "--model-size");
    push_text(&mut v, settings.model_size.as_str());
    push_text(&mut v, "--language");
    push_text(&mut v, settings.language.as_str());
    push_text(&mut v, "--cache-dir");
    if settings.cache_dir.as_str().unicode_len() == 0 {
        let d = path_join(app_data_dir, "cache");
        push_text(&mut v, d.as_str());
    } else {
        push_text(&mut v, settings.cache_dir.as_str());
    }
    let ghost head = views(v@);
    push_flag(&mut v, "--api-key", &settings.api_key);
    push_flag(&mut v, "--gemini-model", &settings.gemini_model);
    let ghost mid = views(v@);
    if settings.force_rerun {
        push_text(&mut v, "--force-rerun");
    }
    assert(views(v@) =~= mid + (if settings.force_rerun {
        seq!["--force-rerun"@]
    } else {
        Seq::<Seq<char>>::empty()
    }));
    let minutes = if settings.chunk_minutes == 0 {
        10
    } else {
        settings.chunk_minutes
    };
    push_text(&mut v, "--chunk-minutes");
    let m = decimal_string(minutes as u64);
    push_text(&mut v, m.as_str());
    assert(views(v@) =~= transcriber_args_spec(script@, *settings, app_data_dir@));
    v
}

// ---------------------------------------------------------------------------
// The job registry
// ---------------------------------------------------------------------------

/// Running jobs by id (a handle `J` for each, for cancelling it), and the final event
/// (`F`) of each job that has ended and was not collected yet.
pub struct JobRegistry<J, F> {
    jobs: KeyedTable<J>,
    finals: KeyedTable<F>,
}

impl<J, F> JobRegistry<J, F> {
    /// The running jobs.
    pub closed spec fn jobs_map(&self) -> Map<Seq<char>, J> {
        self.jobs.as_map()
    }

    /// The final events not collected yet.
    pub closed spec fn finals_map(&self) -> Map<Seq<char>, F> {
        self.finals.as_map()
    }

    /// No jobs and no final events.
    pub fn new() -> (r: Self)
        ensures
            r.jobs_map() == Map::<Seq<char>, J>::empty(),
            r.finals_map() == Map::<Seq<char>, F>::empty(),
    {
        JobRegistry { jobs: KeyedTable::new(), finals: KeyedTable::new() }
    }

    /// Records a running job.
    pub fn insert(&mut self, job_id: String, slot: J)
        ensures
            final(self).jobs_map() == old(self).jobs_map().insert(job_id@, slot),
            final(self).finals_map() == old(self).finals_map(),
    {
        self.jobs.insert(job_id, slot);
    }

    /// Removes a job and hands back its handle, if it was running.
    pub fn take(&mut self, job_id: &str) -> (r: Option<J>)
        ensures
            final(self).jobs_map() == old(self).jobs_map().remove(job_id@),
            final(self).finals_map() == old(self).finals_map(),
            old(self).jobs_map().dom().contains(job_id@) ==> r == Some(old(self).jobs_map()[job_id@]),
            !old(self).jobs_map().dom().contains(job_id@) ==> r is None,
    {
        self.jobs.take(job_id)
    }

    /// Keeps a job's final event until it is collected (replacing an earlier one).
    pub fn store_final(&mut self, job_id: &str, value: F)
        ensures
            final(self).finals_map() == old(self).finals_map().insert(job_id@, value),
            final(self).jobs_map() == old(self).jobs_map(),
    {
        self.finals.insert(String::from_str(job_id), value);
    }

    /// Collects a job's final event, if one is waiting.
    pub fn take_final(&mut self, job_id: &str) -> (r: Option<F>)
        ensures
            final(self).finals_map() == old(self).finals_map().remove(job_id@),
            final(self).jobs_map() == old(self).jobs_map(),
            old(self).finals_map().dom().contains(job_id@) ==> r == Some(
                old(self).finals_map()[job_id@],
            ),
            !old(self).finals_map().dom().contains(job_id@) ==> r is None,
    {
        self.finals.take(job_id)
    }

    /// The ids of the running jobs, each once.
    pub fn active_ids(&self) -> (r: Vec<String>)
        ensures
            views(r@).to_set() == self.jobs_map().dom(),
            views(r@).no_duplicates(),
    {
        self.jobs.keys()
    }
}

/// A job's final event is handed out once: collecting it right after storing it gives
/// it back and leaves nothing for a second collection; storing it leaves the running
/// jobs alone.
pub proof fn lemma_final_collected_once<F>(finals: Map<Seq<char>, F>, id: Seq<char>, v: F)
    ensures
        finals.insert(id, v).dom().contains(id),
        finals.insert(id, v)[id] == v,
        !finals.insert(id, v).remove(id).dom().contains(id),
        forall|other: Seq<char>| other != id ==> (#[trigger] finals.insert(id, v).remove(id).dom().contains(other)) == finals.dom().contains(other),
{
}

/// A job recorded and then taken is handed back, and is no longer running.
pub proof fn lemma_job_taken_back<J>(jobs: Map<Seq<char>, J>, id: Seq<char>, slot: J)
    ensures
        jobs.insert(id, slot)[id] == slot,
        !jobs.insert(id, slot).remove(id).dom().contains(id),
{
}

// ---------------------------------------------------------------------------
// Events of a job
// ---------------------------------------------------------------------------

/// The events a job's progress is reported under: `transcribe:<id>`.
pub fn transcribe_event_name(job_id: &str) -> (r: String)
    ensures
        r@ == "transcribe:"@ + job_id@,
{
    concat("transcribe:", job_id)
}

/// The events a job's unparsed output lines are reported under: `transcribe:log:<id>`.
pub fn transcribe_log_event_name(job_id: &str) -> (r: String)
    ensures
        r@ == "transcribe:log:"@ + job_id@,
{
    concat("transcribe:log:", job_id)
}

/// An event of type `result` or `error` ends a job.
pub open spec fn is_final_type(event_type: Option<Seq<char>>) -> bool {
    event_type == Some("result"@) || event_type == Some("error"@)
}

/// Whether an event, by its `type` (when a string), is the job's last.
pub fn is_final_event(event_type: &Option<String>) -> (r: bool)
    ensures
        r == is_final_type(
            match event_type {
                Some(t) => Some(t@),
                None => None,
            },
        ),
{
    match event_type {
        Some(t) => str_eq(t.as_str(), "result") || str_eq(t.as_str(), "error"),
        None => false,
    }
}

/// What to do with one line of the transcriber's output.
pub enum LineAction {
    /// Not an event line (blank, or not starting with `{`): ignore it.
    Skip,
    /// An event line that is not JSON: report it under the log events, with this text.
    Log(String),
    /// A JSON event: report this value; when `true`, it is the job's final event, to be
    /// kept for collection, and reading stops after it.
    Emit(serde_json::Value, bool),
}

/// What a line of the transcriber's output calls for, by its trimmed text: nothing for
/// a line that is not an event; logging when it is not JSON; else reporting it, final
/// when its `type` is `result` or `error`.
pub open spec fn line_action_spec(line: Seq<char>, r: LineAction) -> bool {
    match event_line_spec(line) {
        None => r is Skip,
        Some(t) => match json_parse_error(t) {
            Some(_) => r matches LineAction::Log(l) && l@ == t,
            None => r matches LineAction::Emit(v, fin) && json_value(t) == Some(v) && fin == is_final_type(
                flat(json_str_field(t, "type"@)),
            ),
        },
    }
}

/// Reads one line of the transcriber's output. The value emitted is the line's trimmed
/// text parsed by `serde_json`.
pub fn transcribe_line(line: &str) -> (r: LineAction)
    ensures
        line_action_spec(line@, r),
{
    let t = match event_line(line) {
        None => return LineAction::Skip,
        Some(t) => t,
    };
    match parse_value(t.as_str()) {
        None => LineAction::Log(t),
        Some(v) => {
            let ty = parse_str_field(t.as_str(), "type");
            let fin = match ty {
                Some(x) => is_final_event(&x),
                None => false,
            };
            LineAction::Emit(v, fin)
        },
    }
}

/// A line that is a job's final event: a JSON event whose `type` is `result` or `error`.
pub open spec fn is_final_line(line: Seq<char>) -> bool {
    match event_line_spec(line) {
        Some(t) => json_parse_error(t) is None && is_final_type(flat(json_str_field(t, "type"@))),
        None => false,
    }
}

/// Whether reading `lines` in order has met the job's final event.
pub open spec fn output_finished(lines: Seq<Seq<char>>) -> bool
    decreases lines.len(),
{
    lines.len() > 0 && (output_finished(lines.drop_last()) || is_final_line(lines.last()))
}

/// The reading of a job's output, line by line, which is over once the job's final
/// event has been emitted.
pub struct JobOutput {
    finished: bool,
}

impl View for JobOutput {
    type V = bool;

    /// Whether the final event has been emitted.
    closed spec fn view(&self) -> bool {
        self.finished
    }
}

impl JobOutput {
    /// Nothing read yet.
    pub fn new() -> (r: Self)
        ensures
            !r@,
    {
        JobOutput { finished: false }
    }

    /// Whether the final event has been emitted, so that reading stops.
    pub fn finished(&self) -> (r: bool)
        ensures
            r == self@,
    {
        self.finished
    }

    /// What the next line calls for: once the final event was emitted, nothing; before,
    /// what [`transcribe_line`] says. Emitting the final event ends the reading.
    pub fn feed(&mut self, line: &str) -> (r: LineAction)
        ensures
            old(self)@ ==> r is Skip,
            !old(self)@ ==> line_action_spec(line@, r),
            final(self)@ == (old(self)@ || is_final_line(line@)),
    {
        if self.finished {
            return LineAction::Skip;
        }
        let r = transcribe_line(line);
        match &r {
            LineAction::Emit(_, fin) => {
                if *fin {
                    self.finished = true;
                }
            },
            _ => {},
        }
        r
    }
}

/// Once a line is the job's final event, the reading of every longer run of the output
/// is over: no later line is emitted.
pub proof fn lemma_nothing_after_final(lines: Seq<Seq<char>>, k: int, j: int)
    requires
        0 <= k < j <= lines.len(),
        is_final_line(lines[k]),
    ensures
        output_finished(lines.take(j)),
    decreases j,
{
    let p = lines.take(j);
    if k == j - 1 {
        assert(p.last() == lines[k]);
    } else {
        lemma_nothing_after_final(lines, k, j - 1);
        assert(p.drop_last() =~= lines.take(j - 1));
    }
}

/// The event reported when a job's process ends without success.
pub enum JobEnd {
    /// It was cancelled (its entry had already been taken out of the registry), with
    /// this message.
    Cancelled(String),
    /// It failed, with this message.
    Failed(String),
}

/// The message of a cancelled job.
pub open spec fn cancelled_message() -> Seq<char> {
    "Transcription cancelled."@
}

/// What a job's end reports, as whether it was a cancellation and its message: nothing
/// after success; a cancellation when its entry was no longer registered; else the
/// failure with the process's exit code.
pub open spec fn job_end_spec(success: bool, still_registered: bool, code: Option<i32>) -> Option<
    (bool, Seq<char>),
> {
    if success {
        None
    } else if !still_registered {
        Some((true, cancelled_message()))
    } else {
        Some((false, "Transcription process"@ + " exited with code "@ + exit_code_text(code)))
    }
}

/// How a job's process ended, as an event to report (if any).
pub fn transcribe_exit_event(success: bool, still_registered: bool, code: Option<i32>) -> (r: Option<JobEnd>)
    ensures
        match r {
            None => None,
            Some(JobEnd::Cancelled(m)) => Some((true, m@)),
            Some(JobEnd::Failed(m)) => Some((false, m@)),
        } == job_end_spec(success, still_registered, code),
{
    if success {
        None
    } else if !still_registered {
        Some(JobEnd::Cancelled(String::from_str("Transcription cancelled.")))
    } else {
        Some(JobEnd::Failed(exited_with_code("Transcription process", code)))
    }
}

} // verus!
