//! Generating a meeting memo from a transcript: the generator's command line and what
//! its end reports.
use vstd::prelude::*;
use crate::text::{concat, views};
use crate::output::{exit_code_text, exited_with_code, event_line, event_line_spec};
use crate::json::{json_parse_error, json_value, parse_value};

verus! {

/// What a memo is generated from and where it goes.
pub struct MemoRequest {
    pub transcript_json_path: String,
    pub api_key: String,
    pub gemini_model: String,
    pub memo_prompt_template: String,
    pub cache_memo_path: String,
    pub force_rerun: bool,
}

/// The arguments the memo generator script is run with: the script, the transcript,
/// key, model, prompt template and output path, then `--force-rerun` when asked.
pub open spec fn memo_args_spec(script: Seq<char>, r: MemoRequest) -> Seq<Seq<char>> {
    seq![
        script,
        "--transcript"@,
        r.transcript_json_path@,
        "--api-key"@,
        r.api_key@,
        "--model"@,
        r.gemini_model@,
        "--prompt-template"@,
        r.memo_prompt_template@,
        "--output"@,
        r.cache_memo_path@,
    ] + if r.force_rerun {
        seq!["--force-rerun"@]
    } else {
        Seq::empty()
    }
}

fn push_text(v: &mut Vec<String>, s: &str)
    ensures
        views(final(v)@) == views(old(v)@).push(s@),
{
    let ghost b = views(v@);
    v.push(String::from_str(s));
    assert(views(v@) =~= b.push(s@));
}

/// The memo generator's command-line arguments, after the interpreter.
pub fn memo_generator_args(script: &str, req: &MemoRequest) -> (r: Vec<String>)
    ensures
        views(r@) == memo_args_spec(script@, *req),
{
    let mut v: Vec<String> = Vec::new();
    push_text(&mut v, script);
    push_text(&mut v, "--transcript");
    push_text(&mut v, req.transcript_json_path.as_str());
    push_text(&mut v, "--api-key");
    push_text(&mut v, req.api_key.as_str());
    push_text(&mut v, "--model");
    push_text(&mut v, req.gemini_model.as_str());
    push_text(&mut v, "--prompt-template");
    push_text(&mut v, req.memo_prompt_template.as_str());
    push_text(&mut v, "--output");
    push_text(&mut v, req.cache_memo_path.as_str());
    if req.force_rerun {
        push_text(&mut v, "--force-rerun");
    }
    assert(views(v@) =~= memo_args_spec(script@, *req));
    v
}

/// The events a memo job's progress is reported under: `memo:<id>`.
pub fn memo_event_name(job_id: &str) -> (r: String)
    ensures
        r@ == "memo:"@ + job_id@,
{
    concat("memo:", job_id)
}

/// The error reported when the memo generator ends without success.
pub fn memo_exit_error(success: bool, code: Option<i32>) -> (r: Option<String>)
    ensures
        success ==> r is None,
        !success ==> (r matches Some(m) && m@ == "Memo generator"@ + " exited with code "@
            + exit_code_text(code)),
{
    if success {
        None
    } else {
        Some(exited_with_code("Memo generator", code))
    }
}

/// A line of the memo generator's output that is an event: its trimmed text, when it
/// starts with `{` and is JSON, parsed by `serde_json`.
pub fn memo_line(line: &str) -> (r: Option<serde_json::Value>)
    ensures
        r == match event_line_spec(line@) {
            Some(t) => json_value(t),
            None => None,
        },
        (r is Some) == (event_line_spec(line@) matches Some(t) && json_parse_error(t) is None),
{
    match event_line(line) {
        None => None,
        Some(t) => parse_value(t.as_str()),
    }
}

} // verus!
