use transcriber_kun::memo::{memo_event_name, memo_exit_error, memo_generator_args, memo_line, MemoRequest};
use transcriber_kun::table::KeyedTable;
use transcriber_kun::transcribe::{
    is_final_event, transcribe_event_name, transcribe_exit_event, transcribe_line, transcribe_log_event_name,
    transcriber_args, JobEnd, JobOutput, JobRegistry, LineAction, TranscribeSettings,
};

fn settings() -> TranscribeSettings {
    TranscribeSettings {
        file_path: "/a/talk.mp3".to_string(),
        mode: "gemini".to_string(),
        model_size: "small".to_string(),
        language: "ja".to_string(),
        api_key: Some("KEY".to_string()),
        gemini_model: Some(String::new()),
        force_rerun: true,
        cache_dir: String::new(),
        chunk_minutes: 0,
    }
}

#[test]
fn transcriber_command_line() {
    let args = transcriber_args("/r/python/transcriber.py", &settings(), "/data");
    assert_eq!(
        args,
        vec![
            "/r/python/transcriber.py", "--file", "/a/talk.mp3", "--mode", "gemini", "--model-size", "small",
            "--language", "ja", "--cache-dir", "/data/cache", "--api-key", "KEY", "--force-rerun",
            "--chunk-minutes", "10",
        ]
    );
    let other = TranscribeSettings {
        api_key: None,
        gemini_model: Some("gemini-2.5-pro".to_string()),
        force_rerun: false,
        cache_dir: "/mine".to_string(),
        chunk_minutes: 25,
        ..settings()
    };
    assert_eq!(
        transcriber_args("t.py", &other, "/data"),
        vec![
            "t.py", "--file", "/a/talk.mp3", "--mode", "gemini", "--model-size", "small", "--language", "ja",
            "--cache-dir", "/mine", "--gemini-model", "gemini-2.5-pro", "--chunk-minutes", "25",
        ]
    );
}

#[test]
fn event_names() {
    assert_eq!(transcribe_event_name("j1"), "transcribe:j1");
    assert_eq!(transcribe_log_event_name("j1"), "transcribe:log:j1");
    assert_eq!(memo_event_name("m7"), "memo:m7");
}

#[test]
fn final_events() {
    assert!(is_final_event(&Some("result".to_string())));
    assert!(is_final_event(&Some("error".to_string())));
    assert!(!is_final_event(&Some("progress".to_string())));
    assert!(!is_final_event(&Some("Result".to_string())));
    assert!(!is_final_event(&None));
}

#[test]
fn job_endings() {
    assert!(transcribe_exit_event(true, true, Some(0)).is_none());
    assert!(transcribe_exit_event(true, false, Some(0)).is_none());
    match transcribe_exit_event(false, false, None) {
        Some(JobEnd::Cancelled(m)) => assert_eq!(m, "Transcription cancelled."),
        _ => panic!("expected a cancellation"),
    }
    match transcribe_exit_event(false, true, Some(3)) {
        Some(JobEnd::Failed(m)) => assert_eq!(m, "Transcription process exited with code 3"),
        _ => panic!("expected a failure"),
    }
    match transcribe_exit_event(false, true, None) {
        Some(JobEnd::Failed(m)) => assert_eq!(m, "Transcription process exited with code -1"),
        _ => panic!("expected a failure"),
    }
}

#[test]
fn registry_hands_out_final_events_once() {
    let mut reg: JobRegistry<u32, String> = JobRegistry::new();
    reg.insert("a".to_string(), 1);
    reg.insert("b".to_string(), 2);
    let mut ids = reg.active_ids();
    ids.sort();
    assert_eq!(ids, vec!["a", "b"]);
    reg.store_final("a", "done".to_string());
    assert_eq!(reg.take_final("a"), Some("done".to_string()));
    assert_eq!(reg.take_final("a"), None);
    assert_eq!(reg.take("a"), Some(1));
    assert_eq!(reg.take("a"), None);
    assert_eq!(reg.active_ids(), vec!["b"]);
    reg.store_final("b", "first".to_string());
    reg.store_final("b", "second".to_string());
    assert_eq!(reg.take_final("b"), Some("second".to_string()));
    assert_eq!(reg.take_final("zzz"), None);
}

#[test]
fn keyed_table_replaces_and_removes() {
    let mut t: KeyedTable<i32> = KeyedTable::new();
    t.insert("x".to_string(), 1);
    t.insert("y".to_string(), 2);
    t.insert("x".to_string(), 3);
    assert_eq!(t.keys().len(), 2);
    assert_eq!(t.take("x"), Some(3));
    assert_eq!(t.take("x"), None);
    assert_eq!(t.keys(), vec!["y"]);
}

#[test]
fn memo_command_line_and_exit() {
    let req = MemoRequest {
        transcript_json_path: "/c/t.json".to_string(),
        api_key: "K".to_string(),
        gemini_model: "gemini-3.5-flash".to_string(),
        memo_prompt_template: "P {transcript}".to_string(),
        cache_memo_path: "/c/m.memo.txt".to_string(),
        force_rerun: false,
    };
    assert_eq!(
        memo_generator_args("memo.py", &req),
        vec![
            "memo.py", "--transcript", "/c/t.json", "--api-key", "K", "--model", "gemini-3.5-flash",
            "--prompt-template", "P {transcript}", "--output", "/c/m.memo.txt",
        ]
    );
    let forced = MemoRequest { force_rerun: true, ..req };
    assert_eq!(memo_generator_args("memo.py", &forced).last().unwrap(), "--force-rerun");
    assert_eq!(memo_exit_error(true, Some(1)), None);
    assert_eq!(memo_exit_error(false, Some(1)), Some("Memo generator exited with code 1".to_string()));
    assert_eq!(memo_exit_error(false, None), Some("Memo generator exited with code -1".to_string()));
}

#[test]
fn transcriber_output_lines() {
    assert!(matches!(transcribe_line("   "), LineAction::Skip));
    assert!(matches!(transcribe_line("Loading model..."), LineAction::Skip));
    match transcribe_line("  {not json  ") {
        LineAction::Log(t) => assert_eq!(t, "{not json"),
        _ => panic!("expected a log line"),
    }
    match transcribe_line(" {\"type\":\"progress\",\"percent\":50} ") {
        LineAction::Emit(v, fin) => {
            assert!(!fin);
            assert_eq!(v["percent"], 50);
        }
        _ => panic!("expected an event"),
    }
    match transcribe_line("{\"type\":\"result\",\"segments\":[]}") {
        LineAction::Emit(v, fin) => {
            assert!(fin);
            assert_eq!(v["type"], "result");
        }
        _ => panic!("expected an event"),
    }
    assert!(matches!(transcribe_line("{\"type\":\"error\"}"), LineAction::Emit(_, true)));
    assert!(matches!(transcribe_line("{\"type\":7}"), LineAction::Emit(_, false)));
}

#[test]
fn memo_output_lines() {
    assert!(memo_line("progress").is_none());
    assert!(memo_line("{oops").is_none());
    let v = memo_line("  {\"type\":\"result\",\"content\":\"memo\"}").unwrap();
    assert_eq!(v, js(r#"{"type":"result","content":"memo"}"#));
}

#[test]
fn nothing_is_emitted_after_the_final_event() {
    let mut out = JobOutput::new();
    assert!(!out.finished());
    assert!(matches!(out.feed("{\"type\":\"progress\"}"), LineAction::Emit(_, false)));
    assert!(!out.finished());
    match out.feed("  {\"type\":\"result\",\"segments\":[1]}") {
        LineAction::Emit(v, true) => assert_eq!(v, js(r#"{"type":"result","segments":[1]}"#)),
        _ => panic!("expected the final event"),
    }
    assert!(out.finished());
    assert!(matches!(out.feed("{\"type\":\"progress\"}"), LineAction::Skip));
    assert!(matches!(out.feed("{broken"), LineAction::Skip));
}

#[test]
fn stored_final_event_is_the_printed_line() {
    let mut reg: JobRegistry<u8, serde_json::Value> = JobRegistry::new();
    if let LineAction::Emit(v, true) = transcribe_line("{\"type\":\"result\",\"cached\":false}") {
        reg.store_final("j", v);
    }
    assert_eq!(reg.take_final("j"), Some(js(r#"{"type":"result","cached":false}"#)));
    assert_eq!(reg.take_final("j"), None);
}

fn js(text: &str) -> serde_json::Value {
    serde_json::from_str(text).unwrap()
}
