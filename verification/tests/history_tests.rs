use transcriber_kun::history::{
    delete_transcript, epoch_to_ymdhms, fits_calendar, has_memo_for, iso_from_epoch, latest_memo, list_transcripts,
    load_transcript, memo_prefix, sanitize_for_memo_key, trim_end_matches, CacheFile, MemoFile, MetaFields,
    TranscriptShape, TranscriptSummary, list_transcripts_in, load_transcript_text, sidecar_transcript, transcript_segments, DirFile,
};

fn s(x: &str) -> String {
    x.to_string()
}

fn names(v: &[&str]) -> Vec<String> {
    v.iter().map(|x| x.to_string()).collect()
}

fn meta(hash: &str, source: &str, created: &str) -> MetaFields {
    MetaFields {
        file_hash: Some(s(hash)),
        source_path: Some(format!("/audio/{source}")),
        source_name: Some(s(source)),
        engine: Some(s("gemini")),
        mode: Some(s("gemini")),
        language: Some(s("ja")),
        model_size: None,
        created_at: Some(s(created)),
        segment_count: Some(12),
        duration_sec_bits: Some(61.5f64.to_bits()),
    }
}

fn plain(name: &str) -> CacheFile {
    CacheFile { name: s(name), meta: None, transcript_exists: false, summary: None, modified_secs: None }
}

fn sidecar(name: &str, m: MetaFields, transcript_exists: bool) -> CacheFile {
    CacheFile { name: s(name), meta: Some(m), transcript_exists, summary: None, modified_secs: None }
}

#[test]
fn memo_key_sanitizing() {
    assert_eq!(sanitize_for_memo_key("My Podcast Episode #12.mp3"), "My-Podcast-Episode-12");
    assert_eq!(sanitize_for_memo_key(".hidden"), "transcript");
    assert_eq!(sanitize_for_memo_key("a--b.c.d"), "a--b.c");
    assert_eq!(sanitize_for_memo_key("日本語.m4a"), "transcript");
    assert_eq!(sanitize_for_memo_key("--x--.txt"), "x");
    assert_eq!(sanitize_for_memo_key("ab c"), "ab-c");
    assert_eq!(sanitize_for_memo_key("a b."), "a-b");
    assert_eq!(sanitize_for_memo_key(""), "transcript");
    let long = format!("{}.mp3", "a".repeat(100));
    assert_eq!(sanitize_for_memo_key(&long), "a".repeat(80));
    assert_eq!(memo_prefix("talk.mp3"), "talk-");
}

#[test]
fn calendar_of_epoch_seconds() {
    assert_eq!(epoch_to_ymdhms(0), (1970, 1, 1, 0, 0, 0));
    assert_eq!(epoch_to_ymdhms(86399), (1970, 1, 1, 23, 59, 59));
    assert_eq!(epoch_to_ymdhms(951782400), (2000, 2, 29, 0, 0, 0));
    assert_eq!(epoch_to_ymdhms(1725029869), (2024, 8, 30, 14, 57, 49));
    assert_eq!(epoch_to_ymdhms(4102444799), (2099, 12, 31, 23, 59, 59));
    assert_eq!(epoch_to_ymdhms(31536000), (1971, 1, 1, 0, 0, 0));
}

#[test]
fn iso_timestamps() {
    assert_eq!(iso_from_epoch(0), "1970-01-01T00:00:00Z");
    assert_eq!(iso_from_epoch(86399), "1970-01-01T23:59:59Z");
    assert_eq!(iso_from_epoch(951782400), "2000-02-29T00:00:00Z");
    assert_eq!(iso_from_epoch(1725029869), "2024-08-30T14:57:49Z");
    assert_eq!(iso_from_epoch(4102444799), "2099-12-31T23:59:59Z");
}

#[test]
fn calendar_bounds() {
    assert!(fits_calendar(0));
    assert!(fits_calendar(4102444799));
    assert!(!fits_calendar(-1));
    assert!(!fits_calendar(i64::MAX));
}

#[test]
fn memo_presence_by_prefix_and_suffix() {
    let files = names(&["talk-20240101.memo.txt", "other-1.memo.txt", "talk-x.txt"]);
    assert!(has_memo_for(&files, "talk.mp3"));
    assert!(!has_memo_for(&files, "none.mp3"));
    assert!(!has_memo_for(&files, ""));
    let no_memo = names(&["talk-20240101.transcript.json"]);
    assert!(!has_memo_for(&no_memo, "talk.mp3"));
}

#[test]
fn newest_memo_is_chosen() {
    let files = vec![
        MemoFile { name: s("talk-a.memo.txt"), modified_nanos: 100 },
        MemoFile { name: s("other-b.memo.txt"), modified_nanos: 900 },
        MemoFile { name: s("talk-c.memo.txt"), modified_nanos: 300 },
        MemoFile { name: s("talk-d.memo.txt"), modified_nanos: 300 },
        MemoFile { name: s("talk-e.transcript.json"), modified_nanos: 999 },
    ];
    assert_eq!(latest_memo(&files, "talk.mp3"), Some(2));
    assert_eq!(latest_memo(&files, "missing.mp3"), None);
    assert_eq!(latest_memo(&files, ""), None);
}

#[test]
fn trailing_suffixes_are_all_removed() {
    assert_eq!(trim_end_matches("abc.json", ".json"), "abc");
    assert_eq!(trim_end_matches("abc.json.json", ".json"), "abc");
    assert_eq!(trim_end_matches("abc", ".json"), "abc");
    assert_eq!(trim_end_matches("abc", ""), "abc");
}

#[test]
fn history_lists_sidecars_then_legacy_newest_first() {
    let files = vec![
        sidecar("h1.meta.json", meta("h1", "first.mp3", "2024-01-01T00:00:00Z"), true),
        plain("h1.json"),
        sidecar("h2.meta.json", meta("h2", "second.mp3", "2024-06-01T00:00:00Z"), true),
        plain("h2.json"),
        // a sidecar whose transcript is gone is skipped
        sidecar("gone.meta.json", meta("gone", "gone.mp3", "2025-01-01T00:00:00Z"), false),
        // a sidecar without a hash is skipped
        sidecar("nohash.meta.json", MetaFields { file_hash: None, ..meta("x", "x.mp3", "2025") }, true),
        CacheFile {
            name: s("legacy.json"),
            meta: None,
            transcript_exists: false,
            summary: Some(TranscriptSummary { engine: Some(s("whisper")), segment_count: Some(3) }),
            modified_secs: Some(1725029869),
        },
        plain("second-abc.transcript.json"),
        plain("second-abc.memo.txt"),
        plain("notes.txt"),
    ];
    let out = list_transcripts(&files);
    let hashes: Vec<&str> = out.iter().map(|e| e.file_hash.as_str()).collect();
    assert_eq!(hashes, vec!["legacy", "h2", "h1"]);
    let legacy = &out[0];
    assert_eq!(legacy.source_name, "Unknown");
    assert_eq!(legacy.engine, "whisper");
    assert_eq!(legacy.segment_count, 3);
    assert_eq!(legacy.created_at, "2024-08-30T14:57:49Z");
    assert!(!legacy.has_memo);
    let h2 = &out[1];
    assert_eq!(h2.source_name, "second.mp3");
    assert_eq!(h2.source_path, "/audio/second.mp3");
    assert_eq!(h2.model_size, "");
    assert_eq!(h2.segment_count, 12);
    assert_eq!(f64::from_bits(h2.duration_sec_bits), 61.5);
    assert!(h2.has_memo);
    assert!(!out[2].has_memo);
}

#[test]
fn legacy_file_without_time_or_summary() {
    let files = vec![plain("abc.json")];
    let out = list_transcripts(&files);
    assert_eq!(out.len(), 1);
    assert_eq!(out[0].file_hash, "abc");
    assert_eq!(out[0].engine, "");
    assert_eq!(out[0].created_at, "");
    assert_eq!(out[0].segment_count, 0);
}

#[test]
fn empty_directory_lists_nothing() {
    assert!(list_transcripts(&Vec::new()).is_empty());
}

#[test]
fn loading_with_sidecar_and_memo() {
    let shape = TranscriptShape { is_array: false, engine: Some(s("whisper")) };
    let m = Some(MetaFields { engine: None, ..meta("ignored", "talk.mp3", "2024") });
    let memos = vec![
        MemoFile { name: s("talk-1.memo.txt"), modified_nanos: 5 },
        MemoFile { name: s("talk-2.memo.txt"), modified_nanos: 7 },
    ];
    let loaded = load_transcript("h9", &shape, &m, &memos);
    assert_eq!(loaded.engine, "whisper");
    assert_eq!(loaded.meta.file_hash, "h9");
    assert_eq!(loaded.meta.engine, "whisper");
    assert_eq!(loaded.meta.source_name, "talk.mp3");
    assert!(!loaded.meta.has_memo);
    assert_eq!(loaded.memo, Some(1));
}

#[test]
fn loading_bare_array_without_sidecar() {
    let shape = TranscriptShape { is_array: true, engine: Some(s("gemini")) };
    let memos = vec![MemoFile { name: s("transcript-1.memo.txt"), modified_nanos: 5 }];
    let loaded = load_transcript("h3", &shape, &None, &memos);
    assert_eq!(loaded.engine, "");
    assert_eq!(loaded.meta.file_hash, "h3");
    assert_eq!(loaded.meta.source_name, "");
    assert_eq!(loaded.meta.created_at, "");
    assert_eq!(loaded.memo, None);
}

#[test]
fn deleting_lists_own_files_and_memo_artifacts() {
    let dir = names(&["h.json", "talk-1.memo.txt", "talk-1.transcript.json", "talk-1.txt", "other-1.memo.txt"]);
    assert_eq!(
        delete_transcript("h", "talk.mp3", &dir),
        vec!["h.json", "h.txt", "h.srt", "h.meta.json", "talk-1.memo.txt", "talk-1.transcript.json"]
    );
    assert_eq!(delete_transcript("h", "", &dir), vec!["h.json", "h.txt", "h.srt", "h.meta.json"]);
}

#[test]
fn memo_keys_are_short_plain_and_never_start_with_a_dash() {
    let long = "é ".repeat(90);
    for name in ["", "-", "??.mp3", " lead", "x y z.tar.gz", "日本語 エピソード 3.m4a", long.as_str()] {
        let k = sanitize_for_memo_key(name);
        assert!(!k.is_empty() && k.chars().count() <= 80);
        assert!(k.chars().all(|c| c.is_ascii_alphanumeric() || c == '.' || c == '_' || c == '-'));
        assert!(!k.starts_with('-'));
    }
}

#[test]
fn last_calendar_day() {
    assert!(fits_calendar(784351576777 * 86400 - 1));
    assert!(!fits_calendar(784351576777 * 86400));
    assert_eq!(iso_from_epoch(784351576777 * 86400 - 1), "2147483647-12-31T23:59:59Z");
}

fn dir(name: &str, text: Option<&str>, secs: Option<i64>, present: &[&str]) -> DirFile {
    let text = text.map(|t| t.to_string());
    let transcript_exists = match sidecar_transcript(name, &text) {
        Some(t) => present.contains(&t.as_str()),
        None => false,
    };
    DirFile { name: s(name), text, transcript_exists, modified_secs: secs }
}

#[test]
fn history_from_file_texts() {
    const PRESENT: &[&str] = &["h1.json", "old.json", "bad.json"];
    let files = vec![
        dir("h1.meta.json", Some(r#"{"file_hash":"h1","source_name":"talk.mp3","created_at":"2024-02-01","segment_count":4,"duration_sec":12.5,"engine":"gemini"}"#), None, PRESENT),
        dir("h1.json", Some(r#"{"segments":[1,2,3,4]}"#), Some(0), PRESENT),
        dir("orphan.meta.json", Some(r#"{"file_hash":"orphan","created_at":"2025"}"#), None, PRESENT),
        dir("broken.meta.json", Some("{not json"), None, PRESENT),
        dir("old.json", Some(r#"{"engine":"whisper","segments":[1,2]}"#), Some(1725029869), PRESENT),
        dir("bad.json", Some("[oops"), Some(0), PRESENT),
        dir("talk-x.memo.txt", None, None, PRESENT),
    ];
    let out = list_transcripts_in(&files);
    let hashes: Vec<&str> = out.iter().map(|e| e.file_hash.as_str()).collect();
    assert_eq!(hashes, vec!["old", "h1", "bad"]);
    let h1 = &out[1];
    assert_eq!(h1.source_name, "talk.mp3");
    assert_eq!(h1.segment_count, 4);
    assert_eq!(f64::from_bits(h1.duration_sec_bits), 12.5);
    assert!(h1.has_memo);
    assert_eq!(out[0].engine, "whisper");
    assert_eq!(out[0].segment_count, 2);
    assert_eq!(out[2].engine, "");
    assert_eq!(out[2].created_at, "1970-01-01T00:00:00Z");
}

#[test]
fn loading_from_texts() {
    let memos = vec![MemoFile { name: s("talk-1.memo.txt"), modified_nanos: 1 }];
    let err = load_transcript_text("h", "{oops", &None, &memos).err().unwrap();
    assert!(err.starts_with("Cannot parse transcript: "));
    let l = load_transcript_text(
        "h",
        r#"{"engine":"whisper","segments":[{"t":1}]}"#,
        &Some(r#"{"source_name":"talk.mp3","mode":"whisper"}"#.to_string()),
        &memos,
    )
    .ok()
    .unwrap();
    assert_eq!(l.engine, "whisper");
    assert_eq!(l.meta.engine, "whisper");
    assert_eq!(l.meta.mode, "whisper");
    assert_eq!(l.memo, Some(0));
    let arr = load_transcript_text("h", r#"[{"t":1}]"#, &Some("{broken".to_string()), &memos).ok().unwrap();
    assert_eq!(arr.engine, "");
    assert_eq!(arr.meta.source_name, "");
    assert_eq!(arr.memo, None);
    assert_eq!(transcript_segments(r#"[{"t":1}]"#).unwrap().as_array().unwrap().len(), 1);
    assert_eq!(transcript_segments(r#"{"segments":[1,2]}"#).unwrap().as_array().unwrap().len(), 2);
    assert_eq!(transcript_segments(r#"{"x":1}"#).unwrap().as_array().unwrap().len(), 0);
    assert!(transcript_segments("nope").is_none());
}

#[test]
fn sidecar_names_its_transcript() {
    assert_eq!(sidecar_transcript("x.meta.json", &Some(r#"{"file_hash":"abc"}"#.to_string())), Some("abc.json".to_string()));
    assert_eq!(sidecar_transcript("x.meta.json", &Some("{bad".to_string())), None);
    assert_eq!(sidecar_transcript("x.json", &Some(r#"{"file_hash":"abc"}"#.to_string())), None);
    assert_eq!(sidecar_transcript("x.meta.json", &None), None);
}

#[test]
fn segments_are_the_parsed_values() {
    let v = transcript_segments(r#"{"segments":[{"text":"hi"}],"engine":"x"}"#).unwrap();
    assert_eq!(v, js(r#"[{"text":"hi"}]"#));
    let w = transcript_segments(r#"[{"text":"a"},{"text":"b"}]"#).unwrap();
    assert_eq!(w, js(r#"[{"text":"a"},{"text":"b"}]"#));
    assert_eq!(transcript_segments(r#"{"engine":"x"}"#).unwrap(), js("[]"));
}

fn js(text: &str) -> serde_json::Value {
    serde_json::from_str(text).unwrap()
}
