use transcriber_kun::settings::{
    default_chunk_minutes, default_memo_prompt_template, gemini_api_key, gemini_models_outcome, get_cache_dir, get_settings,
    list_gemini_models, normalize_settings, AppSettings, GeminiModelsResponse, ModelsAction, ModelsEvent, DEFAULT_MEMO_PROMPT_TEMPLATE,
};

fn stored(model: &str, cache_dir: &str) -> AppSettings {
    AppSettings {
        ai_mode: "whisper".to_string(),
        gemini_api_key: "k".to_string(),
        gemini_model: model.to_string(),
        whisper_model_size: "medium".to_string(),
        language: "auto".to_string(),
        force_rerun: true,
        cache_dir: cache_dir.to_string(),
        chunk_minutes: 5,
        memo_prompt_template: "{transcript}".to_string(),
    }
}

#[test]
fn defaults_of_a_first_launch() {
    let d = AppSettings::default();
    assert_eq!(d.ai_mode, "gemini");
    assert_eq!(d.gemini_api_key, "");
    assert_eq!(d.gemini_model, "gemini-3.5-flash");
    assert_eq!(d.whisper_model_size, "small");
    assert_eq!(d.language, "ja");
    assert!(!d.force_rerun);
    assert_eq!(d.cache_dir, "");
    assert_eq!(d.chunk_minutes, 10);
    assert_eq!(d.memo_prompt_template, DEFAULT_MEMO_PROMPT_TEMPLATE);
    assert!(d.memo_prompt_template.ends_with("{transcript}"));
    assert_eq!(default_chunk_minutes(), 10);
    assert_eq!(default_memo_prompt_template(), DEFAULT_MEMO_PROMPT_TEMPLATE);
}

#[test]
fn retired_model_is_replaced() {
    assert_eq!(normalize_settings(stored("gemini-2.0-flash", "")).gemini_model, "gemini-3.5-flash");
    let kept = normalize_settings(stored("gemini-2.5-flash", "/c"));
    assert_eq!(kept.gemini_model, "gemini-2.5-flash");
    assert_eq!(kept.cache_dir, "/c");
    assert_eq!(kept.chunk_minutes, 5);
}

#[test]
fn settings_in_effect() {
    let first = get_settings(None, Some("/data/app".to_string()));
    assert_eq!(first.cache_dir, "/data/app/cache");
    assert_eq!(first.gemini_model, "gemini-3.5-flash");
    let unknown_dir = get_settings(None, None);
    assert_eq!(unknown_dir.cache_dir, "");
    let saved = get_settings(Some(stored("gemini-2.0-flash", "/mine")), Some("/data/app".to_string()));
    assert_eq!(saved.gemini_model, "gemini-3.5-flash");
    assert_eq!(saved.cache_dir, "/mine");
    assert_eq!(saved.ai_mode, "whisper");
}

#[test]
fn cache_dir_resolution() {
    let named = stored("m", "/mine");
    assert_eq!(get_cache_dir(&named, Ok("/data".to_string())), Ok("/mine".to_string()));
    assert_eq!(get_cache_dir(&named, Err("no dir".to_string())), Ok("/mine".to_string()));
    let unnamed = stored("m", "");
    assert_eq!(get_cache_dir(&unnamed, Ok("/data".to_string())), Ok("/data/cache".to_string()));
    assert_eq!(get_cache_dir(&unnamed, Err("no dir".to_string())), Err("no dir".to_string()));
}

#[test]
fn api_key_is_trimmed_and_required() {
    assert_eq!(gemini_api_key("  abc \n"), Ok("abc".to_string()));
    assert_eq!(gemini_api_key("   "), Err("Gemini API key is required to load models.".to_string()));
    assert_eq!(gemini_api_key(""), Err("Gemini API key is required to load models.".to_string()));
}

#[test]
fn model_listing_outcomes() {
    let models = || Some(vec!["gemini-3.5-flash".to_string(), "gemini-2.5-pro".to_string()]);
    assert_eq!(
        gemini_models_outcome(GeminiModelsResponse { models: models(), error: None }, true, Some(0)),
        Ok(vec!["gemini-3.5-flash".to_string(), "gemini-2.5-pro".to_string()])
    );
    assert_eq!(gemini_models_outcome(GeminiModelsResponse { models: None, error: None }, true, Some(0)), Ok(vec![]));
    assert_eq!(
        gemini_models_outcome(GeminiModelsResponse { models: models(), error: Some("bad key".to_string()) }, true, Some(0)),
        Err("bad key".to_string())
    );
    assert_eq!(
        gemini_models_outcome(GeminiModelsResponse { models: None, error: Some("quota".to_string()) }, false, Some(2)),
        Err("quota".to_string())
    );
    assert_eq!(
        gemini_models_outcome(GeminiModelsResponse { models: models(), error: None }, false, Some(2)),
        Err("Gemini model loader exited with code 2".to_string())
    );
    assert_eq!(
        gemini_models_outcome(GeminiModelsResponse { models: None, error: None }, false, None),
        Err("Gemini model loader exited with code -1".to_string())
    );
}

#[test]
fn normalizing_twice_is_normalizing_once() {
    let once = normalize_settings(stored("gemini-2.0-flash", "/c"));
    let twice = normalize_settings(normalize_settings(stored("gemini-2.0-flash", "/c")));
    assert_eq!(once.gemini_model, twice.gemini_model);
    assert_ne!(twice.gemini_model, "gemini-2.0-flash");
}

fn done(a: ModelsAction) -> Result<Vec<String>, String> {
    match a {
        ModelsAction::Done(r) => r,
        _ => panic!("expected the listing to be over"),
    }
}

#[test]
fn model_listing_refuses_a_blank_key_without_running() {
    let l = list_gemini_models("  \t ");
    assert_eq!(done(l.next_action()), Err("Gemini API key is required to load models.".to_string()));
}

#[test]
fn model_listing_parses_the_last_json_line() {
    let mut l = list_gemini_models(" key ");
    match l.next_action() {
        ModelsAction::Run(k) => assert_eq!(k, "key"),
        _ => panic!(),
    }
    l.answer(ModelsEvent::Output("{\"first\":1}\nlog\n  {\"models\":[\"a\"]}\n".to_string(), String::new(), true, Some(0)));
    match l.next_action() {
        ModelsAction::Parse(line) => assert_eq!(line, "  {\"models\":[\"a\"]}"),
        _ => panic!(),
    }
    l.answer(ModelsEvent::Parsed(Ok(GeminiModelsResponse { models: Some(vec!["a".to_string()]), error: None })));
    assert_eq!(done(l.next_action()), Ok(vec!["a".to_string()]));
}

#[test]
fn model_listing_errors() {
    let mut a = list_gemini_models("k");
    a.answer(ModelsEvent::Output("no json".to_string(), "trace".to_string(), false, Some(1)));
    assert_eq!(
        done(a.next_action()),
        Err("No JSON in Gemini model loader output.\nstdout: no json\nstderr: trace".to_string())
    );
    let mut b = list_gemini_models("k");
    b.answer(ModelsEvent::StartFailed("not found".to_string()));
    assert_eq!(done(b.next_action()), Err("Failed to start Gemini model loader: not found".to_string()));
    let mut c = list_gemini_models("k");
    c.answer(ModelsEvent::Output("{bad".to_string(), String::new(), true, Some(0)));
    c.answer(ModelsEvent::Parsed(Err("EOF".to_string())));
    assert_eq!(done(c.next_action()), Err("Invalid Gemini model loader output: EOF".to_string()));
    let mut d = list_gemini_models("k");
    d.answer(ModelsEvent::Output("{}".to_string(), String::new(), false, Some(3)));
    d.answer(ModelsEvent::Parsed(Ok(GeminiModelsResponse { models: None, error: None })));
    assert_eq!(done(d.next_action()), Err("Gemini model loader exited with code 3".to_string()));
}
