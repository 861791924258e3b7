//! The application settings: their defaults, how stored settings are brought up to date,
//! where the cache lives, and what the Gemini model listing answers.
use vstd::prelude::*;
use crate::paths::{join_path, path_join};
use crate::text::{trim, trim_str, views};
use crate::output::{exit_code_text, exited_with_code, last_json_line, last_json_line_spec, no_json, no_json_message};
use crate::text::concat;

verus! {

/// The prompt the memo generator is given when the settings name none; `{transcript}`
/// stands for the transcript.
pub const DEFAULT_MEMO_PROMPT_TEMPLATE: &'static str = r#"あなたは議事録作成のプロフェッショナルです。
会議やポッドキャストの内容から、以下のフォーマットで日本語のメモを作成してください：

## 主な内容
* [トピック1]
   * 詳細なポイント、重要な発言、具体的な内容
   * 関連する情報やメモ
* [トピック2]
   * 詳細なポイント

## Next Action
* 具体的なアクションアイテムがあればリストアップ
* 担当者や期限が言及されていれば記載

## まとめ
全体の要約と重要なポイントを簡潔にまとめる

箇条書きを効果的に使用し、読みやすく構造化してください。

以下のトランスクリプトから議事録メモを作成してください：

{transcript}"#;

/// The default memo prompt.
pub fn default_memo_prompt_template() -> (r: String)
    ensures
        r@ == DEFAULT_MEMO_PROMPT_TEMPLATE@,
{
    String::from_str(DEFAULT_MEMO_PROMPT_TEMPLATE)
}

/// Audio longer than this many minutes is cut into chunks of this length.
pub fn default_chunk_minutes() -> (r: u32)
    ensures
        r == 10,
{
    10
}

/// The application settings.
pub struct AppSettings {
    /// `gemini` or `whisper`.
    pub ai_mode: String,
    pub gemini_api_key: String,
    pub gemini_model: String,
    /// `small` or `medium`.
    pub whisper_model_size: String,
    /// `ja` or `auto`.
    pub language: String,
    pub force_rerun: bool,
    /// Empty for the default place under the app data directory.
    pub cache_dir: String,
    pub chunk_minutes: u32,
    pub memo_prompt_template: String,
}

/// The settings as values.
pub struct SettingsView {
    pub ai_mode: Seq<char>,
    pub gemini_api_key: Seq<char>,
    pub gemini_model: Seq<char>,
    pub whisper_model_size: Seq<char>,
    pub language: Seq<char>,
    pub force_rerun: bool,
    pub cache_dir: Seq<char>,
    pub chunk_minutes: u32,
    pub memo_prompt_template: Seq<char>,
}

impl View for AppSettings {
    type V = SettingsView;

    open spec fn view(&self) -> SettingsView {
        SettingsView {
            ai_mode: self.ai_mode@,
            gemini_api_key: self.gemini_api_key@,
            gemini_model: self.gemini_model@,
            whisper_model_size: self.whisper_model_size@,
            language: self.language@,
            force_rerun: self.force_rerun,
            cache_dir: self.cache_dir@,
            chunk_minutes: self.chunk_minutes,
            memo_prompt_template: self.memo_prompt_template@,
        }
    }
}

/// The settings used before any are saved: Gemini `gemini-3.5-flash`, Whisper `small`,
/// Japanese, no forced rerun, the default cache place, 10-minute chunks, the default memo
/// prompt, and no API key.
pub open spec fn default_settings() -> SettingsView {
    SettingsView {
        ai_mode: "gemini"@,
        gemini_api_key: Seq::empty(),
        gemini_model: "gemini-3.5-flash"@,
        whisper_model_size: "small"@,
        language: "ja"@,
        force_rerun: false,
        cache_dir: Seq::empty(),
        chunk_minutes: 10,
        memo_prompt_template: DEFAULT_MEMO_PROMPT_TEMPLATE@,
    }
}

impl Default for AppSettings {
    fn default() -> (r: AppSettings)
        ensures
            r@ == default_settings(),
    {
        AppSettings {
            ai_mode: String::from_str("gemini"),
            gemini_api_key: String::new(),
            gemini_model: String::from_str("gemini-3.5-flash"),
            whisper_model_size: String::from_str("small"),
            language: String::from_str("ja"),
            force_rerun: false,
            cache_dir: String::new(),
            chunk_minutes: default_chunk_minutes(),
            memo_prompt_template: default_memo_prompt_template(),
        }
    }
}

/// Stored settings brought up to date: the retired `gemini-2.0-flash` model becomes
/// `gemini-3.5-flash`; everything else is kept.
pub open spec fn normalized(s: SettingsView) -> SettingsView {
    if s.gemini_model == "gemini-2.0-flash"@ {
        SettingsView { gemini_model: "gemini-3.5-flash"@, ..s }
    } else {
        s
    }
}

/// Bringing settings up to date twice changes nothing more than doing it once, and it
/// never leaves the retired model in place.
pub proof fn lemma_normalized_idempotent(s: SettingsView)
    ensures
        normalized(normalized(s)) == normalized(s),
        normalized(s).gemini_model != "gemini-2.0-flash"@,
{
    reveal_strlit("gemini-2.0-flash");
    reveal_strlit("gemini-3.5-flash");
    assert("gemini-3.5-flash"@[7] != "gemini-2.0-flash"@[7]);
}

/// Brings stored settings up to date.
pub fn normalize_settings(settings: AppSettings) -> (r: AppSettings)
    ensures
        r@ == normalized(settings@),
{
    let mut settings = settings;
    if crate::text::str_eq(settings.gemini_model.as_str(), "gemini-2.0-flash") {
        settings.gemini_model = String::from_str("gemini-3.5-flash");
    }
    settings
}

/// The default cache directory under an app data directory.
pub open spec fn default_cache_dir(app_data_dir: Seq<char>) -> Seq<char> {
    join_path(app_data_dir, "cache"@)
}

/// The settings in effect: the stored ones brought up to date, or on first launch the
/// defaults with the cache under the app data directory (left empty when that directory
/// is unknown).
pub open spec fn settings_in_effect(stored: Option<AppSettings>, app_data_dir: Option<Seq<char>>) -> SettingsView {
    match stored {
        Some(s) => normalized(s@),
        None => match app_data_dir {
            Some(d) => SettingsView { cache_dir: default_cache_dir(d), ..default_settings() },
            None => default_settings(),
        },
    }
}

/// Settings read back after they were saved are the saved ones brought up to date,
/// whatever the app data directory; reading them back again gives the same.
pub proof fn lemma_saved_settings_read_back(saved: AppSettings, app_data_dir: Option<Seq<char>>)
    ensures
        settings_in_effect(Some(saved), app_data_dir) == normalized(saved@),
        normalized(settings_in_effect(Some(saved), app_data_dir)) == settings_in_effect(Some(saved), app_data_dir),
{
    lemma_normalized_idempotent(saved@);
}

/// The settings in effect, given what the store holds (already read) and the app data
/// directory.
pub fn get_settings(stored: Option<AppSettings>, app_data_dir: Option<String>) -> (r: AppSettings)
    ensures
        r@ == settings_in_effect(
            stored,
            match app_data_dir {
                Some(d) => Some(d@),
                None => None,
            },
        ),
{
    match stored {
        Some(s) => normalize_settings(s),
        None => {
            let mut defaults = AppSettings::default();
            match &app_data_dir {
                Some(d) => {
                    defaults.cache_dir = path_join(d.as_str(), "cache");
                },
                None => {},
            }
            defaults
        },
    }
}

/// The cache directory: the one the settings name, else `cache` under the app data
/// directory (or the error finding that directory gave).
pub open spec fn cache_dir_spec(settings: SettingsView, app_data_dir: Result<Seq<char>, Seq<char>>) -> Result<
    Seq<char>,
    Seq<char>,
> {
    if settings.cache_dir.len() > 0 {
        Ok(settings.cache_dir)
    } else {
        match app_data_dir {
            Ok(d) => Ok(default_cache_dir(d)),
            Err(e) => Err(e),
        }
    }
}

pub open spec fn result_view(r: Result<String, String>) -> Result<Seq<char>, Seq<char>> {
    match r {
        Ok(s) => Ok(s@),
        Err(e) => Err(e@),
    }
}

/// The resolved cache directory.
pub fn get_cache_dir(settings: &AppSettings, app_data_dir: Result<String, String>) -> (r: Result<String, String>)
    ensures
        result_view(r) == cache_dir_spec(settings@, result_view(app_data_dir)),
{
    if settings.cache_dir.as_str().unicode_len() > 0 {
        return Ok(settings.cache_dir.clone());
    }
    match app_data_dir {
        Ok(d) => Ok(path_join(d.as_str(), "cache")),
        Err(e) => Err(e),
    }
}

// ---------------------------------------------------------------------------
// Gemini model listing
// ---------------------------------------------------------------------------

/// The answer of the model listing helper.
pub struct GeminiModelsResponse {
    pub models: Option<Vec<String>>,
    pub error: Option<String>,
}

/// The API key used to list models: the given one trimmed, which must not be empty.
pub open spec fn api_key_spec(api_key: Seq<char>) -> Result<Seq<char>, Seq<char>> {
    if trim(api_key).len() == 0 {
        Err("Gemini API key is required to load models."@)
    } else {
        Ok(trim(api_key))
    }
}

/// Checks and trims the API key for listing models.
pub fn gemini_api_key(api_key: &str) -> (r: Result<String, String>)
    ensures
        result_view(r) == api_key_spec(api_key@),
{
    let key = trim_str(api_key);
    if key.as_str().unicode_len() == 0 {
        Err(String::from_str("Gemini API key is required to load models."))
    } else {
        Ok(key)
    }
}

/// What listing models gives once the helper has answered: when the helper failed, its
/// error (or its exit code); when it reported an error, that error; else its models (none
/// when it named none).
pub open spec fn models_outcome(
    models: Option<Seq<Seq<char>>>,
    error: Option<Seq<char>>,
    success: bool,
    code: Option<i32>,
) -> Result<Seq<Seq<char>>, Seq<char>> {
    if !success {
        match error {
            Some(e) => Err(e),
            None => Err("Gemini model loader"@ + " exited with code "@ + exit_code_text(code)),
        }
    } else {
        match error {
            Some(e) => Err(e),
            None => match models {
                Some(m) => Ok(m),
                None => Ok(Seq::empty()),
            },
        }
    }
}

/// The outcome of listing the Gemini models, given the helper's parsed answer and how it
/// exited.
pub fn gemini_models_outcome(response: GeminiModelsResponse, success: bool, code: Option<i32>) -> (r: Result<
    Vec<String>,
    String,
>)
    ensures
        match r {
            Ok(v) => Ok::<Seq<Seq<char>>, Seq<char>>(views(v@)),
            Err(e) => Err(e@),
        } == models_outcome(
            match response.models {
                Some(m) => Some(views(m@)),
                None => None,
            },
            match response.error {
                Some(e) => Some(e@),
                None => None,
            },
            success,
            code,
        ),
{
    if !success {
        return match response.error {
            Some(e) => Err(e),
            None => Err(exited_with_code("Gemini model loader", code)),
        };
    }
    if let Some(e) = response.error {
        return Err(e);
    }
    match response.models {
        Some(m) => Ok(m),
        None => {
            let v: Vec<String> = Vec::new();
            assert(views(v@) =~= Seq::<Seq<char>>::empty());
            Ok(v)
        },
    }
}


/// Where a model listing stands.
pub enum ModelsStage {
    /// Run the model loader with this API key.
    Run(String),
    /// Parse this line of the loader's output; the loader exited with this success and
    /// code.
    Parse(String, bool, Option<i32>),
    /// Over, with this outcome.
    Done(Result<Vec<String>, String>),
}

/// A model listing as values.
pub enum ModelsStageView {
    Run(Seq<char>),
    Parse(Seq<char>, bool, Option<i32>),
    Done(Result<Seq<Seq<char>>, Seq<char>>),
}

/// A listing of the Gemini models that support content generation.
pub struct ModelsRequest {
    stage: ModelsStage,
}

pub open spec fn models_result_view(r: Result<Vec<String>, String>) -> Result<Seq<Seq<char>>, Seq<char>> {
    match r {
        Ok(v) => Ok(views(v@)),
        Err(e) => Err(e@),
    }
}

impl View for ModelsRequest {
    type V = ModelsStageView;

    closed spec fn view(&self) -> ModelsStageView {
        match self.stage {
            ModelsStage::Run(k) => ModelsStageView::Run(k@),
            ModelsStage::Parse(l, s, c) => ModelsStageView::Parse(l@, s, c),
            ModelsStage::Done(r) => ModelsStageView::Done(models_result_view(r)),
        }
    }
}

/// What the model listing needs done next.
pub enum ModelsAction {
    /// Run the model loader script with `GEMINI_API_KEY` set to this key, and report its
    /// output.
    Run(String),
    /// Parse this line as the loader's answer (`{"models": [..], "error": ..}`).
    Parse(String),
    /// The listing is over.
    Done(Result<Vec<String>, String>),
}

/// The answer to a [`ModelsAction`].
pub enum ModelsEvent {
    /// The loader could not be started, with this error.
    StartFailed(String),
    /// The loader ran: its standard output and error (decoded lossily), whether it
    /// succeeded, and its exit code.
    Output(String, String, bool, Option<i32>),
    /// The answer line parsed, or failed to with this message.
    Parsed(Result<GeminiModelsResponse, String>),
}

/// A new listing: refused at once for a blank key; else the loader is run with the
/// trimmed key.
pub open spec fn models_start(api_key: Seq<char>) -> ModelsStageView {
    match api_key_spec(api_key) {
        Err(e) => ModelsStageView::Done(Err(e)),
        Ok(k) => ModelsStageView::Run(k),
    }
}

pub open spec fn response_models(r: GeminiModelsResponse) -> Option<Seq<Seq<char>>> {
    match r.models {
        Some(m) => Some(views(m@)),
        None => None,
    }
}

pub open spec fn response_error(r: GeminiModelsResponse) -> Option<Seq<char>> {
    match r.error {
        Some(e) => Some(e@),
        None => None,
    }
}

/// The next stage once `e` answers the current action: a loader that could not start,
/// or printed no JSON line, ends the listing with an error; else its last JSON line is
/// parsed, and the parsed answer decides the outcome.
pub open spec fn models_step(s: ModelsStageView, e: ModelsEvent) -> ModelsStageView {
    match (s, e) {
        (ModelsStageView::Run(_), ModelsEvent::StartFailed(err)) => ModelsStageView::Done(
            Err("Failed to start Gemini model loader: "@ + err@),
        ),
        (ModelsStageView::Run(_), ModelsEvent::Output(out, err, success, code)) => match last_json_line_spec(out@) {
            None => ModelsStageView::Done(Err(no_json_message("Gemini model loader"@, out@, err@))),
            Some(l) => ModelsStageView::Parse(l, success, code),
        },
        (ModelsStageView::Parse(_, success, code), ModelsEvent::Parsed(p)) => match p {
            Err(m) => ModelsStageView::Done(Err("Invalid Gemini model loader output: "@ + m@)),
            Ok(resp) => ModelsStageView::Done(
                models_outcome(response_models(resp), response_error(resp), success, code),
            ),
        },
        _ => s,
    }
}

/// A listing of the Gemini models for the given API key.
pub fn list_gemini_models(api_key: &str) -> (r: ModelsRequest)
    ensures
        r@ == models_start(api_key@),
{
    match gemini_api_key(api_key) {
        Ok(k) => ModelsRequest { stage: ModelsStage::Run(k) },
        Err(e) => ModelsRequest { stage: ModelsStage::Done(Err(e)) },
    }
}

impl ModelsRequest {
    /// What the listing needs done next: run the loader, parse its answer line, or
    /// report the outcome.
    pub fn next_action(&self) -> (r: ModelsAction)
        ensures
            match (self@, r) {
                (ModelsStageView::Run(k), ModelsAction::Run(a)) => a@ == k,
                (ModelsStageView::Parse(l, _, _), ModelsAction::Parse(a)) => a@ == l,
                (ModelsStageView::Done(o), ModelsAction::Done(a)) => models_result_view(a) == o,
                _ => false,
            },
    {
        match &self.stage {
            ModelsStage::Run(k) => ModelsAction::Run(k.clone()),
            ModelsStage::Parse(l, _, _) => ModelsAction::Parse(l.clone()),
            ModelsStage::Done(r) => ModelsAction::Done(
                match r {
                    Ok(v) => Ok(v.clone()),
                    Err(e) => Err(e.clone()),
                },
            ),
        }
    }

    /// Takes the answer to the current action and moves on.
    pub fn answer(&mut self, e: ModelsEvent)
        ensures
            final(self)@ == models_step(old(self)@, e),
    {
        match (&self.stage, e) {
            (ModelsStage::Run(_), ModelsEvent::StartFailed(err)) => {
                self.stage = ModelsStage::Done(Err(concat("Failed to start Gemini model loader: ", err.as_str())));
            },
            (ModelsStage::Run(_), ModelsEvent::Output(out, err, success, code)) => {
                match last_json_line(out.as_str()) {
                    None => {
                        self.stage = ModelsStage::Done(Err(no_json("Gemini model loader", out.as_str(), err.as_str())));
                    },
                    Some(l) => {
                        self.stage = ModelsStage::Parse(l, success, code);
                    },
                }
            },
            (ModelsStage::Parse(_, success, code), ModelsEvent::Parsed(p)) => {
                let success = *success;
                let code = *code;
                match p {
                    Err(m) => {
                        self.stage = ModelsStage::Done(Err(concat("Invalid Gemini model loader output: ", m.as_str())));
                    },
                    Ok(resp) => {
                        self.stage = ModelsStage::Done(gemini_models_outcome(resp, success, code));
                    },
                }
            },
            _ => {},
        }
    }
}

} // verus!
