use tome::json::{array, lookup, text_of, Json};
use tome::stt::{
    engine_preference, stt_engine, stt_status, stt_transcribe, stt_warmup, warmup_enabled, whisper_bin_override, Engine,
    TranscribeStep, Transcript, MAX_WAV,
};
use tome::workspace::{
    agents_list, brain_promote, brain_write, conductor_set_root, confine_ws, mentor_answer, opencode_key_set, root_request, shell_open_path, skills_read,
    theme_set, unimplemented_command, window_bg, ws_sync, PromoteOutcome, WriteOutcome,
};

fn text(s: &str) -> Json {
    Json::Text(s.to_string())
}

// ---- folders ----

#[test]
fn only_named_folders_are_taken_over() {
    let told = array(vec![text("/a"), text(""), Json::Null, Json::Bool(true), text("/b")]);
    let f = ws_sync(&told);
    assert_eq!(f.open, vec!["/a".to_string(), "/b".to_string()]);
    assert!(f.synced);
    let nothing = ws_sync(&text("/a"));
    assert!(nothing.open.is_empty() && nothing.synced);
}

#[test]
fn the_conductor_moves_only_to_a_real_folder() {
    assert_eq!(root_request(Some("  /a ")), Some("/a".to_string()));
    assert_eq!(root_request(Some("  ")), None);
    assert_eq!(root_request(None), None);
    let mut current = Some("/old".to_string());
    assert_eq!(conductor_set_root(&mut current, Some("/new"), Err("outside".to_string())), Err("conductor:cwd: outside".to_string()));
    assert_eq!(current.as_deref(), Some("/old"));
    assert_eq!(conductor_set_root(&mut current, Some("/new"), Ok("/real/new".to_string())), Ok(()));
    assert_eq!(current.as_deref(), Some("/real/new"));
    assert_eq!(conductor_set_root(&mut current, Some(" "), Err("x".to_string())), Ok(()));
    assert_eq!(current, None);
}

#[test]
fn a_workspace_that_is_refused_says_for_whom() {
    assert_eq!(confine_ws(Ok("/ws".to_string())), Ok("/ws".to_string()));
    assert_eq!(confine_ws(Err("outside".to_string())), Err("graphify: outside".to_string()));
}

#[test]
fn opening_a_path_answers_with_what_went_wrong() {
    assert_eq!(shell_open_path(Some(Ok(())), true), "");
    assert_eq!(shell_open_path(Some(Err("no handler".to_string())), true), "no handler");
    assert_eq!(shell_open_path(None, true), "shell:openPath: path is outside the open workspace folders");
    assert_eq!(shell_open_path(None, false), "shell:openPath: workspace folders have not been reported yet");
}

// ---- looks ----

#[test]
fn the_window_is_painted_as_the_theme_says() {
    assert_eq!(window_bg("dark"), "#050508");
    assert_eq!(window_bg("light"), "#eeeef2");
    let t = theme_set(Some("dark"), Some("dark"));
    assert_eq!((t.pref.as_str(), t.mode.as_str(), t.background.as_str()), ("dark", "dark", "#050508"));
    let t = theme_set(Some("light"), Some("light"));
    assert_eq!((t.pref.as_str(), t.background.as_str()), ("light", "#eeeef2"));
    let t = theme_set(Some("purple"), None);
    assert_eq!(t.pref, theme_set(None, None).pref);
}

// ---- small answers ----

#[test]
fn agents_are_listed_by_name() {
    match agents_list(&vec!["one".to_string(), "two".to_string()]) {
        Json::Array(v) => {
            assert_eq!(v.len(), 2);
            assert_eq!(text_of(&v[1], "name").map(|s| s.as_str()), Some("two"));
        },
        _ => panic!("agents are a list"),
    }
}

#[test]
fn a_skill_is_read_only_where_there_is_one() {
    assert_eq!(skills_read(true, true, "x"), Ok(()));
    assert_eq!(skills_read(true, false, "x"), Err("skill not found: x".to_string()));
    assert_eq!(skills_read(false, true, "x"), Err("skills directory unavailable".to_string()));
}

#[test]
fn a_key_belongs_to_a_provider() {
    assert_eq!(opencode_key_set(" openai "), Ok("openai".to_string()));
    assert_eq!(opencode_key_set("  "), Err("A provider id is required.".to_string()));
}

#[test]
fn an_answer_that_was_not_given_is_null() {
    let v = mentor_answer(None, None);
    assert!(matches!(lookup(&v, "answers"), Some(Json::Null)));
    assert!(matches!(lookup(&v, "skip"), Some(Json::Bool(false))));
    let v = mentor_answer(Some(text("yes")), Some(true));
    assert!(matches!(lookup(&v, "answers"), Some(Json::Text(s)) if s == "yes"));
    assert!(matches!(lookup(&v, "skip"), Some(Json::Bool(true))));
}

#[test]
fn a_command_that_is_not_there_says_so() {
    assert_eq!(unimplemented_command("lsp:start"), "unimplemented: lsp:start");
}

#[test]
fn notes_are_never_lost_to_one_of_the_same_name() {
    assert_eq!(brain_write(WriteOutcome::Written)[0].0, "ok");
    assert_eq!(brain_write(WriteOutcome::Exists)[0].0, "exists");
    let moved = brain_promote(PromoteOutcome::Promoted { rel: "a.md".to_string() });
    assert!(matches!(lookup(&moved, "ok"), Some(Json::Bool(true))));
    assert!(matches!(lookup(&moved, "rel"), Some(Json::Text(s)) if s == "a.md"));
    assert_eq!(brain_promote(PromoteOutcome::Collision)[0].0, "collision");
}

// ---- speech ----

#[test]
fn an_empty_variable_names_no_program() {
    assert_eq!(whisper_bin_override(Some("/bin/whisper".to_string())), Some("/bin/whisper".to_string()));
    assert_eq!(whisper_bin_override(Some(String::new())), None);
    assert_eq!(whisper_bin_override(None), None);
}

#[test]
fn warming_up_is_a_choice() {
    assert!(!warmup_enabled(&Json::Null));
    assert!(!warmup_enabled(&Json::Bool(false)));
    assert!(warmup_enabled(&Json::Bool(true)));
    assert!(stt_warmup(&Json::Bool(true), true, true));
    assert!(!stt_warmup(&Json::Bool(true), false, true));
    assert!(!stt_warmup(&Json::Bool(true), true, false));
    assert!(!stt_warmup(&Json::Null, true, true));
}

#[test]
fn an_engine_is_chosen_by_name() {
    assert_eq!(engine_preference(&text("whisper")), "whisper");
    assert_eq!(engine_preference(&text("")), "auto");
    assert_eq!(engine_preference(&Json::Null), "auto");
}

#[test]
fn bad_audio_is_refused_before_anything_runs() {
    for n in [0, MAX_WAV + 1] {
        match stt_transcribe(n, None, None, "install it") {
            TranscribeStep::Error(e) => assert_eq!(e, "stt: bad audio payload"),
            _ => panic!("the recording is refused"),
        }
    }
    assert!(matches!(stt_transcribe(MAX_WAV, None, None, "install it"), TranscribeStep::Look));
    let missing = Some(Some("no model".to_string()));
    assert!(matches!(stt_transcribe(1, missing, None, "install it"), TranscribeStep::Error(e) if e == "no model"));
}

#[test]
fn a_transcription_ends_one_of_three_ways() {
    assert!(matches!(stt_transcribe(1, Some(None), None, "install it"), TranscribeStep::Run));
    let end = |t: Transcript| stt_transcribe(1, Some(None), Some(t), "install it");
    assert!(matches!(end(Transcript::Text("hello".to_string())), TranscribeStep::Text(s) if s == "hello"));
    assert!(matches!(end(Transcript::NotFound), TranscribeStep::Error(e) if e == "install it"));
    assert!(matches!(end(Transcript::Failed("crash".to_string())), TranscribeStep::Error(e) if e == "stt: crash"));
}

#[test]
fn the_choice_of_an_engine_is_told() {
    let c = stt_engine(&text("whisper"), Engine::Whisper, true, false);
    assert_eq!((c.preference.as_str(), c.engine, c.available), ("whisper", Engine::Whisper, false));
    let c = stt_engine(&Json::Null, Engine::Apple, true, false);
    assert_eq!((c.preference.as_str(), c.engine, c.available), ("auto", Engine::Apple, true));
}

#[test]
fn an_engine_that_is_not_ready_says_why() {
    let s = stt_status(Engine::Whisper, false, None);
    assert!(s.ready && s.why.is_none());
    let s = stt_status(Engine::Whisper, true, Some("no model".to_string()));
    assert!(!s.ready);
    assert_eq!(s.why.as_deref(), Some("no model"));
    assert!(stt_status(Engine::Apple, true, Some("no model".to_string())).ready);
    let s = stt_status(Engine::Apple, false, None);
    assert!(!s.ready && s.why.is_some());
}
