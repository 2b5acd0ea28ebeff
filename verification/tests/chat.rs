use tome::chat::egress::{agent_egress, egress_host, strip_brackets};
use tome::chat::keys::{chat_key_set, truthy, KeyOrigin, Keys, Kind};
use tome::chat::overlay::{apply_patch, chat_provider_add, chat_provider_delete, chat_provider_set, ProviderPatch};
use tome::chat::registry::{mint_added_id, slug_of, Alternate, Auth, Overlay, ProviderRow, Wire};
use tome::chat::resolve::{chat_providers, resolve_chat, stored_pick};
use tome::chat::send::{
    chat_history_list, chat_send, done_event, is_authy_message, persona, send_failed, send_started, HistoryEntry, HistoryFile,
    Persona, SendFailure, SendStep, Speaker,
};
use tome::json::{lookup, Json};
use tome::strmap::StrMap;

fn env(pairs: &[(&str, &str)]) -> StrMap<String> {
    let mut map = StrMap::new();
    for (k, v) in pairs {
        map.set(k, v.to_string());
    }
    map
}

fn row(id: &str, label: &str, base_url: &str, model: &str, builtin: bool) -> ProviderRow {
    ProviderRow {
        id: id.to_string(),
        label: label.to_string(),
        wire: Wire::OpenAi,
        auth: Auth::Bearer,
        base_url: base_url.to_string(),
        model: model.to_string(),
        models: vec![],
        models_url: None,
        alternates: vec![],
        key_env: vec![],
        max_output_tokens: None,
        betas: vec![],
        builtin,
    }
}

fn glm_row() -> ProviderRow {
    let mut glm = row("glm", "GLM (Z.ai)", "https://api.z.ai/api/paas/v4", "glm-5.3", true);
    glm.key_env = vec!["ZAI_API_KEY".to_string(), "ZHIPU_API_KEY".to_string()];
    glm.alternates = vec![Alternate { base_url: "https://open.bigmodel.cn/api/paas/v4".to_string() }];
    glm
}

fn rows() -> Vec<ProviderRow> {
    vec![
        glm_row(),
        row("openai", "OpenAI", "https://api.openai.com/v1", "gpt", true),
        row("kimi", "Kimi", "https://api.moonshot.ai/v1", "kimi", true),
    ]
}

fn added_row(id: &str) -> ProviderRow {
    row(id, "My AI", "https://myai.example.com/v1", "m1", false)
}

// ---- messages about credentials ----

#[test]
fn is_authy_message_matches_api_key_variants_case_insensitively() {
    assert!(is_authy_message("Invalid API key provided"));
    assert!(is_authy_message("bad api-key"));
    assert!(is_authy_message("APIXKEY rejected"));
}

#[test]
fn is_authy_message_matches_auth_as_a_substring() {
    assert!(is_authy_message("Unauthorized"));
    assert!(is_authy_message("authentication failed"));
}

#[test]
fn is_authy_message_false_for_an_unrelated_message() {
    assert!(!is_authy_message("connection reset by peer"));
}

#[test]
fn is_authy_message_takes_any_character_but_a_line_break_between_the_words() {
    assert!(is_authy_message("api\u{1f600}key"));
    assert!(!is_authy_message("api\nkey"));
    assert!(!is_authy_message("apikey"));
    assert!(is_authy_message("api \u{212a}ey"));
    assert!(!is_authy_message("aut h"));
}

// ---- keys ----

#[test]
fn keys_prefer_the_vault_over_shell_and_env() {
    let row = glm_row();
    let keys = Keys {
        vault_keys: &env(&[("glm", "vault-key")]),
        kind: Kind::Keychain,
        secrets: &env(&[("ZAI_API_KEY", "shell-key")]),
        env: &env(&[("ZHIPU_API_KEY", "env-key")]),
    };
    assert_eq!(keys.key_for(&row), Some(("vault-key".to_string(), KeyOrigin::Keychain)));
}

#[test]
fn keys_report_the_file_kind_when_the_vault_blob_came_from_disk() {
    let row = glm_row();
    let keys = Keys {
        vault_keys: &env(&[("glm", "file-key")]),
        kind: Kind::File,
        secrets: &StrMap::new(),
        env: &StrMap::new(),
    };
    assert_eq!(keys.key_for(&row), Some(("file-key".to_string(), KeyOrigin::File)));
}

#[test]
fn keys_fall_to_secrets_then_env_in_key_env_order() {
    let row = glm_row();
    let keys = Keys {
        vault_keys: &StrMap::new(),
        kind: Kind::File,
        secrets: &env(&[("ZHIPU_API_KEY", "zhipu-shell")]),
        env: &StrMap::new(),
    };
    assert_eq!(
        keys.key_for(&row),
        Some(("zhipu-shell".to_string(), KeyOrigin::Shell("ZHIPU_API_KEY".to_string())))
    );
    let keys = Keys {
        vault_keys: &StrMap::new(),
        kind: Kind::File,
        secrets: &StrMap::new(),
        env: &env(&[("ZAI_API_KEY", "zai-env")]),
    };
    assert_eq!(keys.key_for(&row), Some(("zai-env".to_string(), KeyOrigin::Env("ZAI_API_KEY".to_string()))));
}

#[test]
fn keys_treat_an_empty_string_as_absent_at_every_rung() {
    let row = glm_row();
    let keys = Keys {
        vault_keys: &env(&[("glm", "  ")]),
        kind: Kind::File,
        secrets: &env(&[("ZAI_API_KEY", "")]),
        env: &env(&[("ZHIPU_API_KEY", "  ")]),
    };
    assert_eq!(keys.key_for(&row), None);
}

#[test]
fn keys_never_fall_through_to_an_unrelated_env_name() {
    let row = glm_row();
    let keys = Keys {
        vault_keys: &StrMap::new(),
        kind: Kind::File,
        secrets: &StrMap::new(),
        env: &env(&[("OPENAI_API_KEY", "sk-x")]),
    };
    assert_eq!(keys.key_for(&row), None);
}

#[test]
fn truthy_keeps_what_is_not_blank_as_it_is() {
    assert_eq!(truthy(" k "), Some(" k ".to_string()));
    assert_eq!(truthy(" \t"), None);
}

#[test]
fn a_stored_key_is_found_and_a_blank_one_takes_it_out() {
    let mut vault = StrMap::new();
    assert_eq!(chat_key_set(&mut vault, " glm ", "  sk-1 \n"), Ok(()));
    assert_eq!(vault.get("glm").map(|s| s.as_str()), Some("sk-1"));
    let nothing = StrMap::new();
    let keys = Keys { vault_keys: &vault, kind: Kind::File, secrets: &nothing, env: &nothing };
    assert_eq!(keys.key_for(&glm_row()), Some(("sk-1".to_string(), KeyOrigin::File)));
    assert_eq!(chat_key_set(&mut vault, "glm", "   "), Ok(()));
    assert!(!vault.contains("glm"));
    assert_eq!(chat_key_set(&mut vault, "  ", "sk"), Err("A provider id is required.".to_string()));
}

// ---- egress ----

#[test]
fn agent_egress_allowlists_only_hosts_in_default_allow() {
    let allow = ["api.anthropic.com", "openrouter.ai", "api.groq.com"];
    let egress = |url: &str| {
        let listed = match egress_host(url) {
            Some(host) => allow.contains(&host.as_str()),
            None => true,
        };
        agent_egress(url, listed)
    };
    assert_eq!(egress("https://api.anthropic.com"), "allowed");
    assert_eq!(egress("https://openrouter.ai/api/v1"), "allowed");
    assert_eq!(egress("https://api.z.ai/api/paas/v4"), "not-allowlisted");
    assert_eq!(egress("https://api.groq.com"), "allowed");
    assert_eq!(egress("not a url"), "not-allowlisted");
}

#[test]
fn egress_host_reads_the_host_without_its_brackets() {
    assert_eq!(egress_host("http://[::1]:8080/v1"), Some("::1".to_string()));
    assert_eq!(egress_host("https://API.Example.com:443/x"), Some("api.example.com".to_string()));
    assert_eq!(egress_host("mailto:a@b.c"), None);
    assert_eq!(strip_brackets("[[x]]"), "x");
    assert_eq!(strip_brackets("]x["), "]x[");
}

// ---- patches ----

#[test]
fn apply_patch_rejects_a_model_of_whitespace() {
    let mut ov = Overlay::new();
    let patch = ProviderPatch { model: Some(Some("   ".to_string())), ..ProviderPatch::new() };
    assert_eq!(apply_patch(&rows(), &mut ov, "glm", &patch), Err("Model must be a non-empty string.".to_string()));
}

#[test]
fn apply_patch_applies_and_clears_model_overrides() {
    let mut ov = Overlay::new();
    let put = ProviderPatch { model: Some(Some("glm-5-turbo".to_string())), ..ProviderPatch::new() };
    apply_patch(&rows(), &mut ov, "glm", &put).unwrap();
    assert_eq!(ov.model.get("glm").unwrap(), "glm-5-turbo");

    let clear = ProviderPatch { model: Some(None), ..ProviderPatch::new() };
    apply_patch(&rows(), &mut ov, "glm", &clear).unwrap();
    assert!(!ov.model.contains("glm"));
}

#[test]
fn apply_patch_rejects_a_region_outside_the_rows_alternates() {
    let mut ov = Overlay::new();
    let patch = ProviderPatch { region: Some(Some("https://evil.example.com/v1".to_string())), ..ProviderPatch::new() };
    assert_eq!(
        apply_patch(&rows(), &mut ov, "glm", &patch),
        Err("That region is not available for this provider.".to_string())
    );
}

#[test]
fn apply_patch_honors_a_compiled_in_region() {
    let mut ov = Overlay::new();
    let patch = ProviderPatch { region: Some(Some("https://open.bigmodel.cn/api/paas/v4".to_string())), ..ProviderPatch::new() };
    apply_patch(&rows(), &mut ov, "glm", &patch).unwrap();
    assert_eq!(ov.region.get("glm").unwrap(), "https://open.bigmodel.cn/api/paas/v4");
}

#[test]
fn apply_patch_hides_and_unhides_a_builtin() {
    let mut ov = Overlay::new();
    let hide = ProviderPatch { hidden: Some(true), ..ProviderPatch::new() };
    apply_patch(&rows(), &mut ov, "openai", &hide).unwrap();
    assert!(ov.hidden.contains(&"openai".to_string()));
    apply_patch(&rows(), &mut ov, "openai", &hide).unwrap();
    assert_eq!(ov.hidden.len(), 1);

    let show = ProviderPatch { hidden: Some(false), ..ProviderPatch::new() };
    apply_patch(&rows(), &mut ov, "openai", &show).unwrap();
    assert!(!ov.hidden.contains(&"openai".to_string()));
}

#[test]
fn apply_patch_rejects_unknown_ids_and_hiding_added_rows() {
    let mut ov = Overlay::new();
    let patch = ProviderPatch { model: Some(Some("m".to_string())), ..ProviderPatch::new() };
    assert_eq!(apply_patch(&rows(), &mut ov, "bogus", &patch), Err("Unknown provider id: bogus".to_string()));

    let hide = ProviderPatch { hidden: Some(true), ..ProviderPatch::new() };
    let mut all = rows();
    all.push(added_row("myai"));
    assert_eq!(
        apply_patch(&all, &mut ov, "myai", &hide),
        Err("User-added providers can be deleted, not hidden.".to_string())
    );
}

#[test]
fn a_refused_region_leaves_the_model_that_went_before_it() {
    let mut ov = Overlay::new();
    let patch = ProviderPatch {
        model: Some(Some(" m2 ".to_string())),
        region: Some(Some("https://elsewhere".to_string())),
        hidden: Some(true),
    };
    assert!(apply_patch(&rows(), &mut ov, "glm", &patch).is_err());
    assert_eq!(ov.model.get("glm").unwrap(), "m2");
    assert!(ov.hidden.is_empty());
}

#[test]
fn an_empty_patch_is_refused() {
    let mut ov = Overlay::new();
    assert_eq!(
        chat_provider_set(&rows(), &mut ov, "glm", &ProviderPatch::new()),
        Err("Nothing to set — pass model, region, or hidden.".to_string())
    );
    let patch = ProviderPatch { model: Some(Some("m".to_string())), ..ProviderPatch::new() };
    assert_eq!(chat_provider_set(&rows(), &mut ov, "  glm ", &patch), Ok(()));
    assert_eq!(ov.model.get("glm").unwrap(), "m");
}

// ---- adding and deleting ----

#[test]
fn mint_added_id_slugifies_the_label() {
    let ov = Overlay::new();
    assert_eq!(mint_added_id(&rows(), &ov, "My Local vLLM"), "my-local-vllm");
    assert_eq!(mint_added_id(&rows(), &ov, "Groq!"), "groq");
}

#[test]
fn mint_added_id_never_collides_with_a_builtin_or_added_row() {
    let ov = Overlay::new();
    assert_eq!(mint_added_id(&rows(), &ov, "OpenAI"), "openai-2");
    assert_eq!(mint_added_id(&rows(), &ov, "Kimi"), "kimi-2");

    let mut ov = Overlay::new();
    ov.added.push(added_row("my-ai"));
    let mut all = rows();
    all.push(ov.added[0].clone());
    assert_eq!(mint_added_id(&all, &ov, "My AI"), "my-ai-2");
    ov.added.push(added_row("my-ai-2"));
    assert_eq!(mint_added_id(&all, &ov, "My AI"), "my-ai-3");
}

#[test]
fn mint_added_id_falls_back_to_provider_for_an_unsluggable_label() {
    let ov = Overlay::new();
    assert_eq!(mint_added_id(&rows(), &ov, "!!!"), "provider");
}

#[test]
fn slugs_hold_one_dash_between_words_and_none_around_them() {
    assert_eq!(slug_of("--a  b__c--"), "a-b-c");
    assert_eq!(slug_of(""), "provider");
    assert_eq!(slug_of("é"), "provider");
}

#[test]
fn a_provider_can_be_added_and_deleted_again() {
    let mut ov = Overlay::new();
    let id = chat_provider_add(
        &rows(),
        &mut ov,
        "  My AI ",
        Ok("https://myai.example.com/v1".to_string()),
        " m1 ",
        " anthropic ",
        Some("x-api-key"),
    )
    .unwrap();
    assert_eq!(id, "my-ai");
    let made = &ov.added[0];
    assert_eq!((made.id.as_str(), made.label.as_str(), made.model.as_str()), ("my-ai", "My AI", "m1"));
    assert_eq!((made.wire, made.auth, made.builtin), (Wire::Anthropic, Auth::XApiKey, false));
    assert_eq!(made.models, vec!["m1".to_string()]);
    ov.model.set("my-ai", "m2".to_string());

    let builtin: Vec<String> = rows().iter().map(|r| r.id.clone()).collect();
    assert_eq!(chat_provider_delete(&builtin, &mut ov, "glm"), Err("Built-in providers can be hidden, not deleted.".to_string()));
    assert_eq!(chat_provider_delete(&builtin, &mut ov, "nope"), Err("Unknown provider id: nope".to_string()));
    assert_eq!(chat_provider_delete(&builtin, &mut ov, " my-ai "), Ok(()));
    assert!(ov.added.is_empty() && !ov.model.contains("my-ai"));
}

#[test]
fn a_provider_needs_a_label_a_model_and_a_good_address() {
    let mut ov = Overlay::new();
    let url = || Ok("https://x.example".to_string());
    assert_eq!(
        chat_provider_add(&rows(), &mut ov, " ", url(), "m", "", None),
        Err("Label and model are required.".to_string())
    );
    assert_eq!(
        chat_provider_add(&rows(), &mut ov, "L", url(), " ", "", None),
        Err("Label and model are required.".to_string())
    );
    assert_eq!(
        chat_provider_add(&rows(), &mut ov, "L", Err("bad address".to_string()), "m", "", None),
        Err("bad address".to_string())
    );
    assert!(ov.added.is_empty());
}

// ---- resolving ----

#[test]
fn the_pick_decides_and_keys_only_say_whether_it_can_be_used() {
    let nothing = StrMap::new();
    let shell = env(&[("ZAI_API_KEY", "k")]);
    let all = rows();
    let with = Keys { vault_keys: &nothing, kind: Kind::File, secrets: &shell, env: &nothing };
    let without = Keys { vault_keys: &nothing, kind: Kind::File, secrets: &nothing, env: &nothing };

    assert_eq!(
        resolve_chat(&all, &Json::Null, &with).err(),
        Some("No provider chosen — pick one in \u{2318}, \u{2192} Assistant and paste a key.".to_string())
    );
    assert_eq!(
        resolve_chat(&all, &Json::Text("gone".to_string()), &with).err(),
        Some("The provider you saved (gone) is no longer in your list — pick another in \u{2318}, \u{2192} Assistant.".to_string())
    );
    assert_eq!(
        resolve_chat(&all, &Json::Text("glm".to_string()), &without).err(),
        Some(
            "GLM (Z.ai) needs a key — paste one in \u{2318}, \u{2192} Assistant (or set ZAI_API_KEY / ZHIPU_API_KEY in your shell and restart)."
                .to_string()
        )
    );
    assert_eq!(
        resolve_chat(&all, &Json::Text("openai".to_string()), &without).err(),
        Some("OpenAI needs a key — paste one in \u{2318}, \u{2192} Assistant.".to_string())
    );
    let talk = resolve_chat(&all, &Json::Text(" glm ".to_string()), &with).ok().unwrap();
    assert_eq!((talk.provider.id.as_str(), talk.provider.key.as_str()), ("glm", "k"));
    assert!(talk.betas.is_none() && talk.fallbacks.is_none());
}

#[test]
fn betas_bring_a_fallback_with_them() {
    let nothing = StrMap::new();
    let vault = env(&[("b", "k")]);
    let mut beta = row("b", "B", "https://b.example", "m", true);
    beta.betas = vec!["x-1".to_string()];
    let keys = Keys { vault_keys: &vault, kind: Kind::Keychain, secrets: &nothing, env: &nothing };
    let talk = resolve_chat(&vec![beta], &Json::Text("b".to_string()), &keys).ok().unwrap();
    assert_eq!(talk.betas, Some(vec!["x-1".to_string()]));
    assert_eq!(talk.fallbacks, Some("default".to_string()));
}

#[test]
fn the_list_shows_every_provider_and_never_a_key() {
    let nothing = StrMap::new();
    let vault = env(&[("glm", "sk")]);
    let errors = env(&[("openai", "rejected")]);
    let all = rows();
    let keys = Keys { vault_keys: &vault, kind: Kind::Keychain, secrets: &nothing, env: &nothing };
    let list = chat_providers(&all, &Json::Text("glm".to_string()), &keys, &vec![true, false, true], &errors);
    assert_eq!(list.providers.len(), 3);
    assert_eq!(list.providers[0].key_origin, Some(KeyOrigin::Keychain));
    assert!(list.providers[0].active && !list.providers[1].active);
    assert_eq!(list.providers[0].agent_egress, "allowed");
    assert_eq!(list.providers[1].agent_egress, "not-allowlisted");
    assert_eq!(list.providers[1].last_error, Some("rejected".to_string()));
    assert_eq!(list.providers[0].alternates, vec!["https://open.bigmodel.cn/api/paas/v4".to_string()]);
    assert_eq!(list.active, Some("glm".to_string()));
    assert_eq!(list.effective.as_ref().map(|e| e.host.as_str()), Some("https://api.z.ai/api/paas/v4"));
    assert_eq!(list.reason, None);

    let none = chat_providers(&all, &Json::Null, &keys, &vec![true, true, true], &errors);
    assert!(none.effective.is_none());
    assert_eq!(none.reason, Some("No provider chosen — pick one and paste a key.".to_string()));
    let gone = chat_providers(&all, &Json::Text("x".to_string()), &keys, &vec![true, true, true], &errors);
    assert_eq!(gone.reason, Some("The provider you saved (x) is no longer in your list.".to_string()));
}

#[test]
fn a_blank_pick_is_none() {
    assert_eq!(stored_pick(&Json::Text("  ".to_string())), None);
    assert_eq!(stored_pick(&Json::Bool(true)), None);
    assert_eq!(stored_pick(&Json::Text(" a ".to_string())), Some("a".to_string()));
}

// ---- talks ----

#[test]
fn a_rejected_key_is_noted_until_the_next_talk() {
    let mut errors = StrMap::new();
    let told = send_failed(&mut errors, "glm", "GLM", Some(401), "nope");
    assert_eq!(told, "Chat credentials rejected — check the GLM key (\u{2318}, \u{2192} Assistant) and try again.");
    assert_eq!(errors.get("glm"), Some(&told));
    send_started(&mut errors, "glm");
    assert!(!errors.contains("glm"));
    assert_eq!(send_failed(&mut errors, "glm", "GLM", Some(500), "connection reset by peer"), "connection reset by peer");
    assert!(!errors.contains("glm"));
    assert_eq!(send_failed(&mut errors, "glm", "GLM", None, "Unauthorized"), told);
}

#[test]
fn a_talk_is_led_or_its_failure_is_told() {
    let mut errors = StrMap::new();
    errors.set("glm", "old note".to_string());
    let nobody = Err("No chat provider is set up.".to_string());
    match chat_send(&mut errors, "c1", &nobody, None, None, None, None) {
        SendStep::Tell(fields) => {
            assert!(matches!(lookup(&fields, "error"), Some(Json::Text(s)) if s == "No chat provider is set up."));
        },
        _ => panic!("there is nobody to talk to"),
    }
    assert!(errors.contains("glm"));
    let glm = Ok(Speaker { id: "glm".to_string(), label: "GLM".to_string() });
    let step = chat_send(&mut errors, "c1", &glm, Some(true), None, None, None);
    assert!(matches!(step, SendStep::Talk(Persona::Mentor { gate: true })));
    assert!(!errors.contains("glm"));
    assert!(matches!(chat_send(&mut errors, "c1", &glm, None, None, None, Some(Ok(()))), SendStep::Done));
    let failed = |status: Option<u16>, message: &str| Some(Err(SendFailure { status, message: message.to_string() }));
    match chat_send(&mut errors, "c1", &glm, None, None, None, failed(None, "bad API key")) {
        SendStep::Tell(fields) => {
            assert!(matches!(lookup(&fields, "error"), Some(Json::Text(s)) if s.starts_with("Chat credentials rejected")));
        },
        _ => panic!("the failure is told"),
    }
    assert!(errors.contains("glm"));
    match chat_send(&mut errors, "c1", &glm, None, None, None, failed(Some(500), "boom")) {
        SendStep::Tell(fields) => assert!(matches!(lookup(&fields, "error"), Some(Json::Text(s)) if s == "boom")),
        _ => panic!("the failure is told"),
    }
}

#[test]
fn the_voice_of_a_talk() {
    assert_eq!(persona(None, None, None), Persona::Plain);
    assert_eq!(persona(Some(true), None, None), Persona::Mentor { gate: true });
    assert_eq!(persona(Some(true), Some(false), None), Persona::Mentor { gate: false });
    assert_eq!(persona(Some(true), Some(true), Some(true)), Persona::Voice);
}

#[test]
fn the_end_of_a_talk_names_everything() {
    let fields = done_event("c1", false, Some("boom"));
    assert!(matches!(lookup(&fields, "id"), Some(Json::Text(s)) if s == "c1"));
    assert!(matches!(lookup(&fields, "aborted"), Some(Json::Bool(false))));
    assert!(matches!(lookup(&fields, "error"), Some(Json::Text(s)) if s == "boom"));
    assert!(matches!(lookup(&done_event("c1", true, None), "error"), Some(Json::Null)));
}

#[test]
fn the_talks_of_before_come_latest_first() {
    let file = |id: &str, ms: u64, is_log: bool, readable: bool, found: bool| HistoryFile {
        is_log,
        readable,
        found,
        entry: Some(HistoryEntry { id: id.to_string(), modified_ms: ms, count: 1, snippet: String::new() }),
    };
    let list = chat_history_list(vec![
        file("a", 5, true, true, true),
        file("b", 9, true, true, true),
        file("c", 9, true, true, true),
        file("x", 10, false, true, true),
        file("y", 10, true, false, true),
        file("z", 10, true, true, false),
        HistoryFile { is_log: true, readable: true, found: true, entry: None },
    ]);
    let ids: Vec<&str> = list.iter().map(|e| e.id.as_str()).collect();
    assert_eq!(ids, vec!["b", "c", "a"]);
}

#[test]
fn what_is_shown_does_not_depend_on_the_key() {
    let rows = rows();
    let listed = vec![false; rows.len()];
    let none = StrMap::new();
    let stored = Json::Text("glm".to_string());
    let shown = |key: &str| {
        let vault = env(&[("glm", key)]);
        let keys = Keys { vault_keys: &vault, kind: Kind::Keychain, secrets: &none, env: &none };
        let list = chat_providers(&rows, &stored, &keys, &listed, &none);
        let origins: Vec<Option<KeyOrigin>> = list.providers.into_iter().map(|p| p.key_origin).collect();
        let host = list.effective.map(|e| (e.id, e.host, e.key_origin));
        (origins, host, list.reason)
    };
    assert_eq!(shown("one"), shown("another"));
    assert_ne!(shown("one"), shown("  "));
}
