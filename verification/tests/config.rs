use nostra::llm::config::{
    check_base_url, resolve_selection, ModelConfig, ModelSelection, ProviderCatalogSnapshot,
    ProviderProfile, SecretString, UrlParts,
};
use nostra::llm::protocol::{CompatibilityProfile, Protocol};

fn model(id: &str, model_id: &str, display_name: Option<&str>) -> ModelConfig {
    ModelConfig {
        id: id.into(),
        model_id: model_id.into(),
        display_name: display_name.map(str::to_string),
    }
}

fn profile(id: &str, base_url: &str, models: Vec<ModelConfig>) -> ProviderProfile {
    ProviderProfile {
        id: id.into(),
        name: "Provider".into(),
        base_url: base_url.into(),
        api_key: SecretString::default(),
        protocol: Protocol::Responses,
        compatibility: CompatibilityProfile::default(),
        models,
    }
}

fn selection(profile_id: &str, model_id: &str) -> ModelSelection {
    ModelSelection { profile_id: profile_id.into(), model_id: model_id.into() }
}

#[test]
fn secret_serializes_plaintext_but_never_formats_it() {
    let secret = SecretString::new("highly-secret");
    assert_eq!(
        serde_json::to_string(secret.expose()).expect("serialize"),
        "\"highly-secret\""
    );
    let rendered = format!("{} {}", secret.debug_text(), secret.display_text());
    assert!(!rendered.contains("highly-secret"));
}

#[test]
fn validation_rejects_ambiguous_or_endpoint_bearing_profiles() {
    let profile = profile(
        "p",
        "https://example.com/v1/responses?x=1",
        vec![model("m", "gpt", None)],
    );
    assert!(profile.validate().is_err());

    let mut duplicate = profile;
    duplicate.base_url = "https://example.com/v1".into();
    duplicate.models.push(duplicate.models[0].clone());
    assert!(duplicate.validate().is_err());
}

#[test]
fn incomplete_model_drafts_do_not_invalidate_configured_models() {
    let mut profile = profile(
        "p",
        "https://example.com/v1",
        vec![model("configured", "vendor/model", Some("Model"))],
    );
    let selection = ModelSelection {
        profile_id: profile.id.clone(),
        model_id: profile.models[0].id.clone(),
    };
    profile.models.push(model("draft", "", None));

    assert!(profile.validate().is_ok());
    assert!(resolve_selection(&[profile], &selection).is_ok());
}

#[test]
fn validation_rejects_duplicate_upstream_ids_and_display_names() {
    let profile = profile(
        "p",
        "https://example.com/v1",
        vec![
            model("first", "vendor/model", Some("Model")),
            model("second", "vendor/model", Some("Other")),
        ],
    );
    assert!(profile.validate().is_err());

    let mut duplicate_name = profile;
    duplicate_name.models[1].model_id = "vendor/other".into();
    duplicate_name.models[1].display_name = Some("Model".into());
    assert!(duplicate_name.validate().is_err());
}

#[test]
fn validation_rejects_duplicate_display_name_on_an_incomplete_draft() {
    let mut profile = profile(
        "p",
        "https://example.com/v1",
        vec![model("configured", "vendor/model", Some("Model"))],
    );
    profile.models.push(model("draft", "", Some(" Model ")));

    assert!(profile.validate().is_err());
}

#[test]
fn validation_compares_trimmed_model_values() {
    let mut duplicate_name = profile(
        "p",
        "https://example.com/v1",
        vec![
            model("first", "vendor/first", Some("Model")),
            model("second", "vendor/second", Some(" Model ")),
        ],
    );
    assert!(duplicate_name.validate().is_err());

    duplicate_name.models[1].display_name = Some("Other".into());
    duplicate_name.models[1].model_id = " vendor/first ".into();
    assert!(duplicate_name.validate().is_err());
}

#[test]
fn empty_draft_values_do_not_participate_in_uniqueness_checks() {
    let profile = profile(
        "p",
        "https://example.com/v1",
        vec![
            model("configured", "vendor/model", Some("Model")),
            model("draft-one", "", None),
            model("draft-two", "   ", Some("   ")),
        ],
    );

    assert!(profile.validate().is_ok());
}

#[test]
fn selection_rejects_duplicate_profile_ids() {
    let profile = profile("p", "https://example.com/v1", vec![model("m", "gpt", None)]);
    assert!(resolve_selection(&[profile.clone(), profile], &selection("p", "m")).is_err());
}

#[test]
fn catalog_snapshot_caches_validation_and_keeps_repairable_profiles() {
    let mut invalid = profile(
        "invalid",
        "https://example.com/v1/responses",
        vec![model("model", "vendor/model", None)],
    );
    let valid =
        profile("valid", "https://example.com/v1", vec![model("model", "vendor/model", None)]);
    let snapshot = ProviderCatalogSnapshot::new(vec![invalid.clone(), valid]);

    assert_eq!(snapshot.profiles().len(), 2);
    assert!(snapshot.resolve_selection(&selection("invalid", "model")).is_err());
    assert!(snapshot.resolve_selection(&selection("valid", "model")).is_ok());

    invalid.base_url = "https://example.com/v1".into();
    assert!(snapshot.resolve_selection(&selection("invalid", "model")).is_err());
}

fn refusal<T>(result: Result<T, nostra::llm::error::GatewayError>) -> String {
    match result {
        Ok(_) => panic!("expected a refusal"),
        Err(error) => error.safe_message().to_string(),
    }
}

#[test]
fn addresses_are_refused_for_their_parts() {
    let address = |base_url: &str| profile("p", base_url, vec![model("m", "gpt", None)]);
    assert_eq!(
        refusal(address("example.com/v1").validated_base_url()),
        "provider Base URL must be an absolute URL"
    );
    assert_eq!(
        refusal(address("ftp://example.com").validated_base_url()),
        "provider Base URL must use http or https"
    );
    assert!(address("https://example.com/v1?x=1").validated_base_url().is_err());
    assert!(address("https://example.com/v1#top").validated_base_url().is_err());
    assert!(address("https://example.com/v1/responses").validated_base_url().is_err());
    assert!(address("https://example.com/v1/chat/completions/").validated_base_url().is_err());
    let base = match address(" https://example.com/v1// ").validated_base_url() {
        Ok(base) => base,
        Err(error) => panic!("{}", error.debug_text()),
    };
    assert_eq!(base, "https://example.com/v1");
}

#[test]
fn the_parts_of_an_address_decide() {
    let parts = |scheme: &str, host: Option<&str>, path: &str| {
        Some(UrlParts {
            scheme: scheme.into(),
            host: host.map(str::to_string),
            query: None,
            fragment: None,
            path: path.into(),
        })
    };
    assert!(check_base_url("x".into(), parts("https", Some("h"), "/v1")).is_ok());
    assert!(check_base_url("x".into(), parts("https", None, "/v1")).is_err());
    assert!(check_base_url("x".into(), parts("https", Some("h"), "/v1/responses/")).is_err());
    assert!(check_base_url("x".into(), None).is_err());
}

#[test]
fn selections_lead_to_the_profile_and_model_they_name() {
    let profiles = [
        profile("a", "https://a.example/v1", vec![model("m", "one", None)]),
        profile("b", "https://b.example/v1", vec![model("m", "two", None)]),
    ];
    match resolve_selection(&profiles, &selection("b", "m")) {
        Ok((profile, model)) => {
            assert_eq!(profile.id, "b");
            assert_eq!(model.model_id, "two");
        }
        Err(error) => panic!("{}", error.debug_text()),
    }
    assert!(resolve_selection(&profiles, &selection("c", "m")).is_err());
    assert!(resolve_selection(&profiles, &selection("b", "n")).is_err());
}

#[test]
fn names_are_available_to_the_model_that_has_them() {
    let profile = profile(
        "p",
        "https://example.com/v1",
        vec![model("m", "vendor/model", Some("Model")), model("n", "", None)],
    );
    assert!(!profile.upstream_model_id_is_available(" vendor/model ", "n"));
    assert!(profile.upstream_model_id_is_available("vendor/model", "m"));
    assert!(profile.upstream_model_id_is_available("  ", "m"));
    assert!(!profile.display_name_is_available("Model", "n"));
    assert!(profile.display_name_is_available("Model", "m"));
}

#[test]
fn settings_start_empty() {
    assert_eq!(ModelConfig::default(), model("", "", None));
    assert_eq!(ModelSelection::default(), selection("", ""));
    let mut empty = profile("", "", Vec::new());
    empty.name = String::new();
    empty.protocol = Protocol::ChatCompletions;
    assert!(ProviderProfile::default() == empty);
}

#[test]
fn copies_of_a_catalog_judge_alike() {
    let catalog = ProviderCatalogSnapshot::new(vec![
        profile("good", "https://example.com/v1", vec![model("m", "gpt", None)]),
        profile("bad", "nowhere", vec![model("m", "gpt", None)]),
    ]);
    let copy = catalog.clone();
    assert!(copy.profiles() == catalog.profiles());
    assert!(copy.resolve_selection(&selection("good", "m")).is_ok());
    assert_eq!(
        refusal(copy.resolve_selection(&selection("bad", "m"))),
        refusal(catalog.resolve_selection(&selection("bad", "m")))
    );
}
