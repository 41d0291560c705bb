use nostra::error_card::{
    fenced_block, headline, language_tag, pretty_json, truncate_utf8, Headline, TurnError,
    COLLAPSE_LINE_THRESHOLD, MAX_DISPLAY_SOURCE_BYTES, MAX_FORMATTED_BODY_BYTES,
};
use nostra::llm::error::{ErrorKind, GatewayError};

#[test]
fn pretty_json_preserves_key_order_and_scalars() {
    let (pretty, truncated) = pretty_json(
        r#"{"zebra":1,"alpha":{"nested":"v"},"code":"rate_limit"}"#,
        MAX_FORMATTED_BODY_BYTES,
    );
    assert!(!truncated);
    let zebra = pretty.find("zebra").expect("zebra key");
    let alpha = pretty.find("alpha").expect("alpha key");
    assert!(
        zebra < alpha,
        "serde's Value would sort these; upstream order must survive:\n{pretty}"
    );
    assert!(pretty.contains("\"code\": \"rate_limit\""));
}

#[test]
fn pretty_json_leaves_string_contents_untouched() {
    // Braces, colons, and commas inside a string must not trigger indenting.
    let (pretty, truncated) =
        pretty_json(r#"{"message":"limit {a}, use x: y","q":1}"#, MAX_FORMATTED_BODY_BYTES);
    assert!(!truncated);
    assert!(pretty.contains(r#""message": "limit {a}, use x: y""#), "{pretty}");
}

#[test]
fn pretty_json_handles_escaped_quotes_and_empty_containers() {
    let (pretty, truncated) =
        pretty_json(r#"{"a":"say \"hi\"","b":{},"c":[]}"#, MAX_FORMATTED_BODY_BYTES);
    assert!(!truncated);
    assert!(pretty.contains(r#""say \"hi\"""#), "{pretty}");
    assert!(pretty.contains("\"b\": {}"), "{pretty}");
    assert!(pretty.contains("\"c\": []"), "{pretty}");
}

#[test]
fn pretty_json_never_writes_a_closer_past_the_output_budget() {
    for (body, budget) in [("{}", 1), ("[0]", 6)] {
        let (pretty, truncated) = pretty_json(body, budget);
        assert!(truncated, "{body} must be truncated at {budget} bytes");
        assert!(
            pretty.len() <= budget,
            "{body} produced {} bytes with a {budget}-byte budget: {pretty:?}",
            pretty.len()
        );
    }
}

#[test]
fn non_json_bodies_pass_through_untagged() {
    let html = "<html><body>502 Bad Gateway</body></html>";
    assert_eq!(pretty_json(html, MAX_FORMATTED_BODY_BYTES), (html.into(), false));
    assert_eq!(language_tag(html), None);
    assert_eq!(language_tag(r#"{"ok":true}"#), Some("json"));
}

#[test]
fn already_formatted_json_is_left_alone() {
    let formatted = "{\n  \"error\": true\n}";
    assert_eq!(pretty_json(formatted, MAX_FORMATTED_BODY_BYTES), (formatted.into(), false));
}

#[test]
fn long_single_line_response_collapses_without_changing_the_raw_copy() {
    let raw = format!("<html><body>{}</body></html>", "x".repeat(8 * 1024));
    let mut error = GatewayError::http(502, None).with_upstream_body(&raw);
    error.request_id = Some("nostra-1".into());

    let turn_error = TurnError::new(error);

    assert!(turn_error.collapsible, "long wrapped content starts collapsed");
    assert_eq!(
        turn_error.raw_body.as_deref(),
        Some(raw.as_str()),
        "collapse and preview limits must not rewrite the copyable response"
    );
}

#[test]
fn fence_outgrows_backtick_runs_in_the_body() {
    let body = "text with ``` inside";
    let block = fenced_block(body, Some("json"));
    assert!(block.starts_with("````json\n"), "{block}");
    assert!(block.ends_with("\n````"), "{block}");
    // A plain body gets no language tag, but still a valid fence.
    assert!(fenced_block("plain", None).starts_with("```\n"));
}

#[test]
fn http_failure_builds_a_collapsible_card_with_a_copyable_raw_body() {
    // A body long enough to cross the collapse threshold once re-indented.
    let raw = r#"{"error":{"message":"Rate limit reached for gpt-4o","type":"requests","param":null,"code":"rate_limit_exceeded","details":{"limit":10000,"used":10000,"reset":"60s","scope":"organization","plan":"tier-1","window":"1m","retry_after":60,"bucket":"rpm"}}}"#;
    let mut error =
        GatewayError::http(429, Some("rate_limit_exceeded".into())).with_upstream_body(raw);
    error.request_id = Some("nostra-1".into());

    let turn_error = TurnError::new(error);

    assert!(turn_error.refresh_highlight(), "there is a body to draw");
    assert!(
        turn_error.collapsible,
        "a body past the line threshold offers a collapse toggle"
    );
    // The clipboard gets the untouched captured text, not the display form.
    assert_eq!(turn_error.raw_body.as_deref(), Some(raw));
    assert_eq!(turn_error.request_id().as_deref(), Some("nostra-1"));
    assert_eq!(headline(turn_error.kind, turn_error.status), Headline::Http(429));

    // The markdown is a json-tagged fence, so the highlighter engages.
    let (display, truncated) = pretty_json(raw, MAX_FORMATTED_BODY_BYTES);
    assert!(!truncated);
    let markdown = fenced_block(&display, language_tag(raw));
    assert!(markdown.starts_with("```json\n"), "{markdown}");
    assert!(markdown.contains("\"code\": \"rate_limit_exceeded\""), "{markdown}");
    assert_eq!(turn_error.markdown.as_deref(), Some(markdown.as_str()));
}

#[test]
fn local_failure_renders_headline_only() {
    // A configuration failure never reached the provider, so there is no body.
    let error = GatewayError::configuration("model selection is unavailable");
    let turn_error = TurnError::new(error);

    assert!(!turn_error.refresh_highlight());
    assert!(turn_error.raw_body.is_none());
    assert!(!turn_error.collapsible, "nothing to collapse");
    assert!(!headline(turn_error.kind, turn_error.status).key().is_empty());
}

#[test]
fn preview_limits_preserve_utf8_and_bound_formatted_output() {
    let raw = format!(r#"{{"message":"{}"}}"#, "界".repeat(MAX_DISPLAY_SOURCE_BYTES));
    let (source, source_truncated) = truncate_utf8(&raw, MAX_DISPLAY_SOURCE_BYTES);
    assert!(source_truncated);
    assert!(source.is_char_boundary(source.len()));
    assert!(source.len() <= MAX_DISPLAY_SOURCE_BYTES);

    let nested = format!("{}0{}", "[".repeat(120), "]".repeat(120));
    let (formatted, formatted_truncated) = pretty_json(&nested, 64);
    assert!(formatted_truncated);
    assert!(formatted.len() <= 64);
    assert!(formatted.is_char_boundary(formatted.len()));
}

#[test]
fn formatting_is_exact() {
    assert_eq!(
        pretty_json(r#"{ "a" : [1,{}, "x,y"] }"#, MAX_FORMATTED_BODY_BYTES),
        ("{\n  \"a\": [\n    1,\n    {},\n    \"x,y\"\n  ]\n}".into(), false)
    );
    // Two bytes are left for a colon and a space, or the text ends before them.
    assert_eq!(pretty_json(r#"{"a":1}"#, 8), ("{\n  \"a\"".into(), true));
    assert_eq!(pretty_json(r#"{"a":1}"#, 9), ("{\n  \"a\": ".into(), true));
    assert_eq!(pretty_json(r#"{"a":1}"#, 12), ("{\n  \"a\": 1\n}".into(), false));
}

#[test]
fn formatting_keeps_every_character_but_the_layout() {
    let body = r#"{"a":"b \" c","n":[1,2.50,-3e2,null],"o":{"k":"v,:{}"}}"#;
    let (pretty, truncated) = pretty_json(body, MAX_FORMATTED_BODY_BYTES);
    assert!(!truncated);
    let mut squeezed = String::new();
    let mut in_string = false;
    let mut escaped = false;
    for c in pretty.chars() {
        if in_string || !c.is_ascii_whitespace() {
            squeezed.push(c);
        }
        if in_string && escaped {
            escaped = false;
        } else if in_string && c == '\\' {
            escaped = true;
        } else if c == '"' {
            in_string = !in_string;
        }
    }
    assert_eq!(squeezed, body);
}

#[test]
fn cutting_ends_between_characters() {
    assert_eq!(truncate_utf8("a界b", 4), ("a界".into(), true));
    assert_eq!(truncate_utf8("a界b", 3), ("a".into(), true));
    assert_eq!(truncate_utf8("a界b", 5), ("a界b".into(), false));
    assert_eq!(truncate_utf8("界", 0), ("".into(), true));
}

#[test]
fn fences_are_exact() {
    assert_eq!(fenced_block("x", None), "```\nx\n```");
    assert_eq!(fenced_block("`", Some("json")), "```json\n`\n```");
    assert_eq!(fenced_block("a ```` b `", None), "`````\na ```` b `\n`````");
    assert_eq!(fenced_block("", None), "```\n\n```");
}

#[test]
fn each_kind_of_failure_has_its_headline() {
    assert_eq!(headline(ErrorKind::Configuration, None), Headline::Configuration);
    assert_eq!(headline(ErrorKind::Transport, Some(500)), Headline::Connection);
    assert_eq!(headline(ErrorKind::Http, None), Headline::Provider);
    assert_eq!(headline(ErrorKind::Http, Some(503)), Headline::Http(503));
    assert_eq!(headline(ErrorKind::Protocol, None), Headline::Interrupted);
    assert_eq!(headline(ErrorKind::Provider, Some(400)), Headline::Provider);
    assert_eq!(Headline::Http(503).key(), "chat.error.http");
    assert_eq!(Headline::Interrupted.key(), "chat.error.interrupted");
}

#[test]
fn cards_collapse_by_lines_and_say_when_they_are_cut() {
    let few = "line\n".repeat(COLLAPSE_LINE_THRESHOLD);
    let many = "line\n".repeat(COLLAPSE_LINE_THRESHOLD + 1);
    let card = |body: &str| TurnError::new(GatewayError::http(500, None).with_upstream_body(body));
    assert!(!card(&few).collapsible);
    assert!(card(&many).collapsible);
    assert!(!card(&many).preview_truncated);
    let huge = "y".repeat(MAX_DISPLAY_SOURCE_BYTES + 1);
    let cut = card(&huge);
    assert!(cut.preview_truncated);
    assert_eq!(cut.raw_body.as_deref(), Some(huge.as_str()));
    assert_eq!(
        cut.markdown.as_deref().map(str::len),
        Some(MAX_DISPLAY_SOURCE_BYTES + "```\n\n```".len())
    );
}
