use lekhani_latex::assistant::{
    correction_prompt, install_report, request_body, llm_outcome, llm_reply, reply_from, validate_api_key, LlmAction, LogTone,
};

#[test]
fn prompt_wraps_document() {
    let p = correction_prompt("\\begin{document}");
    assert!(p.starts_with("Fix any LaTeX syntax errors in the following document."));
    assert!(p.ends_with("markdown blocks.\n\n\\begin{document}"));
}

#[test]
fn reply_content_becomes_correction() {
    let body = r#"{"choices":[{"message":{"role":"assistant","content":"\\section{A}"}}]}"#;
    match llm_reply(Ok(body.to_string())) {
        Ok(LlmAction::Correction { text, line, explanation }) => {
            assert_eq!(text, "\\section{A}");
            assert!(line.is_none());
            assert!(explanation.is_none());
        }
        _ => panic!("expected a correction"),
    }
}

#[test]
fn bad_replies_are_errors() {
    assert!(matches!(llm_reply(Ok("not json".to_string())), Err(ref e) if e == "Failed to parse LLM response"));
    assert!(matches!(llm_reply(Ok("{\"choices\":[]}".to_string())), Err(ref e) if e == "Invalid response format from LLM"));
    assert!(matches!(llm_reply(Err("timeout".to_string())), Err(ref e) if e == "LLM network error: timeout"));
    assert!(matches!(reply_from(Some(None)), Err(ref e) if e == "Invalid response format from LLM"));
    assert!(matches!(reply_from(None), Err(ref e) if e == "Failed to parse LLM response"));
}

#[test]
fn whole_document_correction() {
    let o = llm_outcome(
        Ok(LlmAction::Correction { text: "new".to_string(), line: None, explanation: None }),
        "old",
    );
    assert_eq!(o.ai_log, vec![("Correction applied successfully.".to_string(), LogTone::Note)]);
    assert_eq!(o.new_text, Some("new".to_string()));
    assert_eq!(o.status, Some("Syntax corrected via LLM".to_string()));
    assert!(o.error.is_none() && o.output_line.is_none() && o.install.is_none());
}

#[test]
fn one_line_correction_and_bad_line() {
    let o = llm_outcome(
        Ok(LlmAction::Correction { text: "B".to_string(), line: Some(2), explanation: Some("fixed b".to_string()) }),
        "a\nb\nc",
    );
    assert_eq!(o.ai_log, vec![("fixed b".to_string(), LogTone::Note)]);
    assert_eq!(o.new_text, Some("a\nB\nc".to_string()));
    let o = llm_outcome(
        Ok(LlmAction::Correction { text: "B".to_string(), line: Some(7), explanation: None }),
        "a\nb\nc",
    );
    assert!(o.new_text.is_none());
    assert_eq!(o.status, Some("Syntax corrected via LLM".to_string()));
}

#[test]
fn package_installation_request() {
    let o = llm_outcome(
        Ok(LlmAction::InstallPackage { package: "amsmath".to_string(), explanation: Some("needed".to_string()) }),
        "x",
    );
    assert_eq!(
        o.ai_log,
        vec![
            ("needed".to_string(), LogTone::Note),
            ("Attempting to install package amsmath...".to_string(), LogTone::Pending),
        ]
    );
    assert_eq!(o.status, Some("Installing package amsmath...".to_string()));
    assert_eq!(o.install, Some("amsmath".to_string()));
    assert!(o.new_text.is_none());
}

#[test]
fn failed_request() {
    let o = llm_outcome(Err("boom".to_string()), "x");
    assert!(o.ai_log.is_empty());
    assert_eq!(o.error, Some("boom".to_string()));
    assert_eq!(o.output_line, Some("\u{00D7} LLM Error: boom".to_string()));
    assert!(o.status.is_none() && o.new_text.is_none() && o.install.is_none());
}

#[test]
fn installation_reports() {
    let (s, l, t) = install_report("amsmath", Ok(()));
    assert_eq!(s, "Package amsmath installed successfully");
    assert_eq!(l, "Package amsmath installed successfully");
    assert_eq!(t, LogTone::Success);
    let (s, l, t) = install_report("foo", Err("not found".to_string()));
    assert_eq!(s, "Failed to install foo");
    assert_eq!(l, "Failed to install foo: not found");
    assert_eq!(t, LogTone::Failure);
}

#[test]
fn api_key_checks() {
    assert_eq!(validate_api_key("OpenAI", "   "), Err("API key cannot be empty"));
    assert_eq!(validate_api_key("OpenAI", "abc"), Err("OpenAI API key must start with 'sk-'"));
    assert_eq!(validate_api_key("OpenAI", "  sk-123  "), Ok(()));
    assert_eq!(validate_api_key("Anthropic", "sk-123"), Err("Anthropic API key must start with 'sk-ant-'"));
    assert_eq!(validate_api_key("Anthropic", "sk-ant-1"), Ok(()));
    assert_eq!(validate_api_key("Gemini", "xyz"), Err("Gemini API key must start with 'AIza'"));
    assert_eq!(validate_api_key("Gemini", "AIza1"), Ok(()));
    assert_eq!(validate_api_key("Mistral", "short"), Err("API key seems too short"));
    assert_eq!(validate_api_key("Cohere", "12345678"), Ok(()));
    assert_eq!(validate_api_key("Custom", "ééé"), Err("API key seems too short"));
    assert_eq!(validate_api_key("Custom", "éééé"), Ok(()));
    assert_eq!(validate_api_key("Other", "x"), Ok(()));
}

#[test]
fn request_body_holds_the_prompt() {
    assert_eq!(
        request_body("hi \"x\"\n"),
        r#"{"messages":[{"content":"hi \"x\"\n","role":"user"}],"model":"gpt-4o-mini"}"#
    );
    assert_eq!(request_body(""), r#"{"messages":[{"content":"","role":"user"}],"model":"gpt-4o-mini"}"#);
}

#[test]
fn reply_is_read_from_the_first_choice() {
    let body = r#"{"choices":[{"message":{"content":"one"}},{"message":{"content":"two"}}]}"#;
    assert!(matches!(llm_reply(Ok(body.to_string())), Ok(LlmAction::Correction { ref text, .. }) if text == "one"));
    let body = r#"{"choices":[{"message":{"content":7}}]}"#;
    assert!(matches!(llm_reply(Ok(body.to_string())), Err(ref e) if e == "Invalid response format from LLM"));
    let body = r#"{"choice":[{"message":{"content":"one"}}]}"#;
    assert!(matches!(llm_reply(Ok(body.to_string())), Err(ref e) if e == "Invalid response format from LLM"));
}
