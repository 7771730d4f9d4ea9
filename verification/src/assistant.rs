//! The writing assistant: what it is asked, how its reply is read, and what a reply or a finished
//! package installation does to the document and the output panel.
use vstd::prelude::*;

use crate::json::{
    json_string_at, json_string_at_spec, json_string_literal, json_string_literal_spec, path_view,
    JsonKey, JsonStep,
};
use crate::output::{corrected_spec, corrected_text};
use crate::strings::{ostr, starts_with, trim, chars_of, starts_with_exec, trim_exec, string_from_chars};
use crate::text::utf8;

verus! {

/// What the assistant proposes: a corrected document (or one corrected line), or a package to
/// install.
#[derive(Clone, Debug)]
pub enum LlmAction {
    Correction { text: String, line: Option<usize>, explanation: Option<String> },
    InstallPackage { package: String, explanation: Option<String> },
}

/// The two pages of the output panel.
#[derive(Clone, Copy, PartialEq, Eq, Structural, Debug)]
pub enum OutputPanelTab {
    Compiler,
    AI,
}

/// The kind of a line in the output panel, which decides its colour.
#[derive(Clone, Copy, PartialEq, Eq, Structural, Debug)]
pub enum LogTone {
    /// An assistant's note (green).
    Note,
    /// Work under way (yellow).
    Pending,
    /// A finished success (bright green).
    Success,
    /// A failure (red).
    Failure,
    /// A compiler warning (amber).
    Warning,
}

/// The text sent to the assistant to correct `document`.
pub open spec fn prompt_spec(document: Seq<char>) -> Seq<char> {
    "Fix any LaTeX syntax errors in the following document. Return only the corrected LaTeX code without any additional explanation or markdown blocks.\n\n"@
        + document
}

/// The request text for correcting `document`.
pub fn correction_prompt(document: &str) -> (r: String)
    ensures
        r@ == prompt_spec(document@),
{
    String::from_str(
        "Fix any LaTeX syntax errors in the following document. Return only the corrected LaTeX code without any additional explanation or markdown blocks.\n\n",
    ).concat(document)
}

/// Where the reply text sits in a chat-completion response: `choices[0].message.content`.
pub open spec fn reply_path() -> Seq<JsonKey> {
    seq![
        JsonKey::Key("choices"@),
        JsonKey::Index(0),
        JsonKey::Key("message"@),
        JsonKey::Key("content"@),
    ]
}

fn reply_path_steps() -> (r: Vec<JsonStep>)
    ensures
        path_view(r@) == reply_path(),
{
    let mut v: Vec<JsonStep> = Vec::new();
    v.push(JsonStep::Key(String::from_str("choices")));
    v.push(JsonStep::Index(0));
    v.push(JsonStep::Key(String::from_str("message")));
    v.push(JsonStep::Key(String::from_str("content")));
    assert(path_view(v@) =~= reply_path());
    v
}

/// The body of the chat-completion request that asks for `prompt` to be answered: the
/// `gpt-4o-mini` model and one user message, as serde_json writes that object (keys in order,
/// no spaces).
pub open spec fn request_body_spec(prompt: Seq<char>) -> Seq<char> {
    "{\"messages\":[{\"content\":"@ + json_string_literal_spec(prompt)
        + ",\"role\":\"user\"}],\"model\":\"gpt-4o-mini\"}"@
}

/// The chat-completion request body for `prompt` (see `request_body_spec`).
pub fn request_body(prompt: &str) -> (r: String)
    ensures
        r@ == request_body_spec(prompt@),
{
    let lit = json_string_literal(prompt);
    String::from_str("{\"messages\":[{\"content\":").concat(lit.as_str()).concat(
        ",\"role\":\"user\"}],\"model\":\"gpt-4o-mini\"}",
    )
}

/// `r` is what a reply whose content was read as `parsed` gives: an unreadable reply and a reply
/// without content are errors; otherwise the content replaces the whole document.
pub open spec fn reply_result(r: Result<LlmAction, String>, parsed: Option<Option<Seq<char>>>) -> bool {
    match parsed {
        None => r matches Err(e) && e@ == "Failed to parse LLM response"@,
        Some(None) => r matches Err(e) && e@ == "Invalid response format from LLM"@,
        Some(Some(c)) => r matches Ok(LlmAction::Correction { text, line, explanation }) && text@ == c
            && line is None && explanation is None,
    }
}

/// What the assistant proposes, given the content read from its reply.
pub fn reply_from(parsed: Option<Option<String>>) -> (r: Result<LlmAction, String>)
    ensures
        reply_result(r, match parsed {
            None => None,
            Some(c) => Some(ostr(c)),
        }),
{
    match parsed {
        None => Err(String::from_str("Failed to parse LLM response")),
        Some(None) => Err(String::from_str("Invalid response format from LLM")),
        Some(Some(c)) => Ok(LlmAction::Correction { text: c, line: None, explanation: None }),
    }
}

/// What the assistant proposes, given the HTTP response body or the network error's message.
pub fn llm_reply(reply: Result<String, String>) -> (r: Result<LlmAction, String>)
    ensures
        match reply {
            Err(e) => r matches Err(m) && m@ == "LLM network error: "@ + e@,
            Ok(body) => reply_result(r, json_string_at_spec(body@, reply_path())),
        },
{
    match reply {
        Err(e) => Err(String::from_str("LLM network error: ").concat(e.as_str())),
        Ok(body) => {
            let path = reply_path_steps();
            reply_from(json_string_at(body.as_str(), path.as_slice()))
        },
    }
}

/// What a reply does to the active tab.
pub struct LlmOutcome {
    /// Lines appended to the assistant's log.
    pub ai_log: Vec<(String, LogTone)>,
    /// The new document text, when it changes.
    pub new_text: Option<String>,
    /// The new status-bar message, when it changes.
    pub status: Option<String>,
    /// The error to show, when the request failed.
    pub error: Option<String>,
    /// When set, the compiler log is cleared and this line (a failure) is shown in it.
    pub output_line: Option<String>,
    /// A package to install.
    pub install: Option<String>,
}

/// The views of log lines.
pub open spec fn log_views(v: Seq<(String, LogTone)>) -> Seq<(Seq<char>, LogTone)> {
    Seq::new(v.len(), |i: int| (v[i].0@, v[i].1))
}

/// The assistant's explanation, if any, as log lines.
pub open spec fn explanation_lines(e: Option<String>) -> Seq<(Seq<char>, LogTone)> {
    match e {
        Some(x) => seq![(x@, LogTone::Note)],
        None => seq![],
    }
}

/// The effect of the assistant's answer on the active tab (`document` is its text). The output
/// panel then shows the assistant's page.
pub open spec fn outcome_spec(r: LlmOutcome, result: Result<LlmAction, String>, document: Seq<char>) -> bool {
    match result {
        Ok(LlmAction::Correction { text, line, explanation }) => {
            &&& log_views(r.ai_log@) == seq![
                (match explanation {
                    Some(x) => x@,
                    None => "Correction applied successfully."@,
                }, LogTone::Note),
            ]
            &&& ostr(r.new_text) == match line {
                Some(l) => corrected_spec(document, l as int, text@),
                None => Some(text@),
            }
            &&& ostr(r.status) == Some("Syntax corrected via LLM"@)
            &&& r.error is None
            &&& r.output_line is None
            &&& r.install is None
        },
        Ok(LlmAction::InstallPackage { package, explanation }) => {
            &&& log_views(r.ai_log@) == explanation_lines(explanation) + seq![
                ("Attempting to install package "@ + package@ + "..."@, LogTone::Pending),
            ]
            &&& r.new_text is None
            &&& ostr(r.status) == Some("Installing package "@ + package@ + "..."@)
            &&& r.error is None
            &&& r.output_line is None
            &&& ostr(r.install) == Some(package@)
        },
        Err(e) => {
            &&& r.ai_log@.len() == 0
            &&& r.new_text is None
            &&& r.status is None
            &&& ostr(r.error) == Some(e@)
            &&& ostr(r.output_line) == Some("\u{00D7} LLM Error: "@ + e@)
            &&& r.install is None
        },
    }
}

fn push_line(log: &mut Vec<(String, LogTone)>, s: String, tone: LogTone)
    ensures
        log_views(final(log)@) == log_views(old(log)@).push((s@, tone)),
{
    log.push((s, tone));
    assert(log_views(log@) =~= log_views(old(log)@).push((s@, tone)));
}

/// What the assistant's answer (or the failure to get one) does to a tab whose text is
/// `document` (see `outcome_spec`).
pub fn llm_outcome(result: Result<LlmAction, String>, document: &str) -> (r: LlmOutcome)
    ensures
        outcome_spec(r, result, document@),
{
    let mut ai_log: Vec<(String, LogTone)> = Vec::new();
    match result {
        Ok(LlmAction::Correction { text, line, explanation }) => {
            let note = match explanation {
                Some(x) => x,
                None => String::from_str("Correction applied successfully."),
            };
            let ghost nv = note@;
            push_line(&mut ai_log, note, LogTone::Note);
            assert(log_views(ai_log@) =~= seq![(nv, LogTone::Note)]);
            let new_text = match line {
                Some(l) => corrected_text(document, l, text.as_str()),
                None => Some(text),
            };
            let status = String::from_str("Syntax corrected via LLM");
            assert(ostr(new_text) == match line {
                Some(l) => corrected_spec(document@, l as int, text@),
                None => Some(text@),
            });
            assert(status@ == "Syntax corrected via LLM"@);
            LlmOutcome {
                ai_log,
                new_text,
                status: Some(status),
                error: None,
                output_line: None,
                install: None,
            }
        },
        Ok(LlmAction::InstallPackage { package, explanation }) => {
            let ghost expl = explanation;
            if let Some(x) = explanation {
                push_line(&mut ai_log, x, LogTone::Note);
            }
            assert(log_views(ai_log@) =~= explanation_lines(expl));
            let line = String::from_str("Attempting to install package ").concat(
                package.as_str(),
            ).concat("...");
            let ghost lv = line@;
            push_line(&mut ai_log, line, LogTone::Pending);
            assert(log_views(ai_log@) =~= explanation_lines(expl) + seq![(lv, LogTone::Pending)]);
            let status = String::from_str("Installing package ").concat(package.as_str()).concat(
                "...",
            );
            LlmOutcome {
                ai_log,
                new_text: None,
                status: Some(status),
                error: None,
                output_line: None,
                install: Some(package),
            }
        },
        Err(e) => {
            let line = String::from_str("\u{00D7} LLM Error: ").concat(e.as_str());
            LlmOutcome {
                ai_log,
                new_text: None,
                status: None,
                error: Some(e),
                output_line: Some(line),
                install: None,
            }
        },
    }
}

/// What a finished package installation reports: the status-bar message and the log line.
pub open spec fn install_report_spec(package: Seq<char>, result: Result<(), Seq<char>>) -> (
    Seq<char>,
    Seq<char>,
    LogTone,
) {
    match result {
        Ok(_) => (
            "Package "@ + package + " installed successfully"@,
            "Package "@ + package + " installed successfully"@,
            LogTone::Success,
        ),
        Err(e) => (
            "Failed to install "@ + package,
            "Failed to install "@ + package + ": "@ + e,
            LogTone::Failure,
        ),
    }
}

/// The status message and log line for the installation of `package` (`result` carries the
/// installer's error output on failure).
pub fn install_report(package: &str, result: Result<(), String>) -> (r: (String, String, LogTone))
    ensures
        (r.0@, r.1@, r.2) == install_report_spec(
            package@,
            match result {
                Ok(u) => Ok(u),
                Err(e) => Err(e@),
            },
        ),
{
    match result {
        Ok(_) => {
            let s = String::from_str("Package ").concat(package).concat(" installed successfully");
            let l = s.clone();
            (s, l, LogTone::Success)
        },
        Err(e) => {
            let s = String::from_str("Failed to install ").concat(package);
            let l = s.clone().concat(": ").concat(e.as_str());
            (s, l, LogTone::Failure)
        },
    }
}

/// The check made on an API key before it is saved: the trimmed key must not be empty, must
/// carry the provider's prefix (OpenAI `sk-`, Anthropic `sk-ant-`, Gemini `AIza`), and for
/// Mistral, Cohere and custom providers be at least 8 bytes long.
pub open spec fn api_key_check(provider: Seq<char>, key: Seq<char>) -> Result<(), Seq<char>> {
    let k = trim(key);
    if k.len() == 0 {
        Err("API key cannot be empty"@)
    } else if provider == "OpenAI"@ && !starts_with(k, "sk-"@) {
        Err("OpenAI API key must start with 'sk-'"@)
    } else if provider == "Anthropic"@ && !starts_with(k, "sk-ant-"@) {
        Err("Anthropic API key must start with 'sk-ant-'"@)
    } else if provider == "Gemini"@ && !starts_with(k, "AIza"@) {
        Err("Gemini API key must start with 'AIza'"@)
    } else if (provider == "Mistral"@ || provider == "Cohere"@ || provider == "Custom"@)
        && utf8(k).len() < 8 {
        Err("API key seems too short"@)
    } else {
        Ok(())
    }
}

fn str_is(a: &str, b: &str) -> (r: bool)
    ensures
        r == (a@ == b@),
{
    let ac = chars_of(a);
    let bc = chars_of(b);
    let r = ac.len() == bc.len() && starts_with_exec(ac.as_slice(), bc.as_slice());
    proof {
        if ac@.len() == bc@.len() {
            assert(ac@.subrange(0, bc@.len() as int) =~= ac@);
        }
    }
    r
}

/// Checks an API key for `provider` (see `api_key_check`).
pub fn validate_api_key(provider: &str, key: &str) -> (r: Result<(), &'static str>)
    ensures
        match r {
            Ok(u) => api_key_check(provider@, key@) == Ok::<(), Seq<char>>(u),
            Err(m) => api_key_check(provider@, key@) == Err::<(), Seq<char>>(m@),
        },
{
    let kc = chars_of(key);
    let k = trim_exec(kc.as_slice());
    if k.len() == 0 {
        return Err("API key cannot be empty");
    }
    let open_ai = str_is(provider, "OpenAI");
    let anthropic = str_is(provider, "Anthropic");
    let gemini = str_is(provider, "Gemini");
    let short_ok = str_is(provider, "Mistral") || str_is(provider, "Cohere") || str_is(
        provider,
        "Custom",
    );
    proof {
        reveal_strlit("OpenAI");
        reveal_strlit("Anthropic");
        reveal_strlit("Gemini");
        reveal_strlit("Mistral");
        reveal_strlit("Cohere");
        reveal_strlit("Custom");
        assert("OpenAI"@[0] == 'O' && "Anthropic"@[0] == 'A' && "Gemini"@[0] == 'G');
        assert("Mistral"@[0] == 'M' && "Cohere"@[0] == 'C' && "Custom"@[0] == 'C');
    }
    if open_ai && !starts_with_exec(k.as_slice(), chars_of("sk-").as_slice()) {
        return Err("OpenAI API key must start with 'sk-'");
    }
    if anthropic && !starts_with_exec(k.as_slice(), chars_of("sk-ant-").as_slice()) {
        return Err("Anthropic API key must start with 'sk-ant-'");
    }
    if gemini && !starts_with_exec(k.as_slice(), chars_of("AIza").as_slice()) {
        return Err("Gemini API key must start with 'AIza'");
    }
    if short_ok {
        let ks = string_from_chars(k.as_slice(), 0, k.len());
        assert(k@.subrange(0, k@.len() as int) =~= k@);
        if ks.as_str().as_bytes().len() < 8 {
            return Err("API key seems too short");
        }
    }
    Ok(())
}

} // verus!
