//! Saved settings and what is read from the system: the theme and its name in the settings file,
//! the desktop's colour preference, the assistant's API key, and the latest release.
use vstd::prelude::*;

use crate::strings::{chars_of, contains, contains_exec, find_char, occurs_at, occurs_at_exec, string_from_chars};
use crate::types::Theme;
use crate::strings::ostr;
use crate::json::{
    json_string_at, json_string_at_spec, json_with_string, json_with_string_spec, json_without_key,
    json_without_key_spec, path_view, JsonKey, JsonStep,
};

verus! {

/// The name under which a theme is saved.
pub open spec fn theme_name_spec(t: Theme) -> Seq<char> {
    match t {
        Theme::System => "System"@,
        Theme::Light => "Light"@,
        Theme::Dark => "Dark"@,
    }
}

/// The name under which `t` is saved.
pub fn theme_name(t: Theme) -> (r: &'static str)
    ensures
        r@ == theme_name_spec(t),
{
    match t {
        Theme::System => "System",
        Theme::Light => "Light",
        Theme::Dark => "Dark",
    }
}

/// The theme a saved name stands for: `System` for a missing or unknown name.
pub open spec fn theme_from_name_spec(name: Option<Seq<char>>) -> Theme {
    match name {
        Some(n) => if n == "Light"@ {
            Theme::Light
        } else if n == "Dark"@ {
            Theme::Dark
        } else {
            Theme::System
        },
        None => Theme::System,
    }
}

fn str_is(a: &str, b: &str) -> (r: bool)
    ensures
        r == (a@ == b@),
{
    let ac = chars_of(a);
    let bc = chars_of(b);
    let r = ac.len() == bc.len() && occurs_at_exec(ac.as_slice(), bc.as_slice(), 0);
    proof {
        if ac@.len() == bc@.len() {
            assert(ac@.subrange(0, bc@.len() as int) =~= ac@);
        }
    }
    r
}

/// The theme saved under `name` (see `theme_from_name_spec`).
pub fn theme_from_name(name: Option<&str>) -> (r: Theme)
    ensures
        r == theme_from_name_spec(
            match name {
                Some(n) => Some(n@),
                None => None,
            },
        ),
{
    match name {
        Some(n) => if str_is(n, "Light") {
            Theme::Light
        } else if str_is(n, "Dark") {
            Theme::Dark
        } else {
            Theme::System
        },
        None => Theme::System,
    }
}

/// A saved theme is read back as the same theme.
pub proof fn law_theme_name_round_trip(t: Theme)
    ensures
        theme_from_name_spec(Some(theme_name_spec(t))) == t,
{
    reveal_strlit("System");
    reveal_strlit("Light");
    reveal_strlit("Dark");
    assert("System"@[0] == 'S' && "Light"@[0] == 'L' && "Dark"@[0] == 'D');
}

/// Whether the editor is drawn dark: `Dark` is, `Light` is not, and `System` follows the
/// desktop (`os_dark`), dark when the desktop's preference is unknown.
pub open spec fn is_dark_spec(t: Theme, os_dark: Option<bool>) -> bool {
    match t {
        Theme::Dark => true,
        Theme::Light => false,
        Theme::System => os_dark != Some(false),
    }
}

impl Theme {
    /// The theme actually drawn (`Dark` or `Light`), given the desktop's preference.
    pub fn resolve(self, os_dark: Option<bool>) -> (r: Theme)
        ensures
            r == (if is_dark_spec(self, os_dark) {
                Theme::Dark
            } else {
                Theme::Light
            }),
    {
        let dark = match self {
            Theme::Dark => true,
            Theme::Light => false,
            Theme::System => match os_dark {
                Some(d) => d,
                None => true,
            },
        };
        if dark {
            Theme::Dark
        } else {
            Theme::Light
        }
    }
}

/// The desktop's colour preference as `gsettings get org.gnome.desktop.interface color-scheme`
/// prints it: dark for `prefer-dark`, light for `prefer-light` or `default`, else unknown.
pub open spec fn os_dark_spec(out: Seq<char>) -> Option<bool> {
    if contains(out, "prefer-dark"@) {
        Some(true)
    } else if contains(out, "prefer-light"@) || contains(out, "default"@) {
        Some(false)
    } else {
        None
    }
}

/// Reads the desktop's colour preference (see `os_dark_spec`).
pub fn os_prefers_dark(out: &str) -> (r: Option<bool>)
    ensures
        r == os_dark_spec(out@),
{
    let c = chars_of(out);
    if contains_exec(c.as_slice(), chars_of("prefer-dark").as_slice()) {
        Some(true)
    } else if contains_exec(c.as_slice(), chars_of("prefer-light").as_slice()) || contains_exec(
        c.as_slice(),
        chars_of("default").as_slice(),
    ) {
        Some(false)
    } else {
        None
    }
}

/// The API key to start with, and whether one was found: the saved key if it is not empty,
/// else the `LLM_API_KEY` environment variable if it is not empty, else none.
pub open spec fn initial_key_spec(saved: Option<Seq<char>>, env: Option<Seq<char>>) -> (
    Seq<char>,
    bool,
) {
    if saved is Some && saved->0.len() > 0 {
        (saved->0, true)
    } else if env is Some && env->0.len() > 0 {
        (env->0, true)
    } else {
        (Seq::empty(), false)
    }
}

/// Chooses the API key to start with (see `initial_key_spec`).
pub fn initial_api_key(saved: Option<&str>, env: Option<&str>) -> (r: (String, bool))
    ensures
        (r.0@, r.1) == initial_key_spec(
            match saved {
                Some(s) => Some(s@),
                None => None,
            },
            match env {
                Some(s) => Some(s@),
                None => None,
            },
        ),
{
    if let Some(k) = saved {
        if chars_of(k).len() > 0 {
            return (String::from_str(k), true);
        }
    }
    if let Some(k) = env {
        if chars_of(k).len() > 0 {
            return (String::from_str(k), true);
        }
    }
    proof {
        reveal_strlit("");
    }
    (String::from_str(""), false)
}

/// The first position at or after `i` where `needle` occurs in `hay`.
pub open spec fn first_occurrence(hay: Seq<char>, needle: Seq<char>, i: int) -> Option<int>
    decreases hay.len() + 1 - i,
{
    if i < 0 || i + needle.len() > hay.len() {
        None
    } else if occurs_at(hay, needle, i) {
        Some(i)
    } else {
        first_occurrence(hay, needle, i + 1)
    }
}

/// `s` without its leading `c`s (`str::trim_start_matches` with a character).
pub open spec fn trim_start_char(s: Seq<char>, c: char) -> Seq<char>
    decreases s.len(),
{
    if s.len() > 0 && s[0] == c {
        trim_start_char(s.drop_first(), c)
    } else {
        s
    }
}

/// The release tag in a release description: the text between the first two quotes after the
/// first `"tag_name":`; `None` when it is not there.
pub open spec fn tag_spec(json: Seq<char>) -> Option<Seq<char>> {
    match first_occurrence(json, "\"tag_name\":"@, 0) {
        None => None,
        Some(i) => {
            let rest = json.subrange(i + 11, json.len() as int);
            let q = find_char(rest, '"', 0);
            if q >= rest.len() {
                None
            } else {
                let rest2 = rest.subrange(q + 1, rest.len() as int);
                let e = find_char(rest2, '"', 0);
                if e >= rest2.len() {
                    None
                } else {
                    Some(rest2.subrange(0, e))
                }
            }
        },
    }
}

/// The newer version a release description announces: its tag without leading `v`s, when that
/// differs from `current`.
pub open spec fn newer_version_spec(json: Seq<char>, current: Seq<char>) -> Option<Seq<char>> {
    match tag_spec(json) {
        None => None,
        Some(t) => {
            let v = trim_start_char(t, 'v');
            if v != current {
                Some(v)
            } else {
                None
            }
        },
    }
}

/// A position found by `first_occurrence` is an occurrence.
pub proof fn lemma_first_occurrence(hay: Seq<char>, needle: Seq<char>, i: int)
    ensures
        first_occurrence(hay, needle, i) matches Some(k) ==> i <= k && occurs_at(hay, needle, k),
    decreases hay.len() + 1 - i,
{
    if !(i < 0 || i + needle.len() > hay.len()) && !occurs_at(hay, needle, i) {
        lemma_first_occurrence(hay, needle, i + 1);
    }
}

fn first_occurrence_exec(hay: &[char], needle: &[char]) -> (r: Option<usize>)
    ensures
        match r {
            Some(i) => first_occurrence(hay@, needle@, 0) == Some(i as int),
            None => first_occurrence(hay@, needle@, 0) is None,
        },
{
    if needle.len() == 0 {
        assert(hay@.subrange(0, 0) =~= needle@);
        return Some(0);
    }
    let mut i: usize = 0;
    while i <= hay.len() && needle.len() <= hay.len() - i
        invariant
            needle@.len() >= 1,
            0 <= i <= hay@.len(),
            first_occurrence(hay@, needle@, i as int) == first_occurrence(hay@, needle@, 0),
        decreases hay@.len() + 1 - i,
    {
        if occurs_at_exec(hay, needle, i) {
            return Some(i);
        }
        i = i + 1;
    }
    None
}

fn find_char_exec(s: &[char], c: char) -> (r: usize)
    ensures
        r == find_char(s@, c, 0),
{
    let mut i: usize = 0;
    while i < s.len() && s[i] != c
        invariant
            0 <= i <= s@.len(),
            find_char(s@, c, i as int) == find_char(s@, c, 0),
        decreases s@.len() - i,
    {
        i = i + 1;
    }
    i
}

/// The version a release description announces, when it is not `current` (see
/// `newer_version_spec`).
pub fn newer_version(json: &str, current: &str) -> (r: Option<String>)
    ensures
        match r {
            Some(v) => newer_version_spec(json@, current@) == Some(v@),
            None => newer_version_spec(json@, current@) is None,
        },
{
    let j = chars_of(json);
    let pat = chars_of("\"tag_name\":");
    proof {
        reveal_strlit("\"tag_name\":");
    }
    let i = match first_occurrence_exec(j.as_slice(), pat.as_slice()) {
        Some(i) => i,
        None => return None,
    };
    proof {
        lemma_first_occurrence(j@, pat@, 0);
        assert(pat@.len() == 11);
        assert(occurs_at(j@, pat@, i as int));
        assert(i + 11 <= j@.len());
    }
    let jl = j.len();
    let rest = crate::strings::copy_range(j.as_slice(), i + 11, jl);
    let q = find_char_exec(rest.as_slice(), '"');
    if q >= rest.len() {
        return None;
    }
    let rest2 = crate::strings::copy_range(rest.as_slice(), q + 1, rest.len());
    let e = find_char_exec(rest2.as_slice(), '"');
    if e >= rest2.len() {
        return None;
    }
    let mut a: usize = 0;
    while a < e && rest2[a] == 'v'
        invariant
            0 <= a <= e < rest2@.len(),
            trim_start_char(rest2@.subrange(a as int, e as int), 'v') == trim_start_char(
                rest2@.subrange(0, e as int),
                'v',
            ),
        decreases e - a,
    {
        proof {
            assert(rest2@.subrange(a as int, e as int).drop_first() =~= rest2@.subrange(
                a + 1,
                e as int,
            ));
        }
        a = a + 1;
    }
    proof {
        if a < e {
            assert(rest2@.subrange(a as int, e as int)[0] == rest2@[a as int]);
        }
    }
    let v = string_from_chars(rest2.as_slice(), a, e);
    if str_is(v.as_str(), current) {
        None
    } else {
        Some(v)
    }
}

/// What an update check leads to: the version to offer (`"Unknown"` when none was read) when an
/// update is available, else nothing.
pub fn update_prompt(available: bool, version: Option<String>) -> (r: Option<String>)
    ensures
        available ==> (r matches Some(v) && v@ == match version {
            Some(x) => x@,
            None => "Unknown"@,
        }),
        !available ==> r is None,
{
    if available {
        match version {
            Some(v) => Some(v),
            None => Some(String::from_str("Unknown")),
        }
    } else {
        None
    }
}

/// The string stored under `key` in the settings file's text (see `json_string_at_spec`).
fn settings_entry(json: &str, key: &str) -> (r: Option<Option<String>>)
    ensures
        r is None <==> json_string_at_spec(json@, seq![JsonKey::Key(key@)]) is None,
        r matches Some(v) ==> json_string_at_spec(json@, seq![JsonKey::Key(key@)]) == Some(
            ostr(v),
        ),
{
    let mut path: Vec<JsonStep> = Vec::new();
    path.push(JsonStep::Key(String::from_str(key)));
    assert(path_view(path@) =~= seq![JsonKey::Key(key@)]);
    json_string_at(json, path.as_slice())
}

/// The entry under `key` of the settings file whose text is `json` (`None`: no file could be
/// read); a file that is not JSON counts as empty settings.
pub open spec fn settings_value(json: Option<Seq<char>>, key: Seq<char>) -> Option<Seq<char>> {
    match json {
        None => None,
        Some(j) => match json_string_at_spec(j, seq![JsonKey::Key(key)]) {
            None => None,
            Some(v) => v,
        },
    }
}

/// The saved theme, from the settings file's text (`None` when the file could not be read):
/// the theme named under `theme`, `System` when there is none.
pub fn theme_from_settings(json: Option<&str>) -> (r: Theme)
    ensures
        r == theme_from_name_spec(
            settings_value(
                match json {
                    Some(j) => Some(j@),
                    None => None,
                },
                "theme"@,
            ),
        ),
{
    let entry = match json {
        Some(j) => match settings_entry(j, "theme") {
            Some(v) => v,
            None => None,
        },
        None => None,
    };
    match entry {
        Some(n) => theme_from_name(Some(n.as_str())),
        None => theme_from_name(None),
    }
}

/// The saved API key, from the settings file's text (`None` when the file could not be read):
/// the text under `llm_api_key`, unless it is missing or empty.
pub fn api_key_from_settings(json: Option<&str>) -> (r: Option<String>)
    ensures
        match settings_value(
            match json {
                Some(j) => Some(j@),
                None => None,
            },
            "llm_api_key"@,
        ) {
            Some(k) => if k.len() > 0 {
                r matches Some(x) && x@ == k
            } else {
                r is None
            },
            None => r is None,
        },
{
    let entry = match json {
        Some(j) => match settings_entry(j, "llm_api_key") {
            Some(v) => v,
            None => None,
        },
        None => None,
    };
    match entry {
        Some(k) => if chars_of(k.as_str()).len() > 0 {
            Some(k)
        } else {
            None
        },
        None => None,
    }
}

/// The settings file's new text after saving `theme` (`json`: its current text, `None` when
/// there is none): the other settings kept, `theme` stored under `theme`. `None` when the file
/// holds JSON that is not an object. Reading the theme back from the new text gives `theme`.
pub fn settings_with_theme(json: Option<&str>, theme: Theme) -> (r: Option<String>)
    ensures
        r is None <==> json_with_string_spec(
            match json {
                Some(j) => Some(j@),
                None => None,
            },
            "theme"@,
            theme_name_spec(theme),
        ) is None,
        r matches Some(t) ==> json_with_string_spec(
            match json {
                Some(j) => Some(j@),
                None => None,
            },
            "theme"@,
            theme_name_spec(theme),
        ) == Some(t@),
        r matches Some(t) ==> theme_from_name_spec(settings_value(Some(t@), "theme"@)) == theme,
{
    let r = json_with_string(json, "theme", theme_name(theme));
    proof {
        law_theme_name_round_trip(theme);
    }
    r
}

/// The settings file's new text after saving the API key `key`: the other settings kept, `key`
/// stored under `llm_api_key`. `None` when the file holds JSON that is not an object. Reading
/// the key back from the new text gives `key` (when it is not empty).
pub fn settings_with_api_key(json: Option<&str>, key: &str) -> (r: Option<String>)
    ensures
        r is None <==> json_with_string_spec(
            match json {
                Some(j) => Some(j@),
                None => None,
            },
            "llm_api_key"@,
            key@,
        ) is None,
        r matches Some(t) ==> json_with_string_spec(
            match json {
                Some(j) => Some(j@),
                None => None,
            },
            "llm_api_key"@,
            key@,
        ) == Some(t@),
        r matches Some(t) ==> settings_value(Some(t@), "llm_api_key"@) == Some(key@),
{
    json_with_string(json, "llm_api_key", key)
}

/// The settings file's new text after forgetting the API key: the entry under `llm_api_key`
/// removed, the other settings kept.
pub fn settings_without_api_key(json: Option<&str>) -> (r: String)
    ensures
        r@ == json_without_key_spec(
            match json {
                Some(j) => Some(j@),
                None => None,
            },
            "llm_api_key"@,
        ),
{
    json_without_key(json, "llm_api_key")
}

/// Whether `text` is a JSON document (what moving an older settings file over requires).
pub fn is_json(text: &str) -> (r: bool)
    ensures
        r == (json_string_at_spec(text@, Seq::<JsonKey>::empty()) is Some),
{
    let path: Vec<JsonStep> = Vec::new();
    assert(path_view(path@) =~= Seq::<JsonKey>::empty());
    json_string_at(text, path.as_slice()).is_some()
}

} // verus!
