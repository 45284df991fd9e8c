//! The health checks of `dictation doctor`: what each check reports for what
//! was found, and how a check is printed.
use vstd::prelude::*;
use crate::text::{chars_of, decimal, decimal_chars, push_str, string_from_chars, take_chars, trim_chars, trim_seq};

verus! {

broadcast use vstd::string::group_string_axioms;

/// The outcome of one check.
#[derive(Clone, Copy, PartialEq, Eq, Structural)]
pub enum Status {
    Pass,
    Warn,
    Fail,
}

/// One line of the doctor's report.
pub struct Check {
    pub label: String,
    pub status: Status,
    pub detail: Option<String>,
}

pub open spec fn opt_view(o: Option<String>) -> Option<Seq<char>> {
    match o {
        Some(s) => Some(s@),
        None => None,
    }
}

impl Check {
    /// A passed check.
    pub fn ok(label: String) -> (c: Self)
        ensures
            c.label == label,
            c.status == Status::Pass,
            c.detail is None,
    {
        Check { label, status: Status::Pass, detail: None }
    }

    /// A passed check with a detail.
    pub fn ok_detail(label: String, detail: String) -> (c: Self)
        ensures
            c.label == label,
            c.status == Status::Pass,
            c.detail == Some(detail),
    {
        Check { label, status: Status::Pass, detail: Some(detail) }
    }

    /// A warning.
    pub fn warn(label: String, detail: String) -> (c: Self)
        ensures
            c.label == label,
            c.status == Status::Warn,
            c.detail == Some(detail),
    {
        Check { label, status: Status::Warn, detail: Some(detail) }
    }

    /// A failed check.
    pub fn fail(label: String, detail: String) -> (c: Self)
        ensures
            c.label == label,
            c.status == Status::Fail,
            c.detail == Some(detail),
    {
        Check { label, status: Status::Fail, detail: Some(detail) }
    }

    /// The printed line: two spaces, the status mark in its colour, the label,
    /// and the detail dimmed after two spaces.
    pub fn render(&self) -> (line: String)
        ensures
            line@ == check_line(self.status, self.label@, opt_view(self.detail)),
    {
        let mut line = "  ".to_string();
        match self.status {
            Status::Pass => {
                push_str(&mut line, "\x1b[32m");
                push_str(&mut line, "\u{2713}");
            },
            Status::Warn => {
                push_str(&mut line, "\x1b[33m");
                push_str(&mut line, "!");
            },
            Status::Fail => {
                push_str(&mut line, "\x1b[31m");
                push_str(&mut line, "\u{2717}");
            },
        }
        push_str(&mut line, "\x1b[0m");
        push_str(&mut line, " ");
        push_str(&mut line, self.label.as_str());
        match &self.detail {
            Some(d) => {
                push_str(&mut line, "  ");
                push_str(&mut line, "\x1b[2m");
                push_str(&mut line, d.as_str());
                push_str(&mut line, "\x1b[0m");
            },
            None => {},
        }
        line
    }
}

pub open spec fn status_mark(s: Status) -> Seq<char> {
    match s {
        Status::Pass => "\x1b[32m"@ + "\u{2713}"@,
        Status::Warn => "\x1b[33m"@ + "!"@,
        Status::Fail => "\x1b[31m"@ + "\u{2717}"@,
    }
}

pub open spec fn check_line(s: Status, label: Seq<char>, detail: Option<Seq<char>>) -> Seq<char> {
    "  "@ + status_mark(s) + "\x1b[0m"@ + " "@ + label + match detail {
        Some(d) => "  "@ + "\x1b[2m"@ + d + "\x1b[0m"@,
        None => Seq::empty(),
    }
}

/// Whether any check failed (the doctor then exits with an error).
pub fn any_failed(checks: &Vec<Check>) -> (r: bool)
    ensures
        r == exists|k: int| 0 <= k < checks@.len() && #[trigger] checks@[k].status == Status::Fail,
{
    let mut i: usize = 0;
    while i < checks.len()
        invariant
            0 <= i <= checks@.len(),
            forall|k: int| 0 <= k < i ==> #[trigger] checks@[k].status != Status::Fail,
        decreases checks@.len() - i,
    {
        if checks[i].status == Status::Fail {
            return true;
        }
        i = i + 1;
    }
    false
}

/// The shortcut check: a warning when no shortcut is configured.
pub fn shortcut_check(shortcut: &str) -> (c: Check)
    ensures
        c.label@ == "Shortcut"@,
        shortcut@.len() == 0 ==> c.status == Status::Warn && opt_view(c.detail) == Some(
            "no shortcut configured \u{2014} dictation can only be triggered programmatically"@,
        ),
        shortcut@.len() > 0 ==> c.status == Status::Pass && opt_view(c.detail) == Some(shortcut@),
{
    if shortcut.is_empty() {
        Check::warn(
            "Shortcut".to_string(),
            "no shortcut configured \u{2014} dictation can only be triggered programmatically".to_string(),
        )
    } else {
        Check::ok_detail("Shortcut".to_string(), shortcut.to_string())
    }
}

/// The check of a configured sound file: none when no path is set or it is
/// empty, a warning when the file does not exist, else the path.
pub fn sound_check(label: &str, path: Option<&str>, exists: bool) -> (c: Option<Check>)
    ensures
        match path {
            None => c is None,
            Some(p) => if p@.len() == 0 {
                c is None
            } else if !exists {
                c matches Some(ch) && ch.label@ == label@ && ch.status == Status::Warn && opt_view(
                    ch.detail,
                ) == Some("file not found: "@ + p@)
            } else {
                c matches Some(ch) && ch.label@ == label@ && ch.status == Status::Pass && opt_view(
                    ch.detail,
                ) == Some(p@)
            },
        },
{
    match path {
        None => None,
        Some(p) => {
            if p.is_empty() {
                None
            } else if !exists {
                let mut d = "file not found: ".to_string();
                push_str(&mut d, p);
                Some(Check::warn(label.to_string(), d))
            } else {
                Some(Check::ok_detail(label.to_string(), p.to_string()))
            }
        },
    }
}

/// What the default input device offered: its name and either its sample
/// rate and channel count or the reason its configuration could not be read.
pub enum InputDevice {
    Missing,
    Found { name: String, config: Result<(u32, u16), String> },
}

/// The microphone check.
pub fn microphone_check(device: &InputDevice) -> (c: Check)
    ensures
        c.label@ == "Default input device"@,
        match device {
            InputDevice::Missing => c.status == Status::Fail && opt_view(c.detail) == Some(
                "no microphone found"@,
            ),
            InputDevice::Found { name, config } => match config {
                Ok((rate, channels)) => c.status == Status::Pass && opt_view(c.detail) == Some(
                    name@ + "  "@ + decimal(*rate as nat) + "Hz  "@ + decimal(*channels as nat) + "ch"@,
                ),
                Err(e) => c.status == Status::Fail && opt_view(c.detail) == Some(
                    name@ + " \u{2014} config error: "@ + e@,
                ),
            },
        },
{
    match device {
        InputDevice::Missing => Check::fail(
            "Default input device".to_string(),
            "no microphone found".to_string(),
        ),
        InputDevice::Found { name, config } => match config {
            Ok((rate, channels)) => {
                let mut d = name.clone();
                push_str(&mut d, "  ");
                let r = string_from_chars(decimal_chars(*rate as usize).as_slice());
                push_str(&mut d, r.as_str());
                push_str(&mut d, "Hz  ");
                let ch = string_from_chars(decimal_chars(*channels as usize).as_slice());
                push_str(&mut d, ch.as_str());
                push_str(&mut d, "ch");
                Check::ok_detail("Default input device".to_string(), d)
            },
            Err(e) => {
                let mut d = name.clone();
                push_str(&mut d, " \u{2014} config error: ");
                push_str(&mut d, e.as_str());
                Check::fail("Default input device".to_string(), d)
            },
        },
    }
}

/// The string member `text` of a JSON body, when the body is a JSON object
/// that has one (`serde_json::from_str::<Value>` then `v["text"].as_str()`).
pub uninterp spec fn json_text_member(body: Seq<char>) -> Option<Seq<char>>;

/// Parses the body as JSON with `serde_json::from_str::<serde_json::Value>`
/// and reads its `text` member as a string. The JSON grammar is not written
/// out: the result is named `json_text_member`, a function of the body.
#[verifier::external_body]
fn parse_text_member(body: &str) -> (r: Option<String>)
    ensures
        opt_view(r) == json_text_member(body@),
{
    serde_json::from_str::<serde_json::Value>(body).ok().and_then(
        |v| v["text"].as_str().map(|s| s.to_string()),
    )
}

/// How many characters of a body a successful reply shows when it holds no
/// transcript.
pub const PREVIEW_BODY_CHARS: usize = 80;

/// How many characters of a body a failed reply shows.
pub const ERROR_BODY_CHARS: usize = 120;

pub open spec fn first_chars(s: Seq<char>, n: nat) -> Seq<char> {
    if s.len() > n {
        s.take(n as int)
    } else {
        s
    }
}

/// The preview of a successful reply, given what the JSON parse found: the
/// trimmed transcript in double quotes, else the start of the body.
pub open spec fn reply_preview(body: Seq<char>, text_member: Option<Seq<char>>) -> Seq<char> {
    match text_member {
        Some(t) => seq!['"'] + trim_seq(t) + seq!['"'],
        None => first_chars(body, PREVIEW_BODY_CHARS as nat),
    }
}

/// The inference check for a reply whose JSON `text` member is `text_member`.
pub fn inference_check_with(success: bool, status: &str, body: &str, text_member: Option<String>) -> (c: Check)
    ensures
        c.label@ == "Whisper /inference"@,
        success ==> c.status == Status::Pass && opt_view(c.detail) == Some(
            status@ + "  "@ + reply_preview(body@, opt_view(text_member)),
        ),
        !success ==> c.status == Status::Fail && opt_view(c.detail) == Some(
            status@ + "  "@ + first_chars(body@, ERROR_BODY_CHARS as nat),
        ),
{
    let mut d = status.to_string();
    push_str(&mut d, "  ");
    let cs = chars_of(body);
    if success {
        match text_member {
            Some(t) => {
                let tc = chars_of(t.as_str());
                let mut q: Vec<char> = vec!['"'];
                let trimmed = trim_chars(tc.as_slice());
                crate::text::push_all(&mut q, trimmed.as_slice());
                q.push('"');
                let qs = string_from_chars(q.as_slice());
                push_str(&mut d, qs.as_str());
            },
            None => {
                let head = take_chars(cs.as_slice(), PREVIEW_BODY_CHARS);
                let hs = string_from_chars(head.as_slice());
                push_str(&mut d, hs.as_str());
            },
        }
        Check::ok_detail("Whisper /inference".to_string(), d)
    } else {
        let head = take_chars(cs.as_slice(), ERROR_BODY_CHARS);
        let hs = string_from_chars(head.as_slice());
        push_str(&mut d, hs.as_str());
        Check::fail("Whisper /inference".to_string(), d)
    }
}

/// The inference check for a reply of the whisper server: on success the
/// transcript it holds (or the start of the body), else the start of the body.
pub fn inference_check(success: bool, status: &str, body: &str) -> (c: Check)
    ensures
        c.label@ == "Whisper /inference"@,
        success ==> c.status == Status::Pass && opt_view(c.detail) == Some(
            status@ + "  "@ + reply_preview(body@, json_text_member(body@)),
        ),
        !success ==> c.status == Status::Fail && opt_view(c.detail) == Some(
            status@ + "  "@ + first_chars(body@, ERROR_BODY_CHARS as nat),
        ),
{
    let member = if success {
        parse_text_member(body)
    } else {
        None
    };
    inference_check_with(success, status, body, member)
}

/// The check of the request itself, when it could not be made.
pub fn inference_request_failed(reason: &str) -> (c: Check)
    ensures
        c.label@ == "Whisper /inference"@,
        c.status == Status::Fail,
        opt_view(c.detail) == Some("request failed: "@ + reason@),
{
    let mut d = "request failed: ".to_string();
    push_str(&mut d, reason);
    Check::fail("Whisper /inference".to_string(), d)
}

/// The extension check, given the owner of its bus name when it has one.
pub fn extension_check(owner: Option<&str>) -> (c: Check)
    ensures
        c.label@ == "Dictation extension"@,
        match owner {
            Some(o) => c.status == Status::Pass && opt_view(c.detail) == Some(
                "com.timcharper.dictation.Extension is running ("@ + o@ + ")"@,
            ),
            None => c.status == Status::Fail && opt_view(c.detail) == Some(
                "com.timcharper.dictation.Extension not found \u{2014} is the GNOME extension enabled?"@,
            ),
        },
{
    match owner {
        Some(o) => {
            let mut d = "com.timcharper.dictation.Extension is running (".to_string();
            push_str(&mut d, o);
            push_str(&mut d, ")");
            Check::ok_detail("Dictation extension".to_string(), d)
        },
        None => Check::fail(
            "Dictation extension".to_string(),
            "com.timcharper.dictation.Extension not found \u{2014} is the GNOME extension enabled?".to_string(),
        ),
    }
}

/// The advice shown when the accessibility framework is off.
pub open spec fn accessibility_advice() -> Seq<char> {
    "many apps won't broadcast AT-SPI events \u{2014} context will be unavailable\n\x1b[2m       Enable with:  gsettings set org.gnome.desktop.interface toolkit-accessibility true\n\x1b[2m       Note: apps already running (e.g. Firefox) must be restarted to pick up the change.\x1b[0m"@
}

/// The accessibility check, given whether the framework reports itself
/// enabled or why that could not be read.
pub fn accessibility_check(enabled: Result<bool, String>) -> (c: Check)
    ensures
        match enabled {
            Ok(true) => c.label@ == "Accessibility framework enabled"@ && c.status == Status::Pass
                && c.detail is None,
            Ok(false) => c.label@ == "Accessibility framework disabled"@ && c.status == Status::Warn
                && opt_view(c.detail) == Some(accessibility_advice()),
            Err(e) => c.label@ == "Accessibility framework"@ && c.status == Status::Warn && opt_view(
                c.detail,
            ) == Some("could not query status: "@ + e@),
        },
{
    match enabled {
        Ok(true) => Check::ok("Accessibility framework enabled".to_string()),
        Ok(false) => Check::warn(
            "Accessibility framework disabled".to_string(),
            "many apps won't broadcast AT-SPI events \u{2014} context will be unavailable\n\x1b[2m       Enable with:  gsettings set org.gnome.desktop.interface toolkit-accessibility true\n\x1b[2m       Note: apps already running (e.g. Firefox) must be restarted to pick up the change.\x1b[0m".to_string(),
        ),
        Err(e) => {
            let mut d = "could not query status: ".to_string();
            push_str(&mut d, e.as_str());
            Check::warn("Accessibility framework".to_string(), d)
        },
    }
}

} // verus!
