//! What the assistant needs from the desktop: the platform interface and its
//! errors, and the text that comes back from the screenshot and OCR tools.
use vstd::prelude::*;
use vstd::string::*;
use vstd::utf8::*;
use crate::text::{
    after_last, after_last_char, chars_of, contains, contains_str, decode_utf8_lossy,
    first_line_containing, first_line_containing_exec, line_at, line_bounds, parse_u32,
    parse_u32_exec, substring, trim, trim_str, utf8_lossy,
};

verus! {

#[verifier::external_type_specification]
#[verifier::external_body]
pub struct ExPathBuf(std::path::PathBuf);

#[verifier::external_type_specification]
#[verifier::external_body]
pub struct ExIoError(std::io::Error);

/// Errors that can occur during platform operations.
#[derive(Debug)]
pub enum PlatformError {
    CaptureError(String),
    OcrError(String),
    NoFrontmostApp,
    ClipboardError(String),
    IoError(std::io::Error),
}

/// Result type for platform operations.
pub type PlatformResult<T> = Result<T, PlatformError>;

pub const CAPTURE_ERROR_PREFIX: &'static str = "Screenshot capture failed: ";
pub const OCR_ERROR_PREFIX: &'static str = "OCR failed: ";
pub const NO_FRONTMOST_APP_MESSAGE: &'static str = "Could not determine frontmost application";
pub const CLIPBOARD_ERROR_PREFIX: &'static str = "Clipboard operation failed: ";
pub const IO_ERROR_PREFIX: &'static str = "IO error: ";

impl PlatformError {
    /// The message of the error, as it is displayed.
    pub fn message(&self) -> (m: String)
        ensures
            self matches PlatformError::CaptureError(d) ==> m@ == CAPTURE_ERROR_PREFIX@ + d@,
            self matches PlatformError::OcrError(d) ==> m@ == OCR_ERROR_PREFIX@ + d@,
            self is NoFrontmostApp ==> m@ == NO_FRONTMOST_APP_MESSAGE@,
            self matches PlatformError::ClipboardError(d) ==> m@ == CLIPBOARD_ERROR_PREFIX@ + d@,
            self is IoError ==> m@.take(IO_ERROR_PREFIX@.len() as int) == IO_ERROR_PREFIX@,
    {
        match self {
            PlatformError::CaptureError(d) => {
                let mut m = String::from_str(CAPTURE_ERROR_PREFIX);
                m.append(d.as_str());
                m
            },
            PlatformError::OcrError(d) => {
                let mut m = String::from_str(OCR_ERROR_PREFIX);
                m.append(d.as_str());
                m
            },
            PlatformError::NoFrontmostApp => String::from_str(NO_FRONTMOST_APP_MESSAGE),
            PlatformError::ClipboardError(d) => {
                let mut m = String::from_str(CLIPBOARD_ERROR_PREFIX);
                m.append(d.as_str());
                m
            },
            PlatformError::IoError(e) => {
                let mut m = String::from_str(IO_ERROR_PREFIX);
                let detail = e.to_string();
                m.append(detail.as_str());
                assert(m@.take(IO_ERROR_PREFIX@.len() as int) =~= IO_ERROR_PREFIX@);
                m
            },
        }
    }
}

/// A screenshot captured from the screen.
pub struct Screenshot {
    /// Path to the temporary PNG file.
    pub path: std::path::PathBuf,
    /// Width in pixels (may be used for layout detection).
    pub width: u32,
    /// Height in pixels (may be used for layout detection).
    pub height: u32,
}

/// Platform abstraction: what the assistant needs from the desktop.
pub trait PlatformProvider: Send + Sync {
    /// Capture the chat area of the frontmost window.
    fn capture_chat_area(&self) -> PlatformResult<Screenshot>;

    /// OCR the screenshot and return recognized text.
    fn ocr(&self, screenshot: &Screenshot) -> PlatformResult<String>;

    /// Get the frontmost application's display name.
    fn frontmost_app_name(&self) -> PlatformResult<String>;

    /// Read the focused input field text (via Accessibility API).
    fn read_input_field(&self) -> PlatformResult<Option<String>>;

    /// Write text to the system clipboard.
    fn set_clipboard(&self, text: &str) -> PlatformResult<()>;
}

/// The window layout of a chat app, which decides what part of its screenshot
/// holds the conversation.
#[derive(PartialEq, Eq, Structural, Clone, Copy, Debug)]
pub enum ChatLayout {
    WeChat,
    QQ,
    DingTalk,
    Slack,
    Telegram,
    Lark,
    Messages,
    /// Any other app: the layout most chat apps share.
    Other,
}

/// The layout of the app named `n`, tried in this order by the names it contains.
pub open spec fn layout_of(n: Seq<char>) -> ChatLayout {
    if contains(n, "WeChat"@) || contains(n, "微信"@) {
        ChatLayout::WeChat
    } else if contains(n, "QQ"@) {
        ChatLayout::QQ
    } else if contains(n, "DingTalk"@) || contains(n, "钉钉"@) {
        ChatLayout::DingTalk
    } else if contains(n, "Slack"@) {
        ChatLayout::Slack
    } else if contains(n, "Telegram"@) {
        ChatLayout::Telegram
    } else if contains(n, "Lark"@) || contains(n, "飞书"@) {
        ChatLayout::Lark
    } else if contains(n, "Messages"@) || contains(n, "信息"@) {
        ChatLayout::Messages
    } else {
        ChatLayout::Other
    }
}

/// The layout used to crop screenshots of the app named `app_name`.
pub fn chat_layout(app_name: &str) -> (l: ChatLayout)
    ensures
        l == layout_of(app_name@),
{
    if contains_str(app_name, "WeChat") || contains_str(app_name, "微信") {
        ChatLayout::WeChat
    } else if contains_str(app_name, "QQ") {
        ChatLayout::QQ
    } else if contains_str(app_name, "DingTalk") || contains_str(app_name, "钉钉") {
        ChatLayout::DingTalk
    } else if contains_str(app_name, "Slack") {
        ChatLayout::Slack
    } else if contains_str(app_name, "Telegram") {
        ChatLayout::Telegram
    } else if contains_str(app_name, "Lark") || contains_str(app_name, "飞书") {
        ChatLayout::Lark
    } else if contains_str(app_name, "Messages") || contains_str(app_name, "信息") {
        ChatLayout::Messages
    } else {
        ChatLayout::Other
    }
}

/// The value `sips -g` prints for `key`: on the first line containing `key`, the text
/// after its last `':'`, trimmed and read as a `u32`; 0 when there is no such line or
/// no such number.
pub open spec fn sips_value(info: Seq<char>, key: Seq<char>) -> u32 {
    match first_line_containing(info, key) {
        Some(i) => match parse_u32(trim(after_last(line_at(info, i), ':'))) {
            Some(v) => v,
            None => 0,
        },
        None => 0,
    }
}

/// Reads the value of `key` from the text `sips -g` printed.
pub fn sips_value_in(info: &str, key: &str) -> (v: u32)
    ensures
        v == sips_value(info@, key@),
{
    let iv = chars_of(info);
    let kv = chars_of(key);
    match first_line_containing_exec(&iv, &kv) {
        Some(i) => {
            proof {
                crate::text::lemma_next_newline(iv@, 0);
                lemma_first_line_in_range(iv@, kv@, 0);
            }
            let (_e, end) = line_bounds(&iv, i);
            let line = substring(info, i, end);
            let tail = after_last_char(line.as_str(), ':');
            let t = trim_str(tail.as_str());
            match parse_u32_exec(t.as_str()) {
                Some(v) => v,
                None => 0,
            }
        },
        None => 0,
    }
}

/// A line that `first_line_containing_from` finds starts inside the text.
pub proof fn lemma_first_line_in_range(s: Seq<char>, key: Seq<char>, i: int)
    requires
        0 <= i,
    ensures
        first_line_containing_from_in_range(s, key, i),
    decreases s.len() + 1 - i,
{
    if i < s.len() && !contains(line_at(s, i), key) {
        crate::text::lemma_next_newline(s, i);
        lemma_first_line_in_range(s, key, crate::text::next_newline(s, i) + 1);
    }
}

pub open spec fn first_line_containing_from_in_range(s: Seq<char>, key: Seq<char>, i: int) -> bool {
    crate::text::first_line_containing_from(s, key, i) matches Some(k) ==> i <= k < s.len()
}

/// The image height and width that `sips -g pixelHeight -g pixelWidth` printed as
/// `stdout`, decoded as `String::from_utf8_lossy` does.
pub fn sips_dimensions(stdout: &[u8]) -> (hw: (u32, u32))
    ensures
        hw.0 == sips_value(utf8_lossy(stdout@), "pixelHeight"@),
        hw.1 == sips_value(utf8_lossy(stdout@), "pixelWidth"@),
{
    let info = decode_utf8_lossy(stdout);
    let height = sips_value_in(info.as_str(), "pixelHeight");
    let width = sips_value_in(info.as_str(), "pixelWidth");
    (height, width)
}

/// What `serde_json` reads from the OCR helper's output: a parse error's message,
/// or the string members `"error"` and `"text"` of the top-level object, each `None`
/// when absent or not a string.
pub uninterp spec fn ocr_json_fields(doc: Seq<char>) -> Result<
    (Option<Seq<char>>, Option<Seq<char>>),
    Seq<char>,
>;

pub open spec fn opt_view(o: Option<String>) -> Option<Seq<char>> {
    match o {
        Some(s) => Some(s@),
        None => None,
    }
}

pub open spec fn fields_view(r: Result<(Option<String>, Option<String>), String>) -> Result<
    (Option<Seq<char>>, Option<Seq<char>>),
    Seq<char>,
> {
    match r {
        Ok((e, t)) => Ok((opt_view(e), opt_view(t))),
        Err(m) => Err(m@),
    }
}

/// Parses `doc` with `serde_json::from_str::<serde_json::Value>` and reads the string
/// members `"error"` and `"text"` (`Value::get`, `Value::as_str`), or returns the parse
/// error's `Display` text. Trusted: the result is named `ocr_json_fields` of `doc`;
/// what JSON `serde_json` accepts and how it words its errors is left unsaid.
#[verifier::external_body]
fn read_ocr_json(doc: &str) -> (r: Result<(Option<String>, Option<String>), String>)
    ensures
        fields_view(r) == ocr_json_fields(doc@),
{
    match serde_json::from_str::<serde_json::Value>(doc) {
        Ok(v) => Ok((
            v.get("error").and_then(|e| e.as_str()).map(|s| s.to_string()),
            v.get("text").and_then(|t| t.as_str()).map(|s| s.to_string()),
        )),
        Err(e) => Err(e.to_string()),
    }
}

pub const OCR_PARSE_ERROR_PREFIX: &'static str = "Failed to parse OCR output: ";
pub const NO_TEXT_MESSAGE: &'static str = "No text recognized";

/// The recognised text given what the OCR helper's JSON output held: the helper's
/// own error if it reported one, the text if there is any, else an error.
pub open spec fn ocr_outcome_ok(fields: Result<(Option<Seq<char>>, Option<Seq<char>>), Seq<char>>) -> Option<Seq<char>> {
    match fields {
        Ok((None, Some(t))) => if t.len() > 0 {
            Some(t)
        } else {
            None
        },
        _ => None,
    }
}

/// The message of the `OcrError` for OCR output that gives no text.
pub open spec fn ocr_outcome_error(fields: Result<(Option<Seq<char>>, Option<Seq<char>>), Seq<char>>) -> Seq<char> {
    match fields {
        Err(m) => OCR_PARSE_ERROR_PREFIX@ + m,
        Ok((Some(e), _)) => e,
        Ok((None, _)) => NO_TEXT_MESSAGE@,
    }
}

/// The recognised text is exactly the helper's `"text"` member: it is given back whole
/// when there is no `"error"` member and it is a non-empty string, and in no other case
/// is any text given back.
pub proof fn lemma_ocr_text_is_text_member(
    fields: Result<(Option<Seq<char>>, Option<Seq<char>>), Seq<char>>,
)
    ensures
        fields matches Ok((None, Some(t))) ==> (t.len() > 0 ==> ocr_outcome_ok(fields) == Some(t)),
        ocr_outcome_ok(fields) matches Some(t) ==> t.len() > 0 && fields == Ok::<
            (Option<Seq<char>>, Option<Seq<char>>),
            Seq<char>,
        >((None, Some(t))),
        fields matches Ok((Some(e), _)) ==> ocr_outcome_ok(fields) is None && ocr_outcome_error(
            fields,
        ) == e,
{
}

/// Decides the result of OCR from the fields read from the helper's output.
pub fn ocr_outcome(fields: Result<(Option<String>, Option<String>), String>) -> (r: PlatformResult<String>)
    ensures
        ocr_outcome_ok(fields_view(fields)) matches Some(t) ==> (r matches Ok(x) && x@ == t),
        ocr_outcome_ok(fields_view(fields)) is None ==> (r matches Err(PlatformError::OcrError(m))
            && m@ == ocr_outcome_error(fields_view(fields))),
        fields matches Ok((None, Some(t))) ==> (t@.len() > 0 ==> (r matches Ok(x) && x@ == t@)),
        fields matches Ok((Some(e), _)) ==> (r matches Err(PlatformError::OcrError(m)) && m@
            == e@),
        fields matches Err(d) ==> (r matches Err(PlatformError::OcrError(m)) && m@
            == OCR_PARSE_ERROR_PREFIX@ + d@),
{
    match fields {
        Err(m) => {
            let mut msg = String::from_str(OCR_PARSE_ERROR_PREFIX);
            msg.append(m.as_str());
            Err(PlatformError::OcrError(msg))
        },
        Ok((Some(e), _)) => Err(PlatformError::OcrError(e)),
        Ok((None, text)) => {
            let t = match text {
                Some(t) => t,
                None => String::new(),
            };
            if t.as_str().is_empty() {
                Err(PlatformError::OcrError(String::from_str(NO_TEXT_MESSAGE)))
            } else {
                Ok(t)
            }
        },
    }
}

/// The recognised text in the OCR helper's standard output, decoded as
/// `String::from_utf8_lossy` does.
pub fn ocr_text_from_stdout(stdout: &[u8]) -> (r: PlatformResult<String>)
    ensures
        ocr_outcome_ok(ocr_json_fields(utf8_lossy(stdout@))) matches Some(t) ==> (r matches Ok(x)
            && x@ == t),
        ocr_outcome_ok(ocr_json_fields(utf8_lossy(stdout@))) is None ==> (r matches Err(
            PlatformError::OcrError(m),
        ) && m@ == ocr_outcome_error(ocr_json_fields(utf8_lossy(stdout@)))),
{
    let text = decode_utf8_lossy(stdout);
    let fields = read_ocr_json(text.as_str());
    ocr_outcome(fields)
}

/// What the window list says of one on-screen window: its owner's name, its layer
/// and its window number. The outer `None` of `layer` and `number` means the entry is
/// absent; the inner `None` that its value does not fit an `i32`.
pub struct WindowInfo {
    pub owner: Option<String>,
    pub layer: Option<Option<i32>>,
    pub number: Option<Option<i32>>,
}

/// The window number to capture for `app` from one window, if this window is the
/// app's: owned by the app, in layer 0 (or with no layer given; a layer that does not
/// fit counts as 999), and with a non-zero number (one that does not fit counts as 0).
pub open spec fn window_id_for(app: Seq<char>, w: WindowInfo) -> Option<u32> {
    match w.owner {
        Some(o) => if o@ != app {
            None
        } else if (match w.layer {
            Some(l) => (match l {
                Some(v) => v,
                None => 999,
            }) != 0,
            None => false,
        }) {
            None
        } else {
            match w.number {
                Some(n) => {
                    let wid = (match n {
                        Some(v) => v,
                        None => 0,
                    }) as u32;
                    if wid != 0 {
                        Some(wid)
                    } else {
                        None
                    }
                },
                None => None,
            }
        },
        None => None,
    }
}

/// The number of the first window of `ws` from `i` on that is `app`'s.
pub open spec fn first_window_id_from(app: Seq<char>, ws: Seq<WindowInfo>, i: int) -> Option<u32>
    decreases ws.len() - i,
{
    if i < 0 || i >= ws.len() {
        None
    } else {
        match window_id_for(app, ws[i]) {
            Some(id) => Some(id),
            None => first_window_id_from(app, ws, i + 1),
        }
    }
}

pub const NO_WINDOW_PREFIX: &'static str = "No window found for app: ";

/// The window to capture for `app_name` among the on-screen windows, front to back:
/// the first one that belongs to the app, or a `CaptureError` when none does.
pub fn pick_window_id(app_name: &str, windows: &Vec<WindowInfo>) -> (r: PlatformResult<u32>)
    ensures
        first_window_id_from(app_name@, windows@, 0) matches Some(id) ==> r == Ok::<u32, PlatformError>(id),
        first_window_id_from(app_name@, windows@, 0) is None ==> (r matches Err(
            PlatformError::CaptureError(m),
        ) && m@ == NO_WINDOW_PREFIX@ + app_name@),
{
    let mut i: usize = 0;
    while i < windows.len()
        invariant
            i <= windows@.len(),
            first_window_id_from(app_name@, windows@, 0) == first_window_id_from(
                app_name@,
                windows@,
                i as int,
            ),
        decreases windows@.len() - i,
    {
        let w = &windows[i];
        match &w.owner {
            Some(o) => {
                if crate::text::same_text(o.as_str(), app_name) {
                    let layer_ok = match &w.layer {
                        Some(l) => {
                            let v = match l {
                                Some(v) => *v,
                                None => 999,
                            };
                            v == 0
                        },
                        None => true,
                    };
                    if layer_ok {
                        match &w.number {
                            Some(n) => {
                                let v = match n {
                                    Some(v) => *v,
                                    None => 0,
                                };
                                let wid = v as u32;
                                if wid != 0 {
                                    return Ok(wid);
                                }
                            },
                            None => {},
                        }
                    }
                }
            },
            None => {},
        }
        i = i + 1;
    }
    let mut m = String::from_str(NO_WINDOW_PREFIX);
    m.append(app_name);
    Err(PlatformError::CaptureError(m))
}

} // verus!
