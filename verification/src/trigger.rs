//! The decisions of the hotkey flow and of learning from sent messages: when to
//! capture, what to show, what context the model gets, and what is stored.
use vstd::prelude::*;
use vstd::string::*;
use vstd::utf8::*;
use crate::config::Config;
use crate::llm::LlmConfig;
use crate::platform::PlatformResult;
use crate::distill::lemma_trim_unchanged;
use crate::text::{
    chars_of, is_ws, lemma_next_newline, next_newline, last_line_starting_with, last_line_starting_with_exec, line_at, line_bounds,
    numbered_lines, numbered_list, starts_with, strip_prefix_all, string_views, substring, trim,
    trim_start_matches_str, trim_str,
};

verus! {

/// Marks a capture failure that is shown instead of OCR text.
pub const ERROR_MARK: char = '❌';

pub const SCREENSHOT_FAILED_PREFIX: &'static str = "❌ Screenshot failed: ";
pub const OCR_FAILED_PREFIX: &'static str = "❌ OCR failed: ";

/// The app name used when the frontmost app cannot be determined.
pub const UNKNOWN_APP: &'static str = "Unknown";

/// Shown when no API key is configured.
pub const API_KEY_MISSING_MESSAGE: &'static str = "⚠️ 请先配置 API Key（点击菜单栏图标 → Settings）";

/// Seconds an error or warning stays on the overlay.
pub const ERROR_HIDE_SECS: u64 = 3;

/// Seconds a finished reply stays on the overlay.
pub const DONE_HIDE_SECS: u64 = 5;

/// How many recent accepted replies go into the context.
pub const RECENT_REPLY_LIMIT: usize = 3;

/// The marker of a line that the user sent, in OCR text.
pub const USER_LINE_PREFIX: &'static str = "→ ";

pub const CONTEXT_APP_PREFIX: &'static str = "[当前应用: ";
pub const CONTEXT_APP_SUFFIX: &'static str = "]";
pub const PROFILE_HEADER: &'static str = "\n\n[用户说话风格画像]\n";
pub const RECENT_HEADER: &'static str = "\n\n[用户之前在该应用的回复风格参考]\n";
pub const OCR_SEPARATOR: &'static str = "\n\n";

/// What a press of the hotkey does first.
#[derive(PartialEq, Eq, Structural, Clone, Copy, Debug)]
pub enum TriggerStart {
    /// A reply is already being made: ignore the press.
    Ignore,
    /// The overlay is showing: hide it, and do nothing else.
    HideOverlay,
    /// Capture the chat and make a reply.
    Capture,
}

/// Decides what a hotkey press does, given whether a reply was already being made
/// and whether the overlay is visible.
pub fn trigger_start(was_busy: bool, overlay_visible: bool) -> (r: TriggerStart)
    ensures
        r == (if was_busy {
            TriggerStart::Ignore
        } else if overlay_visible {
            TriggerStart::HideOverlay
        } else {
            TriggerStart::Capture
        }),
{
    if was_busy {
        TriggerStart::Ignore
    } else if overlay_visible {
        TriggerStart::HideOverlay
    } else {
        TriggerStart::Capture
    }
}

/// The frontmost app's name, or `"Unknown"` when it cannot be determined.
pub fn app_name_or_unknown(name: PlatformResult<String>) -> (n: String)
    ensures
        name matches Ok(x) ==> n == x,
        name is Err ==> n@ == UNKNOWN_APP@,
{
    match name {
        Ok(x) => x,
        Err(_) => String::from_str(UNKNOWN_APP),
    }
}

/// The text shown when capturing failed: the screenshot (`during_ocr` false) or the
/// OCR (`during_ocr` true), followed by the error's message.
pub fn capture_failure_text(during_ocr: bool, message: &str) -> (t: String)
    ensures
        t@ == (if during_ocr {
            OCR_FAILED_PREFIX@
        } else {
            SCREENSHOT_FAILED_PREFIX@
        }) + message@,
        t@[0] == ERROR_MARK,
{
    let mut t = if during_ocr {
        String::from_str(OCR_FAILED_PREFIX)
    } else {
        String::from_str(SCREENSHOT_FAILED_PREFIX)
    };
    t.append(message);
    proof {
        reveal_strlit("❌ OCR failed: ");
        reveal_strlit("❌ Screenshot failed: ");
    }
    t
}

/// What to do once the chat has been captured.
pub enum TriggerPlan {
    /// Capturing failed: show this text.
    ShowError(String),
    /// No API key is configured: show `API_KEY_MISSING_MESSAGE`.
    MissingApiKey,
    /// Ask the model, with this configuration.
    Generate(LlmConfig),
}

/// Decides what follows a capture: a captured failure (OCR text starting with
/// `'❌'`) is shown; without an API key a warning is shown; otherwise the model is
/// asked with the configured key, model and base URL.
pub fn plan_reply(ocr_text: &str, config: Config) -> (p: TriggerPlan)
    ensures
        starts_with(ocr_text@, seq![ERROR_MARK]) ==> (p matches TriggerPlan::ShowError(t) && t@
            == ocr_text@),
        !starts_with(ocr_text@, seq![ERROR_MARK]) && config.api_key@.len() == 0 ==> p is MissingApiKey,
        !starts_with(ocr_text@, seq![ERROR_MARK]) && config.api_key@.len() > 0 ==> (p matches TriggerPlan::Generate(c)
            && c.api_key == config.api_key && c.model == config.model && c.base_url
            == config.base_url),
{
    let v = chars_of(ocr_text);
    let failed = v.len() > 0 && v[0] == ERROR_MARK;
    proof {
        if v@.len() > 0 {
            assert(v@.subrange(0, 1) =~= seq![v@[0]]);
            assert(v@.subrange(0, 1)[0] == v@[0]);
            assert(seq![ERROR_MARK][0] == ERROR_MARK);
        }
    }
    if failed {
        return TriggerPlan::ShowError(String::from_str(ocr_text));
    }
    if config.api_key.as_str().is_empty() {
        return TriggerPlan::MissingApiKey;
    }
    TriggerPlan::Generate(
        LlmConfig { api_key: config.api_key, model: config.model, base_url: config.base_url },
    )
}

/// The context the model gets: the app, the user's style profile if there is one,
/// the recent accepted replies numbered if there are any, and the OCR text.
pub open spec fn reply_context(
    app_name: Seq<char>,
    profile: Option<Seq<char>>,
    recent: Seq<Seq<char>>,
    ocr_text: Seq<char>,
) -> Seq<char> {
    let profile_part = match profile {
        Some(p) => PROFILE_HEADER@ + p,
        None => Seq::<char>::empty(),
    };
    let recent_part = if recent.len() == 0 {
        Seq::<char>::empty()
    } else {
        RECENT_HEADER@ + numbered_list(recent)
    };
    CONTEXT_APP_PREFIX@ + app_name + CONTEXT_APP_SUFFIX@ + profile_part + recent_part
        + OCR_SEPARATOR@ + ocr_text
}

/// The context begins with the app header and ends with `OCR_SEPARATOR` followed by the
/// whole OCR text: whatever the profile and recent replies, no part of the OCR text is
/// dropped or changed.
pub proof fn lemma_reply_context_ends_with_ocr(
    app_name: Seq<char>,
    profile: Option<Seq<char>>,
    recent: Seq<Seq<char>>,
    ocr_text: Seq<char>,
)
    ensures
        ({
            let c = reply_context(app_name, profile, recent, ocr_text);
            let n = c.len() - ocr_text.len();
            let head = CONTEXT_APP_PREFIX@ + app_name + CONTEXT_APP_SUFFIX@;
            &&& n >= head.len() + OCR_SEPARATOR@.len()
            &&& c.take(head.len() as int) == head
            &&& c.skip(n) == ocr_text
            &&& c.subrange(n - OCR_SEPARATOR@.len(), n) == OCR_SEPARATOR@
        }),
{
    let c = reply_context(app_name, profile, recent, ocr_text);
    let head = CONTEXT_APP_PREFIX@ + app_name + CONTEXT_APP_SUFFIX@;
    let profile_part = match profile {
        Some(p) => PROFILE_HEADER@ + p,
        None => Seq::<char>::empty(),
    };
    let recent_part = if recent.len() == 0 {
        Seq::<char>::empty()
    } else {
        RECENT_HEADER@ + numbered_list(recent)
    };
    let before = head + profile_part + recent_part;
    assert(c == before + OCR_SEPARATOR@ + ocr_text);
    let n = c.len() - ocr_text.len();
    assert(c.take(head.len() as int) =~= head);
    assert(c.skip(n) =~= ocr_text);
    assert(c.subrange(n - OCR_SEPARATOR@.len(), n) =~= OCR_SEPARATOR@);
}

/// Builds the context for the reply request.
pub fn build_reply_context(
    app_name: &str,
    profile: Option<String>,
    recent_replies: &Vec<String>,
    ocr_text: &str,
) -> (ctx: String)
    ensures
        ctx@ == reply_context(
            app_name@,
            match profile {
                Some(p) => Some(p@),
                None => None,
            },
            string_views(recent_replies@),
            ocr_text@,
        ),
        ctx@.len() >= OCR_SEPARATOR@.len() + ocr_text@.len(),
        ctx@.skip(ctx@.len() - ocr_text@.len()) == ocr_text@,
        ctx@.subrange(
            ctx@.len() - ocr_text@.len() - OCR_SEPARATOR@.len(),
            ctx@.len() - ocr_text@.len(),
        ) == OCR_SEPARATOR@,
        ctx@.take((CONTEXT_APP_PREFIX@.len() + app_name@.len()) as int) == CONTEXT_APP_PREFIX@ + app_name@,
{
    let ghost pv: Option<Seq<char>> = match &profile {
        Some(p) => Some(p@),
        None => None,
    };
    let mut ctx = String::from_str(CONTEXT_APP_PREFIX);
    ctx.append(app_name);
    ctx.append(CONTEXT_APP_SUFFIX);
    let ghost head = ctx@;
    match &profile {
        Some(p) => {
            ctx.append(PROFILE_HEADER);
            ctx.append(p.as_str());
        },
        None => {},
    }
    let ghost with_profile = ctx@;
    if recent_replies.len() > 0 {
        ctx.append(RECENT_HEADER);
        let listed = numbered_lines(recent_replies, recent_replies.len());
        ctx.append(listed.as_str());
        assert(string_views(recent_replies@).take(recent_replies@.len() as int) =~= string_views(
            recent_replies@,
        ));
    }
    ctx.append(OCR_SEPARATOR);
    ctx.append(ocr_text);
    proof {
        let profile_part = match profile {
            Some(p) => PROFILE_HEADER@ + p@,
            None => Seq::<char>::empty(),
        };
        assert(with_profile =~= head + profile_part);
    }
    assert(ctx@ =~= reply_context(
        app_name@,
        match profile {
            Some(p) => Some(p@),
            None => None,
        },
        string_views(recent_replies@),
        ocr_text@,
    ));
    proof {
        lemma_reply_context_ends_with_ocr(
            app_name@,
            pv,
            string_views(recent_replies@),
            ocr_text@,
        );
        assert(ctx@.take((CONTEXT_APP_PREFIX@.len() + app_name@.len()) as int) =~= CONTEXT_APP_PREFIX@
            + app_name@);
    }
    ctx
}

/// What is stored and shown once the model answered.
pub struct ReplyRecord {
    /// The reply stored with the conversation: the reply, or empty after an error.
    pub reply: String,
    /// Whether the stored reply is marked accepted (it goes to the clipboard).
    pub accept: bool,
    /// How long the overlay stays, in seconds.
    pub hide_after_secs: u64,
}

/// Decides what a finished request stores: a reply is stored, accepted and shown for
/// `DONE_HIDE_SECS`; after an error an empty reply is stored, not accepted, and the
/// error shows for `ERROR_HIDE_SECS`.
pub fn record_reply(result: Result<String, String>) -> (r: ReplyRecord)
    ensures
        result matches Ok(t) ==> r.reply == t && r.accept && r.hide_after_secs == DONE_HIDE_SECS,
        result is Err ==> r.reply@.len() == 0 && !r.accept && r.hide_after_secs == ERROR_HIDE_SECS,
{
    match result {
        Ok(t) => ReplyRecord { reply: t, accept: true, hide_after_secs: DONE_HIDE_SECS },
        Err(_) => ReplyRecord { reply: String::new(), accept: false, hide_after_secs: ERROR_HIDE_SECS },
    }
}

/// Whether a stored conversation is marked accepted: only when it was stored, which
/// gives it a positive row id.
pub fn stored_reply_to_accept(accept: bool, conversation_id: i64) -> (b: bool)
    ensures
        b == (accept && conversation_id > 0),
{
    accept && conversation_id > 0
}

/// The byte length of text, as `str::len` gives it.
pub open spec fn byte_len(s: Seq<char>) -> usize {
    encode_utf8(s).len() as usize
}

/// The message the user just sent, read from the OCR text taken after Enter: the last
/// line marked `"→ "`, without its markers and surrounding whitespace, if it is more
/// than one byte long.
pub open spec fn learned_reply_text(ocr_text: Seq<char>) -> Option<Seq<char>> {
    match last_line_starting_with(ocr_text, USER_LINE_PREFIX@) {
        Some(i) => {
            let m = trim(strip_prefix_all(line_at(ocr_text, i), USER_LINE_PREFIX@));
            if byte_len(m) > 1 {
                Some(m)
            } else {
                None
            }
        },
        None => None,
    }
}

/// Reads the message the user just sent from OCR text.
pub fn learned_reply(ocr_text: &str) -> (r: Option<String>)
    ensures
        r matches Some(m) ==> learned_reply_text(ocr_text@) == Some(m@),
        r is None ==> learned_reply_text(ocr_text@) is None,
{
    let v = chars_of(ocr_text);
    let p = chars_of(USER_LINE_PREFIX);
    match last_line_starting_with_exec(&v, &p) {
        Some(i) => {
            proof {
                lemma_last_line_in_range(v@, p@, 0, None);
            }
            let (_e, end) = line_bounds(&v, i);
            let line = substring(ocr_text, i, end);
            let stripped = trim_start_matches_str(line.as_str(), USER_LINE_PREFIX);
            let m = trim_str(stripped.as_str());
            if m.as_str().len() > 1 {
                Some(m)
            } else {
                None
            }
        },
        None => None,
    }
}

/// A line that `last_line_starting_with_from` finds starts inside the text.
pub proof fn lemma_last_line_in_range(s: Seq<char>, p: Seq<char>, i: int, found: Option<int>)
    requires
        0 <= i,
        found matches Some(k) ==> 0 <= k < s.len(),
    ensures
        crate::text::last_line_starting_with_from(s, p, i, found) matches Some(k) ==> 0 <= k < s.len(),
    decreases s.len() + 1 - i,
{
    if i < s.len() {
        crate::text::lemma_next_newline(s, i);
        let now = if starts_with(line_at(s, i), p) {
            Some(i)
        } else {
            found
        };
        lemma_last_line_in_range(s, p, crate::text::next_newline(s, i) + 1, now);
    }
}

/// The line of `s` that starts at `k` is its last line and starts with `p`: then it is
/// the last line that starts with `p`, whatever lines came before it.
proof fn lemma_last_line_is(s: Seq<char>, p: Seq<char>, k: int, i: int, found: Option<int>)
    requires
        0 <= i <= k < s.len(),
        k == 0 || s[k - 1] == '\n',
        forall|j: int| k <= j < s.len() ==> s[j] != '\n',
        starts_with(line_at(s, k), p),
    ensures
        crate::text::last_line_starting_with_from(s, p, i, found) == Some(k),
    decreases k - i,
{
    lemma_next_newline(s, i);
    let e = next_newline(s, i);
    if i == k {
        if e < s.len() {
            assert(s[e] == '\n');
        }
    } else {
        assert(s[k - 1] == '\n');
        if e > k - 1 {
            assert(s[k - 1] != '\n');
        }
        let now = if starts_with(line_at(s, i), p) {
            Some(i)
        } else {
            found
        };
        lemma_last_line_is(s, p, k, e + 1, now);
    }
}

/// The message the user sent last comes back whole: when the OCR text ends with the
/// line `"→ " + m`, after any lines at all, the learned reply is exactly `m`, for every
/// message `m` of more than one byte that has no line break, does not itself start with
/// `"→ "`, and has no surrounding whitespace.
pub proof fn lemma_learned_reply_is_last_user_line(before: Seq<char>, m: Seq<char>)
    requires
        before.len() == 0 || before.last() == '\n',
        forall|j: int| 0 <= j < m.len() ==> m[j] != '\n',
        !starts_with(m, USER_LINE_PREFIX@),
        m.len() > 0 ==> !is_ws(m[0]) && !is_ws(m.last()),
        byte_len(m) > 1,
    ensures
        learned_reply_text(before + USER_LINE_PREFIX@ + m) == Some(m),
{
    reveal_strlit("→ ");
    let pre = USER_LINE_PREFIX@;
    assert(pre =~= seq!['→', ' ']);
    let line = pre + m;
    let s = before + line;
    assert(before + pre + m =~= s);
    let k = before.len() as int;
    assert forall|j: int| k <= j < s.len() implies s[j] != '\n' by {
        if j < k + 2 {
            assert(s[j] == pre[j - k]);
        } else {
            assert(s[j] == m[j - k - 2]);
        }
    }
    lemma_next_newline(s, k);
    let e = next_newline(s, k);
    if e < s.len() {
        assert(s[e] == '\n');
    }
    assert(e == s.len());
    assert(s.subrange(k, e) =~= line);
    assert(line_at(s, k) == line);
    assert(line.subrange(0, 2) =~= pre);
    assert(starts_with(line, pre));
    if k > 0 {
        assert(s[k - 1] == before.last());
    }
    lemma_last_line_is(s, pre, k, 0, None);
    assert(line.skip(2) =~= m);
    assert(crate::text::strip_prefix_all(line, pre) == crate::text::strip_prefix_all(m, pre));
    assert(crate::text::strip_prefix_all(m, pre) == m);
    lemma_trim_unchanged(m);
}

} // verus!
