//! Background distillation: turning raw OCR captures into structured messages,
//! and the user's accepted replies into a description of their writing style.
use vstd::prelude::*;
use vstd::string::*;
use crate::llm::{system_and_user, ChatMessage, ROLE_SYSTEM, ROLE_USER};
use crate::llm::openai::close_tag;
use crate::text::{
    chars_of, find, find_exec, lemma_find, lemma_rfind_char_before, lemma_trim_set_shape, min,
    numbered_lines, numbered_list, rfind_char, rfind_char_exec, starts_with, string_views,
    substring, trim, trim_chars, trim_set, trim_str, in_set, is_ws, CharSet,
};

verus! {

/// Instructions for turning OCR text into a JSON array of messages.
pub const DISTILL_PROMPT: &'static str = r#"你是一个文本结构化工具。给定聊天 OCR 文本（带←→标记），请提取出每条消息的发送者和内容。

输入格式：每行前有 ←（对方）、→（用户）、·（系统消息）标记。

输出 JSON 数组，每项格式：
{"sender": "对方名字或other", "content": "消息内容", "is_user": false}
{"sender": "user", "content": "消息内容", "is_user": true}

规则：
- 忽略系统消息（·标记）和 UI 噪音
- sender 尽量用真实名字（如果 OCR 中有），否则用 "other"
- is_user: → 标记的是 true，← 标记的是 false
- 只输出 JSON 数组，不要其他文字"#;

/// Instructions for describing the user's writing style from samples.
pub const STYLE_PROFILE_PROMPT: &'static str = r#"你是一个语言风格分析师。分析以下用户在聊天中的消息样本，提炼出一份简洁的"说话风格画像"。

要求：
- 分析用词偏好（口头禅、常用词、语气词）
- 分析句式特点（长短句、断句习惯）
- 分析语气特征（正式/随意、幽默/严肃、直接/委婉）
- 分析回复长度偏好
- 用中文输出，控制在 150 字以内
- 只输出风格描述，不要分析过程

输出格式示例：
"偏好短句回复，常用语气词'嗯'、'好的'、'行'。语气随意直接，不绕弯子。偶尔用网络用语和表情符号。工作相关话题会稍微正式，但整体轻松。回复通常 1-2 句话。""#;

/// What precedes the numbered samples in a style-profile request.
pub const STYLE_SAMPLES_PREFIX: &'static str = "以下是用户的聊天消息样本：\n\n";

/// How many undistilled conversations one round takes.
pub const DISTILL_BATCH_SIZE: usize = 5;

/// How many accepted replies of an app are read for its style profile.
pub const STYLE_SAMPLE_LIMIT: usize = 30;

/// Fewer accepted replies than this give no style profile.
pub const MIN_STYLE_SAMPLES: usize = 5;

/// How many samples a style-profile request shows the model.
pub const STYLE_PROMPT_SAMPLES: usize = 20;

/// `"["`.
pub open spec fn open_bracket() -> Seq<char> {
    seq!['[']
}

/// `"[]"`, the empty JSON array.
pub open spec fn empty_array() -> Seq<char> {
    seq!['[', ']']
}

/// Whether `extract_json_array` would slice backwards: no leading `'['` after trimming,
/// and the first `'['` stands more than one character after the last `']'`.
pub open spec fn json_array_slice_panics(content: Seq<char>) -> bool {
    let t = trim(content);
    &&& !starts_with(t, open_bracket())
    &&& find(t, open_bracket()) matches Some(a)
    &&& rfind_char(t, ']') matches Some(b)
    &&& a > b + 1
}

/// The JSON array in a model answer that may wrap it in prose or a code fence: the
/// trimmed answer when it starts with `'['`, else the text from its first `'['` through
/// its last `']'`, else `"[]"`.
pub open spec fn json_array_slice(content: Seq<char>) -> Seq<char> {
    let t = trim(content);
    if starts_with(t, open_bracket()) {
        t
    } else {
        match (find(t, open_bracket()), rfind_char(t, ']')) {
            (Some(a), Some(b)) => t.subrange(a, b + 1),
            _ => empty_array(),
        }
    }
}

/// Extracts the JSON array from content that may be wrapped in markdown fences.
pub fn extract_json_array(content: &str) -> (out: String)
    requires
        !json_array_slice_panics(content@),
    ensures
        out@ == json_array_slice(content@),
{
    let t = trim_str(content);
    let tv = chars_of(t.as_str());
    let open: Vec<char> = vec!['['];
    assert(open@ =~= open_bracket());
    if tv.len() > 0 && tv[0] == '[' {
        assert(tv@.subrange(0, 1) =~= open_bracket());
        return t;
    }
    proof {
        if tv@.len() > 0 {
            assert(tv@.subrange(0, 1)[0] == tv@[0]);
        }
    }
    let first = find_exec(&tv, &open);
    let last = rfind_char_exec(&tv, ']', tv.len());
    proof {
        lemma_find(tv@, open@);
        lemma_rfind_char_before(tv@, ']', tv@.len() as int);
    }
    match (first, last) {
        (Some(a), Some(b)) => substring(t.as_str(), a, b + 1),
        _ => {
            let out = String::from_str("[]");
            proof {
                reveal_strlit("[]");
                assert("[]"@ =~= empty_array());
            }
            out
        },
    }
}

/// Text whose first and last characters are not whitespace is its own trim.
pub proof fn lemma_trim_unchanged(s: Seq<char>)
    requires
        s.len() > 0 ==> !is_ws(s[0]) && !is_ws(s.last()),
    ensures
        trim(s) == s,
{
    lemma_trim_set_shape(s, CharSet::Whitespace);
    let t = trim(s);
    let (a, b) = choose|a: int, b: int|
        0 <= a <= b <= s.len() && t == s.subrange(a, b) && (forall|m: int|
            0 <= m < a ==> in_set(CharSet::Whitespace, #[trigger] s[m])) && (forall|m: int|
            b <= m < s.len() ==> in_set(CharSet::Whitespace, #[trigger] s[m]));
    if a > 0 {
        assert(in_set(CharSet::Whitespace, s[0]));
    }
    if b < s.len() {
        assert(in_set(CharSet::Whitespace, s[s.len() - 1]));
    }
    assert(s.subrange(a, b) =~= s);
}

/// Extracting again from an extracted array gives the same text, unless the first
/// extraction came out empty (a `'['` directly after the last `']'`).
pub proof fn lemma_json_array_slice_idempotent(content: Seq<char>)
    requires
        !json_array_slice_panics(content),
        json_array_slice(content).len() > 0,
    ensures
        !json_array_slice_panics(json_array_slice(content)),
        json_array_slice(json_array_slice(content)) == json_array_slice(content),
{
    let t = trim(content);
    let r = json_array_slice(content);
    crate::text::lemma_trim_set_idempotent(content, CharSet::Whitespace);
    if starts_with(t, open_bracket()) {
        assert(trim(r) == r);
    } else {
        lemma_find(t, open_bracket());
        lemma_rfind_char_before(t, ']', t.len() as int);
        match (find(t, open_bracket()), rfind_char(t, ']')) {
            (Some(a), Some(b)) => {
                assert(t.subrange(a, a + 1)[0] == t[a]);
                assert(r[0] == '[');
                assert(r.last() == ']');
                lemma_trim_unchanged(r);
                assert(r.subrange(0, 1) =~= open_bracket());
            },
            _ => {
                lemma_trim_unchanged(r);
                assert(r.subrange(0, 1) =~= open_bracket());
            },
        }
    }
}

/// What the distillation request asks of the model for one capture: the
/// instructions, then the OCR text as it is.
pub fn distill_messages(ocr_text: &str) -> (msgs: Vec<ChatMessage>)
    ensures
        msgs@.len() == 2,
        msgs@[0].role@ == ROLE_SYSTEM@,
        msgs@[0].content@ == DISTILL_PROMPT@,
        msgs@[1].role@ == ROLE_USER@,
        msgs@[1].content@ == ocr_text@,
{
    system_and_user(DISTILL_PROMPT, String::from_str(ocr_text))
}

/// The JSON array to read messages from, given the content of the first choice of the
/// answer: `"[]"` when there is no content.
pub fn distilled_json(first_content: Option<String>) -> (out: String)
    requires
        first_content matches Some(c) ==> !json_array_slice_panics(c@),
    ensures
        out@ == json_array_slice(
            match first_content {
                Some(c) => c@,
                None => empty_array(),
            },
        ),
{
    match first_content {
        Some(c) => extract_json_array(c.as_str()),
        None => {
            proof {
                reveal_strlit("[]");
                assert("[]"@ =~= empty_array());
                assert(trim(empty_array()) == empty_array()) by {
                    lemma_trim_unchanged(empty_array());
                }
                assert(empty_array().subrange(0, 1) =~= open_bracket());
            }
            extract_json_array("[]")
        },
    }
}

/// The style-profile request for an app: the instructions, then the first
/// `STYLE_PROMPT_SAMPLES` replies numbered from 1.
pub fn style_profile_messages(samples: &Vec<String>) -> (msgs: Vec<ChatMessage>)
    ensures
        msgs@.len() == 2,
        msgs@[0].role@ == ROLE_SYSTEM@,
        msgs@[0].content@ == STYLE_PROFILE_PROMPT@,
        msgs@[1].role@ == ROLE_USER@,
        msgs@[1].content@ == STYLE_SAMPLES_PREFIX@ + numbered_list(
            string_views(samples@).take(min(STYLE_PROMPT_SAMPLES as int, samples@.len() as int)),
        ),
{
    let listed = numbered_lines(samples, STYLE_PROMPT_SAMPLES);
    let mut user = String::from_str(STYLE_SAMPLES_PREFIX);
    user.append(listed.as_str());
    system_and_user(STYLE_PROFILE_PROMPT, user)
}

/// The style profile in a model answer: trimmed, with any reasoning up to the first
/// `"</think>"` dropped, then without surrounding `"`, `「`, `」` and whitespace.
pub open spec fn style_profile_text(content: Seq<char>) -> Seq<char> {
    let c = trim(content);
    let r = match find(c, close_tag()) {
        Some(p) => trim(c.skip(p + 8)),
        None => c,
    };
    trim(trim_set(trim_set(trim_set(r, CharSet::Only('"')), CharSet::Only('「')), CharSet::Only('」')))
}

/// Cleans the model's answer into the style profile that is stored.
pub fn clean_style_profile(content: &str) -> (profile: String)
    ensures
        profile@ == style_profile_text(content@),
{
    let c = trim_str(content);
    let cv = chars_of(c.as_str());
    let close: Vec<char> = vec!['<', '/', 't', 'h', 'i', 'n', 'k', '>'];
    assert(close@ =~= close_tag());
    let r = match find_exec(&cv, &close) {
        Some(p) => {
            proof {
                lemma_find(cv@, close@);
                assert(crate::text::occurs_at(cv@, close@, p as int));
                assert(close@.len() == 8);
                assert(p + 8 <= cv@.len());
                assert(cv@.len() == cv.len());
            }
            let after = substring(c.as_str(), p + 8, cv.len());
            assert(after@ =~= cv@.skip(p + 8));
            trim_str(after.as_str())
        },
        None => c,
    };
    let a = trim_chars(r.as_str(), CharSet::Only('"'));
    let b = trim_chars(a.as_str(), CharSet::Only('「'));
    let d = trim_chars(b.as_str(), CharSet::Only('」'));
    trim_str(d.as_str())
}

/// A stored style profile never starts or ends with whitespace.
pub proof fn lemma_style_profile_trimmed(content: Seq<char>)
    ensures
        style_profile_text(content).len() > 0 ==> !is_ws(style_profile_text(content)[0]) && !is_ws(
            style_profile_text(content).last(),
        ),
{
    let c = trim(content);
    let r = match find(c, close_tag()) {
        Some(p) => trim(c.skip(p + 8)),
        None => c,
    };
    let d = trim_set(trim_set(trim_set(r, CharSet::Only('"')), CharSet::Only('「')), CharSet::Only('」'));
    lemma_trim_set_shape(d, CharSet::Whitespace);
}

/// Whether an app's style profile is (re)built from `samples` accepted replies when
/// the stored profile was built from `last_count`: at least `MIN_STYLE_SAMPLES`
/// samples, and, once a profile exists, at least half again as many as it was built from.
pub open spec fn style_refresh_due(samples: int, last_count: int) -> bool {
    samples >= MIN_STYLE_SAMPLES && (last_count <= 0 || samples >= (last_count * 3) / 2)
}

/// Decides whether to distill a new style profile.
pub fn should_refresh_style_profile(samples: usize, last_count: i64) -> (due: bool)
    requires
        samples <= i64::MAX,
        last_count > 0 ==> last_count * 3 <= i64::MAX,
    ensures
        due == style_refresh_due(samples as int, last_count as int),
        due == (samples >= MIN_STYLE_SAMPLES && (last_count <= 0 || 2 * samples + 1 >= 3
            * last_count)),
{
    proof {
        lemma_style_refresh_rule(samples as int, last_count as int);
    }
    if samples < MIN_STYLE_SAMPLES {
        return false;
    }
    let current = samples as i64;
    if last_count > 0 && current < last_count * 3 / 2 {
        return false;
    }
    true
}

/// The refresh rule without division: a profile is (re)built exactly when there are at
/// least `MIN_STYLE_SAMPLES` samples and, if a profile exists, at least half again as
/// many samples as it was built from (`2 * samples >= 3 * last_count`, rounded down
/// for an odd `3 * last_count`). In particular, with a stored profile, fewer samples
/// than that never trigger a rebuild.
pub proof fn lemma_style_refresh_rule(samples: int, last_count: int)
    ensures
        style_refresh_due(samples, last_count) == (samples >= MIN_STYLE_SAMPLES && (last_count
            <= 0 || 2 * samples + 1 >= 3 * last_count)),
        last_count > 0 && samples < (last_count * 3) / 2 ==> !style_refresh_due(samples, last_count),
{
    if last_count > 0 {
        let h = (last_count * 3) / 2;
        assert(2 * h <= 3 * last_count && 3 * last_count <= 2 * h + 1);
    }
}

/// A profile is built from the first time enough samples exist, and is rebuilt
/// whenever the samples grew by half of what the last profile saw.
pub proof fn lemma_style_refresh_growth(samples: int, last_count: int)
    requires
        samples >= MIN_STYLE_SAMPLES,
    ensures
        last_count <= 0 ==> style_refresh_due(samples, last_count),
        last_count > 0 && 2 * samples >= 3 * last_count ==> style_refresh_due(samples, last_count),
        last_count > 0 && samples < last_count ==> !style_refresh_due(samples, last_count),
{
    if last_count > 0 {
        assert((last_count * 3) / 2 >= last_count) by (nonlinear_arith)
            requires
                last_count > 0,
        ;
        assert(2 * samples >= 3 * last_count ==> samples >= (last_count * 3) / 2) by (nonlinear_arith)
            requires
                last_count > 0,
        ;
    }
}

/// What happened to one conversation of a distillation round.
pub enum DistillEvent {
    /// The model could not be asked, or answered with an error.
    Failed,
    /// The answer held this many messages.
    Extracted(usize),
    /// Storing the messages succeeded or not.
    Saved(bool),
}

/// What to do next with the conversation.
#[derive(PartialEq, Eq, Structural)]
pub enum DistillAction {
    /// Store the extracted messages, then report `Saved`.
    SaveMessages,
    /// Mark the conversation distilled; it is done.
    MarkDistilled,
    /// Leave the conversation undistilled; it is retried next round.
    LeaveForRetry,
}

/// One step of a distillation round: the number of conversations processed so far
/// and the next action. A conversation counts as processed once its messages are
/// stored, or when there were none; a failed request is marked distilled without
/// counting, and a failed store leaves it for the next round.
pub fn distill_step(processed: usize, event: DistillEvent) -> (r: (usize, DistillAction))
    requires
        processed < usize::MAX,
    ensures
        match event {
            DistillEvent::Failed => r == (processed, DistillAction::MarkDistilled),
            DistillEvent::Extracted(n) => if n == 0 {
                r.0 == processed + 1 && r.1 == DistillAction::MarkDistilled
            } else {
                r == (processed, DistillAction::SaveMessages)
            },
            DistillEvent::Saved(ok) => if ok {
                r.0 == processed + 1 && r.1 == DistillAction::MarkDistilled
            } else {
                r == (processed, DistillAction::LeaveForRetry)
            },
        },
{
    match event {
        DistillEvent::Failed => (processed, DistillAction::MarkDistilled),
        DistillEvent::Extracted(n) => if n == 0 {
            (processed + 1, DistillAction::MarkDistilled)
        } else {
            (processed, DistillAction::SaveMessages)
        },
        DistillEvent::Saved(ok) => if ok {
            (processed + 1, DistillAction::MarkDistilled)
        } else {
            (processed, DistillAction::LeaveForRetry)
        },
    }
}

/// Seconds the background loop waits after start before its first round.
pub const DISTILL_START_DELAY_SECS: u64 = 30;

/// Seconds between the distillation round and the style profiles, after a round that
/// distilled something.
pub const DISTILL_PAUSE_SECS: u64 = 2;

/// Seconds between two rounds of the background loop.
pub const DISTILL_INTERVAL_SECS: u64 = 300;

/// What the background loop reports after its last action.
pub enum ScheduleEvent {
    /// The loop has just started.
    Started,
    /// A wait ended.
    Waited,
    /// The settings were read; whether an API key is configured.
    ConfigRead(bool),
    /// A distillation round ended, having processed this many conversations.
    Distilled(usize),
    /// The style profiles were rebuilt where due.
    ProfilesBuilt,
}

/// What the background loop does next.
#[derive(PartialEq, Eq, Structural, Debug)]
pub enum ScheduleAction {
    /// Sleep this many seconds, then report `Waited`.
    Wait(u64),
    /// Read the settings, then report `ConfigRead`.
    ReadConfig,
    /// Run a distillation round, then report `Distilled`.
    Distill,
    /// Wait this many seconds (none when 0), rebuild the style profiles where due, then
    /// report `ProfilesBuilt`.
    BuildProfiles(u64),
}

/// The schedule of the background loop: wait `DISTILL_START_DELAY_SECS` after start;
/// then in each round read the settings; without an API key do nothing more; with one,
/// run a distillation round, pause `DISTILL_PAUSE_SECS` if it processed anything, and
/// rebuild the style profiles; each round ends with a wait of `DISTILL_INTERVAL_SECS`.
pub fn distill_schedule_step(event: ScheduleEvent) -> (action: ScheduleAction)
    ensures
        match event {
            ScheduleEvent::Started => action == ScheduleAction::Wait(DISTILL_START_DELAY_SECS),
            ScheduleEvent::Waited => action == ScheduleAction::ReadConfig,
            ScheduleEvent::ConfigRead(has_key) => action == (if has_key {
                ScheduleAction::Distill
            } else {
                ScheduleAction::Wait(DISTILL_INTERVAL_SECS)
            }),
            ScheduleEvent::Distilled(n) => action == ScheduleAction::BuildProfiles(
                if n > 0 {
                    DISTILL_PAUSE_SECS
                } else {
                    0
                },
            ),
            ScheduleEvent::ProfilesBuilt => action == ScheduleAction::Wait(DISTILL_INTERVAL_SECS),
        },
{
    match event {
        ScheduleEvent::Started => ScheduleAction::Wait(DISTILL_START_DELAY_SECS),
        ScheduleEvent::Waited => ScheduleAction::ReadConfig,
        ScheduleEvent::ConfigRead(has_key) => if has_key {
            ScheduleAction::Distill
        } else {
            ScheduleAction::Wait(DISTILL_INTERVAL_SECS)
        },
        ScheduleEvent::Distilled(n) => if n > 0 {
            ScheduleAction::BuildProfiles(DISTILL_PAUSE_SECS)
        } else {
            ScheduleAction::BuildProfiles(0)
        },
        ScheduleEvent::ProfilesBuilt => ScheduleAction::Wait(DISTILL_INTERVAL_SECS),
    }
}

} // verus!
