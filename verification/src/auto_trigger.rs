//! Chat app detection for input monitoring.
use vstd::prelude::*;
use crate::text::{contains, contains_str};

verus! {

/// The names of the chat apps that are recognised and monitored: an app is a chat
/// app when its name contains one of them.
pub open spec fn chat_app_names() -> Seq<Seq<char>> {
    seq![
        "WeChat"@,
        "微信"@,
        "QQ"@,
        "DingTalk"@,
        "钉钉"@,
        "Slack"@,
        "Telegram"@,
        "Messages"@,
        "信息"@,
        "Lark"@,
        "飞书"@,
    ]
}

/// The chat apps, in the order they are tried.
pub fn chat_apps() -> (names: Vec<&'static str>)
    ensures
        names@.map_values(|n: &'static str| n@) == chat_app_names(),
{
    let names = vec![
        "WeChat",
        "微信",
        "QQ",
        "DingTalk",
        "钉钉",
        "Slack",
        "Telegram",
        "Messages",
        "信息",
        "Lark",
        "飞书",
    ];
    assert(names@.map_values(|n: &'static str| n@) =~= chat_app_names());
    names
}

/// Whether `app_name` names a recognised chat app.
pub open spec fn is_chat_app_name(app_name: Seq<char>) -> bool {
    exists|k: int| 0 <= k < chat_app_names().len() && contains(app_name, #[trigger] chat_app_names()[k])
}

/// An app is a chat app exactly when its name contains one of "WeChat", "微信", "QQ",
/// "DingTalk", "钉钉", "Slack", "Telegram", "Messages", "信息", "Lark" or "飞书".
pub proof fn lemma_chat_app_names(app_name: Seq<char>)
    ensures
        is_chat_app_name(app_name) == (contains(app_name, "WeChat"@) || contains(app_name, "微信"@)
            || contains(app_name, "QQ"@) || contains(app_name, "DingTalk"@) || contains(
            app_name,
            "钉钉"@,
        ) || contains(app_name, "Slack"@) || contains(app_name, "Telegram"@) || contains(
            app_name,
            "Messages"@,
        ) || contains(app_name, "信息"@) || contains(app_name, "Lark"@) || contains(
            app_name,
            "飞书"@,
        )),
{
    let names = chat_app_names();
    assert(names[0] == "WeChat"@);
    assert(names[1] == "微信"@);
    assert(names[2] == "QQ"@);
    assert(names[3] == "DingTalk"@);
    assert(names[4] == "钉钉"@);
    assert(names[5] == "Slack"@);
    assert(names[6] == "Telegram"@);
    assert(names[7] == "Messages"@);
    assert(names[8] == "信息"@);
    assert(names[9] == "Lark"@);
    assert(names[10] == "飞书"@);
    assert(names.len() == 11);
}

/// Check if the given app name is a recognized chat app.
pub fn is_chat_app(app_name: &str) -> (b: bool)
    ensures
        b == is_chat_app_name(app_name@),
{
    let names = chat_apps();
    let mut i: usize = 0;
    while i < names.len()
        invariant
            i <= names@.len(),
            names@.map_values(|n: &'static str| n@) == chat_app_names(),
            forall|k: int| 0 <= k < i ==> !contains(app_name@, #[trigger] chat_app_names()[k]),
        decreases names@.len() - i,
    {
        assert(chat_app_names()[i as int] == names@[i as int]@);
        if contains_str(app_name, names[i]) {
            return true;
        }
        i = i + 1;
    }
    false
}

} // verus!
