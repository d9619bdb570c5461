//! Records kept in the local database: captured conversations and the messages
//! distilled from them.
use vstd::prelude::*;

verus! {

/// A single conversation record (raw OCR + LLM reply).
#[derive(Clone, Debug)]
pub struct Conversation {
    pub id: i64,
    pub app_name: String,
    pub ocr_text: String,
    pub reply: String,
    pub accepted: bool,
    pub distilled: bool,
    pub created_at: String,
}

/// A distilled message extracted from a conversation.
#[derive(Clone, Debug)]
pub struct DistilledMessage {
    pub id: i64,
    pub conversation_id: i64,
    pub app_name: String,
    pub sender: String,
    pub content: String,
    pub is_user: bool,
    pub created_at: String,
}

/// How a flag is stored in an integer column: 1 for true, 0 for false.
pub fn flag_to_column(flag: bool) -> (v: i64)
    ensures
        v == (if flag {
            1i64
        } else {
            0i64
        }),
{
    if flag {
        1
    } else {
        0
    }
}

/// How an integer column is read as a flag: any value but 0 is true.
pub fn flag_from_column(v: i64) -> (flag: bool)
    ensures
        flag == (v != 0),
{
    v != 0
}

impl Conversation {
    /// A conversation from the columns of its row, the flags as stored integers.
    pub fn from_row(
        id: i64,
        app_name: String,
        ocr_text: String,
        reply: String,
        accepted: i64,
        distilled: i64,
        created_at: String,
    ) -> (c: Conversation)
        ensures
            c.id == id,
            c.app_name == app_name,
            c.ocr_text == ocr_text,
            c.reply == reply,
            c.accepted == (accepted != 0),
            c.distilled == (distilled != 0),
            c.created_at == created_at,
    {
        Conversation {
            id,
            app_name,
            ocr_text,
            reply,
            accepted: flag_from_column(accepted),
            distilled: flag_from_column(distilled),
            created_at,
        }
    }
}

/// A stored flag reads back as the flag that was stored.
pub proof fn lemma_flag_round_trip(flag: bool)
    ensures
        ((if flag {
            1i64
        } else {
            0i64
        }) != 0) == flag,
{
}

} // verus!
