//! The chat page: how a message is displayed (its selected swipe), the prompt
//! navigator over the user's messages, the character and model panels' texts,
//! sending a draft and deleting a message.

use vstd::prelude::*;
use crate::text::{chars_of, push_chars, str_eq, string_of, take_chars, trim_seq, trim_str};

verus! {

/// A chat message.
#[derive(Debug)]
pub struct ChatMessage {
    pub name: String,
    pub is_user: bool,
    pub send_date: String,
    pub mes: String,
    /// Alternative replies; `swipe_id` selects one.
    pub swipes: Vec<String>,
    pub swipe_id: Option<usize>,
}

/// A chat of the timeline panel.
#[derive(Debug, Clone, PartialEq)]
pub struct SessionItem {
    /// Chat file name without extension.
    pub title: String,
}

/// The selected swipe number: `swipe_id`, 0 when unset.
pub open spec fn swipe_index(m: ChatMessage) -> int {
    match m.swipe_id {
        Some(i) => i as int,
        None => 0,
    }
}

/// The text a message shows: its selected swipe when there is one at that
/// index, its message text otherwise.
pub open spec fn shown_text(m: ChatMessage) -> Seq<char> {
    if swipe_index(m) < m.swipes@.len() {
        m.swipes@[swipe_index(m)]@
    } else {
        m.mes@
    }
}

/// The display fields of a message: shown text, whether the user wrote it,
/// the selected swipe number, and the swipes.
pub fn msg_display(msg: &ChatMessage) -> (r: (String, bool, usize, Vec<String>))
    ensures
        r.0@ == shown_text(*msg),
        r.1 == msg.is_user,
        r.2 as int == swipe_index(*msg),
        r.3@.len() == msg.swipes@.len(),
        forall|i: int| 0 <= i < msg.swipes@.len() ==> #[trigger] r.3@[i]@ == msg.swipes@[i]@,
{
    let idx: usize = match msg.swipe_id {
        Some(i) => i,
        None => 0,
    };
    let content = if idx < msg.swipes.len() {
        msg.swipes[idx].clone()
    } else {
        msg.mes.clone()
    };
    let mut swipes: Vec<String> = Vec::new();
    let mut i: usize = 0;
    while i < msg.swipes.len()
        invariant
            i <= msg.swipes@.len(),
            swipes@.len() == i,
            forall|j: int| 0 <= j < i ==> #[trigger] swipes@[j]@ == msg.swipes@[j]@,
        decreases msg.swipes.len() - i,
    {
        swipes.push(msg.swipes[i].clone());
        i = i + 1;
    }
    (content, msg.is_user, idx, swipes)
}

/// Positions of the user's messages, in order.
pub open spec fn user_positions(ms: Seq<ChatMessage>, n: int) -> Seq<int>
    decreases n,
{
    if n <= 0 {
        seq![]
    } else if ms[n - 1].is_user {
        user_positions(ms, n - 1).push(n - 1)
    } else {
        user_positions(ms, n - 1)
    }
}

/// The prompt navigator: for each message of the user, its position, its
/// author name and its shown text.
pub fn user_prompts(messages: &Vec<ChatMessage>) -> (r: Vec<(usize, String, String)>)
    ensures
        r@.len() == user_positions(messages@, messages@.len() as int).len(),
        forall|i: int|
            #![trigger r@[i]]
            0 <= i < r@.len() ==> {
                let p = user_positions(messages@, messages@.len() as int)[i];
                &&& r@[i].0 as int == p
                &&& r@[i].1@ == messages@[p].name@
                &&& r@[i].2@ == shown_text(messages@[p])
            },
{
    let mut r: Vec<(usize, String, String)> = Vec::new();
    let mut i: usize = 0;
    while i < messages.len()
        invariant
            i <= messages@.len(),
            r@.len() == user_positions(messages@, i as int).len(),
            forall|k: int|
                #![trigger r@[k]]
                0 <= k < r@.len() ==> {
                    let p = user_positions(messages@, i as int)[k];
                    &&& r@[k].0 as int == p
                    &&& r@[k].1@ == messages@[p].name@
                    &&& r@[k].2@ == shown_text(messages@[p])
                },
        decreases messages.len() - i,
    {
        let m = &messages[i];
        if m.is_user {
            let (content, _, _, _) = msg_display(m);
            r.push((i, m.name.clone(), content));
        }
        i = i + 1;
    }
    r
}

/// The highlighted prompt: the last prompt whose message is at or before the
/// scrolled-to message, the first one when there is none.
pub open spec fn active_prompt_of(positions: Seq<usize>, active_msg: usize) -> int {
    if exists|k: int| 0 <= k < positions.len() && positions[k] <= active_msg {
        choose|k: int|
            0 <= k < positions.len() && positions[k] <= active_msg && forall|l: int|
                k < l < positions.len() ==> positions[l] > active_msg
    } else {
        0
    }
}

/// Index of the highlighted prompt.
pub fn active_prompt_index(positions: &Vec<usize>, active_msg: usize) -> (r: usize)
    ensures
        r as int == active_prompt_of(positions@, active_msg),
{
    let mut k: usize = positions.len();
    while k > 0
        invariant
            k <= positions@.len(),
            forall|l: int| k <= l < positions@.len() ==> positions@[l] > active_msg,
        decreases k,
    {
        if positions[k - 1] <= active_msg {
            proof {
                let w = choose|w: int|
                    0 <= w < positions@.len() && positions@[w] <= active_msg && forall|l: int|
                        w < l < positions@.len() ==> positions@[l] > active_msg;
                if w < k - 1 {
                    assert(positions@[k - 1] > active_msg);
                } else if w > k - 1 {
                    assert(positions@[w] > active_msg);
                }
            }
            return k - 1;
        }
        k = k - 1;
    }
    0
}

/// The hover preview of a prompt: `name: text`, empty without one.
pub fn hover_preview(prompts: &Vec<(usize, String, String)>, hovered: Option<usize>) -> (r: String)
    ensures
        match hovered {
            Some(h) => if h < prompts@.len() {
                r@ == prompts@[h as int].1@ + ": "@ + prompts@[h as int].2@
            } else {
                r@.len() == 0
            },
            None => r@.len() == 0,
        },
{
    match hovered {
        Some(h) => if h < prompts.len() {
            let mut s = prompts[h].1.clone();
            s.append(": ");
            s.append(prompts[h].2.as_str());
            s
        } else {
            String::new()
        },
        None => String::new(),
    }
}

/// The character panel's line: `name - ` and the first 30 characters of the
/// description; `未选择角色` without a character.
pub fn character_info(character: Option<(&str, &str)>) -> (r: String)
    ensures
        match character {
            Some((n, d)) => r@ == n@ + " - "@ + (if d@.len() <= 30 {
                d@
            } else {
                d@.take(30)
            }),
            None => r@ == "未选择角色"@,
        },
{
    match character {
        Some((n, d)) => {
            let mut s = n.to_owned();
            s.append(" - ");
            let dc = chars_of(d);
            let head = take_chars(&dc, 30);
            push_chars(&mut s, &head);
            s
        },
        None => "未选择角色".to_owned(),
    }
}

/// The monogram: the first character of the name, `?` without one.
pub fn monogram(name: Option<&str>) -> (r: String)
    ensures
        match name {
            Some(n) => if n@.len() > 0 {
                r@ == seq![n@[0]]
            } else {
                r@ == "?"@
            },
            None => r@ == "?"@,
        },
{
    match name {
        Some(n) => {
            let c = chars_of(n);
            if c.len() > 0 {
                let mut s = String::new();
                crate::text::push_char(&mut s, c[0]);
                s
            } else {
                "?".to_owned()
            }
        },
        None => "?".to_owned(),
    }
}

/// The detail dialog's title.
pub fn detail_title(name: Option<&str>) -> (r: String)
    ensures
        match name {
            Some(n) => r@ == "剧本详情: "@ + n@,
            None => r@ == "剧本详情"@,
        },
{
    match name {
        Some(n) => {
            let mut s = "剧本详情: ".to_owned();
            s.append(n);
            s
        },
        None => "剧本详情".to_owned(),
    }
}

/// The detail dialog's text: the description (`(无简介)` when empty), then
/// the scenario after a blank line when there is one; `未选择角色` without a
/// character.
pub fn detail_body(character: Option<(&str, &str)>) -> (r: String)
    ensures
        match character {
            Some((d, s)) => r@ == (if d@.len() == 0 {
                "(无简介)"@
            } else {
                d@
            }) + (if s@.len() == 0 {
                Seq::<char>::empty()
            } else {
                "\n\n场景: "@ + s@
            }),
            None => r@ == "未选择角色"@,
        },
{
    match character {
        Some((d, s)) => {
            let mut r = if d.is_empty() {
                "(无简介)".to_owned()
            } else {
                d.to_owned()
            };
            if !s.is_empty() {
                r.append("\n\n场景: ");
                r.append(s);
            } else {
                assert(r@ + Seq::<char>::empty() =~= r@);
            }
            r
        },
        None => "未选择角色".to_owned(),
    }
}

/// The model choices: the fixed default model, and the current model when it
/// is another one.
pub fn model_options(current: Option<&str>) -> (r: Vec<String>)
    ensures
        r@.len() >= 1,
        r@[0]@ == "agnes-2.5-flash"@,
        match current {
            Some(m) => if m@ == "agnes-2.5-flash"@ {
                r@.len() == 1
            } else {
                r@.len() == 2 && r@[1]@ == m@
            },
            None => r@.len() == 1,
        },
{
    let mut v: Vec<String> = Vec::new();
    v.push("agnes-2.5-flash".to_owned());
    if let Some(m) = current {
        if !str_eq(v[0].as_str(), m) {
            v.push(m.to_owned());
        }
    }
    v
}

/// The current model's label: `未设置` when none is chosen.
pub fn model_label(current: Option<&str>) -> (r: String)
    ensures
        match current {
            Some(m) => r@ == m@,
            None => r@ == "未设置"@,
        },
{
    match current {
        Some(m) => m.to_owned(),
        None => "未设置".to_owned(),
    }
}

/// What the send button sends: the trimmed draft, nothing when it is blank.
pub fn draft_to_send(draft: &str) -> (r: Option<String>)
    ensures
        trim_seq(draft@).len() == 0 ==> r is None,
        trim_seq(draft@).len() > 0 ==> (r matches Some(t) && t@ == trim_seq(draft@)),
{
    let t = trim_str(draft);
    if t.as_str().is_empty() {
        None
    } else {
        Some(t)
    }
}

/// Deleting message `idx`: removed when it exists, nothing otherwise.
pub fn delete_message(messages: &mut Vec<ChatMessage>, idx: usize)
    ensures
        idx < old(messages)@.len() ==> final(messages)@ == old(messages)@.remove(idx as int),
        idx >= old(messages)@.len() ==> final(messages)@ == old(messages)@,
{
    if idx < messages.len() {
        messages.remove(idx);
    }
}

/// Whether the timeline entry is the open chat.
pub fn session_is_active(open_chat: Option<&str>, title: &str) -> (r: bool)
    ensures
        r == (open_chat matches Some(c) && c@ == title@),
{
    match open_chat {
        Some(c) => str_eq(c, title),
        None => false,
    }
}

} // verus!
