//! Server-sent events of the generation endpoint: one `data: ` line carries
//! either the end marker `[DONE]` or a payload whose text is the content of
//! `choices[0].delta.content` when the payload is such a JSON object, and the
//! payload itself otherwise.

use vstd::prelude::*;
use crate::text::{
    chars_of, has_prefix, push_char, skip_chars, starts_with_chars, str_eq, string_of, trim_chars,
    trim_seq, trim_str,
};

verus! {

/// One event of the generation stream.
#[derive(Debug, Clone, PartialEq)]
pub enum SseEvent {
    /// A piece of generated text.
    Message(String),
    /// End of the stream.
    Done,
}

/// Character list entry of the tavern backend.
#[derive(Debug, Clone)]
pub struct CharacterSummary {
    pub file_name: String,
    pub name: String,
    pub description: String,
}

/// The string `choices[0].delta.content` of the JSON document `data`, when
/// `data` parses as JSON (with `serde_json`) and that path leads to a string;
/// `None` otherwise. Depends on `data` alone.
pub uninterp spec fn json_delta_content(data: Seq<char>) -> Option<Seq<char>>;

/// `serde_json::from_str::<Value>` on the payload, then `get("choices")`,
/// `get(0)`, `get("delta")`, `get("content")` and `as_str`. The contract only
/// names the result (`json_delta_content`): JSON syntax is not restated here.
#[verifier::external_body]
fn delta_content(data: &str) -> (r: Option<String>)
    ensures
        match r {
            Some(c) => json_delta_content(data@) == Some(c@),
            None => json_delta_content(data@) is None,
        },
{
    let json: serde_json::Value = serde_json::from_str(data).ok()?;
    let content = json.get("choices")?.get(0)?.get("delta")?.get("content")?;
    content.as_str().map(|c| c.to_owned())
}

/// The payload of an event line: the trimmed line without its `data: `
/// prefix, trimmed again; `None` for a line without that prefix.
pub open spec fn sse_payload(line: Seq<char>) -> Option<Seq<char>> {
    let t = trim_seq(line);
    if has_prefix(t, "data: "@) {
        Some(trim_seq(t.skip("data: "@.len() as int)))
    } else {
        None
    }
}

/// The text of a message event for `data`, given what the JSON reading of
/// `data` found at `choices[0].delta.content`.
pub open spec fn message_text(data: Seq<char>, delta: Option<Seq<char>>) -> Seq<char> {
    match delta {
        Some(c) => c,
        None => data,
    }
}

/// Event of a line, as `(is_done, text)`: `None` for a line that is not an
/// event line.
pub open spec fn line_event(line: Seq<char>) -> Option<(bool, Seq<char>)> {
    match sse_payload(line) {
        None => None,
        Some(d) => if d == "[DONE]"@ {
            Some((true, Seq::empty()))
        } else {
            Some((false, message_text(d, json_delta_content(d))))
        },
    }
}

/// `e` is the event that `(done, text)` describes.
pub open spec fn event_matches(e: SseEvent, ev: (bool, Seq<char>)) -> bool {
    if ev.0 {
        e is Done
    } else {
        e matches SseEvent::Message(m) && m@ == ev.1
    }
}

/// The message event of a payload that is not the end marker: the JSON
/// content when `delta` holds it, the payload text otherwise.
pub fn message_event(data: String, delta: Option<String>) -> (e: SseEvent)
    ensures
        e matches SseEvent::Message(m) && m@ == message_text(
            data@,
            match delta {
                Some(c) => Some(c@),
                None => None,
            },
        ),
{
    match delta {
        Some(c) => SseEvent::Message(c),
        None => SseEvent::Message(data),
    }
}

/// Parses one line of the generation stream.
pub fn parse_sse_line(line: &str) -> (r: Option<SseEvent>)
    ensures
        match line_event(line@) {
            None => r is None,
            Some(ev) => r matches Some(e) && event_matches(e, ev),
        },
{
    let t = trim_str(line);
    let tc = chars_of(t.as_str());
    let prefix = chars_of("data: ");
    if !starts_with_chars(&tc, &prefix) {
        return None;
    }
    let rest = skip_chars(&tc, prefix.len());
    let dc = trim_chars(&rest);
    let data = string_of(&dc);
    if str_eq(data.as_str(), "[DONE]") {
        return Some(SseEvent::Done);
    }
    let delta = delta_content(data.as_str());
    Some(message_event(data, delta))
}

/// `s` with one trailing carriage return removed.
pub open spec fn strip_cr(s: Seq<char>) -> Seq<char> {
    if s.len() > 0 && s.last() == '\r' {
        s.drop_last()
    } else {
        s
    }
}

/// Index of the first line feed of `s` at or after `from`, or `s.len()`.
pub open spec fn next_newline(s: Seq<char>, from: int) -> int
    decreases s.len() - from,
{
    if from >= s.len() {
        s.len() as int
    } else if s[from] == '\n' {
        from
    } else {
        next_newline(s, from + 1)
    }
}

/// The lines of `s` as `str::lines` yields them: split at each line feed, a
/// carriage return right before it dropped, no final empty line.
pub open spec fn lines_of(s: Seq<char>) -> Seq<Seq<char>>
    decreases s.len(),
{
    if s.len() == 0 {
        seq![]
    } else {
        let i = next_newline(s, 0);
        if i >= s.len() {
            seq![s]
        } else {
            proof {
                lemma_next_newline_bounds(s, 0);
            }
            seq![strip_cr(s.take(i))] + lines_of(s.skip(i + 1))
        }
    }
}

/// The message texts of the lines, in order, up to the first end marker.
pub open spec fn deltas_of(lines: Seq<Seq<char>>) -> Seq<Seq<char>>
    decreases lines.len(),
{
    if lines.len() == 0 {
        seq![]
    } else {
        match line_event(lines[0]) {
            None => deltas_of(lines.drop_first()),
            Some(ev) => if ev.0 {
                seq![]
            } else {
                seq![ev.1] + deltas_of(lines.drop_first())
            },
        }
    }
}

pub proof fn lemma_next_newline_bounds(s: Seq<char>, from: int)
    requires
        0 <= from,
    ensures
        from <= next_newline(s, from) <= s.len() || (from > s.len() && next_newline(s, from)
            == s.len()),
    decreases s.len() - from,
{
    if from < s.len() && s[from] != '\n' {
        lemma_next_newline_bounds(s, from + 1);
    }
}

proof fn lemma_next_newline(s: Seq<char>, from: int, k: int)
    requires
        0 <= from <= k <= s.len(),
        forall|j: int| from <= j < k ==> s[j] != '\n',
        k == s.len() || s[k] == '\n',
    ensures
        next_newline(s, from) == k,
    decreases k - from,
{
    if from < k {
        lemma_next_newline(s, from + 1, k);
    }
}

/// Splits `s` into its lines, as `str::lines` does.
pub fn split_lines(s: &Vec<char>) -> (r: Vec<Vec<char>>)
    ensures
        r@.len() == lines_of(s@).len(),
        forall|i: int| 0 <= i < r@.len() ==> #[trigger] r@[i]@ == lines_of(s@)[i],
    decreases s@.len(),
{
    if s.len() == 0 {
        return Vec::new();
    }
    let mut k: usize = 0;
    while k < s.len() && s[k] != '\n'
        invariant
            k <= s@.len(),
            forall|j: int| 0 <= j < k ==> s@[j] != '\n',
        decreases s.len() - k,
    {
        k = k + 1;
    }
    proof {
        lemma_next_newline(s@, 0, k as int);
    }
    let mut first: Vec<char> = Vec::new();
    let mut i: usize = 0;
    while i < k
        invariant
            i <= k <= s@.len(),
            first@ == s@.take(i as int),
        decreases k - i,
    {
        first.push(s[i]);
        i = i + 1;
        assert(first@ =~= s@.take(i as int));
    }
    if k == s.len() {
        assert(first@ =~= s@);
        let mut r: Vec<Vec<char>> = Vec::new();
        r.push(first);
        return r;
    }
    if first.len() > 0 && first[first.len() - 1] == '\r' {
        first.pop();
    }
    assert(first@ =~= strip_cr(s@.take(k as int)));
    let rest = skip_chars(s, k + 1);
    let tail = split_lines(&rest);
    let mut r: Vec<Vec<char>> = Vec::new();
    r.push(first);
    let mut j: usize = 0;
    let ghost want = lines_of(s@);
    assert(want =~= seq![strip_cr(s@.take(k as int))] + lines_of(s@.skip(k + 1)));
    while j < tail.len()
        invariant
            j <= tail@.len(),
            tail@.len() == lines_of(rest@).len(),
            forall|x: int| 0 <= x < tail@.len() ==> #[trigger] tail@[x]@ == lines_of(rest@)[x],
            rest@ == s@.skip(k + 1),
            want == seq![strip_cr(s@.take(k as int))] + lines_of(s@.skip(k + 1)),
            r@.len() == j + 1,
            forall|x: int| 0 <= x < r@.len() ==> #[trigger] r@[x]@ == want[x],
        decreases tail.len() - j,
    {
        r.push(tail[j].clone());
        j = j + 1;
    }
    r
}

/// The texts that the generation endpoint's response `text` streams, in
/// order, up to the end marker.
pub fn generate_deltas(text: &str) -> (r: Vec<String>)
    ensures
        r@.len() == deltas_of(lines_of(text@)).len(),
        forall|i: int| 0 <= i < r@.len() ==> #[trigger] r@[i]@ == deltas_of(lines_of(text@))[i],
{
    let cs = chars_of(text);
    let lines = split_lines(&cs);
    let ghost ls = lines_of(text@);
    let mut r: Vec<String> = Vec::new();
    let mut i: usize = 0;
    assert(ls.skip(0) =~= ls);
    assert(r@.map_values(|s: String| s@) =~= Seq::<Seq<char>>::empty());
    while i < lines.len()
        invariant
            i <= lines@.len(),
            lines@.len() == ls.len(),
            ls == lines_of(text@),
            forall|x: int| 0 <= x < lines@.len() ==> #[trigger] lines@[x]@ == ls[x],
            deltas_of(ls) == r@.map_values(|s: String| s@) + deltas_of(ls.skip(i as int)),
        decreases lines.len() - i,
    {
        let line = string_of(&lines[i]);
        let ghost rest = ls.skip(i as int);
        assert(rest[0] == ls[i as int]);
        assert(rest.drop_first() =~= ls.skip(i + 1));
        match parse_sse_line(line.as_str()) {
            Some(SseEvent::Message(m)) => {
                let ghost before = r@.map_values(|s: String| s@);
                r.push(m);
                assert(r@.map_values(|s: String| s@) =~= before.push(m@));
                assert(deltas_of(rest) == seq![m@] + deltas_of(ls.skip(i + 1)));
                assert(before + deltas_of(rest) =~= before.push(m@) + deltas_of(ls.skip(i + 1)));
            },
            Some(SseEvent::Done) => {
                assert(deltas_of(rest) == Seq::<Seq<char>>::empty());
                assert(deltas_of(ls) =~= r@.map_values(|s: String| s@));
                assert forall|x: int| 0 <= x < r@.len() implies #[trigger] r@[x]@ == deltas_of(ls)[x] by {
                    assert(r@.map_values(|s: String| s@)[x] == r@[x]@);
                }
                return r;
            },
            None => {},
        }
        i = i + 1;
    }
    assert(ls.skip(i as int) =~= Seq::<Seq<char>>::empty());
    assert(deltas_of(ls) =~= r@.map_values(|s: String| s@));
    assert forall|x: int| 0 <= x < r@.len() implies #[trigger] r@[x]@ == deltas_of(ls)[x] by {
        assert(r@.map_values(|s: String| s@)[x] == r@[x]@);
    }
    r
}

} // verus!
