//! The decisions behind driving the KakaoTalk UI through the Accessibility
//! API: which process, row, window and field to use, which messages to
//! return, and when to keep polling.
use vstd::prelude::*;

use crate::text::{
    chars_equal, chars_of, contains, contains_chars, lines, lines_of, parse_i32, parse_i32_spec,
    trim, trim_chars, views,
};

verus! {

/// The macOS virtual key code of Return (`kVK_Return`).
pub const RETURN_KEYCODE: u16 = 36;

/// How long to wait for a chat window to open, in milliseconds.
pub const OPEN_CHAT_TIMEOUT_MS: u64 = 5000;

/// How long to wait for a sent message to show up, in milliseconds.
pub const VERIFY_TIMEOUT_MS: u64 = 10000;

/// The pause between looks for a sent message, in milliseconds.
pub const VERIFY_POLL_INTERVAL_MS: u64 = 400;

/// The pause between looks for an opening chat window, in milliseconds.
pub const OPEN_CHAT_POLL_INTERVAL_MS: u64 = 150;

/// The pause after pressing the chat-list tab, in milliseconds.
pub const TAB_SWITCH_SETTLE_MS: u64 = 400;

/// One message bubble scraped from a chat window's message list.
#[derive(Debug, Clone)]
pub struct AxMessage {
    /// The time label's help text (the full date) if present, else its
    /// displayed value.
    pub time: Option<String>,
    pub text: String,
}

/// The process id that `pgrep -x KakaoTalk` printed: its first output line,
/// trimmed, as an `i32`.
pub open spec fn pid_spec(stdout: Seq<char>) -> Option<i32> {
    if lines(stdout).len() > 0 {
        parse_i32_spec(trim(lines(stdout)[0]))
    } else {
        None
    }
}

/// Reads the KakaoTalk process id out of the output of `pgrep -x KakaoTalk`.
pub fn pid_from_pgrep_output(stdout: &str) -> (pid: Option<i32>)
    ensures
        pid == pid_spec(stdout@),
{
    let chars = chars_of(stdout);
    let ls = lines_of(chars.as_slice());
    if ls.len() == 0 {
        return None;
    }
    assert(views(ls@)[0] == ls@[0]@);
    let first = trim_chars(ls[0].as_slice());
    parse_i32(first.as_slice())
}

/// The row at `i` carries exactly the name `target`.
pub open spec fn row_is(names: Seq<Option<String>>, i: int, target: Seq<char>) -> bool {
    match names[i] {
        Some(n) => n@ == target,
        None => false,
    }
}

/// How many of the first `k` rows carry exactly the name `target`.
pub open spec fn count_rows(names: Seq<Option<String>>, k: int, target: Seq<char>) -> nat
    decreases k,
{
    if k <= 0 {
        0
    } else {
        count_rows(names, k - 1, target) + if row_is(names, k - 1, target) {
            1nat
        } else {
            0nat
        }
    }
}

/// The outcome of looking a chat up by its exact display name.
#[derive(Debug, Clone, Copy, PartialEq, Eq)]
pub enum ChatMatch {
    /// Exactly one row carries the name; its position.
    Found(usize),
    /// No row carries the name.
    NotFound,
    /// This many rows (two or more) carry the name.
    Ambiguous(usize),
}

/// Looks up the chat-list row whose name is exactly `target` (no substring,
/// case or whitespace folding). Rows whose name could not be read never
/// match. More than one match is refused as ambiguous.
pub fn match_chat_row(row_names: &[Option<String>], target: &str) -> (m: ChatMatch)
    ensures
        match m {
            ChatMatch::Found(i) => {
                &&& i < row_names@.len()
                &&& row_is(row_names@, i as int, target@)
                &&& count_rows(row_names@, row_names@.len() as int, target@) == 1
            },
            ChatMatch::NotFound => count_rows(row_names@, row_names@.len() as int, target@) == 0,
            ChatMatch::Ambiguous(n) => {
                &&& n >= 2
                &&& n == count_rows(row_names@, row_names@.len() as int, target@)
            },
        },
{
    let t = chars_of(target);
    let mut count: usize = 0;
    let mut found: usize = 0;
    let mut i: usize = 0;
    while i < row_names.len()
        invariant
            i <= row_names@.len(),
            t@ == target@,
            count == count_rows(row_names@, i as int, target@),
            count <= i,
            count >= 1 ==> found < i && row_is(row_names@, found as int, target@),
        decreases row_names@.len() - i,
    {
        let hit = match &row_names[i] {
            Some(name) => {
                let n = chars_of(name.as_str());
                chars_equal(n.as_slice(), t.as_slice())
            },
            None => false,
        };
        if hit {
            if count == 0 {
                found = i;
            }
            count = count + 1;
        }
        i = i + 1;
    }
    if count == 0 {
        ChatMatch::NotFound
    } else if count == 1 {
        ChatMatch::Found(found)
    } else {
        ChatMatch::Ambiguous(count)
    }
}

/// The element at `i` carries the identifier `wanted`.
pub open spec fn has_identifier(ids: Seq<Option<String>>, i: int, wanted: Seq<char>) -> bool {
    match ids[i] {
        Some(s) => s@ == wanted,
        None => false,
    }
}

/// The first element whose `AXIdentifier` is exactly `wanted` (the main
/// window is identified as `Main Window`, the chat-list tab as `chatrooms`).
pub fn find_by_identifier(ids: &[Option<String>], wanted: &str) -> (r: Option<usize>)
    ensures
        match r {
            Some(i) => i < ids@.len() && has_identifier(ids@, i as int, wanted@) && forall|j: int|
                0 <= j < i ==> !has_identifier(ids@, j, wanted@),
            None => forall|j: int| 0 <= j < ids@.len() ==> !has_identifier(ids@, j, wanted@),
        },
{
    let w = chars_of(wanted);
    let mut i: usize = 0;
    while i < ids.len()
        invariant
            i <= ids@.len(),
            w@ == wanted@,
            forall|j: int| 0 <= j < i ==> !has_identifier(ids@, j, wanted@),
        decreases ids@.len() - i,
    {
        match &ids[i] {
            Some(s) => {
                let c = chars_of(s.as_str());
                if chars_equal(c.as_slice(), w.as_slice()) {
                    return Some(i);
                }
            },
            None => {},
        }
        i = i + 1;
    }
    None
}

/// The window at `i` has a title that contains `name`.
pub open spec fn title_names(titles: Seq<Option<String>>, i: int, name: Seq<char>) -> bool {
    match titles[i] {
        Some(t) => contains(t@, name),
        None => false,
    }
}

/// The first window whose title contains `name` (a chat window is titled
/// with the other party's display name).
pub fn find_by_title(titles: &[Option<String>], name: &str) -> (r: Option<usize>)
    ensures
        match r {
            Some(i) => i < titles@.len() && title_names(titles@, i as int, name@) && forall|j: int|
                0 <= j < i ==> !title_names(titles@, j, name@),
            None => forall|j: int| 0 <= j < titles@.len() ==> !title_names(titles@, j, name@),
        },
{
    let w = chars_of(name);
    let mut i: usize = 0;
    while i < titles.len()
        invariant
            i <= titles@.len(),
            w@ == name@,
            forall|j: int| 0 <= j < i ==> !title_names(titles@, j, name@),
        decreases titles@.len() - i,
    {
        match &titles[i] {
            Some(s) => {
                let c = chars_of(s.as_str());
                if contains_chars(c.as_slice(), w.as_slice()) {
                    return Some(i);
                }
            },
            None => {},
        }
        i = i + 1;
    }
    None
}

/// The chat-list tab to press so that the chat list is shown: none while a
/// table is already on screen, else the first button identified as
/// `chatrooms`.
pub fn chatrooms_tab_to_press(table_count: usize, button_ids: &[Option<String>]) -> (r: Option<
    usize,
>)
    ensures
        table_count > 0 ==> r is None,
        table_count == 0 ==> match r {
            Some(i) => i < button_ids@.len() && has_identifier(button_ids@, i as int, "chatrooms"@)
                && forall|j: int| 0 <= j < i ==> !has_identifier(button_ids@, j, "chatrooms"@),
            None => forall|j: int|
                0 <= j < button_ids@.len() ==> !has_identifier(button_ids@, j, "chatrooms"@),
        },
{
    if table_count > 0 {
        None
    } else {
        find_by_identifier(button_ids, "chatrooms")
    }
}

/// What a scroll area holds, as far as finding the message composer goes.
#[derive(Debug, Clone, Copy)]
pub struct ScrollAreaShape {
    /// It wraps a table (so it is the message list).
    pub has_table: bool,
    /// It wraps a text area.
    pub has_text_area: bool,
}

pub open spec fn is_composer(a: ScrollAreaShape) -> bool {
    !a.has_table && a.has_text_area
}

/// The first scroll area that wraps a text area but no table: the message
/// composer.
pub fn pick_composer_area(areas: &[ScrollAreaShape]) -> (r: Option<usize>)
    ensures
        match r {
            Some(i) => i < areas@.len() && is_composer(areas@[i as int]) && forall|j: int|
                0 <= j < i ==> !is_composer(#[trigger] areas@[j]),
            None => forall|j: int| 0 <= j < areas@.len() ==> !is_composer(#[trigger] areas@[j]),
        },
{
    let mut i: usize = 0;
    while i < areas.len()
        invariant
            i <= areas@.len(),
            forall|j: int| 0 <= j < i ==> !is_composer(#[trigger] areas@[j]),
        decreases areas@.len() - i,
    {
        if !areas[i].has_table && areas[i].has_text_area {
            return Some(i);
        }
        i = i + 1;
    }
    None
}

/// A button labelled as a share button ("공유"), which marks a file message.
pub open spec fn is_share_label(desc: Option<Seq<char>>) -> bool {
    desc == Some("공유"@)
}

/// The views of optional strings.
pub open spec fn opt_views(v: Seq<Option<String>>) -> Seq<Option<Seq<char>>> {
    v.map_values(|o: Option<String>| match o {
        Some(s) => Some(s@),
        None => None,
    })
}

/// The text that a message row shows: its text area's value; else "[사진]"
/// for a row holding an image; else "[파일]" for a row with a share button;
/// else nothing (date separators and notices are not messages).
pub fn message_row_text(
    text_area: Option<String>,
    has_image: bool,
    button_descriptions: &[Option<String>],
) -> (r: Option<String>)
    ensures
        match text_area {
            Some(t) => r == Some(t),
            None => if has_image {
                r is Some && r.unwrap()@ == "[사진]"@
            } else if exists|j: int|
                0 <= j < button_descriptions@.len() && is_share_label(
                    #[trigger] opt_views(button_descriptions@)[j],
                ) {
                r is Some && r.unwrap()@ == "[파일]"@
            } else {
                r is None
            },
        },
{
    match text_area {
        Some(t) => return Some(t),
        None => {},
    }
    if has_image {
        return Some(String::from_str("[사진]"));
    }
    let share = chars_of("공유");
    let mut i: usize = 0;
    while i < button_descriptions.len()
        invariant
            i <= button_descriptions@.len(),
            share@ == "공유"@,
            text_area is None,
            !has_image,
            forall|j: int| 0 <= j < i ==> !is_share_label(#[trigger] opt_views(button_descriptions@)[j]),
        decreases button_descriptions@.len() - i,
    {
        match &button_descriptions[i] {
            Some(d) => {
                let dc = chars_of(d.as_str());
                if chars_equal(dc.as_slice(), share.as_slice()) {
                    assert(is_share_label(opt_views(button_descriptions@)[i as int]));
                    return Some(String::from_str("[파일]"));
                }
            },
            None => {},
        }
        i = i + 1;
    }
    None
}

/// A message bubble from the text its row shows (as [`message_row_text`]
/// gives it) and its time label: a row with no text is not a message; the
/// time is the label's help text when it has one, else its displayed value.
pub fn message_from_row(text: Option<String>, time_help: Option<String>, time_value: Option<
    String,
>) -> (m: Option<AxMessage>)
    ensures
        match m {
            Some(msg) => text == Some(msg.text) && msg.time == (if time_help.is_some() {
                time_help
            } else {
                time_value
            }),
            None => text is None,
        },
{
    match text {
        Some(t) => {
            let time = if time_help.is_some() {
                time_help
            } else {
                time_value
            };
            Some(AxMessage { time, text: t })
        },
        None => None,
    }
}

/// The last `count` messages (all of them when there are fewer).
pub fn keep_last(messages: Vec<AxMessage>, count: usize) -> (r: Vec<AxMessage>)
    ensures
        messages@.len() > count ==> r@ == messages@.skip(messages@.len() - count),
        messages@.len() <= count ==> r@ == messages@,
{
    let mut messages = messages;
    if messages.len() > count {
        let at = messages.len() - count;
        messages.split_off(at)
    } else {
        messages
    }
}

/// Some open window shows a message whose text is exactly `message`.
pub open spec fn shows_message(windows: Seq<Vec<String>>, message: Seq<char>) -> bool {
    exists|w: int, t: int|
        0 <= w < windows.len() && 0 <= t < windows[w]@.len() && #[trigger] windows[w]@[t]@
            == message
}

/// Whether any open window's message list shows `message` exactly.
pub fn message_visible(windows: &[Vec<String>], message: &str) -> (b: bool)
    ensures
        b == shows_message(windows@, message@),
{
    let m = chars_of(message);
    let mut w: usize = 0;
    while w < windows.len()
        invariant
            w <= windows@.len(),
            m@ == message@,
            forall|a: int, t: int|
                0 <= a < w && 0 <= t < windows@[a]@.len() ==> #[trigger] windows@[a]@[t]@
                    != message@,
        decreases windows@.len() - w,
    {
        let texts = &windows[w];
        let mut t: usize = 0;
        while t < texts.len()
            invariant
                w < windows@.len(),
                texts == windows@[w as int],
                t <= texts@.len(),
                m@ == message@,
                forall|q: int| 0 <= q < t ==> #[trigger] texts@[q]@ != message@,
            decreases texts@.len() - t,
        {
            let c = chars_of(texts[t].as_str());
            if chars_equal(c.as_slice(), m.as_slice()) {
                return true;
            }
            t = t + 1;
        }
        w = w + 1;
    }
    false
}

/// What a polling loop does next.
#[derive(Debug, Clone, Copy, PartialEq, Eq)]
pub enum PollStep {
    /// What was waited for is there.
    Done,
    /// The time is up.
    GiveUp,
    /// Wait this many milliseconds and look again.
    Wait(u64),
}

/// One round of a polling loop that started `elapsed_ms` ago and may run for
/// `timeout_ms`: done when `ready`, else give up once the time is up, else
/// wait `interval_ms`.
pub fn poll_step(ready: bool, elapsed_ms: u64, timeout_ms: u64, interval_ms: u64) -> (s:
    PollStep)
    ensures
        ready ==> s == PollStep::Done,
        !ready && elapsed_ms >= timeout_ms ==> s == PollStep::GiveUp,
        !ready && elapsed_ms < timeout_ms ==> s == PollStep::Wait(interval_ms),
{
    if ready {
        PollStep::Done
    } else if elapsed_ms >= timeout_ms {
        PollStep::GiveUp
    } else {
        PollStep::Wait(interval_ms)
    }
}

/// The key events that press Return: key down, then key up.
pub fn return_key_events() -> (events: Vec<(u16, bool)>)
    ensures
        events@ == seq![(RETURN_KEYCODE, true), (RETURN_KEYCODE, false)],
{
    let mut events: Vec<(u16, bool)> = Vec::new();
    events.push((RETURN_KEYCODE, true));
    events.push((RETURN_KEYCODE, false));
    events
}

/// The UTF-16 code units of one character: itself below U+10000, else a
/// surrogate pair.
pub open spec fn utf16_of(c: char) -> Seq<u16> {
    let u = c as u32;
    if u < 0x10000 {
        seq![u as u16]
    } else {
        seq![(0xd800 + (u - 0x10000) / 1024) as u16, (0xdc00 + (u - 0x10000) % 1024) as u16]
    }
}

/// The payload of each keyboard event pair when typing `text`: one entry per
/// character, holding that character's UTF-16 code units.
pub fn utf16_per_char(text: &str) -> (units: Vec<Vec<u16>>)
    ensures
        units@.len() == text@.len(),
        forall|i: int| 0 <= i < text@.len() ==> #[trigger] units@[i]@ == utf16_of(text@[i]),
{
    let chars = chars_of(text);
    let mut out: Vec<Vec<u16>> = Vec::new();
    let mut i: usize = 0;
    while i < chars.len()
        invariant
            i <= chars@.len(),
            chars@ == text@,
            out@.len() == i,
            forall|j: int| 0 <= j < i ==> #[trigger] out@[j]@ == utf16_of(text@[j]),
        decreases chars@.len() - i,
    {
        let u = chars[i] as u32;
        proof {
            vstd::utf8::char_is_scalar(chars@[i as int]);
        }
        let mut one: Vec<u16> = Vec::new();
        if u < 0x10000 {
            one.push(u as u16);
        } else {
            one.push((0xd800 + (u - 0x10000) / 1024) as u16);
            one.push((0xdc00 + (u - 0x10000) % 1024) as u16);
        }
        out.push(one);
        i = i + 1;
    }
    out
}

} // verus!
