//! The programme guide as text: for people, and as JSON.

use crate::eit::{clock_text, content_genre, date_text, genre, DateTime, EitEvent, HmsDuration};
use crate::epg::{event_views, ServiceEvent};
use crate::text::{
    chars_of, decimal, decimal_text, lines, lines_of, numeral_chars, pad, padded, pieces, text_of,
};
use vstd::prelude::*;

verus! {

// ---- For people ------------------------------------------------------------

/// The start of an event, or question marks.
pub open spec fn start_or_unknown(start: Option<DateTime>) -> Seq<char> {
    match start {
        Some(d) => date_text(d),
        None => "??:??:??"@,
    }
}

/// The duration of an event, or question marks.
pub open spec fn duration_or_unknown(duration: Option<HmsDuration>) -> Seq<char> {
    match duration {
        Some(d) => clock_text(d.hour, d.min, d.sec),
        None => "??:??:??"@,
    }
}

/// What is said of the running of an event.
pub open spec fn running_text(status: u8) -> Seq<char> {
    if status == 1 {
        " [not running]"@
    } else if status == 2 {
        " [starts soon]"@
    } else if status == 3 {
        " [pausing]"@
    } else if status == 4 {
        " [running]"@
    } else {
        ""@
    }
}

/// The first kind of content of an event, in brackets, if it has one.
pub open spec fn first_genre(nibbles: Seq<(u8, u8)>) -> Seq<char> {
    if nibbles.len() == 0 {
        Seq::empty()
    } else {
        "  ("@ + genre(nibbles[0].0) + ")"@
    }
}

/// Lines, each with space before it and a line feed behind it.
pub open spec fn indented(list: Seq<Seq<char>>) -> Seq<char>
    decreases list.len(),
{
    if list.len() == 0 {
        Seq::empty()
    } else {
        indented(list.drop_last()) + "           "@ + list.last() + seq!['\n']
    }
}

/// An event in one line.
pub open spec fn human_line(e: ServiceEvent) -> Seq<char> {
    "  svc "@ + decimal(e.0 as nat) + " ["@ + padded(decimal(e.1.event_id as nat), 5, ' ') + "]"@
        + running_text(e.1.running_status) + "  "@ + start_or_unknown(e.1.start) + "  +"@
        + duration_or_unknown(e.1.duration) + "  "@ + e.1.title + first_genre(e.1.content_nibbles)
}

/// An event in one line, and its text in lines below.
pub open spec fn human_event(e: ServiceEvent) -> Seq<char> {
    human_line(e) + seq!['\n'] + indented(lines(e.1.text))
}

/// The events of a list for people.
pub open spec fn human_guide(list: Seq<ServiceEvent>) -> Seq<char>
    decreases list.len(),
{
    if list.len() == 0 {
        Seq::empty()
    } else {
        human_guide(list.drop_last()) + human_event(list.last())
    }
}

fn running(status: u8) -> (text: &'static str)
    ensures
        text@ == running_text(status),
{
    match status {
        1 => " [not running]",
        2 => " [starts soon]",
        3 => " [pausing]",
        4 => " [running]",
        _ => "",
    }
}

/// An event in one line.
fn make_human_line(service_id: u16, e: &EitEvent) -> (out: String)
    ensures
        out@ == human_line((service_id, e@)),
{
    let mut out = "  svc ".to_owned();
    out.append(&decimal_text(service_id as u128));
    out.append(" [");
    out.append(&text_of(&pad(numeral_chars(e.event_id as u128, 10), 5, ' ')));
    out.append("]");
    out.append(running(e.running_status));
    out.append("  ");
    match &e.start {
        Some(d) => out.append(&d.text()),
        None => out.append("??:??:??"),
    }
    out.append("  +");
    match &e.duration {
        Some(d) => out.append(&d.text()),
        None => out.append("??:??:??"),
    }
    out.append("  ");
    out.append(&e.title);
    out.append(&make_first_genre(&e.content_nibbles));
    out
}

/// The first kind of content of an event, in brackets, if it has one.
fn make_first_genre(nibbles: &Vec<(u8, u8)>) -> (out: String)
    ensures
        out@ == first_genre(nibbles@),
{
    if nibbles.len() == 0 {
        return String::new();
    }
    let (l1, l2) = nibbles[0];
    let mut out = "  (".to_owned();
    out.append(content_genre(l1, l2));
    out.append(")");
    out
}

/// Appends lines, each with space before it and a line feed behind it.
fn push_indented(out: &mut String, text: &str)
    ensures
        final(out)@ == old(out)@ + indented(lines(text@)),
{
    let list = lines_of(&chars_of(text));
    let ghost all = lines(text@);
    let mut i: usize = 0;
    assert(all.take(0) =~= Seq::<Seq<char>>::empty());
    assert(out@ =~= old(out)@ + indented(all.take(0)));
    while i < list.len()
        invariant
            all == pieces(list@),
            i <= list@.len(),
            out@ == old(out)@ + indented(all.take(i as int)),
        decreases list@.len() - i,
    {
        assert(all.take(i + 1).drop_last() =~= all.take(i as int));
        assert(all.take(i + 1).last() == list@[i as int]@);
        out.append("           ");
        out.append(&text_of(&list[i]));
        out.push('\n');
        assert(out@ =~= old(out)@ + indented(all.take(i + 1)));
        i += 1;
    }
    assert(all.take(i as int) =~= all);
}

fn push_human_event(out: &mut String, service_id: u16, e: &EitEvent)
    ensures
        final(out)@ == old(out)@ + human_event((service_id, e@)),
{
    out.append(&make_human_line(service_id, e));
    out.push('\n');
    push_indented(out, &e.text);
    assert(out@ =~= old(out)@ + human_event((service_id, e@)));
}

/// The events of a list for people.
pub fn events_human(events: &Vec<(u16, EitEvent)>) -> (out: String)
    ensures
        out@ == human_guide(event_views(events@)),
{
    let ghost all = event_views(events@);
    let mut out = String::new();
    let mut i: usize = 0;
    assert(all.take(0) =~= Seq::<ServiceEvent>::empty());
    while i < events.len()
        invariant
            all == event_views(events@),
            i <= events@.len(),
            out@ == human_guide(all.take(i as int)),
        decreases events@.len() - i,
    {
        assert(all.take(i + 1).drop_last() =~= all.take(i as int));
        assert(all.take(i + 1).last() == all[i as int]);
        push_human_event(&mut out, events[i].0, &events[i].1);
        i += 1;
    }
    assert(all.take(i as int) =~= all);
    out
}

// ---- JSON ------------------------------------------------------------------

/// What a character is written as within a JSON string.
pub open spec fn escaped_char(c: char) -> Seq<char> {
    if c == '\\' {
        seq!['\\', '\\']
    } else if c == '"' {
        seq!['\\', '"']
    } else if c == '\n' {
        seq!['\\', 'n']
    } else if c == '\r' {
        Seq::empty()
    } else {
        seq![c]
    }
}

/// A text as it is written within a JSON string.
pub open spec fn escaped(s: Seq<char>) -> Seq<char>
    decreases s.len(),
{
    if s.len() == 0 {
        Seq::empty()
    } else {
        escaped(s.drop_last()) + escaped_char(s.last())
    }
}

/// A text as it is written within a JSON string. Carriage returns are left out.
pub fn json_escape(s: &str) -> (out: String)
    ensures
        out@ == escaped(s@),
{
    let chars = chars_of(s);
    let mut out = String::new();
    let mut i: usize = 0;
    assert(s@.take(0) =~= Seq::<char>::empty());
    while i < chars.len()
        invariant
            chars@ == s@,
            i <= chars@.len(),
            out@ == escaped(s@.take(i as int)),
        decreases chars@.len() - i,
    {
        assert(s@.take(i + 1).drop_last() =~= s@.take(i as int));
        let ghost before = out@;
        let c = chars[i];
        if c == '\\' {
            out.push('\\');
            out.push('\\');
        } else if c == '"' {
            out.push('\\');
            out.push('"');
        } else if c == '\n' {
            out.push('\\');
            out.push('n');
        } else if c != '\r' {
            out.push(c);
        }
        assert(out@ =~= before + escaped_char(c));
        i += 1;
    }
    assert(s@.take(i as int) =~= s@);
    out
}

/// Kinds of content, each in quotes, with commas between them.
pub open spec fn genre_list(nibbles: Seq<(u8, u8)>) -> Seq<char>
    decreases nibbles.len(),
{
    if nibbles.len() == 0 {
        Seq::empty()
    } else {
        let before = genre_list(nibbles.drop_last());
        let comma = if nibbles.len() > 1 {
            seq![',']
        } else {
            Seq::empty()
        };
        before + comma + seq!['"'] + genre(nibbles.last().0) + seq!['"']
    }
}

/// An event as a JSON object.
pub open spec fn json_event(e: ServiceEvent) -> Seq<char> {
    "{\"service_id\":"@ + decimal(e.0 as nat) + ",\"event_id\":"@ + decimal(e.1.event_id as nat)
        + ",\"start\":\""@ + (match e.1.start {
        Some(d) => date_text(d),
        None => Seq::empty(),
    }) + "\",\"duration\":\""@ + (match e.1.duration {
        Some(d) => clock_text(d.hour, d.min, d.sec),
        None => Seq::empty(),
    }) + "\",\"running_status\":"@ + decimal(e.1.running_status as nat) + ",\"title\":\""@
        + escaped(e.1.title) + "\",\"text\":\""@ + escaped(e.1.text) + "\",\"genres\":["@
        + genre_list(e.1.content_nibbles) + "]}"@
}

/// The objects of events, with commas between them.
pub open spec fn json_events(list: Seq<ServiceEvent>) -> Seq<char>
    decreases list.len(),
{
    if list.len() == 0 {
        Seq::empty()
    } else {
        let before = json_events(list.drop_last());
        let comma = if list.len() > 1 {
            seq![',']
        } else {
            Seq::empty()
        };
        before + comma + json_event(list.last())
    }
}

/// The events of a list as a JSON array.
pub open spec fn json_guide(list: Seq<ServiceEvent>) -> Seq<char> {
    "["@ + json_events(list) + "]\n"@
}

fn push_genres(out: &mut String, nibbles: &Vec<(u8, u8)>)
    ensures
        final(out)@ == old(out)@ + genre_list(nibbles@),
{
    let mut i: usize = 0;
    assert(nibbles@.take(0) =~= Seq::<(u8, u8)>::empty());
    assert(out@ =~= old(out)@ + genre_list(nibbles@.take(0)));
    while i < nibbles.len()
        invariant
            i <= nibbles@.len(),
            out@ == old(out)@ + genre_list(nibbles@.take(i as int)),
        decreases nibbles@.len() - i,
    {
        assert(nibbles@.take(i + 1).drop_last() =~= nibbles@.take(i as int));
        if i > 0 {
            out.push(',');
        }
        let (l1, l2) = nibbles[i];
        out.push('"');
        out.append(content_genre(l1, l2));
        out.push('"');
        assert(out@ =~= old(out)@ + genre_list(nibbles@.take(i + 1)));
        i += 1;
    }
    assert(nibbles@.take(i as int) =~= nibbles@);
}

/// An event as a JSON object.
fn make_json_event(service_id: u16, e: &EitEvent) -> (out: String)
    ensures
        out@ == json_event((service_id, e@)),
{
    let mut out = "{\"service_id\":".to_owned();
    out.append(&decimal_text(service_id as u128));
    out.append(",\"event_id\":");
    out.append(&decimal_text(e.event_id as u128));
    out.append(",\"start\":\"");
    out.append(
        &match &e.start {
            Some(d) => d.text(),
            None => String::new(),
        },
    );
    out.append("\",\"duration\":\"");
    out.append(
        &match &e.duration {
            Some(d) => d.text(),
            None => String::new(),
        },
    );
    out.append("\",\"running_status\":");
    out.append(&decimal_text(e.running_status as u128));
    out.append(",\"title\":\"");
    out.append(&json_escape(&e.title));
    out.append("\",\"text\":\"");
    out.append(&json_escape(&e.text));
    out.append("\",\"genres\":[");
    push_genres(&mut out, &e.content_nibbles);
    out.append("]}");
    out
}

/// The events of a list as a JSON array.
pub fn events_json(events: &Vec<(u16, EitEvent)>) -> (out: String)
    ensures
        out@ == json_guide(event_views(events@)),
{
    let ghost all = event_views(events@);
    let mut out = "[".to_owned();
    let ghost head = out@;
    let mut i: usize = 0;
    assert(all.take(0) =~= Seq::<ServiceEvent>::empty());
    assert(out@ =~= head + json_events(all.take(0)));
    while i < events.len()
        invariant
            all == event_views(events@),
            i <= events@.len(),
            out@ == head + json_events(all.take(i as int)),
        decreases events@.len() - i,
    {
        assert(all.take(i + 1).drop_last() =~= all.take(i as int));
        assert(all.take(i + 1).last() == all[i as int]);
        if i > 0 {
            out.push(',');
        }
        out.append(&make_json_event(events[i].0, &events[i].1));
        assert(out@ =~= head + json_events(all.take(i + 1)));
        i += 1;
    }
    assert(all.take(i as int) =~= all);
    out.append("]\n");
    out
}

// ---- Laws ------------------------------------------------------------------

/// The text that a JSON string of this module stands for.
pub open spec fn unescaped(s: Seq<char>) -> Seq<char>
    decreases s.len(),
{
    if s.len() == 0 {
        Seq::empty()
    } else if s[0] == '\\' && s.len() >= 2 {
        seq![
            if s[1] == 'n' {
                '\n'
            } else {
                s[1]
            },
        ] + unescaped(s.skip(2))
    } else {
        seq![s[0]] + unescaped(s.skip(1))
    }
}

/// A text without its carriage returns.
pub open spec fn without_returns(s: Seq<char>) -> Seq<char>
    decreases s.len(),
{
    if s.len() == 0 {
        Seq::empty()
    } else if s[0] == '\r' {
        without_returns(s.skip(1))
    } else {
        seq![s[0]] + without_returns(s.skip(1))
    }
}

proof fn lemma_escaped_front(s: Seq<char>)
    requires
        s.len() > 0,
    ensures
        escaped(s) == escaped_char(s[0]) + escaped(s.skip(1)),
    decreases s.len(),
{
    if s.len() == 1 {
        assert(s.drop_last() =~= Seq::<char>::empty());
        assert(s.skip(1) =~= Seq::<char>::empty());
        assert(escaped(s) =~= escaped_char(s[0]) + escaped(s.skip(1)));
    } else {
        let front = s.drop_last();
        lemma_escaped_front(front);
        assert(front.skip(1) =~= s.skip(1).drop_last());
        assert(escaped(s) =~= escaped_char(s[0]) + escaped(s.skip(1)));
    }
}

/// What was written within a JSON string reads back as it was, but for carriage
/// returns.
pub proof fn law_escaped_text_reads_back(s: Seq<char>)
    ensures
        unescaped(escaped(s)) == without_returns(s),
    decreases s.len(),
{
    if s.len() > 0 {
        lemma_escaped_front(s);
        law_escaped_text_reads_back(s.skip(1));
        let rest = escaped(s.skip(1));
        let all = escaped(s);
        if s[0] == '\\' || s[0] == '"' || s[0] == '\n' {
            assert(all.skip(2) =~= rest);
        } else if s[0] == '\r' {
            assert(all =~= rest);
        } else {
            assert(all.skip(1) =~= rest);
        }
    }
}

/// Within a JSON string there is no line break.
pub proof fn law_escaped_text_is_one_line(s: Seq<char>)
    ensures
        !escaped(s).contains('\n'),
        !escaped(s).contains('\r'),
    decreases s.len(),
{
    if s.len() > 0 {
        law_escaped_text_is_one_line(s.drop_last());
        let front = escaped(s.drop_last());
        let tail = escaped_char(s.last());
        assert forall|i: int| 0 <= i < escaped(s).len() implies escaped(s)[i] != '\n' && escaped(
            s,
        )[i] != '\r' by {
            if i < front.len() {
                assert(front.contains(front[i]));
            } else {
                assert(escaped(s)[i] == tail[i - front.len()]);
            }
        }
    }
}

} // verus!
