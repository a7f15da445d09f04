//! How a programme guide is written, for people and as JSON.

use crate::eit::{clock_text, content_genre, date_text, genre, DateTime, EitEvent, HmsDuration};
use crate::epg::{event_views, ServiceEvent};
use crate::guide_text::{
    escaped, escaped_char, events_human, events_json, genre_list, human_event, human_guide,
    human_line, indented, json_escape, json_event, json_events, json_guide, running_text,
};
use crate::laws::texts::law_padding;
use crate::text::{decimal, lines, padded};
use vstd::prelude::*;

verus! {

// ---- Times and kinds of content --------------------------------------------

/// A number with zeros before it up to a width.
pub open spec fn at_least(n: nat, width: int) -> Seq<char> {
    Seq::new(
        (if decimal(n).len() < width {
            width - decimal(n).len()
        } else {
            0
        }) as nat,
        |i: int| '0',
    ) + decimal(n)
}

/// Times are written with colons, days with hyphens, and every number with at
/// least two digits, years with four.
pub proof fn law_times_are_written(d: DateTime, t: HmsDuration)
    ensures
        clock_text(t.hour, t.min, t.sec) == at_least(t.hour as nat, 2) + ":"@ + at_least(
            t.min as nat,
            2,
        ) + ":"@ + at_least(t.sec as nat, 2),
        date_text(d) == at_least(d.year as nat, 4) + "-"@ + at_least(d.month as nat, 2) + "-"@
            + at_least(d.day as nat, 2) + " "@ + (at_least(d.hour as nat, 2) + ":"@ + at_least(
            d.min as nat,
            2,
        ) + ":"@ + at_least(d.sec as nat, 2)),
{
    reveal_strlit(":");
    reveal_strlit("-");
    reveal_strlit(" ");
    assert(":"@ =~= seq![':']);
    assert("-"@ =~= seq!['-']);
    assert(" "@ =~= seq![' ']);
    lemma_at_least(t.hour as nat, 2);
    lemma_at_least(t.min as nat, 2);
    lemma_at_least(t.sec as nat, 2);
    lemma_at_least(d.year as nat, 4);
    lemma_at_least(d.month as nat, 2);
    lemma_at_least(d.day as nat, 2);
    lemma_at_least(d.hour as nat, 2);
    lemma_at_least(d.min as nat, 2);
    lemma_at_least(d.sec as nat, 2);
}

proof fn lemma_at_least(n: nat, width: nat)
    ensures
        padded(decimal(n), width, '0') == at_least(n, width as int),
{
    law_padding(decimal(n), width, '0');
    assert(padded(decimal(n), width, '0') =~= at_least(n, width as int));
}

/// The kinds of content by the first half byte; the second makes no difference.
pub proof fn law_kinds_of_content(l1: u8, l2: u8, name: &'static str)
    requires
        call_ensures(content_genre, (l1, l2), name),
    ensures
        name@ == genre(l1),
        l1 == 0 ==> name@ == "ニュース/報道"@,
        l1 == 1 ==> name@ == "スポーツ"@,
        l1 == 2 ==> name@ == "情報/ワイドショー"@,
        l1 == 3 ==> name@ == "ドラマ"@,
        l1 == 4 ==> name@ == "音楽"@,
        l1 == 5 ==> name@ == "バラエティ"@,
        l1 == 6 ==> name@ == "映画"@,
        l1 == 7 ==> name@ == "アニメ/特撮"@,
        l1 == 8 ==> name@ == "ドキュメンタリー/教養"@,
        l1 == 9 ==> name@ == "劇場/公演"@,
        l1 == 10 ==> name@ == "趣味/教育"@,
        l1 == 11 ==> name@ == "福祉"@,
        l1 == 15 ==> name@ == "その他"@,
        l1 == 12 || l1 == 13 || l1 == 14 || l1 > 15 ==> name@ == "不明"@,
{
}

// ---- For people ------------------------------------------------------------

/// Texts one behind the other.
pub open spec fn strung(parts: Seq<Seq<char>>) -> Seq<char>
    decreases parts.len(),
{
    if parts.len() == 0 {
        Seq::empty()
    } else {
        strung(parts.drop_last()) + parts.last()
    }
}

/// What is said of the running of an event, with a space before it.
pub open spec fn status_note(status: u8) -> Seq<char> {
    match status {
        1 => " [not running]"@,
        2 => " [starts soon]"@,
        3 => " [pausing]"@,
        4 => " [running]"@,
        _ => Seq::empty(),
    }
}

/// The parts of the line of an event.
pub open spec fn line_parts(e: ServiceEvent) -> Seq<Seq<char>> {
    seq![
        "  svc "@,
        decimal(e.0 as nat),
        " ["@,
        Seq::new(
            (if decimal(e.1.event_id as nat).len() < 5 {
                5 - decimal(e.1.event_id as nat).len()
            } else {
                0
            }) as nat,
            |i: int| ' ',
        ) + decimal(e.1.event_id as nat),
        "]"@,
        status_note(e.1.running_status),
        "  "@,
        match e.1.start {
            Some(d) => date_text(d),
            None => "??:??:??"@,
        },
        "  +"@,
        match e.1.duration {
            Some(d) => clock_text(d.hour, d.min, d.sec),
            None => "??:??:??"@,
        },
        "  "@,
        e.1.title,
        if e.1.content_nibbles.len() > 0 {
            "  ("@ + genre(e.1.content_nibbles[0].0) + ")"@
        } else {
            Seq::empty()
        },
        "\n"@,
    ]
}

/// The lines of the text of an event.
pub open spec fn text_parts(e: ServiceEvent) -> Seq<Seq<char>> {
    lines(e.1.text).map_values(|l: Seq<char>| "           "@ + l + "\n"@)
}

#[verifier::rlimit(60)]
proof fn lemma_line(e: ServiceEvent)
    ensures
        strung(line_parts(e)) == human_line(e) + "\n"@,
{
    let p = line_parts(e);
    let a = p.take(4);
    let b = p.take(8);
    let c = p.take(12);
    reveal_with_fuel(strung, 5);
    law_padding(decimal(e.1.event_id as nat), 5, ' ');
    reveal_strlit("");
    assert(""@ =~= Seq::<char>::empty());
    assert(running_text(e.1.running_status) =~= status_note(e.1.running_status));
    assert(p.take(14) =~= p);
    assert(p.drop_last() =~= p.take(13));
    assert(p.take(13).drop_last() =~= c);
    assert(c.drop_last() =~= p.take(11));
    assert(p.take(11).drop_last() =~= p.take(10));
    assert(p.take(10).drop_last() =~= p.take(9));
    assert(p.take(9).drop_last() =~= b);
    assert(b.drop_last() =~= p.take(7));
    assert(p.take(7).drop_last() =~= p.take(6));
    assert(p.take(6).drop_last() =~= p.take(5));
    assert(p.take(5).drop_last() =~= a);
    assert(a.drop_last() =~= p.take(3));
    assert(p.take(3).drop_last() =~= p.take(2));
    assert(p.take(2).drop_last() =~= p.take(1));
    assert(p.take(1).drop_last() =~= Seq::<Seq<char>>::empty());
    let s1 = strung(p.take(1));
    assert(s1 =~= p[0]);
    assert(strung(p.take(2)) == s1 + p[1]);
    assert(strung(p.take(3)) == s1 + p[1] + p[2]);
    assert(strung(a) == s1 + p[1] + p[2] + p[3]);
    assert(strung(p.take(5)) == strung(a) + p[4]);
    assert(strung(p.take(6)) == strung(a) + p[4] + p[5]);
    assert(strung(p.take(7)) == strung(a) + p[4] + p[5] + p[6]);
    assert(strung(b) == strung(p.take(7)) + p[7]);
    assert(strung(p.take(9)) == strung(b) + p[8]);
    assert(strung(p.take(10)) == strung(p.take(9)) + p[9]);
    assert(strung(p.take(11)) == strung(p.take(10)) + p[10]);
    assert(strung(c) == strung(p.take(11)) + p[11]);
    assert(strung(p.take(13)) == strung(c) + p[12]);
    assert(strung(p) == strung(p.take(13)) + p[13]);
    assert(strung(p.take(13)) =~= human_line(e));
}

proof fn lemma_indented(list: Seq<Seq<char>>)
    ensures
        indented(list) == strung(list.map_values(|l: Seq<char>| "           "@ + l + "\n"@)),
    decreases list.len(),
{
    let made = list.map_values(|l: Seq<char>| "           "@ + l + "\n"@);
    if list.len() > 0 {
        lemma_indented(list.drop_last());
        assert(made.drop_last() =~= list.drop_last().map_values(
            |l: Seq<char>| "           "@ + l + "\n"@,
        ));
        reveal_strlit("\n");
        assert("\n"@ =~= seq!['\n']);
        assert(indented(list) =~= strung(made));
    }
}

/// The guide for people: for every event, in order, a line with its service, its
/// number, its status, its times, its name and its first kind of content, and
/// below it the lines of its text, further in.
pub proof fn law_guide_for_people(list: Seq<ServiceEvent>, e: ServiceEvent)
    ensures
        human_guide(Seq::empty()) == Seq::<char>::empty(),
        human_guide(list.push(e)) == human_guide(list) + (strung(line_parts(e)) + strung(
            text_parts(e),
        )),
{
    assert(list.push(e).drop_last() =~= list);
    lemma_line(e);
    lemma_indented(lines(e.1.text));
    reveal_strlit("\n");
    assert("\n"@ =~= seq!['\n']);
    assert(human_event(e) =~= strung(line_parts(e)) + strung(text_parts(e)));
}

// ---- As JSON ---------------------------------------------------------------

/// Texts with commas between them.
pub open spec fn listed_with_commas(parts: Seq<Seq<char>>) -> Seq<char>
    decreases parts.len(),
{
    if parts.len() == 0 {
        Seq::empty()
    } else if parts.len() == 1 {
        parts[0]
    } else {
        listed_with_commas(parts.drop_last()) + ","@ + parts.last()
    }
}

/// A text between quotes.
pub open spec fn quoted(s: Seq<char>) -> Seq<char> {
    "\""@ + s + "\""@
}

/// A key and what is written for its value.
pub open spec fn field(key: Seq<char>, value: Seq<char>) -> Seq<char> {
    quoted(key) + ":"@ + value
}

/// The fields of the object of an event.
pub open spec fn fields(e: ServiceEvent) -> Seq<Seq<char>> {
    seq![
        field("service_id"@, decimal(e.0 as nat)),
        field("event_id"@, decimal(e.1.event_id as nat)),
        field(
            "start"@,
            quoted(
                match e.1.start {
                    Some(d) => date_text(d),
                    None => Seq::empty(),
                },
            ),
        ),
        field(
            "duration"@,
            quoted(
                match e.1.duration {
                    Some(d) => clock_text(d.hour, d.min, d.sec),
                    None => Seq::empty(),
                },
            ),
        ),
        field("running_status"@, decimal(e.1.running_status as nat)),
        field("title"@, quoted(escaped(e.1.title))),
        field("text"@, quoted(escaped(e.1.text))),
        field(
            "genres"@,
            "["@ + listed_with_commas(
                e.1.content_nibbles.map_values(|n: (u8, u8)| quoted(genre(n.0))),
            ) + "]"@,
        ),
    ]
}

proof fn lemma_commas_push(parts: Seq<Seq<char>>, more: Seq<char>)
    ensures
        listed_with_commas(parts.push(more)) == (if parts.len() == 0 {
            more
        } else {
            listed_with_commas(parts) + ","@ + more
        }),
{
    assert(parts.push(more).drop_last() =~= parts);
}

proof fn lemma_genres(nibbles: Seq<(u8, u8)>)
    ensures
        genre_list(nibbles) == listed_with_commas(
            nibbles.map_values(|n: (u8, u8)| quoted(genre(n.0))),
        ),
    decreases nibbles.len(),
{
    let made = nibbles.map_values(|n: (u8, u8)| quoted(genre(n.0)));
    reveal_strlit(",");
    reveal_strlit("\"");
    assert(","@ =~= seq![',']);
    assert("\""@ =~= seq!['"']);
    if nibbles.len() > 0 {
        let front = nibbles.drop_last();
        lemma_genres(front);
        assert(made.drop_last() =~= front.map_values(|n: (u8, u8)| quoted(genre(n.0))));
        assert(made.last() == quoted(genre(nibbles.last().0)));
        assert(genre_list(nibbles) =~= listed_with_commas(made));
    }
}

#[verifier::rlimit(60)]
proof fn lemma_keys()
    ensures
        "{\"service_id\":"@ == "{"@ + (quoted("service_id"@) + ":"@),
        ",\"event_id\":"@ == ","@ + (quoted("event_id"@) + ":"@),
        ",\"start\":\""@ == ","@ + (quoted("start"@) + ":"@) + "\""@,
        "\",\"duration\":\""@ == "\""@ + ","@ + (quoted("duration"@) + ":"@) + "\""@,
        "\",\"running_status\":"@ == "\""@ + ","@ + (quoted("running_status"@) + ":"@),
        ",\"title\":\""@ == ","@ + (quoted("title"@) + ":"@) + "\""@,
        "\",\"text\":\""@ == "\""@ + ","@ + (quoted("text"@) + ":"@) + "\""@,
        "\",\"genres\":["@ == "\""@ + ","@ + (quoted("genres"@) + ":"@) + "["@,
        "]}"@ == "]"@ + "}"@,
{
    reveal_strlit("{\"service_id\":");
    reveal_strlit(",\"event_id\":");
    reveal_strlit(",\"start\":\"");
    reveal_strlit("\",\"duration\":\"");
    reveal_strlit("\",\"running_status\":");
    reveal_strlit(",\"title\":\"");
    reveal_strlit("\",\"text\":\"");
    reveal_strlit("\",\"genres\":[");
    reveal_strlit("]}");
    reveal_strlit("service_id");
    reveal_strlit("event_id");
    reveal_strlit("start");
    reveal_strlit("duration");
    reveal_strlit("running_status");
    reveal_strlit("title");
    reveal_strlit("text");
    reveal_strlit("genres");
    reveal_strlit("\"");
    reveal_strlit(":");
    reveal_strlit(",");
    reveal_strlit("{");
    reveal_strlit("}");
    reveal_strlit("[");
    reveal_strlit("]");
    assert("{\"service_id\":"@ =~= "{"@ + (quoted("service_id"@) + ":"@));
    assert(",\"event_id\":"@ =~= ","@ + (quoted("event_id"@) + ":"@));
    assert(",\"start\":\""@ =~= ","@ + (quoted("start"@) + ":"@) + "\""@);
    assert("\",\"duration\":\""@ =~= "\""@ + ","@ + (quoted("duration"@) + ":"@) + "\""@);
    assert("\",\"running_status\":"@ =~= "\""@ + ","@ + (quoted("running_status"@) + ":"@));
    assert(",\"title\":\""@ =~= ","@ + (quoted("title"@) + ":"@) + "\""@);
    assert("\",\"text\":\""@ =~= "\""@ + ","@ + (quoted("text"@) + ":"@) + "\""@);
    assert("\",\"genres\":["@ =~= "\""@ + ","@ + (quoted("genres"@) + ":"@) + "["@);
    assert("]}"@ =~= "]"@ + "}"@);
}

/// A text, a comma, and a field behind it.
spec fn and_field(p: Seq<char>, key: Seq<char>, value: Seq<char>) -> Seq<char> {
    p + ","@ + field(key, value)
}

proof fn lemma_number_field(p: Seq<char>, lit: Seq<char>, key: Seq<char>, v: Seq<char>)
    requires
        lit == ","@ + (quoted(key) + ":"@),
    ensures
        p + lit + v == and_field(p, key, v),
{
    assert(p + lit + v =~= and_field(p, key, v));
}

proof fn lemma_first_text(p: Seq<char>, lit: Seq<char>, key: Seq<char>, v: Seq<char>)
    requires
        lit == ","@ + (quoted(key) + ":"@) + "\""@,
    ensures
        p + lit + v + "\""@ == and_field(p, key, quoted(v)),
{
    assert(p + lit + v + "\""@ =~= and_field(p, key, quoted(v)));
}

proof fn lemma_next_text(q: Seq<char>, lit: Seq<char>, key: Seq<char>, v: Seq<char>)
    requires
        lit == "\""@ + ","@ + (quoted(key) + ":"@) + "\""@,
    ensures
        q + lit + v + "\""@ == and_field(q + "\""@, key, quoted(v)),
{
    assert(q + lit + v + "\""@ =~= and_field(q + "\""@, key, quoted(v)));
}

proof fn lemma_next_number(q: Seq<char>, lit: Seq<char>, key: Seq<char>, v: Seq<char>)
    requires
        lit == "\""@ + ","@ + (quoted(key) + ":"@),
    ensures
        q + lit + v == and_field(q + "\""@, key, v),
{
    assert(q + lit + v =~= and_field(q + "\""@, key, v));
}

proof fn lemma_last_list(q: Seq<char>, lit: Seq<char>, key: Seq<char>, v: Seq<char>, end: Seq<char>)
    requires
        lit == "\""@ + ","@ + (quoted(key) + ":"@) + "["@,
        end == "]"@ + "}"@,
    ensures
        q + lit + v + end == and_field(q + "\""@, key, "["@ + v + "]"@) + "}"@,
{
    assert(q + lit + v + end =~= and_field(q + "\""@, key, "["@ + v + "]"@) + "}"@);
}

proof fn lemma_brace(x: Seq<char>, y: Seq<char>)
    ensures
        "{"@ + (x + ","@ + y) == "{"@ + x + ","@ + y,
{
    assert("{"@ + (x + ","@ + y) =~= "{"@ + x + ","@ + y);
}

#[verifier::rlimit(60)]
proof fn lemma_fields(f: Seq<Seq<char>>)
    requires
        f.len() == 8,
    ensures
        "{"@ + listed_with_commas(f) == "{"@ + f[0] + ","@ + f[1] + ","@ + f[2] + ","@ + f[3]
            + ","@ + f[4] + ","@ + f[5] + ","@ + f[6] + ","@ + f[7],
{
    let none = Seq::<Seq<char>>::empty();
    let f1 = none.push(f[0]);
    let f2 = f1.push(f[1]);
    let f3 = f2.push(f[2]);
    let f4 = f3.push(f[3]);
    let f5 = f4.push(f[4]);
    let f6 = f5.push(f[5]);
    let f7 = f6.push(f[6]);
    let f8 = f7.push(f[7]);
    assert(f8 =~= f);
    lemma_commas_push(none, f[0]);
    lemma_commas_push(f1, f[1]);
    lemma_commas_push(f2, f[2]);
    lemma_commas_push(f3, f[3]);
    lemma_commas_push(f4, f[4]);
    lemma_commas_push(f5, f[5]);
    lemma_commas_push(f6, f[6]);
    lemma_commas_push(f7, f[7]);
    lemma_brace(listed_with_commas(f1), f[1]);
    lemma_brace(listed_with_commas(f2), f[2]);
    lemma_brace(listed_with_commas(f3), f[3]);
    lemma_brace(listed_with_commas(f4), f[4]);
    lemma_brace(listed_with_commas(f5), f[5]);
    lemma_brace(listed_with_commas(f6), f[6]);
    lemma_brace(listed_with_commas(f7), f[7]);
}

#[verifier::rlimit(60)]
proof fn lemma_object(e: ServiceEvent)
    ensures
        json_event(e) == "{"@ + listed_with_commas(fields(e)) + "}"@,
{
    let f = fields(e);
    lemma_keys();
    lemma_genres(e.1.content_nibbles);
    lemma_fields(f);
    let start = match e.1.start {
        Some(d) => date_text(d),
        None => Seq::empty(),
    };
    let duration = match e.1.duration {
        Some(d) => clock_text(d.hour, d.min, d.sec),
        None => Seq::empty(),
    };
    let p1 = "{\"service_id\":"@ + decimal(e.0 as nat);
    assert(p1 =~= "{"@ + f[0]);
    let p2 = p1 + ",\"event_id\":"@ + decimal(e.1.event_id as nat);
    lemma_number_field(p1, ",\"event_id\":"@, "event_id"@, decimal(e.1.event_id as nat));
    let q3 = p2 + ",\"start\":\""@ + start;
    lemma_first_text(p2, ",\"start\":\""@, "start"@, start);
    let q4 = q3 + "\",\"duration\":\""@ + duration;
    lemma_next_text(q3, "\",\"duration\":\""@, "duration"@, duration);
    let p5 = q4 + "\",\"running_status\":"@ + decimal(e.1.running_status as nat);
    lemma_next_number(
        q4,
        "\",\"running_status\":"@,
        "running_status"@,
        decimal(e.1.running_status as nat),
    );
    let q6 = p5 + ",\"title\":\""@ + escaped(e.1.title);
    lemma_first_text(p5, ",\"title\":\""@, "title"@, escaped(e.1.title));
    let q7 = q6 + "\",\"text\":\""@ + escaped(e.1.text);
    lemma_next_text(q6, "\",\"text\":\""@, "text"@, escaped(e.1.text));
    lemma_last_list(
        q7,
        "\",\"genres\":["@,
        "genres"@,
        genre_list(e.1.content_nibbles),
        "]}"@,
    );
}

/// The guide as JSON: an array of the objects of the events, in order, and a line
/// feed. Each object has the service, the number, the times, the status, the name,
/// the text and the kinds of content of its event.
pub proof fn law_guide_as_json(list: Seq<ServiceEvent>)
    ensures
        json_guide(list) == "["@ + listed_with_commas(
            list.map_values(|e: ServiceEvent| "{"@ + listed_with_commas(fields(e)) + "}"@),
        ) + "]\n"@,
{
    lemma_objects(list);
}

proof fn lemma_objects(list: Seq<ServiceEvent>)
    ensures
        json_events(list) == listed_with_commas(
            list.map_values(|e: ServiceEvent| "{"@ + listed_with_commas(fields(e)) + "}"@),
        ),
    decreases list.len(),
{
    let made = list.map_values(|e: ServiceEvent| "{"@ + listed_with_commas(fields(e)) + "}"@);
    reveal_strlit(",");
    assert(","@ =~= seq![',']);
    if list.len() > 0 {
        let front = list.drop_last();
        lemma_objects(front);
        lemma_object(list.last());
        assert(made.drop_last() =~= front.map_values(
            |e: ServiceEvent| "{"@ + listed_with_commas(fields(e)) + "}"@,
        ));
        assert(json_events(list) =~= listed_with_commas(made));
    }
}

/// Within a JSON string every character stands for itself, but for four: a
/// backslash and a quote have a backslash before them, a line feed is a backslash
/// and an `n`, and a carriage return is nothing.
pub proof fn law_escaping(a: Seq<char>, b: Seq<char>, c: char)
    ensures
        escaped(Seq::empty()) == Seq::<char>::empty(),
        escaped(a + b) == escaped(a) + escaped(b),
        escaped(seq![c]) == (if c == '\\' || c == '"' {
            seq!['\\', c]
        } else if c == '\n' {
            seq!['\\', 'n']
        } else if c == '\r' {
            Seq::empty()
        } else {
            seq![c]
        }),
    decreases b.len(),
{
    if b.len() == 0 {
        assert(a + b =~= a);
        assert(escaped(a) + escaped(b) =~= escaped(a));
    } else {
        law_escaping(a, b.drop_last(), c);
        assert((a + b).drop_last() =~= a + b.drop_last());
        assert(escaped(a + b) =~= escaped(a) + escaped(b));
    }
    assert(seq![c].drop_last() =~= Seq::<char>::empty());
    assert(escaped(seq![c].drop_last()) =~= Seq::<char>::empty());
    assert(escaped(seq![c]) =~= escaped_char(c));
}

/// What is written of a guide is these texts.
pub proof fn law_written_guides(
    events: &Vec<(u16, EitEvent)>,
    human: String,
    json: String,
    s: &str,
    inner: String,
)
    requires
        call_ensures(events_human, (events,), human),
        call_ensures(events_json, (events,), json),
        call_ensures(json_escape, (s,), inner),
    ensures
        human@ == human_guide(event_views(events@)),
        json@ == json_guide(event_views(events@)),
        inner@ == escaped(s@),
{
}

} // verus!
