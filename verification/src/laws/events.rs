//! What is read of the events and the sections of an EIT that were written.

use crate::arib_b24::{builtin_tables, decoded};
use crate::eit::{
    counted_text, datetime, day_of_mjd, duration, eit, event, event_loop, event_text,
    is_event_entry, law_every_whole_event_is_reported, parse_event_descriptors, with_descriptor,
    DateTime, EitView, EventTextView, EventView, HmsDuration,
};
use crate::error::ErrorView;
use crate::laws::sections::{bodies, lemma_bodies, lemma_section, lemma_sized, lemma_two};
use crate::laws::wire::{all_whole, counted, is_whole, section, sized, two, two_digits, written};
use crate::si_tables::{crc_ok, descriptors, joined, section_body, total_len, Descriptor};
use crate::text::{char_width, utf8_len};
use vstd::prelude::*;
use vstd::utf8::encode_utf8;

verus! {

// ---- Times -----------------------------------------------------------------

/// A start is read as it was written: the day of its date, and the two digits of
/// each of hour, minute and second.
pub proof fn law_starts_are_read(mjd: u16, hour: u8, min: u8, sec: u8, more: Seq<u8>)
    requires
        mjd < 0xffff,
        hour < 100,
        min < 100,
        sec < 100,
    ensures
        datetime(
            two(mjd) + seq![two_digits(hour as int), two_digits(min as int), two_digits(sec as int)]
                + more,
        ) == Some(
            DateTime {
                year: day_of_mjd(mjd as int).year as u16,
                month: day_of_mjd(mjd as int).month as u8,
                day: day_of_mjd(mjd as int).day as u8,
                hour,
                min,
                sec,
            },
        ),
{
    lemma_two(mjd);
    let b = two(mjd) + seq![
        two_digits(hour as int),
        two_digits(min as int),
        two_digits(sec as int),
    ] + more;
    assert(b[0] == two(mjd)[0] && b[1] == two(mjd)[1]);
    assert(b[2] == two_digits(hour as int) && b[3] == two_digits(min as int) && b[4] == two_digits(
        sec as int,
    ));
    lemma_two_digits(hour as int);
    lemma_two_digits(min as int);
    lemma_two_digits(sec as int);
}

/// A quotient without its fraction.
pub open spec fn whole_part(a: int, b: int) -> int {
    if a < 0 {
        -((-a) / b)
    } else {
        a / b
    }
}

/// Before 1 March 1900 the formula of EN 300 468, annex C, is followed as it
/// stands: the years from 1900 are those of 365.25 days, the months those of
/// 30.6001, and January and February belong to the year before.
pub proof fn law_early_dates(mjd: int)
    requires
        0 <= mjd < 15079,
    ensures
        ({
            let years = whole_part(100 * mjd - 1507820, 36525);
            let days = mjd - 14956 - whole_part(36525 * years, 100);
            let months = whole_part(10000 * days, 306001);
            let d = day_of_mjd(mjd);
            &&& d.day == days - whole_part(306001 * months, 10000)
            &&& months == 14 || months == 15 ==> d.year == 1901 + years && d.month == months - 13
            &&& months != 14 && months != 15 ==> d.year == 1900 + years && d.month == months - 1
        }),
{
}

proof fn lemma_two_digits(n: int)
    requires
        0 <= n < 100,
    ensures
        two_digits(n) / 16 == n / 10,
        two_digits(n) % 16 == n % 10,
{
    assert((n / 10 * 16 + n % 10) / 16 == n / 10);
    assert((n / 10 * 16 + n % 10) % 16 == n % 10);
}

/// Whether a byte holds two decimal digits.
pub open spec fn holds_digits(b: u8) -> bool {
    b / 16 <= 9 && b % 16 <= 9
}

/// There is no start exactly where there are less than five bytes, the date is all
/// ones, or a digit is none.
pub proof fn law_starts_that_are_none(b: Seq<u8>)
    ensures
        datetime(b) is None <==> b.len() < 5 || b[0] == 0xff && b[1] == 0xff || !holds_digits(b[2])
            || !holds_digits(b[3]) || !holds_digits(b[4]),
{
}

/// A duration is read as it was written, and there is none exactly where there
/// are less than three bytes or a digit is none.
pub proof fn law_durations_are_read(hour: u8, min: u8, sec: u8, more: Seq<u8>, b: Seq<u8>)
    requires
        hour < 100,
        min < 100,
        sec < 100,
    ensures
        duration(
            seq![two_digits(hour as int), two_digits(min as int), two_digits(sec as int)] + more,
        ) == Some(HmsDuration { hour, min, sec }),
        duration(b) is None <==> b.len() < 3 || !holds_digits(b[0]) || !holds_digits(b[1])
            || !holds_digits(b[2]),
{
    let d = seq![two_digits(hour as int), two_digits(min as int), two_digits(sec as int)] + more;
    assert(d[0] == two_digits(hour as int) && d[1] == two_digits(min as int) && d[2] == two_digits(
        sec as int,
    ));
    lemma_two_digits(hour as int);
    lemma_two_digits(min as int);
    lemma_two_digits(sec as int);
}

// ---- Descriptors -----------------------------------------------------------

/// What a list of descriptors says of an event.
pub open spec fn told(parts: Seq<Seq<u8>>) -> EventTextView {
    event_text(descriptors(joined(parts)))
}

/// What is read of a descriptor loop is what its descriptors tell.
pub proof fn law_loops_are_read(data: &[u8], out: (String, String, Vec<(u8, u8)>))
    requires
        call_ensures(parse_event_descriptors, (data,), out),
    ensures
        out.0@ == event_text(descriptors(data@)).title,
        out.1@ == event_text(descriptors(data@)).text,
        out.2@ == event_text(descriptors(data@)).nibbles,
{
}

proof fn lemma_told(parts: Seq<Seq<u8>>, part: Seq<u8>)
    requires
        all_whole(parts),
        is_whole(part),
    ensures
        told(parts.push(part)) == with_descriptor(
            told(parts),
            Descriptor { tag: part[0], body: part.skip(2) },
        ),
{
    let all = parts.push(part);
    assert forall|i: int| 0 <= i < all.len() implies is_whole(#[trigger] all[i]) by {
        if i < parts.len() {
            assert(all[i] == parts[i]);
        }
    }
    lemma_bodies(parts);
    lemma_bodies(all);
    assert(bodies(all).drop_last() =~= bodies(parts));
    assert(bodies(all).last() == Descriptor { tag: part[0], body: part.skip(2) });
}

/// No descriptor, nothing told.
pub proof fn law_nothing_told()
    ensures
        told(Seq::empty()) == (EventTextView {
            title: Seq::empty(),
            text: Seq::empty(),
            nibbles: Seq::empty(),
        }),
{
    lemma_bodies(Seq::empty());
    assert(bodies(Seq::empty()) =~= Seq::<Descriptor>::empty());
}

/// Text of the programme guide.
pub open spec fn arib_text(bytes: Seq<u8>) -> Seq<char> {
    decoded(builtin_tables(), bytes)
}

proof fn lemma_counted(front: Seq<u8>, bytes: Seq<u8>, more: Seq<u8>)
    requires
        bytes.len() <= 255,
    ensures
        counted_text(front + counted(bytes) + more, front.len() as int) == Some(arib_text(bytes)),
{
    let body = front + counted(bytes) + more;
    let at = front.len() as int;
    assert(body[at] == bytes.len());
    assert(body.subrange(at + 1, at + 1 + bytes.len()) =~= bytes);
}

proof fn lemma_short_body(language: Seq<u8>, name: Seq<u8>, text: Seq<u8>, more: Seq<u8>)
    requires
        language.len() == 3,
        name.len() <= 255,
        text.len() <= 255,
    ensures
        crate::eit::short_event(language + counted(name) + counted(text) + more) == Some(
            (arib_text(name), arib_text(text)),
        ),
{
    let body = language + counted(name) + counted(text) + more;
    lemma_counted(language, name, counted(text) + more);
    assert(language + counted(name) + (counted(text) + more) =~= body);
    assert(body[3] == name.len());
    lemma_counted(language + counted(name), text, more);
}

/// A short event descriptor tells a name and a text: the fields behind its
/// language. Each of them counts where it is longer, in bytes of UTF-8, than what
/// was told before; nothing else changes.
#[verifier::rlimit(40)]
pub proof fn law_short_event_is_told(
    parts: Seq<Seq<u8>>,
    language: Seq<u8>,
    name: Seq<u8>,
    text: Seq<u8>,
    more: Seq<u8>,
)
    requires
        all_whole(parts),
        language.len() == 3,
        name.len() + text.len() + more.len() + 5 <= 255,
    ensures
        ({
            let before = told(parts);
            let after = told(
                parts.push(written(0x4d, language + counted(name) + counted(text) + more)),
            );
            let new_name = arib_text(name);
            let new_text = arib_text(text);
            &&& after.title == (if encode_utf8(new_name).len() > encode_utf8(before.title).len() {
                new_name
            } else {
                before.title
            })
            &&& after.text == (if encode_utf8(new_text).len() > encode_utf8(before.text).len() {
                new_text
            } else {
                before.text
            })
            &&& after.nibbles == before.nibbles
        }),
{
    let body = language + counted(name) + counted(text) + more;
    let part = written(0x4d, body);
    lemma_told(parts, part);
    assert(part.skip(2) =~= body);
    lemma_short_body(language, name, text, more);
    let before = told(parts);
    lemma_utf8_len(before.title);
    lemma_utf8_len(before.text);
    lemma_utf8_len(arib_text(name));
    lemma_utf8_len(arib_text(text));
}

/// A short event descriptor without a whole name tells nothing; one with a whole
/// name but no whole text behind it tells its name alone.
#[verifier::rlimit(60)]
pub proof fn law_cut_short_events(
    parts: Seq<Seq<u8>>,
    body: Seq<u8>,
    language: Seq<u8>,
    name: Seq<u8>,
    text: Seq<u8>,
    n: int,
)
    requires
        all_whole(parts),
        body.len() <= 255,
        body.len() < 4 || body.len() < 4 + body[3],
        language.len() == 3,
        text.len() <= 255,
        0 <= n < counted(text).len(),
        name.len() + n + 4 <= 255,
    ensures
        told(parts.push(written(0x4d, body))) == told(parts),
        ({
            let before = told(parts);
            let after = told(
                parts.push(written(0x4d, language + counted(name) + counted(text).take(n))),
            );
            let new_name = arib_text(name);
            &&& after.title == (if encode_utf8(new_name).len() > encode_utf8(before.title).len() {
                new_name
            } else {
                before.title
            })
            &&& after.text == before.text
            &&& after.nibbles == before.nibbles
        }),
{
    let part = written(0x4d, body);
    lemma_told(parts, part);
    assert(part.skip(2) =~= body);
    let tail = counted(text).take(n);
    let own = language + counted(name) + tail;
    let cut = written(0x4d, own);
    lemma_told(parts, cut);
    assert(cut.skip(2) =~= own);
    lemma_counted(language, name, tail);
    assert(own[3] == name.len());
    if n > 0 {
        assert(own[4 + name.len() as int] == counted(text)[0]);
    }
    assert(counted_text(own, 4 + own[3]) is None);
    let before = told(parts);
    lemma_utf8_len(before.title);
    lemma_utf8_len(before.text);
    lemma_utf8_len(arib_text(name));
    lemma_utf8_len(Seq::empty());
}

/// An extended event descriptor tells the text behind its items, whatever the
/// items hold: it is put behind the text that was told before, with a space
/// between them. Nothing else changes.
#[verifier::rlimit(40)]
pub proof fn law_extended_event_is_told(
    parts: Seq<Seq<u8>>,
    numbers: u8,
    language: Seq<u8>,
    items: Seq<u8>,
    text: Seq<u8>,
    more: Seq<u8>,
)
    requires
        all_whole(parts),
        language.len() == 3,
        items.len() + text.len() + more.len() + 6 <= 255,
    ensures
        ({
            let before = told(parts);
            let after = told(
                parts.push(
                    written(
                        0x4e,
                        seq![numbers] + language + counted(items) + counted(text) + more,
                    ),
                ),
            );
            let added = arib_text(text);
            &&& after.title == before.title
            &&& after.nibbles == before.nibbles
            &&& after.text == (if added.len() == 0 {
                before.text
            } else if before.text.len() == 0 {
                added
            } else {
                before.text + seq![' '] + added
            })
        }),
{
    let front = seq![numbers] + language + counted(items);
    let body = front + counted(text) + more;
    let part = written(0x4e, body);
    lemma_told(parts, part);
    assert(part.skip(2) =~= body);
    assert(body[4] == items.len());
    lemma_counted(front, text, more);
    assert(front.len() == 5 + body[4]);
}

/// An extended event descriptor whose text is not whole tells nothing.
pub proof fn law_cut_extended_events(parts: Seq<Seq<u8>>, body: Seq<u8>)
    requires
        all_whole(parts),
        body.len() <= 255,
        body.len() < 5 || body.len() < 6 + body[4] || body.len() < 6 + body[4] + body[5 + body[4]],
    ensures
        told(parts.push(written(0x4e, body))) == told(parts),
{
    let part = written(0x4e, body);
    lemma_told(parts, part);
    assert(part.skip(2) =~= body);
}

/// The pairs of a content descriptor: two half bytes, and a byte for the
/// broadcaster.
pub open spec fn content_bytes(pairs: Seq<(u8, u8)>, user: Seq<u8>) -> Seq<u8> {
    Seq::new(
        2 * pairs.len(),
        |i: int|
            if i % 2 == 0 {
                (pairs[i / 2].0 * 16 + pairs[i / 2].1) as u8
            } else {
                user[i / 2]
            },
    )
}

/// A content descriptor tells its pairs of half bytes, in order, behind those that
/// were told before; a byte that is left over is none.
#[verifier::rlimit(60)]
pub proof fn law_content_is_told(
    parts: Seq<Seq<u8>>,
    pairs: Seq<(u8, u8)>,
    user: Seq<u8>,
    left_over: Seq<u8>,
)
    requires
        all_whole(parts),
        pairs.len() <= 127,
        user.len() == pairs.len(),
        left_over.len() <= 1,
        forall|i: int|
            0 <= i < pairs.len() ==> (#[trigger] pairs[i]).0 < 16 && pairs[i].1 < 16,
    ensures
        ({
            let before = told(parts);
            let after = told(parts.push(written(0x54, content_bytes(pairs, user) + left_over)));
            &&& after.nibbles == before.nibbles + pairs
            &&& after.title == before.title
            &&& after.text == before.text
        }),
{
    let body = content_bytes(pairs, user) + left_over;
    let part = written(0x54, body);
    lemma_told(parts, part);
    assert(part.skip(2) =~= body);
    let read = crate::eit::content(body);
    assert(read.len() == pairs.len());
    assert forall|i: int| 0 <= i < pairs.len() implies read[i] == pairs[i] by {
        assert((2 * i) % 2 == 0 && (2 * i) / 2 == i);
        let p = pairs[i];
        assert(body[2 * i] == (p.0 * 16 + p.1) as u8);
        assert((p.0 * 16 + p.1) / 16 == p.0 as int);
        assert((p.0 * 16 + p.1) % 16 == p.1 as int);
    }
    assert(read =~= pairs);
}

/// Any other descriptor tells nothing.
pub proof fn law_other_descriptors_tell_nothing(parts: Seq<Seq<u8>>, tag: u8, body: Seq<u8>)
    requires
        all_whole(parts),
        body.len() <= 255,
        tag != 0x4d && tag != 0x4e && tag != 0x54,
    ensures
        told(parts.push(written(tag, body))) == told(parts),
{
    let part = written(tag, body);
    lemma_told(parts, part);
    assert(part.skip(2) =~= body);
}

/// The length of a text in bytes is that of its encoding.
pub proof fn lemma_utf8_len(s: Seq<char>)
    ensures
        utf8_len(s) == encode_utf8(s).len(),
    decreases s.len(),
{
    if s.len() > 0 {
        lemma_utf8_len(s.drop_last());
        lemma_encode_last(s);
    }
}

proof fn lemma_scalar_width(c: char)
    ensures
        vstd::utf8::encode_scalar(c as u32).len() == char_width(c),
{
}

proof fn lemma_encode_last(s: Seq<char>)
    requires
        s.len() > 0,
    ensures
        encode_utf8(s).len() == encode_utf8(s.drop_last()).len() + char_width(s.last()),
    decreases s.len(),
{
    let rest = s.drop_first();
    if s.len() > 1 {
        lemma_encode_last(rest);
        let front = s.drop_last();
        assert(rest.drop_last() =~= front.drop_first());
        assert(front[0] == s[0]);
        assert(rest.last() == s.last());
        let first = vstd::utf8::encode_scalar(s[0] as u32);
        assert(encode_utf8(s) == first + encode_utf8(rest));
        assert(encode_utf8(front) == first + encode_utf8(front.drop_first()));
    } else {
        assert(rest =~= Seq::<char>::empty());
        assert(s.drop_last() =~= Seq::<char>::empty());
        assert(encode_utf8(rest).len() == 0);
        assert(encode_utf8(s.drop_last()).len() == 0);
        let first = vstd::utf8::encode_scalar(s[0] as u32);
        assert(encode_utf8(s) == first + encode_utf8(rest));
        lemma_scalar_width(s[0]);
    }
}

// ---- Sections --------------------------------------------------------------

/// An entry of the event loop of an EIT.
pub struct WrittenEvent {
    pub id: u16,
    /// Five bytes.
    pub start: Seq<u8>,
    /// Three bytes.
    pub duration: Seq<u8>,
    pub running: int,
    pub scrambled: bool,
    pub descriptors: Seq<u8>,
}

pub open spec fn is_written_event(e: WrittenEvent) -> bool {
    e.start.len() == 5 && e.duration.len() == 3 && 0 <= e.running < 8 && e.descriptors.len() < 4096
}

pub open spec fn event_bytes(e: WrittenEvent) -> Seq<u8> {
    two(e.id) + e.start + e.duration + sized(
        e.running * 2 + if e.scrambled {
            1int
        } else {
            0
        },
        e.descriptors.len() as int,
    ) + e.descriptors
}

pub open spec fn events_bytes(events: Seq<WrittenEvent>) -> Seq<Seq<u8>> {
    events.map_values(|e: WrittenEvent| event_bytes(e))
}

/// What is read of an entry.
pub open spec fn read_event(e: WrittenEvent) -> EventView {
    let said = event_text(descriptors(e.descriptors));
    EventView {
        event_id: e.id,
        start: datetime(e.start),
        duration: duration(e.duration),
        running_status: e.running as u8,
        free_ca: e.scrambled,
        title: said.title,
        text: said.text,
        content_nibbles: said.nibbles,
    }
}

proof fn lemma_event_bytes(e: WrittenEvent)
    requires
        is_written_event(e),
    ensures
        is_event_entry(event_bytes(e)),
        event(event_bytes(e)) == read_event(e),
{
    let b = event_bytes(e);
    let bits: int = e.running * 2 + if e.scrambled {
        1int
    } else {
        0
    };
    let len = e.descriptors.len() as int;
    lemma_two(e.id);
    lemma_sized(bits, len);
    let z = sized(bits, len);
    assert(b[0] == two(e.id)[0] && b[1] == two(e.id)[1] && b[10] == z[0] && b[11] == z[1]);
    assert(b.subrange(2, 7) =~= e.start);
    assert(b.subrange(7, 10) =~= e.duration);
    assert(b.skip(12) =~= e.descriptors);
    assert(z[0] == bits * 16 + len / 256);
    assert(b[10] / 32 == e.running);
    assert(b[10] / 16 == bits);
    assert(bits % 2 == 1 <==> e.scrambled);
}

#[verifier::rlimit(40)]
proof fn lemma_event_loop(events: Seq<WrittenEvent>, cut: WrittenEvent, n: int)
    requires
        forall|i: int| 0 <= i < events.len() ==> is_written_event(#[trigger] events[i]),
        is_written_event(cut),
        0 <= n < event_bytes(cut).len(),
    ensures
        event_loop(joined(events_bytes(events)) + event_bytes(cut).take(n)) == events.map_values(
            |e: WrittenEvent| read_event(e),
        ),
{
    let entries = events_bytes(events);
    let tail = event_bytes(cut).take(n);
    assert forall|i: int| 0 <= i < entries.len() implies is_event_entry(#[trigger] entries[i]) by {
        lemma_event_bytes(events[i]);
    }
    lemma_event_bytes(cut);
    if n >= 12 {
        assert(tail[10] == event_bytes(cut)[10] && tail[11] == event_bytes(cut)[11]);
    }
    law_every_whole_event_is_reported(entries, tail);
    let want = events.map_values(|e: WrittenEvent| read_event(e));
    let got = entries.map_values(|e: Seq<u8>| event(e));
    assert forall|i: int| 0 <= i < want.len() implies got[i] == want[i] by {
        lemma_event_bytes(events[i]);
    }
    assert(got =~= want);
}

#[verifier::rlimit(40)]
proof fn lemma_eit_of(
    s: Seq<u8>,
    transport: u16,
    network: u16,
    segment_last: u8,
    last_table: u8,
    loop_bytes: Seq<u8>,
)
    requires
        s.len() == 18 + loop_bytes.len(),
        0x4e <= s[0] <= 0x6f,
        total_len(s) == s.len(),
        crc_ok(s),
        s.subrange(8, s.len() - 4) == two(transport) + two(network) + seq![
            segment_last,
            last_table,
        ] + loop_bytes,
    ensures
        eit(s) == Ok::<EitView, ErrorView>(
            EitView {
                table_id: s[0],
                service_id: crate::bytes::be16(s[3], s[4]),
                transport_stream_id: transport,
                original_network_id: network,
                section_number: s[6],
                last_section_number: s[7],
                segment_last_section_number: segment_last,
                last_table_id: last_table,
                events: event_loop(loop_bytes),
            },
        ),
{
    let body = two(transport) + two(network) + seq![segment_last, last_table] + loop_bytes;
    let inner = s.subrange(8, s.len() - 4);
    lemma_two(transport);
    lemma_two(network);
    assert(s[8] == inner[0] && s[9] == inner[1] && s[10] == inner[2] && s[11] == inner[3] && s[12]
        == inner[4] && s[13] == inner[5]);
    assert(inner.skip(6) =~= loop_bytes);
    assert(section_body(s, 14) =~= inner.skip(6));
}

/// Every event that a section lists is read, in order, with its number, its times,
/// its status and what its descriptors tell; so are the numbers of the section. An
/// event that is not whole ends the list.
#[verifier::rlimit(40)]
pub proof fn law_written_eit_is_read(
    table_id: u8,
    bits: int,
    service: u16,
    version: u8,
    number: u8,
    last: u8,
    transport: u16,
    network: u16,
    segment_last: u8,
    last_table: u8,
    events: Seq<WrittenEvent>,
    cut: WrittenEvent,
    n: int,
)
    requires
        0x4e <= table_id <= 0x6f,
        0 <= bits < 16,
        forall|i: int| 0 <= i < events.len() ==> is_written_event(#[trigger] events[i]),
        is_written_event(cut),
        0 <= n < event_bytes(cut).len(),
        joined(events_bytes(events)).len() + n + 15 < 4096,
    ensures
        eit(
            section(
                table_id,
                bits,
                service,
                version,
                number,
                last,
                two(transport) + two(network) + seq![segment_last, last_table] + (joined(
                    events_bytes(events),
                ) + event_bytes(cut).take(n)),
            ),
        ) == Ok::<EitView, ErrorView>(
            EitView {
                table_id,
                service_id: service,
                transport_stream_id: transport,
                original_network_id: network,
                section_number: number,
                last_section_number: last,
                segment_last_section_number: segment_last,
                last_table_id: last_table,
                events: events.map_values(|e: WrittenEvent| read_event(e)),
            },
        ),
{
    let loop_bytes = joined(events_bytes(events)) + event_bytes(cut).take(n);
    let body = two(transport) + two(network) + seq![segment_last, last_table] + loop_bytes;
    lemma_section(table_id, bits, service, version, number, last, body);
    lemma_eit_of(
        section(table_id, bits, service, version, number, last, body),
        transport,
        network,
        segment_last,
        last_table,
        loop_bytes,
    );
    lemma_event_loop(events, cut, n);
}

/// A section is read exactly where it is a whole section of an event table with a
/// right CRC; otherwise the first of these that fails is the error.
#[verifier::rlimit(60)]
pub proof fn law_eit_errors(s: Seq<u8>)
    ensures
        eit(s) is Ok <==> s.len() >= 18 && 0x4e <= s[0] <= 0x6f && crc_ok(s) && s.len()
            >= total_len(s),
        s.len() < 18 ==> eit(s) == Err::<EitView, ErrorView>(
            ErrorView::Si("EIT section too short"@),
        ),
        s.len() >= 18 && 0x4e <= s[0] <= 0x6f && !crc_ok(s) ==> eit(s) == Err::<
            EitView,
            ErrorView,
        >(ErrorView::Si("EIT CRC mismatch"@)),
        s.len() >= 18 && 0x4e <= s[0] <= 0x6f && crc_ok(s) && s.len() < total_len(s) ==> eit(s)
            == Err::<EitView, ErrorView>(ErrorView::Si("EIT section truncated"@)),
        s.len() >= 18 && !(0x4e <= s[0] <= 0x6f) ==> eit(s) == Err::<EitView, ErrorView>(
            ErrorView::Si("not an EIT table_id: 0x"@ + seq![hex(s[0] / 16), hex(s[0] % 16)]),
        ),
{
    if s.len() >= 18 && !(0x4e <= s[0] <= 0x6f) {
        let n = s[0] as nat;
        reveal_with_fuel(crate::text::numeral, 3);
        reveal_with_fuel(crate::text::padded, 3);
        assert(crate::text::padded(crate::text::numeral(n, 16), 2, '0') =~= seq![
            hex(s[0] / 16),
            hex(s[0] % 16),
        ]);
    }
}

/// A hexadecimal digit.
pub open spec fn hex(n: u8) -> char {
    if n < 10 {
        ('0' as u32 + n) as char
    } else {
        ('a' as u32 + (n - 10)) as char
    }
}

} // verus!
