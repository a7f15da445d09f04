//! The event information table (EIT) of ARIB STD-B10, and the assembly of
//! sections from transport stream packets.

use crate::arib_b24::{builtin_tables, decode, decoded};
use crate::bytes::{append_bytes, be16, low12, low13, read_be16, read_low12, read_low13};
use crate::error::{outcome, si_error, Error, ErrorView};
use crate::si_tables::{
    crc_ok, descriptors, fits, framed, headless, joined, law_appended_crc_is_accepted,
    lemma_joined_split, section_body, section_crc_ok, split_descriptors, total_len, Descriptor,
};
use crate::text::{byte_len, decimal, numeral, numeral_chars, pad, padded, text_of, utf8_len};
use crate::views::{lemma_views_push, views};
use vstd::prelude::*;
use vstd::slice::{slice_subrange, slice_to_vec};

verus! {

pub const EIT_PID: u16 = 0x0012;

/// The EIT of the one-segment services.
pub const EIT_PID_ONESEG: u16 = 0x0027;

/// Present and following events of this transport.
pub const EIT_ACTUAL_PF: u8 = 0x4e;

/// Present and following events of other transports.
pub const EIT_OTHER_PF: u8 = 0x4f;

/// First table of the schedule of this transport.
pub const EIT_ACTUAL_SCHED_FIRST: u8 = 0x50;

/// Last table of the schedule of this transport.
pub const EIT_ACTUAL_SCHED_LAST: u8 = 0x5f;

// ---- Time ------------------------------------------------------------------

/// A day and a time of the day.
#[derive(Debug, Clone, Copy, PartialEq, Eq, Structural, PartialOrd, Ord)]
pub struct DateTime {
    pub year: u16,
    pub month: u8,
    pub day: u8,
    pub hour: u8,
    pub min: u8,
    pub sec: u8,
}

/// Hours, minutes and seconds.
#[derive(Debug, Clone, Copy, PartialEq, Eq, Structural)]
pub struct HmsDuration {
    pub hour: u8,
    pub min: u8,
    pub sec: u8,
}

/// A number in decimal with at least `width` digits.
pub open spec fn digits(n: nat, width: nat) -> Seq<char> {
    padded(decimal(n), width, '0')
}

/// Three numbers of at least two digits each with colons between them.
pub open spec fn clock_text(hour: u8, min: u8, sec: u8) -> Seq<char> {
    digits(hour as nat, 2) + seq![':'] + digits(min as nat, 2) + seq![':'] + digits(sec as nat, 2)
}

/// `2024-02-29 21:05:00`.
pub open spec fn date_text(d: DateTime) -> Seq<char> {
    digits(d.year as nat, 4) + seq!['-'] + digits(d.month as nat, 2) + seq!['-'] + digits(
        d.day as nat,
        2,
    ) + seq![' '] + clock_text(d.hour, d.min, d.sec)
}

fn push_digits(out: &mut Vec<char>, n: u16, width: usize)
    ensures
        final(out)@ == old(out)@ + digits(n as nat, width as nat),
{
    let mut chars = pad(numeral_chars(n as u128, 10), width, '0');
    out.append(&mut chars);
}

fn push_clock(out: &mut Vec<char>, hour: u8, min: u8, sec: u8)
    ensures
        final(out)@ == old(out)@ + clock_text(hour, min, sec),
{
    push_digits(out, hour as u16, 2);
    out.push(':');
    push_digits(out, min as u16, 2);
    out.push(':');
    push_digits(out, sec as u16, 2);
    assert(out@ =~= old(out)@ + clock_text(hour, min, sec));
}

impl DateTime {
    /// `2024-02-29 21:05:00`.
    pub fn text(&self) -> (out: String)
        ensures
            out@ == date_text(*self),
    {
        let mut out: Vec<char> = Vec::new();
        push_digits(&mut out, self.year, 4);
        out.push('-');
        push_digits(&mut out, self.month as u16, 2);
        out.push('-');
        push_digits(&mut out, self.day as u16, 2);
        out.push(' ');
        push_clock(&mut out, self.hour, self.min, self.sec);
        assert(out@ =~= date_text(*self));
        text_of(&out)
    }
}

impl HmsDuration {
    /// `01:30:00`.
    pub fn text(&self) -> (out: String)
        ensures
            out@ == clock_text(self.hour, self.min, self.sec),
    {
        let mut out: Vec<char> = Vec::new();
        push_clock(&mut out, self.hour, self.min, self.sec);
        assert(out@ =~= clock_text(self.hour, self.min, self.sec));
        text_of(&out)
    }
}

/// Two decimal digits in the halves of a byte.
pub open spec fn bcd(b: u8) -> Option<u8> {
    if b / 16 > 9 || b % 16 > 9 {
        None
    } else {
        Some((b / 16 * 10 + b % 16) as u8)
    }
}

fn bcd2(b: u8) -> (n: Option<u8>)
    ensures
        n == bcd(b),
{
    let hi = b / 16;
    let lo = b % 16;
    if hi > 9 || lo > 9 {
        None
    } else {
        Some(hi * 10 + lo)
    }
}

/// A quotient rounded towards zero.
pub open spec fn quotient(a: int, b: int) -> int {
    if a >= 0 {
        a / b
    } else {
        -((-a) / b)
    }
}

/// A day of the calendar.
pub struct Day {
    pub year: int,
    pub month: int,
    pub day: int,
}

/// The day of a modified Julian date, by the formula of EN 300 468, annex C. It
/// holds from 1 March 1900 to 28 February 2100.
pub open spec fn day_of_mjd(mjd: int) -> Day {
    let y = quotient(mjd * 100 - 1507820, 36525);
    let r = mjd - 14956 - quotient(y * 36525, 100);
    let m = quotient(r * 10000, 306001);
    let k: int = if m == 14 || m == 15 {
        1
    } else {
        0
    };
    Day { year: y + 1900 + k, month: m - 1 - k * 12, day: r - quotient(m * 306001, 10000) }
}

/// What five bytes say of a start: a modified Julian date and a time of the day.
/// Nothing where the date is all ones or a digit is none.
pub open spec fn datetime(b: Seq<u8>) -> Option<DateTime> {
    if b.len() < 5 || (b[0] == 0xff && b[1] == 0xff) {
        None
    } else {
        match (bcd(b[2]), bcd(b[3]), bcd(b[4])) {
            (Some(hour), Some(min), Some(sec)) => {
                let d = day_of_mjd(be16(b[0], b[1]) as int);
                Some(
                    DateTime {
                        year: d.year as u16,
                        month: d.month as u8,
                        day: d.day as u8,
                        hour,
                        min,
                        sec,
                    },
                )
            },
            _ => None,
        }
    }
}

/// What three bytes say of a duration. Nothing where the first is all ones or a
/// digit is none.
pub open spec fn duration(b: Seq<u8>) -> Option<HmsDuration> {
    if b.len() < 3 || b[0] == 0xff {
        None
    } else {
        match (bcd(b[0]), bcd(b[1]), bcd(b[2])) {
            (Some(hour), Some(min), Some(sec)) => Some(HmsDuration { hour, min, sec }),
            _ => None,
        }
    }
}

/// `a / b`, rounded towards zero.
fn divide(a: i64, b: i64) -> (q: i64)
    requires
        b > 0,
        a > i64::MIN,
    ensures
        q == quotient(a as int, b as int),
{
    if a >= 0 {
        a / b
    } else {
        -((-a) / b)
    }
}

/// The start that five bytes give: a modified Julian date and a time of the day.
pub fn parse_datetime(b: &[u8]) -> (out: Option<DateTime>)
    ensures
        out == datetime(b@),
{
    if b.len() < 5 {
        return None;
    }
    if b[0] == 0xff && b[1] == 0xff {
        return None;
    }
    let hour = match bcd2(b[2]) {
        Some(n) => n,
        None => return None,
    };
    let min = match bcd2(b[3]) {
        Some(n) => n,
        None => return None,
    };
    let sec = match bcd2(b[4]) {
        Some(n) => n,
        None => return None,
    };
    let mjd = read_be16(b[0], b[1]) as i64;
    let y = divide(mjd * 100 - 1507820, 36525);
    let r = mjd - 14956 - divide(y * 36525, 100);
    let m = divide(r * 10000, 306001);
    let k: i64 = if m == 14 || m == 15 {
        1
    } else {
        0
    };
    let year = y + 1900 + k;
    let month = m - 1 - k * 12;
    let day = r - divide(m * 306001, 10000);
    Some(DateTime { year: year as u16, month: month as u8, day: day as u8, hour, min, sec })
}

/// The duration that three bytes give.
pub fn parse_duration(b: &[u8]) -> (out: Option<HmsDuration>)
    ensures
        out == duration(b@),
{
    if b.len() < 3 {
        return None;
    }
    if b[0] == 0xff {
        return None;
    }
    let hour = match bcd2(b[0]) {
        Some(n) => n,
        None => return None,
    };
    let min = match bcd2(b[1]) {
        Some(n) => n,
        None => return None,
    };
    let sec = match bcd2(b[2]) {
        Some(n) => n,
        None => return None,
    };
    Some(HmsDuration { hour, min, sec })
}

/// Whether a year of the Gregorian calendar has a 29 February.
pub open spec fn is_leap(year: int) -> bool {
    year % 4 == 0 && (year % 100 != 0 || year % 400 == 0)
}

/// How many days a month of the Gregorian calendar has.
pub open spec fn days_in_month(year: int, month: int) -> int {
    if month == 2 {
        if is_leap(year) {
            29
        } else {
            28
        }
    } else if month == 4 || month == 6 || month == 9 || month == 11 {
        30
    } else {
        31
    }
}

/// Whether a day is one of the Gregorian calendar.
pub open spec fn is_calendar_day(d: Day) -> bool {
    1 <= d.month <= 12 && 1 <= d.day <= days_in_month(d.year, d.month)
}

/// The day after a day of the Gregorian calendar.
pub open spec fn next_day(d: Day) -> Day {
    if d.day < days_in_month(d.year, d.month) {
        Day { day: d.day + 1, ..d }
    } else if d.month < 12 {
        Day { year: d.year, month: d.month + 1, day: 1 }
    } else {
        Day { year: d.year + 1, month: 1, day: 1 }
    }
}

/// The years and days since 1 March 1900 of a modified Julian date: the years
/// as annex C counts them, and the days of the last one from 123 on.
proof fn lemma_year_and_rest(mjd: int) -> (out: (int, int))
    requires
        15079 <= mjd <= 88128,
    ensures
        out.0 == quotient(mjd * 100 - 1507820, 36525),
        0 <= out.0 <= 199,
        out.1 == mjd - 14956 - quotient(out.0 * 36525, 100),
        out.1 == mjd - 14956 - (365 * out.0 + out.0 / 4),
        123 <= out.1,
        out.1 <= (if out.0 % 4 == 3 {
            488int
        } else {
            487
        }),
{
    let y = (mjd * 100 - 1507820) / 36525;
    let r = mjd - 14956 - (365 * y + y / 4);
    assert(y * 36525 == 100 * (365 * y) + 25 * y);
    assert((y * 36525) / 100 == 365 * y + y / 4);
    (y, r)
}

/// The month and the day of the month for a day of the year counted from 123 at
/// 1 March.
proof fn lemma_month(r: int) -> (m: int)
    requires
        123 <= r <= 488,
    ensures
        m == quotient(r * 10000, 306001),
        4 <= m <= 15,
        quotient(m * 306001, 10000) == (m * 306001) / 10000,
        (m * 306001) / 10000 < r <= ((m + 1) * 306001) / 10000,
{
    (r * 10000) / 306001
}

/// Over the whole range of the date field, one modified Julian date later is the
/// next day of the Gregorian calendar.
#[verifier::rlimit(40)]
pub proof fn law_dates_follow_the_calendar(mjd: int)
    requires
        15079 <= mjd < 65535,
    ensures
        is_calendar_day(day_of_mjd(mjd)),
        day_of_mjd(mjd + 1) == next_day(day_of_mjd(mjd)),
{
    let (y, r) = lemma_year_and_rest(mjd);
    let (y2, r2) = lemma_year_and_rest(mjd + 1);
    let m = lemma_month(r);
    let m2 = lemma_month(r2);
    assert(y2 == y && r2 == r + 1 || y2 == y + 1 && r2 == 123);
}

/// The calendar of the date field starts on 1 March 1900.
pub proof fn law_first_date()
    ensures
        day_of_mjd(15079) == (Day { year: 1900, month: 3, day: 1 }),
{
}

/// Every start that is read is a day of the calendar, where its date field is
/// not before 1 March 1900.
pub proof fn law_starts_are_calendar_days(b: Seq<u8>)
    requires
        datetime(b) is Some,
        be16(b[0], b[1]) >= 15079,
    ensures
        is_calendar_day(
            Day {
                year: datetime(b)->0.year as int,
                month: datetime(b)->0.month as int,
                day: datetime(b)->0.day as int,
            },
        ),
{
    let mjd = be16(b[0], b[1]) as int;
    law_dates_follow_the_calendar(mjd);
    let (y, _) = lemma_year_and_rest(mjd);
}

// ---- Event descriptors -----------------------------------------------------

/// What the descriptors of an event say of it.
#[verifier::ext_equal]
pub struct EventTextView {
    pub title: Seq<char>,
    pub text: Seq<char>,
    pub nibbles: Seq<(u8, u8)>,
}

/// Text of ARIB STD-B24.
pub open spec fn arib(raw: Seq<u8>) -> Seq<char> {
    decoded(builtin_tables(), raw)
}

/// The text with its length before it that stands at `at`; nothing where it is
/// not whole.
pub open spec fn counted_text(body: Seq<u8>, at: int) -> Option<Seq<char>> {
    if at + 1 <= body.len() && at + 1 + body[at] <= body.len() {
        Some(arib(body.subrange(at + 1, at + 1 + body[at])))
    } else {
        None
    }
}

/// The longer of two texts by their bytes, the first where they are as long.
pub open spec fn longer(a: Seq<char>, b: Seq<char>) -> Seq<char> {
    if utf8_len(b) > utf8_len(a) {
        b
    } else {
        a
    }
}

/// The event name of a short event descriptor and its text: behind a language
/// of three bytes. The text is empty where it is not whole.
pub open spec fn short_event(body: Seq<u8>) -> Option<(Seq<char>, Seq<char>)> {
    match counted_text(body, 3) {
        Some(name) => Some(
            (
                name,
                match counted_text(body, 4 + body[3]) {
                    Some(text) => text,
                    None => Seq::empty(),
                },
            ),
        ),
        None => None,
    }
}

/// The text of an extended event descriptor: behind its numbers, a language and
/// a list of items with its length.
pub open spec fn extended_event(body: Seq<u8>) -> Option<Seq<char>> {
    if body.len() >= 5 {
        counted_text(body, 5 + body[4])
    } else {
        None
    }
}

/// The pairs of half bytes of a content descriptor: of every first of two bytes.
pub open spec fn content(body: Seq<u8>) -> Seq<(u8, u8)> {
    Seq::new((body.len() / 2) as nat, |i: int| (body[2 * i] / 16, body[2 * i] % 16))
}

/// What one more descriptor adds. A short event descriptor does not take a
/// longer name or text away; the text of an extended one is appended.
pub open spec fn with_descriptor(e: EventTextView, d: Descriptor) -> EventTextView {
    if d.tag == 0x4d {
        match short_event(d.body) {
            Some((title, text)) => EventTextView {
                title: longer(e.title, title),
                text: longer(e.text, text),
                nibbles: e.nibbles,
            },
            None => e,
        }
    } else if d.tag == 0x4e {
        match extended_event(d.body) {
            Some(text) if text.len() > 0 => EventTextView {
                text: if e.text.len() > 0 {
                    e.text + seq![' '] + text
                } else {
                    text
                },
                ..e
            },
            _ => e,
        }
    } else if d.tag == 0x54 {
        EventTextView { nibbles: e.nibbles + content(d.body), ..e }
    } else {
        e
    }
}

/// What a list of descriptors says of an event.
pub open spec fn event_text(list: Seq<Descriptor>) -> EventTextView
    decreases list.len(),
{
    if list.len() == 0 {
        EventTextView { title: Seq::empty(), text: Seq::empty(), nibbles: Seq::empty() }
    } else {
        with_descriptor(event_text(list.drop_last()), list.last())
    }
}

/// The text with its length before it that stands at `at`.
fn read_counted_text(body: &[u8], at: usize) -> (out: Option<String>)
    requires
        at < 0x1000,
    ensures
        match out {
            Some(s) => counted_text(body@, at as int) == Some(s@),
            None => counted_text(body@, at as int) is None,
        },
{
    if at + 1 <= body.len() {
        let end: usize = at + 1 + body[at] as usize;
        if end <= body.len() {
            return Some(decode(slice_subrange(body, at + 1, end)));
        }
    }
    None
}

/// What an event's descriptors say of it, while they are read.
struct EventText {
    title: String,
    text: String,
    nibbles: Vec<(u8, u8)>,
}

impl View for EventText {
    type V = EventTextView;

    closed spec fn view(&self) -> EventTextView {
        EventTextView { title: self.title@, text: self.text@, nibbles: self.nibbles@ }
    }
}

impl EventText {
    fn short_event(&mut self, body: &[u8])
        ensures
            final(self)@ == with_descriptor(
                old(self)@,
                Descriptor { tag: 0x4d, body: body@ },
            ),
    {
        let title = match read_counted_text(body, 3) {
            Some(t) => t,
            None => {
                return ;
            },
        };
        let text = match read_counted_text(body, 4 + body[3] as usize) {
            Some(t) => t,
            None => String::new(),
        };
        assert(short_event(body@) == Some((title@, text@)));
        if byte_len(&title) > byte_len(&self.title) {
            self.title = title;
        }
        if byte_len(&text) > byte_len(&self.text) {
            self.text = text;
        }
    }

    fn extended_event(&mut self, body: &[u8])
        ensures
            final(self)@ == with_descriptor(
                old(self)@,
                Descriptor { tag: 0x4e, body: body@ },
            ),
    {
        if body.len() < 5 {
            return ;
        }
        let more = match read_counted_text(body, 5 + body[4] as usize) {
            Some(t) => t,
            None => {
                return ;
            },
        };
        if more.as_str().is_empty() {
            return ;
        }
        if self.text.as_str().is_empty() {
            self.text = more;
        } else {
            let ghost before = self.text@;
            self.text.push(' ');
            self.text.append(&more);
            assert(self.text@ =~= before + seq![' '] + more@);
        }
    }

    fn content(&mut self, body: &[u8])
        ensures
            final(self)@ == with_descriptor(
                old(self)@,
                Descriptor { tag: 0x54, body: body@ },
            ),
    {
        let mut i: usize = 0;
        let ghost all = content(body@);
        assert(self.nibbles@ + all.take(0) =~= self.nibbles@);
        while i < body.len() / 2
            invariant
                i <= body@.len() / 2,
                all == content(body@),
                self.nibbles@ == old(self).nibbles@ + all.take(i as int),
                self.title == old(self).title,
                self.text == old(self).text,
            decreases body@.len() / 2 - i,
        {
            let b = body[2 * i];
            self.nibbles.push((b / 16, b % 16));
            assert(all.take(i + 1) =~= all.take(i as int).push(all[i as int]));
            assert(self.nibbles@ =~= old(self).nibbles@ + all.take(i + 1));
            i += 1;
        }
        assert(all.take(i as int) =~= all);
    }
}

/// What a descriptor loop says of an event: name, text, and kinds of content.
pub fn parse_event_descriptors(data: &[u8]) -> (out: (String, String, Vec<(u8, u8)>))
    ensures
        out.0@ == event_text(descriptors(data@)).title,
        out.1@ == event_text(descriptors(data@)).text,
        out.2@ == event_text(descriptors(data@)).nibbles,
{
    let list = split_descriptors(data);
    let ghost all = descriptors(data@);
    let mut e = EventText { title: String::new(), text: String::new(), nibbles: Vec::new() };
    let mut i: usize = 0;
    assert(all.take(0) =~= Seq::<Descriptor>::empty());
    assert(e@ =~= event_text(all.take(0)));
    while i < list.len()
        invariant
            i <= list@.len(),
            all == views(list@),
            e@ == event_text(all.take(i as int)),
        decreases list@.len() - i,
    {
        let d = list[i];
        assert(all[i as int] == d@);
        assert(all.take(i + 1).drop_last() =~= all.take(i as int));
        if d.tag == 0x4d {
            e.short_event(d.body);
        } else if d.tag == 0x4e {
            e.extended_event(d.body);
        } else if d.tag == 0x54 {
            e.content(d.body);
        }
        i += 1;
    }
    assert(all.take(i as int) =~= all);
    (e.title, e.text, e.nibbles)
}

// ---- Sections --------------------------------------------------------------

/// An event of a service.
#[derive(Debug)]
pub struct EitEvent {
    pub event_id: u16,
    pub start: Option<DateTime>,
    pub duration: Option<HmsDuration>,
    pub running_status: u8,
    pub free_ca: bool,
    pub title: String,
    pub text: String,
    pub content_nibbles: Vec<(u8, u8)>,
}

/// An event, with its text as characters.
#[verifier::ext_equal]
pub struct EventView {
    pub event_id: u16,
    pub start: Option<DateTime>,
    pub duration: Option<HmsDuration>,
    pub running_status: u8,
    pub free_ca: bool,
    pub title: Seq<char>,
    pub text: Seq<char>,
    pub content_nibbles: Seq<(u8, u8)>,
}

impl View for EitEvent {
    type V = EventView;

    open spec fn view(&self) -> EventView {
        EventView {
            event_id: self.event_id,
            start: self.start,
            duration: self.duration,
            running_status: self.running_status,
            free_ca: self.free_ca,
            title: self.title@,
            text: self.text@,
            content_nibbles: self.content_nibbles@,
        }
    }
}

impl Clone for EitEvent {
    fn clone(&self) -> (out: Self)
        ensures
            out@ == self@,
    {
        EitEvent {
            event_id: self.event_id,
            start: self.start,
            duration: self.duration,
            running_status: self.running_status,
            free_ca: self.free_ca,
            title: self.title.clone(),
            text: self.text.clone(),
            content_nibbles: slice_to_vec(self.content_nibbles.as_slice()),
        }
    }
}

/// A section of an EIT: events of one service.
#[derive(Debug)]
pub struct EitSection {
    pub table_id: u8,
    pub service_id: u16,
    pub transport_stream_id: u16,
    pub original_network_id: u16,
    pub section_number: u8,
    pub last_section_number: u8,
    pub segment_last_section_number: u8,
    pub last_table_id: u8,
    pub events: Vec<EitEvent>,
}

/// A section of an EIT, with its events as they are viewed.
pub struct EitView {
    pub table_id: u8,
    pub service_id: u16,
    pub transport_stream_id: u16,
    pub original_network_id: u16,
    pub section_number: u8,
    pub last_section_number: u8,
    pub segment_last_section_number: u8,
    pub last_table_id: u8,
    pub events: Seq<EventView>,
}

impl View for EitSection {
    type V = EitView;

    open spec fn view(&self) -> EitView {
        EitView {
            table_id: self.table_id,
            service_id: self.service_id,
            transport_stream_id: self.transport_stream_id,
            original_network_id: self.original_network_id,
            section_number: self.section_number,
            last_section_number: self.last_section_number,
            segment_last_section_number: self.segment_last_section_number,
            last_table_id: self.last_table_id,
            events: views(self.events@),
        }
    }
}

impl Clone for EitSection {
    fn clone(&self) -> (out: Self)
        ensures
            out@ == self@,
    {
        let mut events: Vec<EitEvent> = Vec::new();
        let mut i: usize = 0;
        while i < self.events.len()
            invariant
                i <= self.events@.len(),
                views(events@) == views(self.events@).take(i as int),
            decreases self.events@.len() - i,
        {
            let e = self.events[i].clone();
            proof {
                lemma_views_push(events@, e);
            }
            events.push(e);
            i += 1;
            assert(views(self.events@).take(i as int) =~= views(self.events@).take(i - 1).push(
                views(self.events@)[i - 1],
            ));
        }
        assert(views(self.events@).take(i as int) =~= views(self.events@));
        EitSection {
            table_id: self.table_id,
            service_id: self.service_id,
            transport_stream_id: self.transport_stream_id,
            original_network_id: self.original_network_id,
            section_number: self.section_number,
            last_section_number: self.last_section_number,
            segment_last_section_number: self.segment_last_section_number,
            last_table_id: self.last_table_id,
            events,
        }
    }
}

/// The event whose header is the first twelve bytes of `data` and whose
/// descriptors are the rest.
pub open spec fn event(data: Seq<u8>) -> EventView {
    let described = event_text(descriptors(data.skip(12)));
    EventView {
        event_id: be16(data[0], data[1]),
        start: datetime(data.subrange(2, 7)),
        duration: duration(data.subrange(7, 10)),
        running_status: data[10] / 32,
        free_ca: data[10] / 16 % 2 == 1,
        title: described.title,
        text: described.text,
        content_nibbles: described.nibbles,
    }
}

/// The events of an event loop, up to the first that is not whole.
pub open spec fn event_loop(data: Seq<u8>) -> Seq<EventView>
    decreases data.len(),
{
    if data.len() < 12 || 12 + low12(data[10], data[11]) > data.len() {
        Seq::empty()
    } else {
        let end = 12 + low12(data[10], data[11]) as int;
        seq![event(data.take(end))] + event_loop(data.skip(end))
    }
}

/// Whether a table is an EIT.
pub open spec fn is_eit(table_id: u8) -> bool {
    0x4e <= table_id <= 0x6f
}

/// What a section of an EIT says.
pub open spec fn eit(section: Seq<u8>) -> Result<EitView, ErrorView> {
    if section.len() < 18 {
        Err(ErrorView::Si("EIT section too short"@))
    } else if !is_eit(section[0]) {
        Err(
            ErrorView::Si(
                "not an EIT table_id: 0x"@ + padded(numeral(section[0] as nat, 16), 2, '0'),
            ),
        )
    } else if !crc_ok(section) {
        Err(ErrorView::Si("EIT CRC mismatch"@))
    } else if section.len() < total_len(section) {
        Err(ErrorView::Si("EIT section truncated"@))
    } else {
        Ok(
            EitView {
                table_id: section[0],
                service_id: be16(section[3], section[4]),
                transport_stream_id: be16(section[8], section[9]),
                original_network_id: be16(section[10], section[11]),
                section_number: section[6],
                last_section_number: section[7],
                segment_last_section_number: section[12],
                last_table_id: section[13],
                events: event_loop(section_body(section, 14)),
            },
        )
    }
}

/// The event whose header is the first twelve bytes of `data` and whose
/// descriptors are the rest.
fn read_event(data: &[u8]) -> (out: EitEvent)
    requires
        data@.len() >= 12,
    ensures
        out@ == event(data@),
{
    let (title, text, content_nibbles) = parse_event_descriptors(
        slice_subrange(data, 12, data.len()),
    );
    assert(data@.subrange(12, data@.len() as int) =~= data@.skip(12));
    let start = parse_datetime(slice_subrange(data, 2, 7));
    let duration = parse_duration(slice_subrange(data, 7, 10));
    EitEvent {
        event_id: read_be16(data[0], data[1]),
        start,
        duration,
        running_status: data[10] / 32,
        free_ca: data[10] / 16 % 2 == 1,
        title,
        text,
        content_nibbles,
    }
}

/// The first event of an event loop, where it is whole, and those behind it.
proof fn lemma_event_loop_step(before: Seq<EventView>, data: Seq<u8>)
    requires
        data.len() >= 12,
        12 + low12(data[10], data[11]) <= data.len(),
    ensures
        before + event_loop(data) == before.push(
            event(data.take(12 + low12(data[10], data[11]) as int)),
        ) + event_loop(data.skip(12 + low12(data[10], data[11]) as int)),
{
    let end = 12 + low12(data[10], data[11]) as int;
    let first = event(data.take(end));
    let rest = event_loop(data.skip(end));
    assert(before + (seq![first] + rest) =~= before.push(first) + rest);
}

/// The events of an event loop, up to the first that is not whole.
fn read_events(data: &[u8]) -> (events: Vec<EitEvent>)
    requires
        data@.len() < 0x2000,
    ensures
        views(events@) == event_loop(data@),
{
    let mut events: Vec<EitEvent> = Vec::new();
    let mut off: usize = 0;
    assert(data@.skip(0) =~= data@);
    assert(views(events@) + event_loop(data@) =~= event_loop(data@));
    while off + 12 <= data.len()
        invariant
            off <= data@.len() < 0x2000,
            views(events@) + event_loop(data@.skip(off as int)) == event_loop(data@),
        decreases data@.len() - off,
    {
        let ghost rest = data@.skip(off as int);
        let ghost before = views(events@);
        let end: usize = off + 12 + read_low12(data[off + 10], data[off + 11]);
        if end > data.len() {
            assert(before + Seq::<EventView>::empty() =~= before);
            return events;
        }
        let e = read_event(slice_subrange(data, off, end));
        proof {
            assert(data@.subrange(off as int, end as int) =~= rest.take(end - off));
            assert(rest.skip(end - off) =~= data@.skip(end as int));
            lemma_views_push(events@, e);
            lemma_event_loop_step(before, rest);
        }
        events.push(e);
        off = end;
    }
    assert(views(events@) + Seq::<EventView>::empty() =~= views(events@));
    events
}

/// The text of the error for a table that is no EIT.
fn wrong_table(table_id: u8) -> (e: Error)
    ensures
        e@ == ErrorView::Si(
            "not an EIT table_id: 0x"@ + padded(numeral(table_id as nat, 16), 2, '0'),
        ),
{
    let mut text = "not an EIT table_id: 0x".to_owned();
    let number = text_of(&pad(numeral_chars(table_id as u128, 16), 2, '0'));
    text.append(&number);
    Error::Si(text)
}

/// The events of a section of an EIT. A section that passes every test but whose
/// header leaves no room for a CRC is no input.
pub fn parse_eit_section(section: &[u8]) -> (out: Result<EitSection, Error>)
    requires
        !(section@.len() >= 18 && is_eit(section@[0]) && crc_ok(section@) && headless(section@)),
    ensures
        outcome(out) == eit(section@),
{
    if section.len() < 18 {
        return Err(si_error("EIT section too short"));
    }
    let table_id = section[0];
    if table_id < 0x4e || table_id > 0x6f {
        return Err(wrong_table(table_id));
    }
    if !section_crc_ok(section) {
        return Err(si_error("EIT CRC mismatch"));
    }
    let total: usize = 3 + read_low12(section[1], section[2]);
    if section.len() < total {
        return Err(si_error("EIT section truncated"));
    }
    let end: usize = total - 4;
    let events = if end < 14 {
        let none: Vec<EitEvent> = Vec::new();
        assert(views(none@) =~= event_loop(section_body(section@, 14)));
        none
    } else {
        read_events(slice_subrange(section, 14, end))
    };
    Ok(
        EitSection {
            table_id,
            service_id: read_be16(section[3], section[4]),
            transport_stream_id: read_be16(section[8], section[9]),
            original_network_id: read_be16(section[10], section[11]),
            section_number: section[6],
            last_section_number: section[7],
            segment_last_section_number: section[12],
            last_table_id: section[13],
            events,
        },
    )
}

/// Whether `part` is an entry of an event loop, whole and nothing more.
pub open spec fn is_event_entry(part: Seq<u8>) -> bool {
    part.len() >= 12 && part.len() == 12 + low12(part[10], part[11])
}

/// Whether `tail` is less than an entry of an event loop.
pub open spec fn is_cut_event(tail: Seq<u8>) -> bool {
    tail.len() < 12 || tail.len() < 12 + low12(tail[10], tail[11])
}

/// Every whole entry of an event loop is reported, in order, whatever part of a
/// further entry stands behind them.
pub proof fn law_every_whole_event_is_reported(entries: Seq<Seq<u8>>, tail: Seq<u8>)
    requires
        forall|i: int| 0 <= i < entries.len() ==> is_event_entry(#[trigger] entries[i]),
        is_cut_event(tail),
    ensures
        event_loop(joined(entries) + tail) == entries.map_values(|e: Seq<u8>| event(e)),
    decreases entries.len(),
{
    let data = joined(entries) + tail;
    let want = entries.map_values(|e: Seq<u8>| event(e));
    if entries.len() == 0 {
        assert(data =~= tail);
        assert(want =~= Seq::empty());
    } else {
        let first = entries[0];
        let others = entries.skip(1);
        assert forall|i: int| 0 <= i < others.len() implies is_event_entry(#[trigger] others[i]) by {
            assert(others[i] == entries[i + 1]);
        }
        law_every_whole_event_is_reported(others, tail);
        let end = first.len() as int;
        assert(data[10] == first[10] && data[11] == first[11]);
        assert(data.take(end) =~= first);
        assert(data.skip(end) =~= joined(others) + tail);
        assert(want =~= seq![event(first)] + others.map_values(|e: Seq<u8>| event(e)));
    }
}

/// A framed section of an EIT gives back its header's numbers and the events of
/// the loop that it holds.
pub proof fn law_framed_eit(header: Seq<u8>, body: Seq<u8>)
    requires
        header.len() == 14,
        is_eit(header[0]),
        fits(header, body),
    ensures
        eit(framed(header, body)) == Ok::<EitView, ErrorView>(
            EitView {
                table_id: header[0],
                service_id: be16(header[3], header[4]),
                transport_stream_id: be16(header[8], header[9]),
                original_network_id: be16(header[10], header[11]),
                section_number: header[6],
                last_section_number: header[7],
                segment_last_section_number: header[12],
                last_table_id: header[13],
                events: event_loop(body),
            },
        ),
{
    let section = framed(header, body);
    law_appended_crc_is_accepted(header + body);
    assert(forall|i: int| 0 <= i < 14 ==> section[i] == header[i]);
    assert(section[1] == header[1] && section[2] == header[2]);
    assert(section_body(section, 14) =~= body);
}

/// No later descriptor makes the name or the text of an event shorter.
pub proof fn law_descriptors_do_not_shorten(e: EventTextView, d: Descriptor)
    ensures
        utf8_len(with_descriptor(e, d).title) >= utf8_len(e.title),
        utf8_len(with_descriptor(e, d).text) >= utf8_len(e.text),
        with_descriptor(e, d).nibbles.take(e.nibbles.len() as int) == e.nibbles,
{
    assert(e.nibbles.take(e.nibbles.len() as int) =~= e.nibbles);
    assert((e.nibbles + content(d.body)).take(e.nibbles.len() as int) =~= e.nibbles);
    if d.tag == 0x4e {
        if let Some(text) = extended_event(d.body) {
            lemma_utf8_len_of_front(e.text, seq![' '] + text);
            assert(e.text + seq![' '] + text =~= e.text + (seq![' '] + text));
        }
    }
}

proof fn lemma_utf8_len_of_front(a: Seq<char>, b: Seq<char>)
    ensures
        utf8_len(a + b) >= utf8_len(a),
    decreases b.len(),
{
    if b.len() == 0 {
        assert(a + b =~= a);
    } else {
        lemma_utf8_len_of_front(a, b.drop_last());
        assert((a + b).drop_last() =~= a + b.drop_last());
    }
}

// ---- Assembly of sections --------------------------------------------------

pub const TS_PACKET_SIZE: usize = 188;

/// Whether bytes start like a packet and are not fewer than one.
pub open spec fn is_packet(p: Seq<u8>) -> bool {
    p.len() >= 188 && p[0] == 0x47
}

/// The identifier of a packet.
pub open spec fn packet_pid(p: Seq<u8>) -> u16 {
    low13(p[1], p[2])
}

/// Whether a section starts in a packet.
pub open spec fn starts_section(p: Seq<u8>) -> bool {
    p[1] / 64 % 2 == 1
}

/// The continuity counter of a packet.
pub open spec fn counter(p: Seq<u8>) -> u8 {
    p[3] % 16
}

/// What a packet carries behind its header and its adaptation field, if
/// anything.
pub open spec fn payload(p: Seq<u8>) -> Option<Seq<u8>> {
    let adaptation = p[3] / 16 % 4;
    let off = if adaptation >= 2 {
        5 + p[4]
    } else {
        4
    };
    if adaptation == 2 || off >= p.len() {
        None
    } else {
        Some(p.skip(off))
    }
}

/// Bytes without the stuffing before them.
pub open spec fn without_stuffing(data: Seq<u8>) -> Seq<u8>
    decreases data.len(),
{
    if data.len() > 0 && data[0] == 0xff {
        without_stuffing(data.skip(1))
    } else {
        data
    }
}

pub proof fn lemma_without_stuffing(data: Seq<u8>)
    ensures
        without_stuffing(data).len() <= data.len(),
        data.len() > 0 && data[0] == 0xff ==> without_stuffing(data).len() < data.len(),
    decreases data.len(),
{
    if data.len() > 0 && data[0] == 0xff {
        lemma_without_stuffing(data.skip(1));
    }
}

/// The sections that are whole in `data`, and the bytes that are left of it.
/// Stuffing before a section is skipped, and a section that claims to be longer
/// than a section can be takes the rest with it.
pub open spec fn completed(data: Seq<u8>) -> (Seq<Seq<u8>>, Seq<u8>)
    decreases data.len(),
{
    if data.len() < 3 {
        (Seq::empty(), data)
    } else if data[0] == 0xff {
        proof {
            lemma_without_stuffing(data);
        }
        completed(without_stuffing(data))
    } else if total_len(data) > 4096 {
        (Seq::empty(), Seq::empty())
    } else if data.len() < total_len(data) {
        (Seq::empty(), data)
    } else {
        let n = total_len(data) as int;
        let (more, rest) = completed(data.skip(n));
        (seq![data.take(n)] + more, rest)
    }
}

/// The state of an assembler.
#[verifier::ext_equal]
pub struct AssemblerView {
    pub pid: u16,
    /// What there is of the section being assembled.
    pub partial: Seq<u8>,
    /// The sections that are whole.
    pub ready: Seq<Seq<u8>>,
    pub last_cc: Option<u8>,
    /// Whether no packet of the section being assembled was missed.
    pub valid: bool,
    pub cc_drops: u64,
}

/// An assembler that has seen nothing.
pub open spec fn fresh(pid: u16) -> AssemblerView {
    AssemblerView {
        pid,
        partial: Seq::empty(),
        ready: Seq::empty(),
        last_cc: None,
        valid: false,
        cc_drops: 0,
    }
}

/// The state with `data` behind the section being assembled, if that is valid.
pub open spec fn with_data(st: AssemblerView, data: Seq<u8>) -> AssemblerView {
    if st.valid {
        let (sections, rest) = completed(st.partial + data);
        AssemblerView { partial: rest, ready: st.ready + sections, ..st }
    } else {
        st
    }
}

/// Whether a packet is not the one that was due.
pub open spec fn is_gap(st: AssemblerView, cc: u8) -> bool {
    st.last_cc matches Some(prev) && cc != (prev + 1) % 16
}

/// The state without the section being assembled, where a packet was missed.
pub open spec fn after_gap(st: AssemblerView) -> AssemblerView {
    AssemblerView {
        partial: Seq::empty(),
        valid: false,
        cc_drops: if st.cc_drops == u64::MAX {
            u64::MAX
        } else {
            (st.cc_drops + 1) as u64
        },
        ..st
    }
}

/// Whether a packet is one that an assembler takes.
pub open spec fn is_taken(pid: u16, p: Seq<u8>) -> bool {
    is_packet(p) && packet_pid(p) == pid && payload(p) is Some
}

/// How many bytes at the front of a payload, behind the one that tells, still
/// belong to the section before the one that starts in it.
pub open spec fn old_len(data: Seq<u8>) -> int {
    if 1 + data[0] <= data.len() {
        data[0] as int
    } else {
        data.len() - 1
    }
}

/// The state with the counter of the packet that came last. Where that shows that
/// another was missed, the section being assembled is dropped.
pub open spec fn counted(st: AssemblerView, cc: u8) -> AssemblerView {
    let kept = if is_gap(st, cc) {
        after_gap(st)
    } else {
        st
    };
    AssemblerView { last_cc: Some(cc), ..kept }
}

/// The state behind a packet. One that starts a section holds how many bytes
/// still belong to the section before it.
pub open spec fn fed(st: AssemblerView, p: Seq<u8>) -> AssemblerView {
    if !is_taken(st.pid, p) {
        st
    } else {
        let data = payload(p)->0;
        let st = counted(st, counter(p));
        if starts_section(p) {
            let finished = with_data(st, data.subrange(1, 1 + old_len(data)));
            with_data(
                AssemblerView { partial: Seq::empty(), valid: true, ..finished },
                data.skip(1 + old_len(data)),
            )
        } else {
            with_data(st, data)
        }
    }
}

/// Assembles the sections of one packet identifier from transport stream
/// packets. Where the continuity counter shows that a packet was missed, the
/// section being assembled is dropped.
pub struct TsSectionAssembler {
    pid: u16,
    partial: Vec<u8>,
    ready: Vec<Vec<u8>>,
    last_cc: Option<u8>,
    partial_valid: bool,
    cc_drops: u64,
}

impl View for TsSectionAssembler {
    type V = AssemblerView;

    closed spec fn view(&self) -> AssemblerView {
        AssemblerView {
            pid: self.pid,
            partial: self.partial@,
            ready: views(self.ready@),
            last_cc: self.last_cc,
            valid: self.partial_valid,
            cc_drops: self.cc_drops,
        }
    }
}

impl TsSectionAssembler {
    pub fn new(pid: u16) -> (a: Self)
        ensures
            a@ == fresh(pid),
    {
        let a = TsSectionAssembler {
            pid,
            partial: Vec::new(),
            ready: Vec::new(),
            last_cc: None,
            partial_valid: false,
            cc_drops: 0,
        };
        assert(a@ =~= fresh(pid));
        a
    }

    /// Takes one packet. Whether there is a section to be drained.
    pub fn feed(&mut self, pkt: &[u8]) -> (ready: bool)
        ensures
            final(self)@ == fed(old(self)@, pkt@),
            ready == (final(self)@.ready.len() > 0),
    {
        self.take_packet(pkt);
        self.ready.len() > 0
    }

    /// Takes one packet.
    fn take_packet(&mut self, pkt: &[u8])
        ensures
            final(self)@ == fed(old(self)@, pkt@),
    {
        if pkt.len() < TS_PACKET_SIZE || pkt[0] != 0x47 {
            return ;
        }
        if read_low13(pkt[1], pkt[2]) != self.pid {
            return ;
        }
        let adaptation = pkt[3] / 16 % 4;
        let off: usize = if adaptation >= 2 {
            5 + pkt[4] as usize
        } else {
            4
        };
        if adaptation == 2 || off >= pkt.len() {
            return ;
        }
        let starts = pkt[1] / 64 % 2 == 1;
        let cc = pkt[3] % 16;
        let data = slice_subrange(pkt, off, pkt.len());
        assert(data@ =~= pkt@.skip(off as int));
        self.count(cc);
        if starts {
            let old_len: usize = if 1 + data[0] as usize <= data.len() {
                data[0] as usize
            } else {
                data.len() - 1
            };
            self.extend(slice_subrange(data, 1, 1 + old_len));
            self.partial.clear();
            self.partial_valid = true;
            assert(data@.skip(1 + old_len) =~= data@.subrange(1 + old_len, data@.len() as int));
            self.extend(slice_subrange(data, 1 + old_len, data.len()));
        } else {
            self.extend(data);
        }
    }

    /// Takes the counter of a packet. Where it is not the one that was due, drops
    /// the section being assembled.
    fn count(&mut self, cc: u8)
        ensures
            final(self)@ == counted(old(self)@, cc),
    {
        if let Some(prev) = self.last_cc {
            if cc as u16 != (prev as u16 + 1) % 16 {
                self.partial.clear();
                self.partial_valid = false;
                self.cc_drops = self.cc_drops.saturating_add(1);
            }
        }
        self.last_cc = Some(cc);
    }

    /// Puts `data` behind the section being assembled, if that is valid, and
    /// moves what is whole to the ready sections.
    fn extend(&mut self, data: &[u8])
        ensures
            final(self)@ == with_data(old(self)@, data@),
    {
        if self.partial_valid {
            append_bytes(&mut self.partial, data);
            self.try_complete();
        }
    }

    /// Moves the sections that are whole to the ready ones.
    fn try_complete(&mut self)
        ensures
            final(self)@ == (AssemblerView {
                partial: completed(old(self)@.partial).1,
                ready: old(self)@.ready + completed(old(self)@.partial).0,
                ..old(self)@
            }),
    {
        let ghost all = self.partial@;
        let ghost ready_before = views(self.ready@);
        let mut off: usize = 0;
        assert(all.skip(0) =~= all);
        assert(views(self.ready@) + completed(all).0 =~= ready_before + completed(all).0);
        while self.partial.len() - off >= 3
            invariant
                self.partial@ == all,
                all == old(self).partial@,
                ready_before == views(old(self).ready@),
                off <= all.len(),
                completed(all.skip(off as int)).1 == completed(all).1,
                views(self.ready@) + completed(all.skip(off as int)).0 == ready_before
                    + completed(all).0,
                self.pid == old(self).pid,
                self.last_cc == old(self).last_cc,
                self.partial_valid == old(self).partial_valid,
                self.cc_drops == old(self).cc_drops,
            decreases all.len() - off,
        {
            let ghost rest = all.skip(off as int);
            if self.partial[off] == 0xff {
                off = self.skip_stuffing(off);
            } else {
                let total: usize = 3 + read_low12(self.partial[off + 1], self.partial[off + 2]);
                assert(total == total_len(rest));
                if total > 4096 {
                    self.partial.clear();
                    assert(views(self.ready@) + Seq::<Seq<u8>>::empty() =~= views(self.ready@));
                    assert(self@ =~= (AssemblerView {
                        partial: completed(old(self)@.partial).1,
                        ready: old(self)@.ready + completed(old(self)@.partial).0,
                        ..old(self)@
                    }));
                    return ;
                }
                if self.partial.len() - off < total {
                    self.partial = self.partial.split_off(off);
                    assert(self.partial@ =~= rest);
                    assert(views(self.ready@) + Seq::<Seq<u8>>::empty() =~= views(self.ready@));
                    assert(self@ =~= (AssemblerView {
                        partial: completed(old(self)@.partial).1,
                        ready: old(self)@.ready + completed(old(self)@.partial).0,
                        ..old(self)@
                    }));
                    return ;
                }
                let section = slice_to_vec(
                    slice_subrange(self.partial.as_slice(), off, off + total),
                );
                let ghost before = views(self.ready@);
                proof {
                    assert(section@ =~= rest.take(total as int));
                    assert(rest.skip(total as int) =~= all.skip(off + total));
                    lemma_views_push(self.ready@, section);
                    let more = completed(rest.skip(total as int)).0;
                    assert(before + (seq![section@] + more) =~= before.push(section@) + more);
                }
                self.ready.push(section);
                off += total;
            }
        }
        self.partial = self.partial.split_off(off);
        assert(self.partial@ =~= all.skip(off as int));
        assert(views(self.ready@) + Seq::<Seq<u8>>::empty() =~= views(self.ready@));
        assert(self@ =~= (AssemblerView {
            partial: completed(old(self)@.partial).1,
            ready: old(self)@.ready + completed(old(self)@.partial).0,
            ..old(self)@
        }));
    }

    /// Where the stuffing at `from` ends.
    fn skip_stuffing(&self, from: usize) -> (to: usize)
        requires
            from < self.partial@.len(),
            self.partial@[from as int] == 0xff,
        ensures
            from < to <= self.partial@.len(),
            self.partial@.skip(to as int) == without_stuffing(self.partial@.skip(from as int)),
    {
        let mut to: usize = from;
        while to < self.partial.len() && self.partial[to] == 0xff
            invariant
                from <= to <= self.partial@.len(),
                self.partial@[from as int] == 0xff,
                without_stuffing(self.partial@.skip(to as int)) == without_stuffing(
                    self.partial@.skip(from as int),
                ),
            decreases self.partial@.len() - to,
        {
            assert(self.partial@.skip(to as int).skip(1) =~= self.partial@.skip(to + 1));
            to += 1;
        }
        to
    }

    /// Hands over the sections that are whole.
    pub fn drain(&mut self) -> (sections: Vec<Vec<u8>>)
        ensures
            views(sections@) == old(self)@.ready,
            final(self)@ == (AssemblerView { ready: Seq::empty(), ..old(self)@ }),
    {
        let mut sections: Vec<Vec<u8>> = Vec::new();
        std::mem::swap(&mut sections, &mut self.ready);
        assert(views(self.ready@) =~= Seq::empty());
        sections
    }
}

/// Whether bytes are a section with the length that its header gives.
pub open spec fn is_section(s: Seq<u8>) -> bool {
    3 <= s.len() <= 4096 && s[0] != 0xff && total_len(s) == s.len()
}

/// Whether bytes are stuffing and nothing else.
pub open spec fn is_stuffing(s: Seq<u8>) -> bool {
    forall|i: int| 0 <= i < s.len() ==> s[i] == 0xff
}

/// The state behind a list of packets.
pub open spec fn fed_all(st: AssemblerView, packets: Seq<Seq<u8>>) -> AssemblerView
    decreases packets.len(),
{
    if packets.len() == 0 {
        st
    } else {
        fed(fed_all(st, packets.drop_last()), packets.last())
    }
}

/// Whether packets carry the chunks of a section, the first of them with the
/// start of the section right behind its header, with no packet missing between
/// them.
pub open spec fn carries(pid: u16, packets: Seq<Seq<u8>>, chunks: Seq<Seq<u8>>) -> bool {
    &&& packets.len() == chunks.len() >= 1
    &&& starts_section(packets[0])
    &&& is_taken(pid, packets[0])
    &&& payload(packets[0]) == Some(seq![0u8] + chunks[0])
    &&& forall|i: int|
        1 <= i < packets.len() ==> {
            &&& is_taken(pid, #[trigger] packets[i])
            &&& !starts_section(packets[i])
            &&& payload(packets[i]) == Some(chunks[i])
            &&& counter(packets[i]) == (counter(packets[i - 1]) + 1) % 16
        }
}

proof fn lemma_completed_stuffing(s: Seq<u8>)
    requires
        is_stuffing(s),
    ensures
        completed(s).0 == Seq::<Seq<u8>>::empty(),
        is_stuffing(completed(s).1),
        without_stuffing(s).len() == 0,
    decreases s.len(),
{
    if s.len() > 0 {
        lemma_completed_stuffing(s.skip(1));
        if s.len() >= 3 {
            lemma_completed_stuffing(without_stuffing(s));
        }
    }
}

/// How the assembly of a section stands when `data` of it has been seen.
spec fn assembling(
    st: AssemblerView,
    ready: Seq<Seq<u8>>,
    section: Seq<u8>,
    data: Seq<u8>,
) -> bool {
    &&& st.valid
    &&& data.len() < section.len() ==> st.partial == data && st.ready == ready
    &&& data.len() >= section.len() ==> is_stuffing(st.partial) && st.ready == ready.push(section)
}

proof fn lemma_assembling(
    st: AssemblerView,
    ready: Seq<Seq<u8>>,
    section: Seq<u8>,
    stuffing: Seq<u8>,
    data: Seq<u8>,
    chunk: Seq<u8>,
)
    requires
        is_section(section),
        is_stuffing(stuffing),
        assembling(st, ready, section, data),
        (data + chunk).len() <= (section + stuffing).len(),
        data + chunk == (section + stuffing).take((data + chunk).len() as int),
    ensures
        assembling(with_data(st, chunk), ready, section, data + chunk),
{
    let all = data + chunk;
    let whole = section + stuffing;
    assert(forall|i: int| 0 <= i < all.len() ==> all[i] == whole[i]);
    let (sections, rest) = completed(st.partial + chunk);
    if data.len() < section.len() {
        if all.len() < section.len() {
            assert(all.len() >= 3 ==> all[0] == section[0] && all[1] == section[1] && all[2]
                == section[2]);
            assert(st.ready + Seq::<Seq<u8>>::empty() =~= st.ready);
        } else {
            let n = section.len() as int;
            assert(all[0] == section[0] && all[1] == section[1] && all[2] == section[2]);
            assert(all.take(n) =~= section);
            let tail = all.skip(n);
            assert(forall|i: int| 0 <= i < tail.len() ==> tail[i] == whole[n + i]);
            assert(is_stuffing(tail));
            lemma_completed_stuffing(tail);
            assert(sections =~= seq![section]);
            assert(st.ready + sections =~= ready.push(section));
        }
    } else {
        let tail = st.partial + chunk;
        assert forall|i: int| 0 <= i < tail.len() implies tail[i] == 0xff by {
            if i >= st.partial.len() {
                let j = i - st.partial.len();
                assert(all[data.len() + j] == whole[data.len() + j]);
                assert(whole[data.len() + j] == stuffing[data.len() + j - section.len()]);
            }
        }
        lemma_completed_stuffing(tail);
        assert(st.ready + sections =~= st.ready);
    }
}

/// Whether what there is of the section being assembled is no section yet.
pub open spec fn holds_nothing_whole(st: AssemblerView) -> bool {
    st.valid ==> completed(st.partial).0.len() == 0
}

proof fn lemma_rest_is_not_whole(data: Seq<u8>)
    ensures
        completed(completed(data).1).0.len() == 0,
    decreases data.len(),
{
    if data.len() >= 3 {
        if data[0] == 0xff {
            lemma_without_stuffing(data);
            lemma_rest_is_not_whole(without_stuffing(data));
        } else if total_len(data) <= 4096 && data.len() >= total_len(data) {
            lemma_rest_is_not_whole(data.skip(total_len(data) as int));
        }
    }
}

/// No section stays in the assembly when it is whole: not at the start, nor
/// behind any packet, nor when the ready sections are drained.
pub proof fn law_nothing_whole_is_held(st: AssemblerView, p: Seq<u8>)
    ensures
        holds_nothing_whole(fresh(st.pid)),
        holds_nothing_whole(st) ==> holds_nothing_whole(fed(st, p)),
        holds_nothing_whole(st) ==> holds_nothing_whole(
            AssemblerView { ready: Seq::empty(), ..st },
        ),
{
    if is_taken(st.pid, p) {
        let data = payload(p)->0;
        lemma_rest_is_not_whole(counted(st, counter(p)).partial + data);
        lemma_rest_is_not_whole(Seq::<u8>::empty() + data.skip(1 + old_len(data)));
    }
}

/// A section that is spread over packets, with stuffing behind it, is assembled
/// again, once and as it was, whatever of another section was there before it
/// and whether or not a packet was missed before it.
pub proof fn law_section_is_reassembled(
    st: AssemblerView,
    section: Seq<u8>,
    stuffing: Seq<u8>,
    packets: Seq<Seq<u8>>,
    chunks: Seq<Seq<u8>>,
)
    requires
        is_section(section),
        is_stuffing(stuffing),
        holds_nothing_whole(st),
        carries(st.pid, packets, chunks),
        joined(chunks) == section + stuffing,
    ensures
        fed_all(st, packets).ready == st.ready.push(section),
{
    lemma_reassembled(st, section, stuffing, packets, chunks, packets.len() as int);
    assert(packets.take(packets.len() as int) =~= packets);
    assert(chunks.take(chunks.len() as int) =~= chunks);
}

proof fn lemma_reassembled(
    st: AssemblerView,
    section: Seq<u8>,
    stuffing: Seq<u8>,
    packets: Seq<Seq<u8>>,
    chunks: Seq<Seq<u8>>,
    n: int,
)
    requires
        is_section(section),
        is_stuffing(stuffing),
        holds_nothing_whole(st),
        carries(st.pid, packets, chunks),
        joined(chunks) == section + stuffing,
        1 <= n <= packets.len(),
    ensures
        assembling(
            fed_all(st, packets.take(n)),
            st.ready,
            section,
            joined(chunks.take(n)),
        ),
        fed_all(st, packets.take(n)).last_cc == Some(counter(packets[n - 1])),
        fed_all(st, packets.take(n)).pid == st.pid,
    decreases n,
{
    let chunk = chunks[n - 1];
    let before = joined(chunks.take(n - 1));
    let seen = joined(chunks.take(n));
    lemma_joined_split(chunks, n);
    lemma_joined_split(chunks.take(n), n - 1);
    assert(chunks.take(n).take(n - 1) =~= chunks.take(n - 1));
    assert(chunks.take(n).skip(n - 1) =~= seq![chunk]);
    assert(seq![chunk].skip(1) =~= Seq::<Seq<u8>>::empty());
    reveal_with_fuel(joined, 3);
    assert(joined(seq![chunk]) =~= chunk);
    assert(seen =~= before + chunk);
    assert(seen =~= joined(chunks).take(seen.len() as int));
    assert(packets.take(n).drop_last() =~= packets.take(n - 1));
    assert(packets.take(n).last() == packets[n - 1]);
    let prior = fed_all(st, packets.take(n - 1));
    if n == 1 {
        assert(packets.take(0) =~= Seq::<Seq<u8>>::empty());
        assert(chunks.take(0) =~= Seq::<Seq<u8>>::empty());
        assert(prior == st);
        let data = payload(packets[0])->0;
        assert(data =~= seq![0u8] + chunk);
        let before_it = counted(st, counter(packets[0]));
        assert(data.subrange(1, 1) =~= Seq::<u8>::empty());
        let finished = with_data(before_it, Seq::<u8>::empty());
        assert(before_it.partial + Seq::<u8>::empty() =~= before_it.partial);
        assert(finished.ready =~= st.ready);
        let started = AssemblerView { partial: Seq::empty(), valid: true, ..finished };
        assert(data.skip(1) =~= chunk);
        assert(before =~= Seq::<u8>::empty());
        lemma_assembling(started, st.ready, section, stuffing, before, chunk);
    } else {
        lemma_reassembled(st, section, stuffing, packets, chunks, n - 1);
        assert(!is_gap(prior, counter(packets[n - 1])));
        lemma_assembling(counted(prior, counter(packets[n - 1])), st.ready, section, stuffing, before, chunk);
    }
}

/// A packet that shows that another was missed drops the section being
/// assembled. What the packet does is what it does where nothing was being
/// assembled, whatever there was of the old section: no byte of that becomes
/// ready. A packet that starts no section makes nothing ready; one that does
/// makes ready what is whole of the new section and those behind it.
pub proof fn law_gap_drops_the_section(st: AssemblerView, p: Seq<u8>)
    requires
        is_taken(st.pid, p),
        is_gap(st, counter(p)),
    ensures
        fed(st, p) == fed(AssemblerView { last_cc: None, ..after_gap(st) }, p),
        forall|partial: Seq<u8>, valid: bool|
            #[trigger] fed(AssemblerView { partial, valid, ..st }, p) == fed(st, p),
        !starts_section(p) ==> fed(st, p).ready == st.ready && fed(st, p).partial.len() == 0
            && !fed(st, p).valid,
        starts_section(p) ==> ({
            let data = payload(p)->0;
            let (sections, rest) = completed(data.skip(1 + old_len(data)));
            &&& fed(st, p).ready == st.ready + sections
            &&& fed(st, p).partial == rest
            &&& fed(st, p).valid
        }),
{
    if starts_section(p) {
        let data = payload(p)->0;
        let new = data.skip(1 + old_len(data));
        assert(Seq::<u8>::empty() + new =~= new);
    }
}

/// Behind a gap nothing becomes ready until a packet starts a section.
pub proof fn law_nothing_until_a_section_starts(st: AssemblerView, packets: Seq<Seq<u8>>)
    requires
        !st.valid,
        forall|i: int| 0 <= i < packets.len() ==> !starts_section(#[trigger] packets[i]),
    ensures
        fed_all(st, packets).ready == st.ready,
        !fed_all(st, packets).valid,
    decreases packets.len(),
{
    if packets.len() > 0 {
        let front = packets.drop_last();
        assert forall|i: int| 0 <= i < front.len() implies !starts_section(#[trigger] front[i]) by {
            assert(front[i] == packets[i]);
        }
        law_nothing_until_a_section_starts(st, front);
        assert(!starts_section(packets[packets.len() - 1]));
    }
}

/// Whether bytes are as long as their own header says.
pub open spec fn is_sized(s: Seq<u8>) -> bool {
    s.len() >= 3 && s.len() == total_len(s)
}

pub proof fn lemma_completed_sized(data: Seq<u8>)
    ensures
        forall|i: int| 0 <= i < completed(data).0.len() ==> is_sized(#[trigger] completed(data).0[i]),
    decreases data.len(),
{
    if data.len() >= 3 {
        if data[0] == 0xff {
            lemma_without_stuffing(data);
            lemma_completed_sized(without_stuffing(data));
            assert(completed(data) == completed(without_stuffing(data)));
        } else if total_len(data) <= 4096 && data.len() >= total_len(data) {
            let n = total_len(data) as int;
            lemma_completed_sized(data.skip(n));
            let more = completed(data.skip(n)).0;
            let all = completed(data).0;
            assert forall|i: int| 0 <= i < all.len() implies is_sized(#[trigger] all[i]) by {
                if i == 0 {
                    assert(all[0] == data.take(n));
                    assert(all[0][1] == data[1] && all[0][2] == data[2]);
                } else {
                    assert(all[i] == more[i - 1]);
                }
            }
        }
    }
}

/// Every section that becomes ready is as long as its own header says.
pub proof fn law_ready_sections_are_sized(st: AssemblerView, p: Seq<u8>)
    requires
        forall|i: int| 0 <= i < st.ready.len() ==> is_sized(#[trigger] st.ready[i]),
    ensures
        forall|i: int| 0 <= i < fed(st, p).ready.len() ==> is_sized(#[trigger] fed(st, p).ready[i]),
{
    assert forall|a: AssemblerView, data: Seq<u8>|
        (forall|i: int| 0 <= i < a.ready.len() ==> is_sized(#[trigger] a.ready[i])) implies (
    forall|i: int|
        0 <= i < (#[trigger] with_data(a, data)).ready.len() ==> is_sized(
            with_data(a, data).ready[i],
        )) by {
        lemma_completed_sized(a.partial + data);
        let next = with_data(a, data);
        assert forall|i: int| 0 <= i < next.ready.len() implies is_sized(next.ready[i]) by {
            if i < a.ready.len() {
                assert(next.ready[i] == a.ready[i]);
            } else {
                assert(next.ready[i] == completed(a.partial + data).0[i - a.ready.len()]);
            }
        }
    }
}

/// Packets of another identifier change nothing.
pub proof fn law_other_packets_change_nothing(st: AssemblerView, p: Seq<u8>)
    requires
        packet_pid(p) != st.pid,
    ensures
        fed(st, p) == st,
{
}

// ---- Kinds of content ------------------------------------------------------

/// The name of a kind of content, by ARIB STD-B10.
pub open spec fn genre(l1: u8) -> Seq<char> {
    if l1 == 0x0 {
        "ニュース/報道"@
    } else if l1 == 0x1 {
        "スポーツ"@
    } else if l1 == 0x2 {
        "情報/ワイドショー"@
    } else if l1 == 0x3 {
        "ドラマ"@
    } else if l1 == 0x4 {
        "音楽"@
    } else if l1 == 0x5 {
        "バラエティ"@
    } else if l1 == 0x6 {
        "映画"@
    } else if l1 == 0x7 {
        "アニメ/特撮"@
    } else if l1 == 0x8 {
        "ドキュメンタリー/教養"@
    } else if l1 == 0x9 {
        "劇場/公演"@
    } else if l1 == 0xa {
        "趣味/教育"@
    } else if l1 == 0xb {
        "福祉"@
    } else if l1 == 0xf {
        "その他"@
    } else {
        "不明"@
    }
}

/// The name of a kind of content. It depends on the first half byte alone.
pub fn content_genre(l1: u8, _l2: u8) -> (name: &'static str)
    ensures
        name@ == genre(l1),
{
    match l1 {
        0x0 => "ニュース/報道",
        0x1 => "スポーツ",
        0x2 => "情報/ワイドショー",
        0x3 => "ドラマ",
        0x4 => "音楽",
        0x5 => "バラエティ",
        0x6 => "映画",
        0x7 => "アニメ/特撮",
        0x8 => "ドキュメンタリー/教養",
        0x9 => "劇場/公演",
        0xa => "趣味/教育",
        0xb => "福祉",
        0xf => "その他",
        _ => "不明",
    }
}

} // verus!
