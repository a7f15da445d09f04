//! What the functions of the library return, in the terms that the other laws
//! speak of.

use crate::arib_b24::{
    decode_jis, decode_with, decoded, euc_jp_decoding, kanji_from_decoding, CharSet, SymbolTables,
};
use crate::channel::{channel_of, read_number, Channel, ChannelsFile};
use crate::config::{
    channel_record_to_entry, channels_doc_version, channels_from_entries, conf_entries,
    entries_from_document, needs_generated_id, parse_dvbr_aliases, parse_dvbv5_conf,
    record_entries, record_entry, ChannelRecord, ChannelsDocument, DvbV5Entry,
};
use crate::eit::{
    clock_text, date_text, datetime, duration, eit, parse_datetime, parse_duration,
    parse_eit_section, DateTime, EIT_ACTUAL_PF, EIT_ACTUAL_SCHED_FIRST, EIT_ACTUAL_SCHED_LAST,
    EIT_OTHER_PF, EIT_PID, EIT_PID_ONESEG, EitEvent, EitSection, HmsDuration, TS_PACKET_SIZE,
};
use crate::epg::{
    drop_empty_events, event_views, gather_events, gathered, in_order, sort_events, ServiceEvent,
};
use crate::error::Error;
use crate::laws::channels::{foreign, is_first_free_name, lemma_free_name, lemma_written};
use crate::laws::decoding::names_set;
use crate::laws::guide::{is_more_than_blank, law_blank_events_are_dropped};
use crate::laws::merging::{are_new_settings, law_placeholders, lemma_new_settings, stands_in};
use crate::laws::texts::reads_as;
use crate::names::unique_name;
use crate::scan::{is_placeholder_name, new_record};
use crate::si_reader::{numbers, section_numbers, SI_READ_TIMEOUT_SECS};
use crate::si_tables::{
    crc32, crc32_mpeg, crc_ok, parse_pat, parse_pmt, parse_sdt, pat, pmt, sdt,
    section_byte_len_from_prefix, section_crc_ok, PatProgram, Pmt, SdtService,
};
use crate::text::texts;
use crate::text_map::TextMap;
use crate::toml_doc::integer_text;
use crate::tuner::{
    delivery_from_uppercase, delivery_system, inversion, inversion_from_uppercase, modulation,
    modulation_from_uppercase, transmission_from_uppercase, transmission_mode, usual_bandwidth,
};
use crate::views::views;
use vstd::prelude::*;

verus! {

/// What is read of sections.
pub proof fn law_parsed_sections(
    section: &[u8],
    programs: Result<Vec<PatProgram>, Error>,
    map: Result<Pmt, Error>,
    services: Result<Vec<SdtService>, Error>,
    events: Result<EitSection, Error>,
)
    requires
        call_ensures(parse_pat, (section,), programs),
        call_ensures(parse_pmt, (section,), map),
        call_ensures(parse_sdt, (section,), services),
        call_ensures(parse_eit_section, (section,), events),
    ensures
        match pat(section@) {
            Ok(p) => programs matches Ok(v) && v@ == p,
            Err(e) => programs matches Err(x) && x@ == e,
        },
        match pmt(section@) {
            Ok(p) => map matches Ok(v) && v@ == p,
            Err(e) => map matches Err(x) && x@ == e,
        },
        match sdt(section@) {
            Ok(p) => services matches Ok(v) && views(v@) == p,
            Err(e) => services matches Err(x) && x@ == e,
        },
        match eit(section@) {
            Ok(p) => events matches Ok(v) && v@ == p,
            Err(e) => events matches Err(x) && x@ == e,
        },
{
}

/// What is told of bytes: their CRC, whether it is right, the length that the
/// header of a section gives, and its numbers.
pub proof fn law_told_of_bytes(
    data: &[u8],
    crc: u32,
    ok: bool,
    len: Option<usize>,
    found: Option<(u8, u8)>,
)
    requires
        call_ensures(crc32_mpeg, (data,), crc),
        call_ensures(section_crc_ok, (data,), ok),
        call_ensures(section_byte_len_from_prefix, (data,), len),
        call_ensures(section_numbers, (data,), found),
    ensures
        crc == crc32(data@),
        ok == crc_ok(data@),
        data@.len() < 4 ==> !ok,
        len is None <==> data@.len() < 3,
        len matches Some(n) ==> n == 3 + (data@[1] % 16) * 256 + data@[2],
        found == numbers(data@),
{
}

/// Times are read of bytes and written as texts.
pub proof fn law_times(
    b: &[u8],
    start: Option<DateTime>,
    length: Option<HmsDuration>,
    d: &DateTime,
    date: String,
    h: &HmsDuration,
    clock: String,
)
    requires
        call_ensures(parse_datetime, (b,), start),
        call_ensures(parse_duration, (b,), length),
        call_ensures(DateTime::text, (d,), date),
        call_ensures(HmsDuration::text, (h,), clock),
    ensures
        start == datetime(b@),
        length == duration(b@),
        date@ == date_text(*d),
        clock@ == clock_text(h.hour, h.min, h.sec),
{
}

/// What is read of `.conf` files, of documents and of records.
pub proof fn law_read_lists(
    text: &str,
    entries: Result<Vec<DvbV5Entry>, Error>,
    doc: ChannelsDocument,
    of_doc: Result<Vec<DvbV5Entry>, Error>,
    r: ChannelRecord,
    of_record: Result<DvbV5Entry, Error>,
    s: &str,
    aliases: Vec<String>,
    version: u32,
)
    requires
        call_ensures(parse_dvbv5_conf, (text,), entries),
        call_ensures(entries_from_document, (doc,), of_doc),
        call_ensures(channel_record_to_entry, (r,), of_record),
        call_ensures(parse_dvbr_aliases, (s,), aliases),
        call_ensures(channels_doc_version, (), version),
    ensures
        match conf_entries(text@) {
            Ok(p) => entries matches Ok(v) && views(v@) == p,
            Err(e) => entries matches Err(x) && x@ == e,
        },
        match record_entries(doc@.channels) {
            Ok(p) => of_doc matches Ok(v) && views(v@) == p,
            Err(e) => of_doc matches Err(x) && x@ == e,
        },
        match record_entry(r@) {
            Ok(p) => of_record matches Ok(v) && v@ == p,
            Err(e) => of_record matches Err(x) && x@ == e,
        },
        texts(aliases@) == crate::config::alias_list(s@),
        version == 1,
{
}

/// A list of channels is the channels of the entries, in order.
pub proof fn law_converted_lists(entries: Vec<DvbV5Entry>, file: ChannelsFile, i: int)
    requires
        call_ensures(channels_from_entries, (entries,), file),
    ensures
        file.channels@.len() == entries@.len(),
        0 <= i < entries@.len() ==> file.channels@[i]@ == entries@[i].channel@,
{
    assert(file@.len() == entries@.len());
    if 0 <= i < entries@.len() {
        assert(file@[i] == views(entries@)[i].channel);
        assert(file@[i] == file.channels@[i]@);
    }
}

/// Whether a title is garbled, and whether a name only stands in for another.
pub proof fn law_judged_names(title: &str, name: &str, garbled: bool, placeholder: bool)
    requires
        call_ensures(needs_generated_id, (title, name), garbled),
        call_ensures(is_placeholder_name, (name,), placeholder),
    ensures
        garbled <==> title@.contains('|') || title@.contains('!') || title@.contains('%') || name@
            == title@ && foreign(name@).len() > 2,
        placeholder <==> stands_in(name@),
{
    crate::laws::channels::lemma_foreign(name@);
    law_placeholders(name@);
}

/// What the parts of the decoder of texts tell: the set of a final byte, the
/// character of a decoding and of a row and a column, how long a control sequence
/// is, and the text by given tables.
pub proof fn law_decoder_parts(
    two_byte: bool,
    f: u8,
    cs: CharSet,
    text: &str,
    had_errors: bool,
    c: Option<char>,
    ku: u8,
    ten: u8,
    kanji: Option<char>,
    tables: SymbolTables<'_>,
    input: &[u8],
    out: String,
)
    requires
        call_ensures(CharSet::from_f, (two_byte, f), cs),
        call_ensures(kanji_from_decoding, (text, had_errors), c),
        call_ensures(decode_jis, (ku, ten), kanji),
        call_ensures(decode_with, (tables, input), out),
        ku < 94,
        ten < 94,
    ensures
        names_set(two_byte, f, cs),
        had_errors ==> c == Some('〓'),
        !had_errors && text@.len() == 0 ==> c is None,
        !had_errors && text@.len() > 0 && text@[0] == '\u{fffd}' ==> c == Some('〓'),
        !had_errors && text@.len() > 0 && text@[0] != '\u{fffd}' ==> c == Some(text@[0]),
        ({
            let (chars, wrong) = euc_jp_decoding(seq![(0xa1 + ku) as u8, (0xa1 + ten) as u8]);
            &&& wrong ==> kanji == Some('〓')
            &&& !wrong && chars.len() == 0 ==> kanji is None
            &&& !wrong && chars.len() > 0 && chars[0] == '\u{fffd}' ==> kanji == Some('〓')
            &&& !wrong && chars.len() > 0 && chars[0] != '\u{fffd}' ==> kanji == Some(chars[0])
        }),
        out@ == decoded(tables@, input@),
{
    assert(crate::arib_b24::euc_pair(ku, ten) =~= seq![(0xa1 + ku) as u8, (0xa1 + ten) as u8]);
}

/// Integers of TOML are written in decimal, with a minus sign where they are below
/// zero.
pub proof fn law_integers(i: i64)
    ensures
        i >= 0 ==> integer_text(i) == crate::text::decimal(i as nat),
        i < 0 ==> integer_text(i) == seq!['-'] + crate::text::decimal((-i) as nat),
{
}

/// A record for a service has the name that it is given and the settings of the
/// service alone.
pub proof fn law_new_records(name: &str, svc: &Channel, r: ChannelRecord)
    requires
        call_ensures(new_record, (name, svc), r),
    ensures
        r.name@ == name@,
        r@.aliases.len() == 0,
        r@.legacy_zap_section is None,
        are_new_settings(r@.tuning, svc@),
{
    lemma_new_settings(svc@);
}

/// What is made of events on the way to a guide.
pub proof fn law_steps_to_a_guide(
    sections: &Vec<EitSection>,
    gathered_events: Vec<(u16, EitEvent)>,
    list: Vec<(u16, EitEvent)>,
    sorted: Vec<(u16, EitEvent)>,
    left: Vec<(u16, EitEvent)>,
)
    requires
        call_ensures(gather_events, (sections,), gathered_events),
        call_ensures(sort_events, (list,), sorted),
        call_ensures(drop_empty_events, (list,), left),
    ensures
        event_views(gathered_events@) == gathered(views(sections@)),
        event_views(sorted@) == in_order(event_views(list@)),
        event_views(left@) == event_views(list@).filter(
            |e: ServiceEvent| is_more_than_blank(e.1.title) || is_more_than_blank(e.1.text),
        ),
{
    law_blank_events_are_dropped(event_views(list@));
}

/// What is read of settings.
pub proof fn law_read_settings(
    name: &str,
    m: &TextMap,
    a: Result<Channel, String>,
    b: Result<Channel, String>,
    key: &str,
    max: u32,
    n: Option<u32>,
)
    requires
        call_ensures(Channel::from_dvbv5_section, (name, m), a),
        call_ensures(Channel::from_named_tuning, (name, m), b),
        call_ensures(read_number, (m, key, max), n),
    ensures
        match channel_of(name@, m@) {
            Ok(c) => (a matches Ok(x) && x@ == c) && (b matches Ok(y) && y@ == c),
            Err(e) => (a matches Err(x) && x@ == e) && (b matches Err(y) && y@ == e),
        },
        n matches Some(k) ==> m@.contains_key(key@) && reads_as(m@[key@], max as nat, k as int),
        n is None ==> !(m@.contains_key(key@) && exists|k: int| reads_as(m@[key@], max as nat, k)),
{
    if m@.contains_key(key@) {
        lemma_written(m@[key@], max as nat, 0);
        if let Some(k) = n {
            lemma_written(m@[key@], max as nat, k as nat);
        }
    }
}

/// A name that is free, by the names that are taken.
pub proof fn law_names_that_are_given(base: &str, taken: &Vec<String>, name: String)
    requires
        call_ensures(unique_name, (base, taken), name),
    ensures
        is_first_free_name(name@, base@, |s: Seq<char>| texts(taken@).contains(s)),
{
    let earlier = |s: Seq<char>| texts(taken@).contains(s);
    assert forall|s: Seq<char>| #[trigger] texts(taken@).contains(s) <==> earlier(s) by {}
    lemma_free_name(name@, base@, texts(taken@), earlier);
}

/// Whether an entry answers to a name: by its channel's name, its section's title
/// or one of its aliases.
pub proof fn law_answers(e: &DvbV5Entry, q: &str, yes: bool)
    requires
        call_ensures(DvbV5Entry::matches_lookup, (e, q), yes),
    ensures
        yes <==> e.channel.name@ == q@ || e.section_title@ == q@ || exists|k: int|
            0 <= k < e.aliases@.len() && (#[trigger] e.aliases@[k])@ == q@,
{
    if e@.aliases.contains(q@) {
        let k = choose|k: int| 0 <= k < e@.aliases.len() && e@.aliases[k] == q@;
        assert(e.aliases@[k]@ == q@);
    }
    if exists|k: int| 0 <= k < e.aliases@.len() && (#[trigger] e.aliases@[k])@ == q@ {
        let k = choose|k: int| 0 <= k < e.aliases@.len() && (#[trigger] e.aliases@[k])@ == q@;
        assert(e@.aliases[k] == q@);
    }
}

/// The words of settings, where they are in capitals already, and a width that is
/// not given.
pub proof fn law_words_in_capitals(
    word: &str,
    a: u32,
    b: u32,
    c: u32,
    d: u32,
    width: u32,
    usual: u32,
)
    requires
        call_ensures(inversion_from_uppercase, (word,), a),
        call_ensures(transmission_from_uppercase, (word,), b),
        call_ensures(delivery_from_uppercase, (word,), c),
        call_ensures(modulation_from_uppercase, (word,), d),
        call_ensures(usual_bandwidth, (width,), usual),
    ensures
        a == inversion(word@),
        b == transmission_mode(word@),
        c == delivery_system(word@),
        d == modulation(word@),
        usual == (if width == 0 {
            6_000_000
        } else {
            width
        }),
{
}

/// The numbers of tables and packets.
pub proof fn law_numbers_of_tables()
    ensures
        EIT_PID == 0x12,
        EIT_PID_ONESEG == 0x27,
        EIT_ACTUAL_PF == 0x4e,
        EIT_OTHER_PF == 0x4f,
        EIT_ACTUAL_SCHED_FIRST == 0x50,
        EIT_ACTUAL_SCHED_LAST == 0x5f,
        TS_PACKET_SIZE == 188,
        SI_READ_TIMEOUT_SECS == 5,
{
}

} // verus!
