//! Scanning a transport, and folding what was found into a channel list.

use crate::channel::{Channel, ChannelView, ChannelsFile, Settings};
use crate::config::{
    add_text, record_entry, with_text, ChannelRecord, ChannelsDocument, DocumentView, DvbV5Entry, EntryView,
    RecordView,
};
use crate::error::{outcome, Error, ErrorView};
use crate::names::{free_name, law_free_name_is_not_taken, unique_name};
use crate::si_tables::{
    checked, headless, parse_pat, parse_sdt, pat, sdt, PatProgram, SdtService,
    SdtServiceView,
};
use crate::text::{
    begins_with, chars_of, contains_text, copy_range, decimal, decimal_text, find_char, find_part,
    has_part, has_prefix, is_digit, lemma_decimal_reads_back, lemma_texts_push, same_text, split_once, texts,
    uppercase,
};
use crate::text_map::TextMap;
use crate::tuner::{
    bandwidth_or_default, build_props_from_dvbv5, build_props_simple_isdbt, entry_properties,
    simple_isdbt_properties, usual_bandwidth, DtvProperty,
};
use crate::views::{lemma_views_push, views};
use vstd::prelude::*;

verus! {

// ---- Placeholders ----------------------------------------------------------

/// Whether `s` is one or more decimal digits.
pub open spec fn is_number(s: Seq<char>) -> bool {
    s.len() > 0 && forall|i: int| 0 <= i < s.len() ==> is_digit(#[trigger] s[i])
}

/// Whether a name is one that stands in for a name that is not known:
/// `program_1064`, `service_1064`, `u1065_539142857` or `539.14MHz#1065`.
pub open spec fn is_placeholder(name: Seq<char>) -> bool {
    if begins_with(name, "program_"@) {
        is_number(name.skip("program_"@.len() as int))
    } else if begins_with(name, "service_"@) {
        is_number(name.skip("service_"@.len() as int))
    } else if name.len() > 0 && name[0] == 'u' && split_once(name.skip(1), '_') is Some {
        let (service, frequency) = split_once(name.skip(1), '_')->0;
        is_number(service) && is_number(frequency)
    } else {
        has_part(name, "MHz#"@)
    }
}

fn number_only(chars: &[char], from: usize, to: usize) -> (yes: bool)
    requires
        from <= to <= chars@.len(),
    ensures
        yes == is_number(chars@.subrange(from as int, to as int)),
{
    let ghost part = chars@.subrange(from as int, to as int);
    let mut i: usize = from;
    while i < to
        invariant
            from <= i <= to <= chars@.len(),
            part == chars@.subrange(from as int, to as int),
            forall|j: int| 0 <= j < i - from ==> is_digit(#[trigger] part[j]),
        decreases to - i,
    {
        let c = chars[i];
        assert(part[i - from] == c);
        if c < '0' || '9' < c {
            return false;
        }
        i += 1;
    }
    to > from
}

/// Whether a name is one that stands in for a name that is not known.
pub fn is_placeholder_name(name: &str) -> (yes: bool)
    ensures
        yes == is_placeholder(name@),
{
    let chars = chars_of(name);
    let program = chars_of("program_");
    let service = chars_of("service_");
    assert(forall|n: int|
        0 <= n <= chars@.len() ==> #[trigger] chars@.subrange(n, chars@.len() as int)
            == chars@.skip(n));
    if has_prefix(&chars, &program) {
        return number_only(&chars, program.len(), chars.len());
    }
    if has_prefix(&chars, &service) {
        return number_only(&chars, service.len(), chars.len());
    }
    if chars.len() > 0 && chars[0] == 'u' {
        let rest = copy_range(&chars, 1, chars.len());
        assert(rest@ =~= chars@.skip(1));
        let at = find_char(&rest, '_');
        if at < rest.len() {
            assert(rest@.subrange(0, at as int) =~= rest@.take(at as int));
            assert(rest@.subrange(at + 1, rest@.len() as int) =~= rest@.skip(at + 1));
            return number_only(&rest, 0, at) && number_only(&rest, at + 1, rest.len());
        }
    }
    find_part(&chars, &chars_of("MHz#"))
}

// ---- Merging ---------------------------------------------------------------

/// What a merge changed.
#[derive(Debug, Default, PartialEq, Eq)]
pub struct MergeReport {
    /// Records whose name was a placeholder, with the old name and the new one.
    pub renamed: Vec<(String, String)>,
    /// Records that have the name of their service as a further alias.
    pub aliased: Vec<String>,
    /// Services that no record is for.
    pub unmatched: Vec<u16>,
    /// Records that were made for such services.
    pub added: Vec<String>,
    /// Services that were passed over because the scan had no name for them.
    pub nameless: Vec<u16>,
}

#[verifier::ext_equal]
pub struct ReportView {
    pub renamed: Seq<(Seq<char>, Seq<char>)>,
    pub aliased: Seq<Seq<char>>,
    pub unmatched: Seq<u16>,
    pub added: Seq<Seq<char>>,
    pub nameless: Seq<u16>,
}

/// Pairs of texts by their characters.
pub open spec fn text_pairs(list: Seq<(String, String)>) -> Seq<(Seq<char>, Seq<char>)> {
    list.map_values(|p: (String, String)| (p.0@, p.1@))
}

impl View for MergeReport {
    type V = ReportView;

    open spec fn view(&self) -> ReportView {
        ReportView {
            renamed: text_pairs(self.renamed@),
            aliased: texts(self.aliased@),
            unmatched: self.unmatched@,
            added: texts(self.added@),
            nameless: self.nameless@,
        }
    }
}

/// A report of nothing.
pub open spec fn nothing_changed() -> ReportView {
    ReportView {
        renamed: Seq::empty(),
        aliased: Seq::empty(),
        unmatched: Seq::empty(),
        added: Seq::empty(),
        nameless: Seq::empty(),
    }
}

/// Everything that a record answers to.
pub open spec fn record_answers(r: RecordView) -> Seq<Seq<char>> {
    seq![r.name] + r.aliases + match r.legacy_zap_section {
        Some(s) => seq![s],
        None => Seq::empty(),
    }
}

/// Everything that some record of a list answers to.
pub open spec fn all_answers(records: Seq<RecordView>) -> Seq<Seq<char>>
    decreases records.len(),
{
    if records.len() == 0 {
        Seq::empty()
    } else {
        all_answers(records.drop_last()) + record_answers(records.last())
    }
}

/// Whether a record is for a service on a frequency.
pub open spec fn is_for(r: RecordView, service_id: u16, frequency: u32) -> bool {
    &&& r.tuning.contains_key("SERVICE_ID"@)
    &&& r.tuning["SERVICE_ID"@] == decimal(service_id as nat)
    &&& r.tuning.contains_key("FREQUENCY"@)
    &&& r.tuning["FREQUENCY"@] == decimal(frequency as nat)
}

/// The place of the first record for a service on a frequency, or the number of
/// records.
pub open spec fn place_for(records: Seq<RecordView>, service_id: u16, frequency: u32) -> int
    decreases records.len(),
{
    if records.len() == 0 || is_for(records[0], service_id, frequency) {
        0
    } else {
        1 + place_for(records.skip(1), service_id, frequency)
    }
}

/// The settings of a record for a service: what a tune needs and nothing more.
pub open spec fn new_settings(svc: ChannelView) -> Settings {
    Map::<Seq<char>, Seq<char>>::empty().insert("DELIVERY_SYSTEM"@, svc.delivery).insert(
        "FREQUENCY"@,
        decimal(svc.frequency as nat),
    ).insert("BANDWIDTH_HZ"@, decimal(bandwidth_or_default(svc.bandwidth_hz) as nat)).insert(
        "SERVICE_ID"@,
        decimal(svc.service_id as nat),
    )
}

/// A record for a service that had none.
pub open spec fn new_record_view(name: Seq<char>, svc: ChannelView) -> RecordView {
    RecordView {
        name,
        aliases: Seq::empty(),
        legacy_zap_section: None,
        tuning: new_settings(svc),
    }
}

/// How a merge stands.
#[verifier::ext_equal]
pub struct MergeView {
    pub channels: Seq<RecordView>,
    /// Everything that some record answers to.
    pub taken: Seq<Seq<char>>,
    pub report: ReportView,
}

/// Whether the scan had no name for a service.
pub open spec fn is_nameless(svc: ChannelView) -> bool {
    svc.name.len() == 0 || is_placeholder(svc.name)
}

/// A merge when a service is added.
pub open spec fn with_added(st: MergeView, svc: ChannelView) -> MergeView {
    let name = free_name(svc.name, st.taken);
    MergeView {
        channels: st.channels.push(new_record_view(name, svc)),
        taken: st.taken.push(name),
        report: ReportView { added: st.report.added.push(name), ..st.report },
    }
}

/// A merge when the record at `i` gets the name of its service in place of a
/// placeholder, which stays an alias.
pub open spec fn with_renamed(st: MergeView, i: int, svc: ChannelView) -> MergeView {
    let r = st.channels[i];
    let name = free_name(svc.name, st.taken);
    MergeView {
        channels: st.channels.update(
            i,
            RecordView { name, aliases: with_text(r.aliases, r.name), ..r },
        ),
        taken: st.taken.push(name).push(r.name),
        report: ReportView { renamed: st.report.renamed.push((r.name, name)), ..st.report },
    }
}

/// A merge when the record at `i` gets the name of its service as an alias.
pub open spec fn with_aliased(st: MergeView, i: int, svc: ChannelView) -> MergeView {
    let r = st.channels[i];
    MergeView {
        channels: st.channels.update(i, RecordView { aliases: r.aliases.push(svc.name), ..r }),
        taken: st.taken.push(svc.name),
        report: ReportView { aliased: st.report.aliased.push(r.name), ..st.report },
    }
}

/// A merge behind one more service.
pub open spec fn after_service(st: MergeView, svc: ChannelView, add_new: bool) -> MergeView {
    let i = place_for(st.channels, svc.service_id, svc.frequency);
    if is_nameless(svc) {
        MergeView {
            report: ReportView {
                nameless: st.report.nameless.push(svc.service_id),
                ..st.report
            },
            ..st
        }
    } else if i >= st.channels.len() {
        let st = MergeView {
            report: ReportView {
                unmatched: st.report.unmatched.push(svc.service_id),
                ..st.report
            },
            ..st
        };
        if add_new {
            with_added(st, svc)
        } else {
            st
        }
    } else if is_placeholder(st.channels[i].name) {
        with_renamed(st, i, svc)
    } else if st.channels[i].name != svc.name && !st.channels[i].aliases.contains(svc.name) {
        with_aliased(st, i, svc)
    } else {
        st
    }
}

/// A merge behind a list of services.
pub open spec fn after_services(
    st: MergeView,
    services: Seq<ChannelView>,
    add_new: bool,
) -> MergeView
    decreases services.len(),
{
    if services.len() == 0 {
        st
    } else {
        after_service(
            after_services(st, services.drop_last(), add_new),
            services.last(),
            add_new,
        )
    }
}

/// A merge before its first service.
pub open spec fn merge_start(channels: Seq<RecordView>) -> MergeView {
    MergeView { channels, taken: all_answers(channels), report: nothing_changed() }
}

/// A merge of services into records.
pub open spec fn merged(
    channels: Seq<RecordView>,
    services: Seq<ChannelView>,
    add_new: bool,
) -> MergeView {
    after_services(merge_start(channels), services, add_new)
}

/// Everything that some record of a list answers to.
fn collect_answers(records: &Vec<ChannelRecord>) -> (out: Vec<String>)
    ensures
        texts(out@) == all_answers(views(records@)),
{
    let ghost all = views(records@);
    let mut out: Vec<String> = Vec::new();
    let mut i: usize = 0;
    assert(all.take(0) =~= Seq::<RecordView>::empty());
    assert(texts(out@) =~= Seq::<Seq<char>>::empty());
    while i < records.len()
        invariant
            all == views(records@),
            i <= records@.len(),
            texts(out@) == all_answers(all.take(i as int)),
        decreases records@.len() - i,
    {
        let r = &records[i];
        let ghost before = texts(out@);
        assert(all.take(i + 1).drop_last() =~= all.take(i as int));
        assert(all.take(i + 1).last() == r@);
        let mut more = crate::text::copy_texts(&r.aliases);
        let name = r.name.clone();
        proof {
            lemma_texts_push(out@, name);
        }
        out.push(name);
        let ghost named = texts(out@);
        let ghost head = out@;
        let ghost tail = more@;
        out.append(&mut more);
        assert(texts(out@) =~= named + texts(tail));
        match &r.legacy_zap_section {
            Some(s) => {
                let copy = s.clone();
                proof {
                    lemma_texts_push(out@, copy);
                }
                out.push(copy);
            },
            None => {},
        }
        assert(texts(out@) =~= before + record_answers(r@));
        i += 1;
    }
    assert(all.take(i as int) =~= all);
    out
}

/// Whether a setting of a record has a text.
fn setting_is(m: &TextMap, key: &str, value: &str) -> (yes: bool)
    ensures
        yes == (m@.contains_key(key@) && m@[key@] == value@),
{
    match m.get(key) {
        Some(s) => same_text(s.as_str(), value),
        None => false,
    }
}

/// The place of the first record for a service on a frequency.
fn find_place(records: &Vec<ChannelRecord>, service_id: u16, frequency: u32) -> (at: usize)
    ensures
        at == place_for(views(records@), service_id, frequency),
        at <= records@.len(),
        at < records@.len() ==> is_for(views(records@)[at as int], service_id, frequency),
{
    let service = decimal_text(service_id as u128);
    let freq = decimal_text(frequency as u128);
    let ghost all = views(records@);
    let mut i: usize = 0;
    assert(all.skip(0) =~= all);
    while i < records.len()
        invariant
            all == views(records@),
            i <= records@.len(),
            service@ == decimal(service_id as nat),
            freq@ == decimal(frequency as nat),
            place_for(all, service_id, frequency) == i + place_for(
                all.skip(i as int),
                service_id,
                frequency,
            ),
        decreases records@.len() - i,
    {
        let r = &records[i];
        assert(all.skip(i as int)[0] == r@);
        assert(all.skip(i as int).skip(1) =~= all.skip(i + 1));
        if setting_is(&r.tuning, "SERVICE_ID", service.as_str()) && setting_is(
            &r.tuning,
            "FREQUENCY",
            freq.as_str(),
        ) {
            return i;
        }
        i += 1;
    }
    i
}

/// A record for a service that had none.
pub fn new_record(name: &str, svc: &Channel) -> (r: ChannelRecord)
    ensures
        r@ == new_record_view(name@, svc@),
{
    let mut tuning = TextMap::new();
    tuning.insert("DELIVERY_SYSTEM".to_owned(), svc.delivery.clone());
    tuning.insert("FREQUENCY".to_owned(), decimal_text(svc.frequency as u128));
    tuning.insert(
        "BANDWIDTH_HZ".to_owned(),
        decimal_text(usual_bandwidth(svc.bandwidth_hz) as u128),
    );
    tuning.insert("SERVICE_ID".to_owned(), decimal_text(svc.service_id as u128));
    let aliases: Vec<String> = Vec::new();
    assert(texts(aliases@) =~= Seq::<Seq<char>>::empty());
    ChannelRecord { name: name.to_owned(), aliases, legacy_zap_section: None, tuning }
}

/// How a merge stands, by what it works on.
pub open spec fn merge_view(
    channels: Seq<ChannelRecord>,
    taken: Seq<String>,
    report: MergeReport,
) -> MergeView {
    MergeView { channels: views(channels), taken: texts(taken), report: report@ }
}

/// Takes the name of a service for a record whose name is a placeholder.
fn rename_record(
    channels: &mut Vec<ChannelRecord>,
    taken: &mut Vec<String>,
    report: &mut MergeReport,
    at: usize,
    svc: &Channel,
)
    requires
        at < old(channels)@.len(),
    ensures
        merge_view(final(channels)@, final(taken)@, *final(report)) == with_renamed(
            merge_view(old(channels)@, old(taken)@, *old(report)),
            at as int,
            svc@,
        ),
{
    let name = unique_name(svc.name.as_str(), taken);
    let mut r = channels.remove(at);
    let ghost before = r@;
    let old_name = r.name.clone();
    let given = name.clone();
    report.renamed.push((old_name.clone(), name.clone()));
    proof {
        lemma_texts_push(taken@, given);
    }
    taken.push(given);
    add_text(&mut r.aliases, old_name.as_str());
    proof {
        lemma_texts_push(taken@, old_name);
    }
    taken.push(old_name);
    r.name = name;
    assert(r@ =~= RecordView {
        name: name@,
        aliases: with_text(before.aliases, before.name),
        ..before
    });
    channels.insert(at, r);
    assert(views(channels@) =~= views(old(channels)@).update(at as int, r@));
    assert(report@.renamed =~= old(report)@.renamed.push((before.name, name@)));
}

/// Takes the name of a service as an alias of a record.
fn alias_record(
    channels: &mut Vec<ChannelRecord>,
    taken: &mut Vec<String>,
    report: &mut MergeReport,
    at: usize,
    svc: &Channel,
)
    requires
        at < old(channels)@.len(),
    ensures
        merge_view(final(channels)@, final(taken)@, *final(report)) == with_aliased(
            merge_view(old(channels)@, old(taken)@, *old(report)),
            at as int,
            svc@,
        ),
{
    let mut r = channels.remove(at);
    let ghost before = r@;
    let alias = svc.name.clone();
    let answer = svc.name.clone();
    let name = r.name.clone();
    proof {
        lemma_texts_push(r.aliases@, alias);
        lemma_texts_push(taken@, answer);
        lemma_texts_push(report.aliased@, name);
    }
    r.aliases.push(alias);
    taken.push(answer);
    report.aliased.push(name);
    channels.insert(at, r);
    assert(views(channels@) =~= views(old(channels)@).update(at as int, r@));
}

/// Adds a record for a service that had none.
fn add_record(
    channels: &mut Vec<ChannelRecord>,
    taken: &mut Vec<String>,
    report: &mut MergeReport,
    svc: &Channel,
)
    ensures
        merge_view(final(channels)@, final(taken)@, *final(report)) == with_added(
            merge_view(old(channels)@, old(taken)@, *old(report)),
            svc@,
        ),
{
    let name = unique_name(svc.name.as_str(), taken);
    let r = new_record(name.as_str(), svc);
    let given = name.clone();
    proof {
        lemma_texts_push(taken@, given);
        lemma_texts_push(report.added@, name);
        lemma_views_push(channels@, r);
    }
    taken.push(given);
    channels.push(r);
    report.added.push(name);
}

/// Takes one service into a merge.
fn merge_service(
    channels: &mut Vec<ChannelRecord>,
    taken: &mut Vec<String>,
    report: &mut MergeReport,
    svc: &Channel,
    add_new: bool,
)
    ensures
        merge_view(final(channels)@, final(taken)@, *final(report)) == after_service(
            merge_view(old(channels)@, old(taken)@, *old(report)),
            svc@,
            add_new,
        ),
{
    if svc.name.as_str().is_empty() || is_placeholder_name(svc.name.as_str()) {
        report.nameless.push(svc.service_id);
        return ;
    }
    let at = find_place(channels, svc.service_id, svc.frequency);
    if at >= channels.len() {
        report.unmatched.push(svc.service_id);
        if add_new {
            add_record(channels, taken, report, svc);
        }
        return ;
    }
    if is_placeholder_name(channels[at].name.as_str()) {
        rename_record(channels, taken, report, at, svc);
    } else if !same_text(channels[at].name.as_str(), svc.name.as_str()) && !contains_text(
        &channels[at].aliases,
        svc.name.as_str(),
    ) {
        alias_record(channels, taken, report, at, svc);
    }
}

/// Folds the names of scanned services into a document, by service and
/// frequency. A name that somebody chose stays, and the name of the service
/// becomes an alias; only placeholders are replaced. Nothing is deleted. With
/// `add_new`, services that no record is for get one, if the scan had a name for
/// them.
pub fn merge_scanned(
    doc: &mut ChannelsDocument,
    scanned: &ChannelsFile,
    add_new: bool,
) -> (report: MergeReport)
    ensures
        final(doc)@ == (DocumentView {
            channels: merged(old(doc)@.channels, scanned@, add_new).channels,
            ..old(doc)@
        }),
        report@ == merged(old(doc)@.channels, scanned@, add_new).report,
{
    let mut report = MergeReport {
        renamed: Vec::new(),
        aliased: Vec::new(),
        unmatched: Vec::new(),
        added: Vec::new(),
        nameless: Vec::new(),
    };
    let mut taken = collect_answers(&doc.channels);
    let ghost all = scanned@;
    let ghost start = merge_start(doc@.channels);
    let mut i: usize = 0;
    assert(report@ =~= nothing_changed());
    assert(all.take(0) =~= Seq::<ChannelView>::empty());
    while i < scanned.channels.len()
        invariant
            all == scanned@,
            i <= scanned.channels@.len(),
            doc.version == old(doc).version,
            merge_view(doc.channels@, taken@, report) == after_services(
                start,
                all.take(i as int),
                add_new,
            ),
        decreases scanned.channels@.len() - i,
    {
        let svc = &scanned.channels[i];
        assert(all.take(i + 1).drop_last() =~= all.take(i as int));
        assert(all.take(i + 1).last() == svc@);
        merge_service(&mut doc.channels, &mut taken, &mut report, svc, add_new);
        i += 1;
    }
    assert(all.take(i as int) =~= all);
    report
}

/// Folds the names of scanned services into a document without adding records.
pub fn merge_scanned_names(doc: &mut ChannelsDocument, scanned: &ChannelsFile) -> (report:
    MergeReport)
    ensures
        final(doc)@ == (DocumentView {
            channels: merged(old(doc)@.channels, scanned@, false).channels,
            ..old(doc)@
        }),
        report@ == merged(old(doc)@.channels, scanned@, false).report,
{
    merge_scanned(doc, scanned, false)
}

// ---- Laws of merging -------------------------------------------------------

pub proof fn lemma_place_for(records: Seq<RecordView>, service_id: u16, frequency: u32)
    ensures
        0 <= place_for(records, service_id, frequency) <= records.len(),
        place_for(records, service_id, frequency) < records.len() ==> is_for(
            records[place_for(records, service_id, frequency)],
            service_id,
            frequency,
        ),
        forall|k: int|
            0 <= k < place_for(records, service_id, frequency) ==> !is_for(
                #[trigger] records[k],
                service_id,
                frequency,
            ),
    decreases records.len(),
{
    if records.len() > 0 && !is_for(records[0], service_id, frequency) {
        let rest = records.skip(1);
        lemma_place_for(rest, service_id, frequency);
        assert forall|k: int|
            0 <= k < place_for(records, service_id, frequency) implies !is_for(
            #[trigger] records[k],
            service_id,
            frequency,
        ) by {
            if k > 0 {
                assert(records[k] == rest[k - 1]);
            }
        }
    }
}

/// The place of a service depends on the settings alone, and a record that comes
/// behind the others does not move it.
proof fn lemma_place_by_tuning(
    a: Seq<RecordView>,
    b: Seq<RecordView>,
    service_id: u16,
    frequency: u32,
)
    requires
        a.len() <= b.len(),
        forall|k: int| 0 <= k < a.len() ==> (#[trigger] a[k]).tuning == b[k].tuning,
        place_for(a, service_id, frequency) < a.len(),
    ensures
        place_for(b, service_id, frequency) == place_for(a, service_id, frequency),
{
    lemma_place_for(a, service_id, frequency);
    lemma_place_for(b, service_id, frequency);
    let i = place_for(a, service_id, frequency);
    let j = place_for(b, service_id, frequency);
    assert(is_for(b[i], service_id, frequency) == is_for(a[i], service_id, frequency));
    if j < i {
        assert(is_for(a[j], service_id, frequency) == is_for(b[j], service_id, frequency));
    }
}

/// Whether `b` is what records `a` can become: each has its settings and its
/// section still, keeps a name that is no placeholder and its aliases with further
/// ones behind them, and answers to all that it answered to; further records stand
/// behind them.
pub open spec fn grown(a: Seq<RecordView>, b: Seq<RecordView>) -> bool {
    &&& a.len() <= b.len()
    &&& forall|i: int| 0 <= i < a.len() ==> record_grown(#[trigger] a[i], b[i])
}

/// Whether record `b` is what record `a` can become.
pub open spec fn record_grown(a: RecordView, b: RecordView) -> bool {
    &&& b.tuning == a.tuning
    &&& b.legacy_zap_section == a.legacy_zap_section
    &&& !is_placeholder(a.name) ==> b.name == a.name
    &&& forall|s: Seq<char>|
        record_answers(a).contains(s) ==> #[trigger] record_answers(b).contains(s)
    &&& a.aliases.is_prefix_of(b.aliases)
    &&& forall|s: Seq<char>| a.aliases.contains(s) ==> #[trigger] b.aliases.contains(s)
}

pub proof fn lemma_answers(r: RecordView, s: Seq<char>)
    ensures
        record_answers(r).contains(s) <==> r.name == s || r.aliases.contains(s)
            || r.legacy_zap_section == Some(s),
{
    let all = record_answers(r);
    let n = r.aliases.len();
    if r.name == s {
        assert(all[0] == s);
    }
    if r.aliases.contains(s) {
        let i = choose|i: int| 0 <= i < n && r.aliases[i] == s;
        assert(all[1 + i] == s);
    }
    if r.legacy_zap_section == Some(s) {
        assert(all[1 + n as int] == s);
    }
    if all.contains(s) {
        let i = choose|i: int| 0 <= i < all.len() && all[i] == s;
        if 0 < i <= n {
            assert(r.aliases[i - 1] == s);
        }
    }
}

proof fn lemma_record_grown(a: RecordView, b: RecordView)
    requires
        b.tuning == a.tuning,
        b.legacy_zap_section == a.legacy_zap_section,
        b.name == a.name || is_placeholder(a.name) && b.aliases.contains(a.name),
        a.aliases.is_prefix_of(b.aliases),
    ensures
        record_grown(a, b),
{
    assert forall|s: Seq<char>| a.aliases.contains(s) implies #[trigger] b.aliases.contains(s) by {
        let i = choose|i: int| 0 <= i < a.aliases.len() && a.aliases[i] == s;
        assert(b.aliases[i] == s);
    }
    assert forall|s: Seq<char>| record_answers(a).contains(s) implies #[trigger] record_answers(
        b,
    ).contains(s) by {
        lemma_answers(a, s);
        lemma_answers(b, s);
    }
}

pub proof fn lemma_with_text(list: Seq<Seq<char>>, s: Seq<char>)
    ensures
        with_text(list, s).contains(s),
        list.push(s).contains(s),
        forall|t: Seq<char>| list.contains(t) ==> #[trigger] with_text(list, s).contains(t),
        forall|t: Seq<char>| list.contains(t) ==> #[trigger] list.push(s).contains(t),
        forall|t: Seq<char>|
            #[trigger] with_text(list, s).contains(t) ==> list.contains(t) || t == s,
        forall|t: Seq<char>| #[trigger] list.push(s).contains(t) ==> list.contains(t) || t == s,
{
    let longer = list.push(s);
    assert(longer[list.len() as int] == s);
    assert forall|t: Seq<char>| list.contains(t) implies #[trigger] longer.contains(t) by {
        let i = choose|i: int| 0 <= i < list.len() && list[i] == t;
        assert(longer[i] == t);
    }
    assert forall|t: Seq<char>| #[trigger] longer.contains(t) implies list.contains(t) || t == s by {
        let i = choose|i: int| 0 <= i < longer.len() && longer[i] == t;
        if i < list.len() {
            assert(list[i] == t);
        }
    }
}

pub proof fn lemma_service_grows(st: MergeView, svc: ChannelView, add_new: bool)
    ensures
        grown(st.channels, after_service(st, svc, add_new).channels),
{
    let next = after_service(st, svc, add_new).channels;
    let i = place_for(st.channels, svc.service_id, svc.frequency);
    lemma_place_for(st.channels, svc.service_id, svc.frequency);
    assert forall|k: int| 0 <= k < st.channels.len() implies record_grown(
        #[trigger] st.channels[k],
        next[k],
    ) by {
        let r = st.channels[k];
        lemma_with_text(r.aliases, r.name);
        lemma_with_text(r.aliases, svc.name);
        lemma_record_grown(r, next[k]);
    }
}

proof fn lemma_grown_twice(a: Seq<RecordView>, b: Seq<RecordView>, c: Seq<RecordView>)
    requires
        grown(a, b),
        grown(b, c),
    ensures
        grown(a, c),
{
    assert forall|i: int| 0 <= i < a.len() implies record_grown(#[trigger] a[i], c[i]) by {
        assert(record_grown(a[i], b[i]));
        assert(record_grown(b[i], c[i]));
        assert forall|s: Seq<char>| record_answers(a[i]).contains(s) implies
            #[trigger] record_answers(c[i]).contains(s) by {
            assert(record_answers(b[i]).contains(s));
        }
        assert forall|s: Seq<char>| a[i].aliases.contains(s) implies
            #[trigger] c[i].aliases.contains(s) by {
            assert(b[i].aliases.contains(s));
        }
    }
}

/// A merge deletes nothing: every record keeps its place, its settings, its
/// section, its aliases in their order with further ones only behind them, and
/// every string that it answers to, and its name unless that is a placeholder.
pub proof fn law_nothing_is_deleted(st: MergeView, services: Seq<ChannelView>, add_new: bool)
    ensures
        grown(st.channels, after_services(st, services, add_new).channels),
    decreases services.len(),
{
    if services.len() > 0 {
        let front = services.drop_last();
        law_nothing_is_deleted(st, front, add_new);
        let mid = after_services(st, front, add_new);
        lemma_service_grows(mid, services.last(), add_new);
        lemma_grown_twice(
            st.channels,
            mid.channels,
            after_services(st, services, add_new).channels,
        );
    } else {
        assert forall|i: int| 0 <= i < st.channels.len() implies record_grown(
            #[trigger] st.channels[i],
            st.channels[i],
        ) by {}
    }
}

proof fn lemma_names_alone_add_no_record(st: MergeView, svc: ChannelView)
    ensures
        after_service(st, svc, false).channels.len() == st.channels.len(),
        after_service(st, svc, false).report.added == st.report.added,
{
    lemma_place_for(st.channels, svc.service_id, svc.frequency);
}

/// Without `add_new` no record is added.
pub proof fn law_names_alone_add_no_record(st: MergeView, services: Seq<ChannelView>)
    ensures
        after_services(st, services, false).channels.len() == st.channels.len(),
        after_services(st, services, false).report.added == st.report.added,
    decreases services.len(),
{
    if services.len() > 0 {
        law_names_alone_add_no_record(st, services.drop_last());
        let mid = after_services(st, services.drop_last(), false);
        lemma_names_alone_add_no_record(mid, services.last());
    }
}

/// Whether `taken` holds everything that some record answers to.
pub open spec fn covers(st: MergeView) -> bool {
    forall|i: int, s: Seq<char>|
        0 <= i < st.channels.len() && #[trigger] record_answers(st.channels[i]).contains(s)
            ==> st.taken.contains(s)
}

proof fn lemma_all_answers(records: Seq<RecordView>, i: int, s: Seq<char>)
    requires
        0 <= i < records.len(),
        record_answers(records[i]).contains(s),
    ensures
        all_answers(records).contains(s),
    decreases records.len(),
{
    let front = records.drop_last();
    let head = all_answers(front);
    let tail = record_answers(records.last());
    if i < front.len() {
        lemma_all_answers(front, i, s);
        let k = choose|k: int| 0 <= k < head.len() && head[k] == s;
        assert((head + tail)[k] == s);
    } else {
        let k = choose|k: int| 0 <= k < tail.len() && tail[k] == s;
        assert((head + tail)[head.len() + k] == s);
    }
}

proof fn lemma_service_covers(st: MergeView, svc: ChannelView, add_new: bool)
    requires
        covers(st),
    ensures
        covers(after_service(st, svc, add_new)),
{
    let next = after_service(st, svc, add_new);
    let at = place_for(st.channels, svc.service_id, svc.frequency);
    let name = free_name(svc.name, st.taken);
    lemma_place_for(st.channels, svc.service_id, svc.frequency);
    lemma_with_text(st.taken, name);
    lemma_with_text(st.taken, svc.name);
    if at < st.channels.len() {
        let old_name = st.channels[at].name;
        lemma_with_text(st.taken.push(name), old_name);
    }
    assert forall|i: int, s: Seq<char>|
        0 <= i < next.channels.len() && #[trigger] record_answers(next.channels[i]).contains(
            s,
        ) implies next.taken.contains(s) by {
        lemma_answers(next.channels[i], s);
        if i < st.channels.len() {
            let r = st.channels[i];
            lemma_answers(r, s);
            lemma_answers(r, r.name);
            lemma_with_text(r.aliases, r.name);
            lemma_with_text(r.aliases, svc.name);
            if record_answers(r).contains(s) {
                assert(st.taken.contains(s));
            }
        }
    }
}

/// At every moment of a merge, what some record answers to is taken.
pub proof fn law_answers_are_taken(
    channels: Seq<RecordView>,
    services: Seq<ChannelView>,
    add_new: bool,
)
    ensures
        covers(merged(channels, services, add_new)),
    decreases services.len(),
{
    if services.len() > 0 {
        law_answers_are_taken(channels, services.drop_last(), add_new);
        lemma_service_covers(
            merged(channels, services.drop_last(), add_new),
            services.last(),
            add_new,
        );
    } else {
        let st = merge_start(channels);
        assert forall|i: int, s: Seq<char>|
            0 <= i < st.channels.len() && #[trigger] record_answers(st.channels[i]).contains(
                s,
            ) implies st.taken.contains(s) by {
            lemma_all_answers(channels, i, s);
        }
    }
}

/// A name that a merge gives out, to a new record or in place of a placeholder,
/// is one that no record answers to at that moment.
pub proof fn law_given_name_is_new(
    channels: Seq<RecordView>,
    before: Seq<ChannelView>,
    svc: ChannelView,
    add_new: bool,
    i: int,
)
    requires
        0 <= i < merged(channels, before, add_new).channels.len(),
    ensures
        !record_answers(merged(channels, before, add_new).channels[i]).contains(
            free_name(svc.name, merged(channels, before, add_new).taken),
        ),
{
    let st = merged(channels, before, add_new);
    law_answers_are_taken(channels, before, add_new);
    law_free_name_is_not_taken(svc.name, st.taken);
}

/// Whether every record can be looked up by its own name: no record ahead of it
/// answers to that name.
pub open spec fn all_reachable(records: Seq<RecordView>) -> bool {
    forall|j: int, i: int|
        0 <= j < i < records.len() ==> !record_answers(#[trigger] records[j]).contains(
            (#[trigger] records[i]).name,
        )
}

/// Whether the record of a service, where it is to get the name of the service as
/// an alias, stands ahead of a record that has that name.
pub open spec fn alias_shadows(st: MergeView, svc: ChannelView) -> bool {
    let i = place_for(st.channels, svc.service_id, svc.frequency);
    &&& !is_nameless(svc)
    &&& i < st.channels.len()
    &&& !is_placeholder(st.channels[i].name)
    &&& exists|k: int| i < k < st.channels.len() && (#[trigger] st.channels[k]).name == svc.name
}

proof fn lemma_service_keeps_reachable(st: MergeView, svc: ChannelView, add_new: bool)
    requires
        covers(st),
        all_reachable(st.channels),
        !alias_shadows(st, svc),
    ensures
        all_reachable(after_service(st, svc, add_new).channels),
{
    let next = after_service(st, svc, add_new).channels;
    let at = place_for(st.channels, svc.service_id, svc.frequency);
    let name = free_name(svc.name, st.taken);
    lemma_place_for(st.channels, svc.service_id, svc.frequency);
    law_free_name_is_not_taken(svc.name, st.taken);
    assert forall|j: int, i: int| 0 <= j < i < next.len() implies !record_answers(
        #[trigger] next[j],
    ).contains((#[trigger] next[i]).name) by {
        let old_j = st.channels[j];
        lemma_answers(next[j], next[i].name);
        lemma_answers(old_j, next[i].name);
        lemma_answers(old_j, old_j.name);
        lemma_with_text(old_j.aliases, old_j.name);
        lemma_with_text(old_j.aliases, svc.name);
        if i < st.channels.len() {
            let old_i = st.channels[i];
            assert(!record_answers(old_j).contains(old_i.name));
            lemma_answers(old_i, old_i.name);
            assert(st.taken.contains(old_i.name));
        }
        if record_answers(old_j).contains(name) {
            assert(st.taken.contains(name));
        }
    }
}

/// A merge leaves every record reachable by its own name, if every record was
/// before it, but where a service whose record has a chosen name shares its name
/// with a record behind that one.
pub proof fn law_records_stay_reachable(
    channels: Seq<RecordView>,
    services: Seq<ChannelView>,
    add_new: bool,
)
    requires
        all_reachable(channels),
        forall|n: int|
            0 <= n < services.len() ==> !alias_shadows(
                merged(channels, services.take(n), add_new),
                #[trigger] services[n],
            ),
    ensures
        all_reachable(merged(channels, services, add_new).channels),
    decreases services.len(),
{
    if services.len() > 0 {
        let front = services.drop_last();
        assert forall|n: int| 0 <= n < front.len() implies !alias_shadows(
            merged(channels, front.take(n), add_new),
            #[trigger] front[n],
        ) by {
            assert(front.take(n) =~= services.take(n));
            assert(front[n] == services[n]);
        }
        law_records_stay_reachable(channels, front, add_new);
        law_answers_are_taken(channels, front, add_new);
        let last = services.len() - 1;
        assert(services.take(last) =~= front);
        assert(!alias_shadows(merged(channels, services.take(last), add_new), services[last]));
        lemma_service_keeps_reachable(
            merged(channels, front, add_new),
            services.last(),
            add_new,
        );
    }
}

/// A service without a name of its own changes no record and adds none, whatever
/// the caller asks for.
pub proof fn law_nameless_services_change_nothing(
    st: MergeView,
    services: Seq<ChannelView>,
    add_new: bool,
)
    requires
        forall|i: int| 0 <= i < services.len() ==> is_nameless(#[trigger] services[i]),
    ensures
        after_services(st, services, add_new).channels == st.channels,
        after_services(st, services, add_new).report == (ReportView {
            nameless: st.report.nameless + services.map_values(|c: ChannelView| c.service_id),
            ..st.report
        }),
    decreases services.len(),
{
    let ids = services.map_values(|c: ChannelView| c.service_id);
    if services.len() > 0 {
        let front = services.drop_last();
        assert forall|i: int| 0 <= i < front.len() implies is_nameless(#[trigger] front[i]) by {
            assert(front[i] == services[i]);
        }
        law_nameless_services_change_nothing(st, front, add_new);
        assert(is_nameless(services[services.len() - 1]));
        assert(ids =~= front.map_values(|c: ChannelView| c.service_id).push(
            services.last().service_id,
        ));
        assert(st.report.nameless + ids =~= (st.report.nameless + front.map_values(
            |c: ChannelView| c.service_id,
        )).push(services.last().service_id));
    } else {
        assert(st.report.nameless + ids =~= st.report.nameless);
    }
}

/// Whether a merge has nothing to do for a service: the scan has no name for it,
/// or its record has a chosen name and answers to the name of the service, or it
/// has no record and is to get none.
pub open spec fn is_quiet(records: Seq<RecordView>, svc: ChannelView, add_new: bool) -> bool {
    let i = place_for(records, svc.service_id, svc.frequency);
    ||| is_nameless(svc)
    ||| i >= records.len() && !add_new
    ||| {
        &&& i < records.len()
        &&& !is_placeholder(records[i].name)
        &&& records[i].name == svc.name || records[i].aliases.contains(svc.name)
    }
}

/// Whether the name that a service is to have in a merge, if it gets one, is its
/// own.
pub open spec fn own_name_is_free(st: MergeView, svc: ChannelView, add_new: bool) -> bool {
    let i = place_for(st.channels, svc.service_id, svc.frequency);
    if is_nameless(svc) {
        true
    } else if i >= st.channels.len() {
        add_new ==> !st.taken.contains(svc.name)
    } else {
        is_placeholder(st.channels[i].name) ==> !st.taken.contains(svc.name)
    }
}

/// Whether every name that a merge gives out is the service's own.
pub open spec fn own_names_are_free(
    st: MergeView,
    services: Seq<ChannelView>,
    add_new: bool,
) -> bool {
    forall|n: int|
        0 <= n < services.len() ==> own_name_is_free(
            after_services(st, services.take(n), add_new),
            #[trigger] services[n],
            add_new,
        )
}

proof fn lemma_quiet_stays(
    a: Seq<RecordView>,
    b: Seq<RecordView>,
    svc: ChannelView,
    add_new: bool,
)
    requires
        is_quiet(a, svc, add_new),
        grown(a, b),
        !add_new ==> a.len() == b.len(),
    ensures
        is_quiet(b, svc, add_new),
{
    let i = place_for(a, svc.service_id, svc.frequency);
    lemma_place_for(a, svc.service_id, svc.frequency);
    lemma_place_for(b, svc.service_id, svc.frequency);
    assert(forall|k: int| 0 <= k < a.len() ==> record_grown(#[trigger] a[k], b[k]));
    if !is_nameless(svc) {
        if i < a.len() {
            lemma_place_by_tuning(a, b, svc.service_id, svc.frequency);
            assert(record_grown(a[i], b[i]));
        } else {
            let j = place_for(b, svc.service_id, svc.frequency);
            if j < b.len() {
                assert(record_grown(a[j], b[j]));
                assert(is_for(a[j], svc.service_id, svc.frequency));
            }
        }
    }
}

proof fn lemma_service_is_quiet_behind(st: MergeView, svc: ChannelView, add_new: bool)
    requires
        own_name_is_free(st, svc, add_new),
    ensures
        is_quiet(after_service(st, svc, add_new).channels, svc, add_new),
{
    let next = after_service(st, svc, add_new).channels;
    let i = place_for(st.channels, svc.service_id, svc.frequency);
    lemma_place_for(st.channels, svc.service_id, svc.frequency);
    lemma_place_for(next, svc.service_id, svc.frequency);
    lemma_service_grows(st, svc, add_new);
    assert(forall|k: int|
        0 <= k < st.channels.len() ==> record_grown(#[trigger] st.channels[k], next[k]));
    if !is_nameless(svc) {
        if i < st.channels.len() {
            lemma_place_by_tuning(st.channels, next, svc.service_id, svc.frequency);
            lemma_with_text(st.channels[i].aliases, svc.name);
        } else if add_new {
            lemma_new_record_is_for(svc);
            let j = place_for(next, svc.service_id, svc.frequency);
            let last = st.channels.len() as int;
            assert(is_for(next[last], svc.service_id, svc.frequency));
            if j < last {
                assert(record_grown(st.channels[j], next[j]));
                assert(is_for(st.channels[j], svc.service_id, svc.frequency));
            }
        }
    }
}

/// The record that is made for a service is for that service.
proof fn lemma_new_record_is_for(svc: ChannelView)
    ensures
        forall|name: Seq<char>|
            is_for(#[trigger] new_record_view(name, svc), svc.service_id, svc.frequency),
{
    reveal_strlit("DELIVERY_SYSTEM");
    reveal_strlit("FREQUENCY");
    reveal_strlit("BANDWIDTH_HZ");
    reveal_strlit("SERVICE_ID");
    assert("FREQUENCY"@[0] == 'F');
    assert("BANDWIDTH_HZ"@[0] == 'B');
    assert("SERVICE_ID"@[0] == 'S');
}

proof fn lemma_own_names_front(st: MergeView, services: Seq<ChannelView>, add_new: bool)
    requires
        own_names_are_free(st, services, add_new),
        services.len() > 0,
    ensures
        own_names_are_free(st, services.drop_last(), add_new),
{
    let front = services.drop_last();
    assert forall|k: int| 0 <= k < front.len() implies own_name_is_free(
        after_services(st, front.take(k), add_new),
        #[trigger] front[k],
        add_new,
    ) by {
        assert(front.take(k) =~= services.take(k));
        assert(front[k] == services[k]);
    }
}

#[verifier::spinoff_prover]
proof fn lemma_all_quiet_behind(
    st: MergeView,
    services: Seq<ChannelView>,
    add_new: bool,
    n: int,
)
    requires
        own_names_are_free(st, services, add_new),
        0 <= n < services.len(),
    ensures
        is_quiet(after_services(st, services, add_new).channels, services[n], add_new),
    decreases services.len(),
{
    let front = services.drop_last();
    let mid = after_services(st, front, add_new);
    let next = after_services(st, services, add_new);
    assert(services.take(front.len() as int) =~= front);
    if n < front.len() {
        lemma_own_names_front(st, services, add_new);
        lemma_all_quiet_behind(st, front, add_new, n);
        lemma_service_grows(mid, services.last(), add_new);
        lemma_names_alone_add_no_record(mid, services.last());
        lemma_quiet_stays(mid.channels, next.channels, services[n], add_new);
    } else {
        assert(own_name_is_free(mid, services[n], add_new));
        lemma_service_is_quiet_behind(mid, services.last(), add_new);
    }
}

/// A merge that has nothing to do for any service changes nothing.
pub proof fn law_quiet_merge_changes_nothing(
    st: MergeView,
    services: Seq<ChannelView>,
    add_new: bool,
)
    requires
        forall|n: int|
            0 <= n < services.len() ==> is_quiet(
                st.channels,
                #[trigger] services[n],
                add_new,
            ),
    ensures
        after_services(st, services, add_new).channels == st.channels,
        after_services(st, services, add_new).taken == st.taken,
        after_services(st, services, add_new).report.renamed == st.report.renamed,
        after_services(st, services, add_new).report.aliased == st.report.aliased,
        after_services(st, services, add_new).report.added == st.report.added,
    decreases services.len(),
{
    if services.len() > 0 {
        let front = services.drop_last();
        assert forall|n: int| 0 <= n < front.len() implies is_quiet(
            st.channels,
            #[trigger] front[n],
            add_new,
        ) by {
            assert(front[n] == services[n]);
        }
        law_quiet_merge_changes_nothing(st, front, add_new);
        assert(is_quiet(st.channels, services[services.len() - 1], add_new));
    }
}

/// What a merge reports as nameless depends on the services alone.
proof fn lemma_nameless_alike(
    a: MergeView,
    b: MergeView,
    services: Seq<ChannelView>,
    add_new: bool,
)
    requires
        a.report.nameless == b.report.nameless,
    ensures
        after_services(a, services, add_new).report.nameless == after_services(
            b,
            services,
            add_new,
        ).report.nameless,
    decreases services.len(),
{
    if services.len() > 0 {
        lemma_nameless_alike(a, b, services.drop_last(), add_new);
    }
}

/// Whether two lists hold records with the same settings.
spec fn tuned_alike(a: Seq<RecordView>, b: Seq<RecordView>) -> bool {
    &&& a.len() == b.len()
    &&& forall|k: int| 0 <= k < a.len() ==> (#[trigger] a[k]).tuning == b[k].tuning
}

/// Where no record is added, what a merge reports as unmatched depends on the
/// services and on the settings of the records alone.
proof fn lemma_unmatched_alike(a: MergeView, b: MergeView, services: Seq<ChannelView>)
    requires
        tuned_alike(a.channels, b.channels),
        a.report.unmatched == b.report.unmatched,
    ensures
        tuned_alike(
            after_services(a, services, false).channels,
            after_services(b, services, false).channels,
        ),
        after_services(a, services, false).report.unmatched == after_services(
            b,
            services,
            false,
        ).report.unmatched,
    decreases services.len(),
{
    if services.len() > 0 {
        let front = services.drop_last();
        let svc = services.last();
        lemma_unmatched_alike(a, b, front);
        let x = after_services(a, front, false).channels;
        let y = after_services(b, front, false).channels;
        lemma_place_for(x, svc.service_id, svc.frequency);
        lemma_place_for(y, svc.service_id, svc.frequency);
        assert forall|k: int| 0 <= k < y.len() implies (#[trigger] y[k]).tuning == x[k].tuning by {
            assert(x[k].tuning == y[k].tuning);
        }
        if place_for(x, svc.service_id, svc.frequency) < x.len() {
            lemma_place_by_tuning(x, y, svc.service_id, svc.frequency);
        }
        if place_for(y, svc.service_id, svc.frequency) < y.len() {
            lemma_place_by_tuning(y, x, svc.service_id, svc.frequency);
        }
    }
}

/// Where a merge gave services no other names than their own, merging the same
/// scan again changes nothing, and reports the same services as nameless. Those
/// that it reports as unmatched are the same too, unless they have records now.
pub proof fn law_merge_is_idempotent(
    channels: Seq<RecordView>,
    services: Seq<ChannelView>,
    add_new: bool,
)
    requires
        own_names_are_free(merge_start(channels), services, add_new),
    ensures
        ({
            let once = merged(channels, services, add_new);
            let twice = merged(once.channels, services, add_new);
            &&& twice.channels == once.channels
            &&& twice.report == (ReportView {
                nameless: once.report.nameless,
                unmatched: if add_new {
                    Seq::empty()
                } else {
                    once.report.unmatched
                },
                ..nothing_changed()
            })
        }),
{
    let once = merged(channels, services, add_new).channels;
    assert forall|n: int| 0 <= n < services.len() implies is_quiet(
        once,
        #[trigger] services[n],
        add_new,
    ) by {
        lemma_all_quiet_behind(merge_start(channels), services, add_new, n);
    }
    law_quiet_merge_changes_nothing(merge_start(once), services, add_new);
    lemma_nameless_alike(merge_start(channels), merge_start(once), services, add_new);
    if add_new {
        law_rescan_adds_nothing(channels, services);
    } else {
        law_nothing_is_deleted(merge_start(channels), services, add_new);
        law_names_alone_add_no_record(merge_start(channels), services);
        assert forall|k: int| 0 <= k < channels.len() implies (#[trigger] channels[k]).tuning
            == once[k].tuning by {
            assert(record_grown(channels[k], once[k]));
        }
        lemma_unmatched_alike(merge_start(channels), merge_start(once), services);
    }
}

/// Whether a service is passed over or has a record.
pub open spec fn has_place(records: Seq<RecordView>, svc: ChannelView) -> bool {
    is_nameless(svc) || place_for(records, svc.service_id, svc.frequency) < records.len()
}

proof fn lemma_places_behind(st: MergeView, services: Seq<ChannelView>, n: int)
    requires
        0 <= n < services.len(),
    ensures
        has_place(after_services(st, services, true).channels, services[n]),
    decreases services.len(),
{
    let front = services.drop_last();
    let mid = after_services(st, front, true);
    let svc = services.last();
    let next = after_service(mid, svc, true);
    lemma_service_grows(mid, svc, true);
    assert(forall|k: int|
        0 <= k < mid.channels.len() ==> record_grown(
            #[trigger] mid.channels[k],
            next.channels[k],
        ));
    if n < front.len() {
        lemma_places_behind(st, front, n);
        if !is_nameless(services[n]) {
            lemma_place_by_tuning(
                mid.channels,
                next.channels,
                services[n].service_id,
                services[n].frequency,
            );
        }
    } else {
        lemma_place_for(mid.channels, svc.service_id, svc.frequency);
        lemma_place_for(next.channels, svc.service_id, svc.frequency);
        if !is_nameless(svc) {
            if place_for(mid.channels, svc.service_id, svc.frequency) < mid.channels.len() {
                lemma_place_by_tuning(
                    mid.channels,
                    next.channels,
                    svc.service_id,
                    svc.frequency,
                );
            } else {
                lemma_new_record_is_for(svc);
                let last = mid.channels.len() as int;
                assert(is_for(next.channels[last], svc.service_id, svc.frequency));
            }
        }
    }
}

proof fn lemma_placed_services_add_nothing(
    st: MergeView,
    services: Seq<ChannelView>,
    add_new: bool,
)
    requires
        forall|n: int| 0 <= n < services.len() ==> has_place(st.channels, #[trigger] services[n]),
    ensures
        after_services(st, services, add_new).channels.len() == st.channels.len(),
        after_services(st, services, add_new).report.added == st.report.added,
        after_services(st, services, add_new).report.unmatched == st.report.unmatched,
    decreases services.len(),
{
    if services.len() > 0 {
        let front = services.drop_last();
        assert forall|n: int| 0 <= n < front.len() implies has_place(
            st.channels,
            #[trigger] front[n],
        ) by {
            assert(front[n] == services[n]);
        }
        lemma_placed_services_add_nothing(st, front, add_new);
        law_nothing_is_deleted(st, front, add_new);
        let mid = after_services(st, front, add_new);
        let svc = services.last();
        assert(has_place(st.channels, services[services.len() - 1]));
        assert(forall|k: int|
            0 <= k < st.channels.len() ==> record_grown(
                #[trigger] st.channels[k],
                mid.channels[k],
            ));
        lemma_place_for(mid.channels, svc.service_id, svc.frequency);
        if !is_nameless(svc) {
            lemma_place_by_tuning(st.channels, mid.channels, svc.service_id, svc.frequency);
        }
    }
}

/// Merging the same scan again adds no record, whatever names were given.
pub proof fn law_rescan_adds_nothing(channels: Seq<RecordView>, services: Seq<ChannelView>)
    ensures
        ({
            let once = merged(channels, services, true).channels;
            let twice = merged(once, services, true);
            &&& twice.channels.len() == once.len()
            &&& twice.report.added.len() == 0
            &&& twice.report.unmatched.len() == 0
        }),
{
    let once = merged(channels, services, true).channels;
    assert forall|n: int| 0 <= n < services.len() implies has_place(
        once,
        #[trigger] services[n],
    ) by {
        lemma_places_behind(merge_start(channels), services, n);
    }
    lemma_placed_services_add_nothing(merge_start(once), services, true);
}

/// A record that is made for a service tunes to that service, under the name that
/// it was given.
pub proof fn law_new_record_tunes_to_its_service(name: Seq<char>, svc: ChannelView)
    ensures
        record_entry(new_record_view(name, svc)) == Ok::<EntryView, ErrorView>(
            EntryView {
                section_title: name,
                channel: ChannelView {
                    name,
                    bandwidth_hz: bandwidth_or_default(svc.bandwidth_hz),
                    video_pids: Seq::empty(),
                    audio_pids: Seq::empty(),
                    ..svc
                },
                aliases: Seq::empty(),
                raw: new_settings(svc),
            },
        ),
{
    reveal_strlit("DELIVERY_SYSTEM");
    reveal_strlit("FREQUENCY");
    reveal_strlit("BANDWIDTH_HZ");
    reveal_strlit("SERVICE_ID");
    reveal_strlit("VIDEO_PID");
    reveal_strlit("AUDIO_PID");
    assert("DELIVERY_SYSTEM"@[0] == 'D');
    assert("FREQUENCY"@[0] == 'F');
    assert("BANDWIDTH_HZ"@[0] == 'B');
    assert("SERVICE_ID"@[0] == 'S');
    assert("VIDEO_PID"@[0] == 'V');
    assert("AUDIO_PID"@[0] == 'A');
    lemma_decimal_reads_back(svc.frequency as nat, 0xffff_ffff);
    lemma_decimal_reads_back(bandwidth_or_default(svc.bandwidth_hz) as nat, 0xffff_ffff);
    lemma_decimal_reads_back(svc.service_id as nat, 0xffff);
}

// ---- Scanning --------------------------------------------------------------

/// What a scan tunes to.
#[derive(Debug)]
pub struct Transport {
    pub delivery: String,
    pub frequency: u32,
    pub bandwidth_hz: u32,
}

pub struct TransportView {
    pub delivery: Seq<char>,
    pub frequency: u32,
    pub bandwidth_hz: u32,
}

impl View for Transport {
    type V = TransportView;

    open spec fn view(&self) -> TransportView {
        TransportView {
            delivery: self.delivery@,
            frequency: self.frequency,
            bandwidth_hz: self.bandwidth_hz,
        }
    }
}

/// Whether a delivery system, in capitals, can be scanned without an entry.
pub open spec fn is_plain_delivery(word: Seq<char>) -> bool {
    word == "ISDBT"@ || word.len() == 0
}

/// The properties for a scan without an entry, where `word` is the delivery
/// system in capitals.
pub open spec fn plain_properties(
    word: Seq<char>,
    delivery: Seq<char>,
    frequency: u32,
    bandwidth_hz: u32,
) -> Result<Seq<DtvProperty>, ErrorView> {
    if is_plain_delivery(word) {
        Ok(simple_isdbt_properties(frequency, bandwidth_hz))
    } else {
        Err(
            ErrorView::Msg(
                "scan without .conf entry only supports ISDBT for now (got "@ + delivery + ")"@,
            ),
        )
    }
}

/// The properties for a scan without an entry, where `word` is the delivery
/// system in capitals.
pub fn plain_scan_props(
    word: &str,
    delivery: &str,
    frequency: u32,
    bandwidth_hz: u32,
) -> (out: Result<Vec<DtvProperty>, Error>)
    ensures
        outcome(out) == plain_properties(word@, delivery@, frequency, bandwidth_hz),
{
    if same_text(word, "ISDBT") || word.is_empty() {
        Ok(build_props_simple_isdbt(frequency, bandwidth_hz, 0))
    } else {
        let mut text = "scan without .conf entry only supports ISDBT for now (got ".to_owned();
        text.append(delivery);
        text.append(")");
        Err(Error::Msg(text))
    }
}

/// The properties for a scan: of the entry if there is one.
pub fn scan_props(
    entry: Option<&DvbV5Entry>,
    delivery: &str,
    frequency: u32,
    bandwidth_hz: u32,
) -> (out: Result<Vec<DtvProperty>, Error>)
    ensures
        outcome(out) == (match entry {
            Some(e) => entry_properties(e@),
            None => plain_properties(uppercase(delivery@), delivery@, frequency, bandwidth_hz),
        }),
{
    match entry {
        Some(e) => build_props_from_dvbv5(e),
        None => plain_scan_props(
            delivery.to_uppercase().as_str(),
            delivery,
            frequency,
            bandwidth_hz,
        ),
    }
}

/// What a scan tunes to: what the entry says if there is one.
pub open spec fn transport(
    entry: Option<EntryView>,
    delivery: Seq<char>,
    frequency: u32,
    bandwidth_hz: u32,
) -> TransportView {
    match entry {
        Some(e) => TransportView {
            delivery: e.channel.delivery,
            frequency: e.channel.frequency,
            bandwidth_hz: bandwidth_or_default(e.channel.bandwidth_hz),
        },
        None => TransportView {
            delivery,
            frequency,
            bandwidth_hz: bandwidth_or_default(bandwidth_hz),
        },
    }
}

/// What a scan tunes to.
pub fn scan_transport(
    entry: Option<&DvbV5Entry>,
    delivery: &str,
    frequency: u32,
    bandwidth_hz: u32,
) -> (out: Transport)
    ensures
        out@ == transport(
            match entry {
                Some(e) => Some(e@),
                None => None,
            },
            delivery@,
            frequency,
            bandwidth_hz,
        ),
{
    match entry {
        Some(e) => Transport {
            delivery: e.channel.delivery.clone(),
            frequency: e.channel.frequency,
            bandwidth_hz: usual_bandwidth(e.channel.bandwidth_hz),
        },
        None => Transport {
            delivery: delivery.to_owned(),
            frequency,
            bandwidth_hz: usual_bandwidth(bandwidth_hz),
        },
    }
}

/// A channel that was found on a transport.
pub open spec fn found_channel(t: TransportView, name: Seq<char>, service_id: u16) -> ChannelView {
    ChannelView {
        name,
        delivery: t.delivery,
        frequency: t.frequency,
        bandwidth_hz: t.bandwidth_hz,
        service_id,
        video_pids: Seq::empty(),
        audio_pids: Seq::empty(),
    }
}

/// The name of a service, or a placeholder where it has none.
pub open spec fn service_name_or_placeholder(s: SdtServiceView) -> Seq<char> {
    if s.name.len() > 0 {
        s.name
    } else {
        "service_"@ + decimal(s.service_id as nat)
    }
}

/// Whether a service is among channels.
pub open spec fn has_service(channels: Seq<ChannelView>, service_id: u16) -> bool {
    exists|i: int| 0 <= i < channels.len() && (#[trigger] channels[i]).service_id == service_id
}

/// Channels with one more service, unless it is there already.
pub open spec fn with_service(
    t: TransportView,
    channels: Seq<ChannelView>,
    s: SdtServiceView,
) -> Seq<ChannelView> {
    if has_service(channels, s.service_id) {
        channels
    } else {
        channels.push(found_channel(t, service_name_or_placeholder(s), s.service_id))
    }
}

/// Channels with a list of services.
pub open spec fn with_services(
    t: TransportView,
    channels: Seq<ChannelView>,
    services: Seq<SdtServiceView>,
) -> Seq<ChannelView>
    decreases services.len(),
{
    if services.len() == 0 {
        channels
    } else {
        with_service(t, with_services(t, channels, services.drop_last()), services.last())
    }
}

/// The channels of the sections of an SDT; a section that cannot be read is
/// passed over.
pub open spec fn sdt_channels(t: TransportView, sections: Seq<Seq<u8>>) -> Seq<ChannelView>
    decreases sections.len(),
{
    if sections.len() == 0 {
        Seq::empty()
    } else {
        let before = sdt_channels(t, sections.drop_last());
        match sdt(sections.last()) {
            Ok(services) => with_services(t, before, services),
            Err(_) => before,
        }
    }
}

/// The errors of the sections of an SDT that cannot be read.
pub open spec fn sdt_errors(sections: Seq<Seq<u8>>) -> Seq<ErrorView>
    decreases sections.len(),
{
    if sections.len() == 0 {
        Seq::empty()
    } else {
        let before = sdt_errors(sections.drop_last());
        match sdt(sections.last()) {
            Ok(_) => before,
            Err(e) => before.push(e),
        }
    }
}

/// The channels of a PAT, with placeholders for names. Program 0 is none.
pub open spec fn pat_channels(t: TransportView, programs: Seq<PatProgram>) -> Seq<ChannelView>
    decreases programs.len(),
{
    if programs.len() == 0 {
        Seq::empty()
    } else {
        let before = pat_channels(t, programs.drop_last());
        let number = programs.last().program_number;
        if number == 0 {
            before
        } else {
            before.push(found_channel(t, "program_"@ + decimal(number as nat), number))
        }
    }
}

/// The channels of a transport: those of its SDT, or else those of its PAT.
pub open spec fn transport_channels(
    t: TransportView,
    programs: Seq<PatProgram>,
    sections: Seq<Seq<u8>>,
) -> Seq<ChannelView> {
    if sdt_channels(t, sections).len() == 0 {
        pat_channels(t, programs)
    } else {
        sdt_channels(t, sections)
    }
}

/// A channel that was found on a transport.
fn make_found_channel(t: &Transport, name: String, service_id: u16) -> (c: Channel)
    ensures
        c@ == found_channel(t@, name@, service_id),
{
    Channel {
        name,
        delivery: t.delivery.clone(),
        frequency: t.frequency,
        bandwidth_hz: t.bandwidth_hz,
        service_id,
        video_pids: Vec::new(),
        audio_pids: Vec::new(),
    }
}

/// Whether a service is among channels.
fn knows_service(channels: &Vec<Channel>, service_id: u16) -> (yes: bool)
    ensures
        yes == has_service(views(channels@), service_id),
{
    let mut i: usize = 0;
    while i < channels.len()
        invariant
            i <= channels@.len(),
            forall|j: int|
                0 <= j < i ==> (#[trigger] views(channels@)[j]).service_id != service_id,
        decreases channels@.len() - i,
    {
        if channels[i].service_id == service_id {
            assert(views(channels@)[i as int].service_id == service_id);
            return true;
        }
        i += 1;
    }
    false
}

/// A prefix and a number.
fn numbered_name(prefix: &str, n: u16) -> (out: String)
    ensures
        out@ == prefix@ + decimal(n as nat),
{
    let mut out = prefix.to_owned();
    out.append(&decimal_text(n as u128));
    out
}

/// Adds the services of a section, unless they are there already.
fn add_services(t: &Transport, channels: &mut Vec<Channel>, services: Vec<SdtService>)
    ensures
        views(final(channels)@) == with_services(t@, views(old(channels)@), views(services@)),
{
    let ghost all = views(services@);
    let mut i: usize = 0;
    assert(all.take(0) =~= Seq::<SdtServiceView>::empty());
    while i < services.len()
        invariant
            all == views(services@),
            i <= services@.len(),
            views(channels@) == with_services(t@, views(old(channels)@), all.take(i as int)),
        decreases services@.len() - i,
    {
        let s = &services[i];
        assert(all.take(i + 1).drop_last() =~= all.take(i as int));
        assert(all.take(i + 1).last() == s@);
        if !knows_service(channels, s.service_id) {
            let name = if s.name.as_str().is_empty() {
                numbered_name("service_", s.service_id)
            } else {
                s.name.clone()
            };
            let c = make_found_channel(t, name, s.service_id);
            proof {
                lemma_views_push(channels@, c);
            }
            channels.push(c);
        }
        i += 1;
    }
    assert(all.take(i as int) =~= all);
}

/// The channels of a PAT.
fn channels_from_pat(t: &Transport, programs: &Vec<PatProgram>) -> (channels: Vec<Channel>)
    ensures
        views(channels@) == pat_channels(t@, programs@),
{
    let mut channels: Vec<Channel> = Vec::new();
    let mut i: usize = 0;
    assert(programs@.take(0) =~= Seq::<PatProgram>::empty());
    assert(views(channels@) =~= Seq::<ChannelView>::empty());
    while i < programs.len()
        invariant
            i <= programs@.len(),
            views(channels@) == pat_channels(t@, programs@.take(i as int)),
        decreases programs@.len() - i,
    {
        assert(programs@.take(i + 1).drop_last() =~= programs@.take(i as int));
        let number = programs[i].program_number;
        if number != 0 {
            let c = make_found_channel(t, numbered_name("program_", number), number);
            proof {
                lemma_views_push(channels@, c);
            }
            channels.push(c);
        }
        i += 1;
    }
    assert(programs@.take(i as int) =~= programs@);
    channels
}

/// Whether a PAT section is no input to a scan: it passes every test, but its
/// header leaves no room for a CRC.
pub open spec fn is_headless_pat(section: Seq<u8>) -> bool {
    checked(section, 0x00, 16) && headless(section)
}

/// Whether an SDT section is no input to a scan: it passes every test, but its
/// header leaves no room for a CRC.
pub open spec fn is_headless_sdt(section: Seq<u8>) -> bool {
    checked(section, 0x42, 15) && headless(section)
}

/// The channels of a transport from its tables, and the errors of the sections
/// that were passed over. A PAT that cannot be read is an error.
pub fn channels_from_sections(
    t: &Transport,
    pat_section: &[u8],
    sdt_sections: &Vec<Vec<u8>>,
) -> (out: Result<(ChannelsFile, Vec<Error>), Error>)
    requires
        !is_headless_pat(pat_section@),
        forall|i: int|
            0 <= i < sdt_sections@.len() ==> !is_headless_sdt((#[trigger] sdt_sections@[i])@),
    ensures
        match pat(pat_section@) {
            Err(e) => out matches Err(error) && error@ == e,
            Ok(programs) => {
                &&& out matches Ok((file, errors))
                &&& file@ == transport_channels(t@, programs, views(sdt_sections@))
                &&& views(errors@) == sdt_errors(views(sdt_sections@))
            },
        },
{
    let programs = match parse_pat(pat_section) {
        Ok(p) => p,
        Err(e) => return Err(e),
    };
    let ghost all = views(sdt_sections@);
    let mut channels: Vec<Channel> = Vec::new();
    let mut errors: Vec<Error> = Vec::new();
    let mut i: usize = 0;
    assert(all.take(0) =~= Seq::<Seq<u8>>::empty());
    assert(views(channels@) =~= Seq::<ChannelView>::empty());
    assert(views(errors@) =~= Seq::<ErrorView>::empty());
    while i < sdt_sections.len()
        invariant
            all == views(sdt_sections@),
            i <= sdt_sections@.len(),
            views(channels@) == sdt_channels(t@, all.take(i as int)),
            views(errors@) == sdt_errors(all.take(i as int)),
            forall|k: int|
                0 <= k < sdt_sections@.len() ==> !is_headless_sdt((#[trigger] sdt_sections@[k])@),
        decreases sdt_sections@.len() - i,
    {
        assert(all.take(i + 1).drop_last() =~= all.take(i as int));
        assert(all.take(i + 1).last() == sdt_sections@[i as int]@);
        assert(!is_headless_sdt(sdt_sections@[i as int]@));
        match parse_sdt(sdt_sections[i].as_slice()) {
            Ok(services) => {
                add_services(t, &mut channels, services);
            },
            Err(e) => {
                proof {
                    lemma_views_push(errors@, e);
                }
                errors.push(e);
            },
        }
        i += 1;
    }
    assert(all.take(i as int) =~= all);
    if channels.len() == 0 {
        channels = channels_from_pat(t, &programs);
    }
    Ok((ChannelsFile { channels }, errors))
}

// ---- Where a scan starts and what it may write -----------------------------

/// What a scan starts from.
#[derive(Debug)]
pub enum ScanSource {
    /// An entry of a channel list, by a name that it answers to.
    Entry(String),
    /// A frequency, in Hz.
    Frequency(u32),
}

/// What a scan starts from: a name in a channel list, or else a frequency. An
/// error tells which is missing.
pub fn scan_source(
    has_list: bool,
    name: Option<String>,
    frequency: Option<u32>,
) -> (out: Result<ScanSource, Error>)
    ensures
        if has_list {
            match name {
                Some(n) => out == Ok::<ScanSource, Error>(ScanSource::Entry(n)),
                None => out matches Err(e) && e@ == ErrorView::Msg(
                    "--name required with --channels"@,
                ),
            }
        } else {
            match frequency {
                Some(f) => out == Ok::<ScanSource, Error>(ScanSource::Frequency(f)),
                None => out matches Err(e) && e@ == ErrorView::Msg(
                    "either --channels + --name or --frequency is required"@,
                ),
            }
        },
{
    if has_list {
        match name {
            Some(n) => Ok(ScanSource::Entry(n)),
            None => Err(Error::Msg("--name required with --channels".to_owned())),
        }
    } else {
        match frequency {
            Some(f) => Ok(ScanSource::Frequency(f)),
            None => Err(
                Error::Msg("either --channels + --name or --frequency is required".to_owned()),
            ),
        }
    }
}

/// Whether a scan may write its result to a path without merging: not over a
/// channel list, which would lose all other transports, unless it is forced to.
pub fn check_overwrite(path: &str, is_channel_list: bool, force: bool) -> (out: Result<(), Error>)
    ensures
        match out {
            Ok(_) => force || !is_channel_list,
            Err(e) => {
                &&& !force && is_channel_list
                &&& e@ == ErrorView::Msg(
                    path@
                        + " is an existing channel list: `scan` without --merge would replace all of it with just this transport. Use --merge to fold the scanned names in, -o to write elsewhere, or --force if you really mean to overwrite."@,
                )
            },
        },
{
    if !force && is_channel_list {
        let mut text = path.to_owned();
        text.append(
            " is an existing channel list: `scan` without --merge would replace all of it with just this transport. Use --merge to fold the scanned names in, -o to write elsewhere, or --force if you really mean to overwrite.",
        );
        return Err(Error::Msg(text));
    }
    Ok(())
}

// ---- Laws of scanning ------------------------------------------------------

/// Whether no service stands twice among channels.
pub open spec fn services_once(channels: Seq<ChannelView>) -> bool {
    forall|i: int, j: int|
        0 <= i < j < channels.len() ==> (#[trigger] channels[i]).service_id != (
        #[trigger] channels[j]).service_id
}

proof fn lemma_services_once(
    t: TransportView,
    channels: Seq<ChannelView>,
    services: Seq<SdtServiceView>,
)
    requires
        services_once(channels),
    ensures
        services_once(with_services(t, channels, services)),
    decreases services.len(),
{
    if services.len() > 0 {
        lemma_services_once(t, channels, services.drop_last());
    }
}

/// However often a service is listed in an SDT, it is one channel.
pub proof fn law_every_service_once(t: TransportView, sections: Seq<Seq<u8>>)
    ensures
        services_once(sdt_channels(t, sections)),
    decreases sections.len(),
{
    if sections.len() > 0 {
        law_every_service_once(t, sections.drop_last());
        if let Ok(services) = sdt(sections.last()) {
            lemma_services_once(t, sdt_channels(t, sections.drop_last()), services);
        }
    }
}

proof fn lemma_decimal_is_number(n: nat)
    ensures
        is_number(decimal(n)),
    decreases n,
{
    if n >= 10 {
        lemma_decimal_is_number(n / 10);
        let front = decimal(n / 10);
        assert forall|i: int| 0 <= i < decimal(n).len() implies is_digit(
            #[trigger] decimal(n)[i],
        ) by {
            if i < front.len() {
                assert(decimal(n)[i] == front[i]);
            }
        }
    }
}

/// The names that a scan makes up are placeholders.
pub proof fn law_made_up_names_are_placeholders(n: nat)
    ensures
        is_placeholder("program_"@ + decimal(n)),
        is_placeholder("service_"@ + decimal(n)),
{
    lemma_decimal_is_number(n);
    reveal_strlit("program_");
    reveal_strlit("service_");
    let a = "program_"@ + decimal(n);
    let b = "service_"@ + decimal(n);
    assert(a.take(8) =~= "program_"@);
    assert(a.skip(8) =~= decimal(n));
    assert(b.take(8) =~= "service_"@);
    assert(b.skip(8) =~= decimal(n));
    assert(!begins_with(b, "program_"@)) by {
        assert(b.take(8)[0] == 's');
        assert("program_"@[0] == 'p');
    }
}

proof fn lemma_pat_channels_are_nameless(t: TransportView, programs: Seq<PatProgram>, i: int)
    requires
        0 <= i < pat_channels(t, programs).len(),
    ensures
        is_nameless(pat_channels(t, programs)[i]),
    decreases programs.len(),
{
    let before = pat_channels(t, programs.drop_last());
    if i < before.len() {
        lemma_pat_channels_are_nameless(t, programs.drop_last(), i);
    } else {
        law_made_up_names_are_placeholders(programs.last().program_number as nat);
    }
}

/// A transport whose SDT names no service changes no record of a document and
/// adds none, even where new services are to be added.
pub proof fn law_pat_alone_adds_nothing(
    channels: Seq<RecordView>,
    t: TransportView,
    programs: Seq<PatProgram>,
    add_new: bool,
)
    ensures
        merged(channels, pat_channels(t, programs), add_new).channels == channels,
        merged(channels, pat_channels(t, programs), add_new).report.added.len() == 0,
{
    let services = pat_channels(t, programs);
    assert forall|i: int| 0 <= i < services.len() implies is_nameless(#[trigger] services[i]) by {
        lemma_pat_channels_are_nameless(t, programs, i);
    }
    law_nameless_services_change_nothing(merge_start(channels), services, add_new);
}

} // verus!
