//! What a merge of scanned services does to the records of a document.

use crate::channel::{ChannelView, Settings};
use crate::config::RecordView;
use crate::laws::channels::{is_first_free_name, lemma_free_name};
use crate::laws::texts::law_splitting_once;
use crate::laws::tuning::holds;
use crate::names::free_name;
use crate::scan::{
    after_service, all_answers, is_number, is_placeholder, law_answers_are_taken, lemma_answers,
    lemma_place_for, lemma_service_grows, lemma_with_text, merged, place_for, record_answers,
    record_grown, MergeView, ReportView,
};
use crate::text::{begins_with, decimal, split_once};
use vstd::prelude::*;

verus! {

// ---- Placeholders ----------------------------------------------------------

/// Whether a text is one or more digits.
pub open spec fn is_digits(s: Seq<char>) -> bool {
    s.len() > 0 && forall|i: int| 0 <= i < s.len() ==> '0' <= #[trigger] s[i] <= '9'
}

/// Whether a text starts with another.
pub open spec fn starts(s: Seq<char>, front: Seq<char>) -> bool {
    exists|rest: Seq<char>| s == #[trigger] (front + rest)
}

/// Whether a name is a word for the number of a program or a service.
pub open spec fn is_numbered(name: Seq<char>, word: Seq<char>) -> bool {
    exists|d: Seq<char>| is_digits(d) && name == #[trigger] (word + d)
}

/// Whether a name is one of the service and the frequency: `u1065_539142857`.
pub open spec fn is_generated(name: Seq<char>) -> bool {
    exists|a: Seq<char>, b: Seq<char>|
        is_digits(a) && is_digits(b) && name == #[trigger] (seq!['u'] + a + seq!['_'] + b)
}

/// Whether a name only stands in for one that is not known: `program_` or
/// `service_` and a number, `u` with two numbers, or a frequency in `MHz#`, unless
/// the name starts like one of the others.
pub open spec fn stands_in(name: Seq<char>) -> bool {
    ||| is_numbered(name, "program_"@)
    ||| is_numbered(name, "service_"@)
    ||| is_generated(name)
    ||| holds(name, "MHz#"@) && !starts(name, "program_"@) && !starts(name, "service_"@) && !(
    name.len() > 0 && name[0] == 'u' && name.contains('_'))
}

proof fn lemma_starts(s: Seq<char>, front: Seq<char>)
    ensures
        starts(s, front) <==> begins_with(s, front),
        starts(s, front) ==> s == front + s.skip(front.len() as int),
{
    if starts(s, front) {
        let rest = choose|rest: Seq<char>| s == #[trigger] (front + rest);
        assert(s.take(front.len() as int) =~= front);
        assert(s.skip(front.len() as int) =~= rest);
    }
    if begins_with(s, front) {
        assert(s =~= front + s.skip(front.len() as int));
    }
}

proof fn lemma_numbered(name: Seq<char>, word: Seq<char>)
    ensures
        is_numbered(name, word) <==> begins_with(name, word) && is_number(
            name.skip(word.len() as int),
        ),
{
    lemma_starts(name, word);
    let rest = name.skip(word.len() as int);
    assert(is_number(rest) <==> is_digits(rest));
    if is_numbered(name, word) {
        let d = choose|d: Seq<char>| is_digits(d) && name == #[trigger] (word + d);
        assert(starts(name, word));
        assert(rest =~= d);
    }
    if begins_with(name, word) && is_number(rest) {
        assert(name == word + rest);
    }
}

proof fn lemma_generated(name: Seq<char>)
    requires
        name.len() > 0,
        name[0] == 'u',
    ensures
        name.contains('_') <==> split_once(name.skip(1), '_') is Some,
        is_generated(name) <==> (split_once(name.skip(1), '_') matches Some((a, b)) && is_number(a)
            && is_number(b)),
{
    let rest = name.skip(1);
    let i = crate::text::first_of(rest, seq!['_']);
    lemma_first(rest);
    if name.contains('_') {
        let k = choose|k: int| 0 <= k < name.len() && name[k] == '_';
        assert(rest[k - 1] == '_');
    }
    if i < rest.len() {
        assert(rest[i] == '_');
        assert(name[i + 1] == '_');
    }
    if is_generated(name) {
        let (a, b) = choose|a: Seq<char>, b: Seq<char>|
            is_digits(a) && is_digits(b) && name == #[trigger] (seq!['u'] + a + seq!['_'] + b);
        assert(rest =~= a + seq!['_'] + b);
        assert forall|j: int| 0 <= j < a.len() implies !seq!['_'].contains(#[trigger] a[j]) by {
            assert('0' <= a[j] <= '9');
        }
        law_splitting_once(a, b, '_');
        assert(is_number(a) && is_number(b));
    }
    if let Some((a, b)) = split_once(rest, '_') {
        if is_number(a) && is_number(b) {
            assert(rest =~= a + seq!['_'] + b);
            assert(name =~= seq!['u'] + a + seq!['_'] + b);
            assert(is_digits(a) && is_digits(b));
        }
    }
}

proof fn lemma_first(s: Seq<char>)
    ensures
        ({
            let i = crate::text::first_of(s, seq!['_']);
            &&& 0 <= i <= s.len()
            &&& i < s.len() ==> s[i] == '_'
            &&& forall|k: int| 0 <= k < i ==> #[trigger] s[k] != '_'
        }),
    decreases s.len(),
{
    assert(seq!['_'][0] == '_');
    if s.len() > 0 && !seq!['_'].contains(s[0]) {
        let rest = s.skip(1);
        lemma_first(rest);
        let i = crate::text::first_of(s, seq!['_']);
        assert forall|k: int| 0 <= k < i implies #[trigger] s[k] != '_' by {
            if k > 0 {
                assert(rest[k - 1] == s[k]);
            }
        }
    }
}

/// The names that only stand in for one that is not known.
pub proof fn law_placeholders(name: Seq<char>)
    ensures
        is_placeholder(name) <==> stands_in(name),
{
    reveal_strlit("program_");
    reveal_strlit("service_");
    lemma_starts(name, "program_"@);
    lemma_starts(name, "service_"@);
    lemma_numbered(name, "program_"@);
    lemma_numbered(name, "service_"@);
    assert("program_"@[0] == 'p' && "service_"@[0] == 's');
    assert("program_"@.len() == 8 && "service_"@.len() == 8);
    if begins_with(name, "program_"@) {
        assert(name[0] == name.take(8)[0]);
    }
    if begins_with(name, "service_"@) {
        assert(name[0] == name.take(8)[0]);
    }
    if name.len() > 0 && name[0] == 'u' {
        lemma_generated(name);
    }
    if is_generated(name) {
        let (a, b) = choose|a: Seq<char>, b: Seq<char>|
            is_digits(a) && is_digits(b) && name == #[trigger] (seq!['u'] + a + seq!['_'] + b);
        assert(name[0] == 'u');
        assert(name[1 + a.len() as int] == '_');
    }
    crate::laws::tuning::lemma_holds(name, "MHz#"@);
}

// ---- Merging ---------------------------------------------------------------

/// Whether a record is for a service on a frequency.
pub open spec fn is_tuned_to(r: RecordView, service_id: u16, frequency: u32) -> bool {
    &&& r.tuning.contains_key("SERVICE_ID"@)
    &&& r.tuning.contains_key("FREQUENCY"@)
    &&& r.tuning["SERVICE_ID"@] == decimal(service_id as nat)
    &&& r.tuning["FREQUENCY"@] == decimal(frequency as nat)
}

/// Whether a record can be looked up by a name.
pub open spec fn goes_by(r: RecordView, s: Seq<char>) -> bool {
    r.name == s || r.aliases.contains(s) || r.legacy_zap_section == Some(s)
}

/// Whether some record can be looked up by a name.
pub open spec fn somebody_goes_by(records: Seq<RecordView>, s: Seq<char>) -> bool {
    exists|k: int| 0 <= k < records.len() && goes_by(#[trigger] records[k], s)
}

proof fn lemma_taken_start(records: Seq<RecordView>, s: Seq<char>)
    requires
        all_answers(records).contains(s),
    ensures
        somebody_goes_by(records, s),
    decreases records.len(),
{
    if records.len() > 0 {
        let front = records.drop_last();
        let last = records.last();
        let a = all_answers(front);
        let b = record_answers(last);
        let k = choose|k: int| 0 <= k < (a + b).len() && (a + b)[k] == s;
        if k < a.len() {
            assert(a[k] == s);
            lemma_taken_start(front, s);
            let i = choose|i: int| 0 <= i < front.len() && goes_by(#[trigger] front[i], s);
            assert(goes_by(records[i], s));
        } else {
            assert(b[k - a.len()] == s);
            lemma_answers(last, s);
            assert(goes_by(records[records.len() - 1], s));
        }
    }
}

/// Whether exactly the names by which some record goes are taken.
pub open spec fn taken_exactly(st: MergeView) -> bool {
    forall|s: Seq<char>| #[trigger] st.taken.contains(s) <==> somebody_goes_by(st.channels, s)
}

proof fn lemma_somebody_stays(a: Seq<RecordView>, b: Seq<RecordView>, s: Seq<char>)
    requires
        crate::scan::grown(a, b),
        somebody_goes_by(a, s),
    ensures
        somebody_goes_by(b, s),
{
    let k = choose|k: int| 0 <= k < a.len() && goes_by(#[trigger] a[k], s);
    assert(record_grown(a[k], b[k]));
    lemma_answers(a[k], s);
    lemma_answers(b[k], s);
    assert(record_answers(b[k]).contains(s));
    assert(goes_by(b[k], s));
}

proof fn lemma_taken_service(st: MergeView, svc: ChannelView, add_new: bool, s: Seq<char>)
    requires
        taken_exactly(st),
        after_service(st, svc, add_new).taken.contains(s),
    ensures
        somebody_goes_by(after_service(st, svc, add_new).channels, s),
{
    let next = after_service(st, svc, add_new);
    lemma_service_grows(st, svc, add_new);
    lemma_place_for(st.channels, svc.service_id, svc.frequency);
    let at = place_for(st.channels, svc.service_id, svc.frequency);
    let name = free_name(svc.name, st.taken);
    lemma_with_text(st.taken, name);
    lemma_with_text(st.taken, svc.name);
    if st.taken.contains(s) {
        lemma_somebody_stays(st.channels, next.channels, s);
    } else if at < st.channels.len() {
        let r = st.channels[at];
        lemma_with_text(st.taken.push(name), r.name);
        lemma_with_text(r.aliases, r.name);
        lemma_with_text(r.aliases, svc.name);
        assert(goes_by(next.channels[at], s));
    } else {
        assert(goes_by(next.channels[st.channels.len() as int], s));
    }
}

proof fn lemma_taken(channels: Seq<RecordView>, services: Seq<ChannelView>, add_new: bool)
    ensures
        taken_exactly(merged(channels, services, add_new)),
    decreases services.len(),
{
    let st = merged(channels, services, add_new);
    law_answers_are_taken(channels, services, add_new);
    if services.len() > 0 {
        lemma_taken(channels, services.drop_last(), add_new);
    }
    assert forall|s: Seq<char>| #[trigger] st.taken.contains(s) <==> somebody_goes_by(
        st.channels,
        s,
    ) by {
        if st.taken.contains(s) {
            if services.len() > 0 {
                lemma_taken_service(
                    merged(channels, services.drop_last(), add_new),
                    services.last(),
                    add_new,
                    s,
                );
            } else {
                lemma_taken_start(channels, s);
            }
        }
        if somebody_goes_by(st.channels, s) {
            let k = choose|k: int|
                0 <= k < st.channels.len() && goes_by(#[trigger] st.channels[k], s);
            lemma_answers(st.channels[k], s);
            assert(record_answers(st.channels[k]).contains(s));
        }
    }
}

/// Whether `settings` are what a new record for a service is tuned by: its delivery
/// system, frequency, width or 6 MHz where that is 0, and number, and nothing else.
pub open spec fn are_new_settings(m: Settings, svc: ChannelView) -> bool {
    &&& forall|key: Seq<char>| #[trigger]
        m.contains_key(key) <==> key == "DELIVERY_SYSTEM"@ || key == "FREQUENCY"@ || key
            == "BANDWIDTH_HZ"@ || key == "SERVICE_ID"@
    &&& m["DELIVERY_SYSTEM"@] == svc.delivery
    &&& m["FREQUENCY"@] == decimal(svc.frequency as nat)
    &&& m["SERVICE_ID"@] == decimal(svc.service_id as nat)
    &&& m["BANDWIDTH_HZ"@] == decimal(
        if svc.bandwidth_hz == 0 {
            6_000_000
        } else {
            svc.bandwidth_hz as nat
        },
    )
}

pub proof fn lemma_new_settings(svc: ChannelView)
    ensures
        are_new_settings(crate::scan::new_settings(svc), svc),
{
    reveal_strlit("DELIVERY_SYSTEM");
    reveal_strlit("FREQUENCY");
    reveal_strlit("BANDWIDTH_HZ");
    reveal_strlit("SERVICE_ID");
    assert("DELIVERY_SYSTEM"@[0] == 'D' && "FREQUENCY"@[0] == 'F' && "BANDWIDTH_HZ"@[0] == 'B'
        && "SERVICE_ID"@[0] == 'S');
}

/// One more service that the scan had no name for changes no record; it is
/// reported.
pub proof fn law_merging_a_nameless_service(
    channels: Seq<RecordView>,
    services: Seq<ChannelView>,
    svc: ChannelView,
    add_new: bool,
)
    requires
        svc.name.len() == 0 || stands_in(svc.name),
    ensures
        ({
            let before = merged(channels, services, add_new);
            let after = merged(channels, services.push(svc), add_new);
            &&& after.channels == before.channels
            &&& after.report == (ReportView {
                nameless: before.report.nameless + seq![svc.service_id],
                ..before.report
            })
        }),
{
    law_placeholders(svc.name);
    assert(services.push(svc).drop_last() =~= services);
    let before = merged(channels, services, add_new);
    assert(before.report.nameless.push(svc.service_id) =~= before.report.nameless + seq![
        svc.service_id,
    ]);
}

/// One more service that no record is for is reported. Where new services are to
/// be added, a record is put behind the others: with the name of the service, or
/// with a number behind it where some record goes by that already, and with the
/// settings of the service alone.
#[verifier::rlimit(60)]
pub proof fn law_merging_an_unknown_service(
    channels: Seq<RecordView>,
    services: Seq<ChannelView>,
    svc: ChannelView,
    add_new: bool,
)
    requires
        svc.name.len() > 0 && !stands_in(svc.name),
        forall|k: int|
            0 <= k < merged(channels, services, add_new).channels.len() ==> !is_tuned_to(
                #[trigger] merged(channels, services, add_new).channels[k],
                svc.service_id,
                svc.frequency,
            ),
    ensures
        ({
            let before = merged(channels, services, add_new);
            let after = merged(channels, services.push(svc), add_new);
            let n = before.channels.len() as int;
            &&& after.report.unmatched == before.report.unmatched + seq![svc.service_id]
            &&& after.report.nameless == before.report.nameless
            &&& after.report.renamed == before.report.renamed
            &&& after.report.aliased == before.report.aliased
            &&& !add_new ==> after.channels == before.channels && after.report.added
                == before.report.added
            &&& add_new ==> {
                let r = after.channels[n];
                &&& after.channels.len() == n + 1
                &&& after.channels.take(n) == before.channels
                &&& is_first_free_name(
                    r.name,
                    svc.name,
                    |s: Seq<char>| somebody_goes_by(before.channels, s),
                )
                &&& r.aliases.len() == 0
                &&& r.legacy_zap_section is None
                &&& are_new_settings(r.tuning, svc)
                &&& after.report.added == before.report.added + seq![r.name]
            }
        }),
{
    law_placeholders(svc.name);
    assert(services.push(svc).drop_last() =~= services);
    let before = merged(channels, services, add_new);
    let after = merged(channels, services.push(svc), add_new);
    let n = before.channels.len() as int;
    lemma_place_for(before.channels, svc.service_id, svc.frequency);
    let at = place_for(before.channels, svc.service_id, svc.frequency);
    if at < n {
        assert(is_tuned_to(before.channels[at], svc.service_id, svc.frequency));
    }
    assert(after.report.unmatched =~= before.report.unmatched + seq![svc.service_id]);
    if add_new {
        lemma_taken(channels, services, add_new);
        lemma_new_settings(svc);
        let name = free_name(svc.name, before.taken);
        assert(after.channels.take(n) =~= before.channels);
        assert(after.report.added =~= before.report.added + seq![name]);
        let earlier = |s: Seq<char>| somebody_goes_by(before.channels, s);
        assert forall|s: Seq<char>| #[trigger] before.taken.contains(s) <==> earlier(s) by {}
        lemma_free_name(name, svc.name, before.taken, earlier);
    }
}

/// One more service that a record is for changes that record alone, the first of
/// them. A name that only stands in gives way to the name of the service, or that
/// with a number behind it where some record goes by it already, and stays as an
/// alias. A name that somebody chose stays, and the name of the service becomes an
/// alias, unless it is one or the name. What changed is reported.
#[verifier::rlimit(60)]
pub proof fn law_merging_a_known_service(
    channels: Seq<RecordView>,
    services: Seq<ChannelView>,
    svc: ChannelView,
    add_new: bool,
    i: int,
)
    requires
        svc.name.len() > 0 && !stands_in(svc.name),
        0 <= i < merged(channels, services, add_new).channels.len(),
        is_tuned_to(
            merged(channels, services, add_new).channels[i],
            svc.service_id,
            svc.frequency,
        ),
        forall|k: int|
            0 <= k < i ==> !is_tuned_to(
                #[trigger] merged(channels, services, add_new).channels[k],
                svc.service_id,
                svc.frequency,
            ),
    ensures
        ({
            let before = merged(channels, services, add_new);
            let after = merged(channels, services.push(svc), add_new);
            let old_record = before.channels[i];
            let r = after.channels[i];
            &&& after.channels == before.channels.update(i, r)
            &&& r.tuning == old_record.tuning
            &&& r.legacy_zap_section == old_record.legacy_zap_section
            &&& after.report.unmatched == before.report.unmatched
            &&& after.report.nameless == before.report.nameless
            &&& after.report.added == before.report.added
            &&& if stands_in(old_record.name) {
                &&& is_first_free_name(
                    r.name,
                    svc.name,
                    |s: Seq<char>| somebody_goes_by(before.channels, s),
                )
                &&& r.aliases == (if old_record.aliases.contains(old_record.name) {
                    old_record.aliases
                } else {
                    old_record.aliases + seq![old_record.name]
                })
                &&& after.report.renamed == before.report.renamed + seq![(old_record.name, r.name)]
                &&& after.report.aliased == before.report.aliased
            } else if old_record.name == svc.name || old_record.aliases.contains(svc.name) {
                r == old_record && after.report.renamed == before.report.renamed
                    && after.report.aliased == before.report.aliased
            } else {
                &&& r.name == old_record.name
                &&& r.aliases == old_record.aliases + seq![svc.name]
                &&& after.report.renamed == before.report.renamed
                &&& after.report.aliased == before.report.aliased + seq![old_record.name]
            }
        }),
{
    law_placeholders(svc.name);
    assert(services.push(svc).drop_last() =~= services);
    let before = merged(channels, services, add_new);
    let after = merged(channels, services.push(svc), add_new);
    let old_record = before.channels[i];
    law_placeholders(old_record.name);
    lemma_place_for(before.channels, svc.service_id, svc.frequency);
    let at = place_for(before.channels, svc.service_id, svc.frequency);
    if at < i {
        assert(is_tuned_to(before.channels[at], svc.service_id, svc.frequency));
    }
    assert(at == i);
    let r = after.channels[i];
    assert(after.channels =~= before.channels.update(i, r));
    assert(old_record.aliases.push(svc.name) =~= old_record.aliases + seq![svc.name]);
    assert(old_record.aliases.push(old_record.name) =~= old_record.aliases + seq![
        old_record.name,
    ]);
    assert(before.report.renamed.push((old_record.name, r.name)) =~= before.report.renamed + seq![
        (old_record.name, r.name),
    ]);
    assert(before.report.aliased.push(old_record.name) =~= before.report.aliased + seq![
        old_record.name,
    ]);
    if stands_in(old_record.name) {
        lemma_taken(channels, services, add_new);
        let earlier = |s: Seq<char>| somebody_goes_by(before.channels, s);
        assert forall|s: Seq<char>| #[trigger] before.taken.contains(s) <==> earlier(s) by {}
        lemma_free_name(r.name, svc.name, before.taken, earlier);
    }
}

/// A merge of nothing changes nothing.
pub proof fn law_merging_nothing(channels: Seq<RecordView>, add_new: bool)
    ensures
        merged(channels, Seq::empty(), add_new).channels == channels,
        merged(channels, Seq::empty(), add_new).report == (ReportView {
            renamed: Seq::empty(),
            aliased: Seq::empty(),
            unmatched: Seq::empty(),
            added: Seq::empty(),
            nameless: Seq::empty(),
        }),
{
}

} // verus!
