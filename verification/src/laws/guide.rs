//! Which sections are collected for a programme guide, which copies of events are
//! kept, and in what order they come.

use crate::eit::{eit, fed, DateTime, EitEvent, EitSection, EitView, EventView};
use crate::epg::{
    after_packet, after_stream, bounded_epg_collect_secs, comes_before, event_place, event_views,
    gathered, guide, in_order, is_known, law_events_are_put_in_order, map_pid, offered,
    pmt_pid_for_service, service_pids_from_pmt, speaking, wanted_pids, with_event, with_events,
    with_raws, EitCollectorView, ServiceEvent, Wanted,
};
use crate::error::{Error, ErrorView};
use crate::laws::texts::is_blank;
use crate::si_tables::{law_ascending, pat, pmt, strictly_ascending, PatProgram, PmtView};
use crate::text::{decimal, is_white_space, lemma_trimmed_empty, trimmed};
use crate::views::views;
use vstd::prelude::*;

verus! {

// ---- Events ----------------------------------------------------------------

/// The events of sections with their services, in order.
pub open spec fn all_events(sections: Seq<EitView>) -> Seq<ServiceEvent>
    decreases sections.len(),
{
    if sections.len() == 0 {
        Seq::empty()
    } else {
        let s = sections.last();
        all_events(sections.drop_last()) + s.events.map_values(
            |e: EventView| (s.service_id, e),
        )
    }
}

/// Whether two events are copies of one: of one service, with one number.
pub open spec fn are_copies(a: ServiceEvent, b: ServiceEvent) -> bool {
    a.0 == b.0 && a.1.event_id == b.1.event_id
}

/// How much a copy tells: the characters of its name and its text, and eight for
/// each kind of content.
pub open spec fn weight(e: ServiceEvent) -> nat {
    e.1.title.len() + e.1.text.len() + 8 * e.1.content_nibbles.len()
}

/// Whether the copy at place `n` is the one to keep: no copy tells more, and none
/// before it as much.
pub open spec fn is_best_copy(list: Seq<ServiceEvent>, n: int) -> bool {
    &&& 0 <= n < list.len()
    &&& forall|m: int|
        0 <= m < list.len() && are_copies(#[trigger] list[m], list[n]) ==> weight(list[m])
            <= weight(list[n])
    &&& forall|m: int|
        0 <= m < n && are_copies(#[trigger] list[m], list[n]) ==> weight(list[m]) < weight(list[n])
}

/// Events that were kept one after the other.
spec fn kept_of(list: Seq<ServiceEvent>) -> Seq<ServiceEvent>
    decreases list.len(),
{
    if list.len() == 0 {
        Seq::empty()
    } else {
        with_event(kept_of(list.drop_last()), list.last())
    }
}

proof fn lemma_with_events(
    before: Seq<ServiceEvent>,
    service_id: u16,
    events: Seq<EventView>,
)
    ensures
        with_events(kept_of(before), service_id, events) == kept_of(
            before + events.map_values(|e: EventView| (service_id, e)),
        ),
    decreases events.len(),
{
    let tagged = events.map_values(|e: EventView| (service_id, e));
    if events.len() == 0 {
        assert(before + tagged =~= before);
    } else {
        lemma_with_events(before, service_id, events.drop_last());
        let less = events.drop_last().map_values(|e: EventView| (service_id, e));
        assert((before + tagged).drop_last() =~= before + less);
        assert((before + tagged).last() == (service_id, events.last()));
    }
}

proof fn lemma_gathered(sections: Seq<EitView>)
    ensures
        gathered(sections) == kept_of(all_events(sections)),
    decreases sections.len(),
{
    if sections.len() > 0 {
        let front = sections.drop_last();
        lemma_gathered(front);
        lemma_with_events(all_events(front), sections.last().service_id, sections.last().events);
    }
}

/// Whether a kept event is the best of its copies.
pub open spec fn is_kept_rightly(list: Seq<ServiceEvent>, e: ServiceEvent) -> bool {
    exists|n: int| #[trigger] is_best_copy(list, n) && list[n] == e
}

/// Whether a list keeps a copy of an event.
pub open spec fn keeps_copy(kept: Seq<ServiceEvent>, e: ServiceEvent) -> bool {
    exists|j: int| 0 <= j < kept.len() && are_copies(#[trigger] kept[j], e)
}

spec fn kept_well(list: Seq<ServiceEvent>, kept: Seq<ServiceEvent>) -> bool {
    &&& forall|j: int| 0 <= j < kept.len() ==> is_kept_rightly(list, #[trigger] kept[j])
    &&& forall|n: int| 0 <= n < list.len() ==> keeps_copy(kept, #[trigger] list[n])
    &&& forall|i: int, j: int|
        0 <= i < j < kept.len() ==> !are_copies(#[trigger] kept[i], #[trigger] kept[j])
}

proof fn lemma_place(list: Seq<ServiceEvent>, e: ServiceEvent)
    ensures
        0 <= event_place(list, e) <= list.len(),
        event_place(list, e) < list.len() ==> are_copies(list[event_place(list, e)], e),
        forall|k: int| 0 <= k < event_place(list, e) ==> !are_copies(#[trigger] list[k], e),
    decreases list.len(),
{
    if list.len() > 0 && !crate::epg::same_event(list[0], e) {
        let rest = list.skip(1);
        lemma_place(rest, e);
        let at = event_place(list, e);
        assert forall|k: int| 0 <= k < at implies !are_copies(#[trigger] list[k], e) by {
            if k > 0 {
                assert(rest[k - 1] == list[k]);
            }
        }
    }
}

proof fn lemma_best_stays(list: Seq<ServiceEvent>, e: ServiceEvent, x: ServiceEvent)
    requires
        is_kept_rightly(list, x),
        are_copies(e, x) ==> weight(e) <= weight(x),
    ensures
        is_kept_rightly(list.push(e), x),
{
    let n = choose|n: int| #[trigger] is_best_copy(list, n) && list[n] == x;
    let all = list.push(e);
    assert(all[n] == x);
    assert forall|m: int| 0 <= m < all.len() && are_copies(#[trigger] all[m], all[n]) implies weight(
        all[m],
    ) <= weight(all[n]) by {
        if m < list.len() {
            assert(all[m] == list[m]);
        }
    }
    assert forall|m: int| 0 <= m < n && are_copies(#[trigger] all[m], all[n]) implies weight(all[m])
        < weight(all[n]) by {
        assert(all[m] == list[m]);
    }
    assert(is_best_copy(all, n));
}

/// Whether one more event is taken into what is kept.
spec fn is_taken_in(before: Seq<ServiceEvent>, e: ServiceEvent) -> bool {
    let at = event_place(before, e);
    at >= before.len() || weight(e) > weight(before[at])
}

#[verifier::rlimit(40)]
proof fn lemma_taken_is_best(front: Seq<ServiceEvent>, before: Seq<ServiceEvent>, e: ServiceEvent)
    requires
        kept_well(front, before),
        is_taken_in(before, e),
    ensures
        is_kept_rightly(front.push(e), e),
{
    let list = front.push(e);
    let last = front.len() as int;
    let at = event_place(before, e);
    lemma_place(before, e);
    assert(list[last] == e);
    assert forall|m: int| 0 <= m < last && are_copies(#[trigger] list[m], e) implies weight(list[m])
        < weight(e) by {
        assert(front[m] == list[m]);
        assert(keeps_copy(before, front[m]));
        let j = choose|j: int| 0 <= j < before.len() && are_copies(#[trigger] before[j], front[m]);
        assert(are_copies(before[j], e));
        if j < at {
            assert(!are_copies(before[j], e));
        }
        if j > at {
            assert(!are_copies(before[at], before[j]));
        }
        assert(j == at);
        assert(is_kept_rightly(front, before[at]));
        let q = choose|q: int| #[trigger] is_best_copy(front, q) && front[q] == before[at];
        assert(are_copies(front[m], front[q]));
    }
    assert(is_best_copy(list, last));
}

#[verifier::rlimit(40)]
proof fn lemma_rest_is_best(
    front: Seq<ServiceEvent>,
    before: Seq<ServiceEvent>,
    e: ServiceEvent,
    j: int,
)
    requires
        kept_well(front, before),
        0 <= j < before.len(),
        !(is_taken_in(before, e) && j == event_place(before, e)),
    ensures
        is_kept_rightly(front.push(e), before[j]),
{
    let at = event_place(before, e);
    lemma_place(before, e);
    assert(is_kept_rightly(front, before[j]));
    if are_copies(e, before[j]) {
        if j < at {
            assert(!are_copies(before[j], e));
        }
        if j > at {
            assert(!are_copies(before[at], before[j]));
        }
    }
    lemma_best_stays(front, e, before[j]);
}

#[verifier::rlimit(40)]
proof fn lemma_step_best(
    front: Seq<ServiceEvent>,
    before: Seq<ServiceEvent>,
    e: ServiceEvent,
    j: int,
)
    requires
        kept_well(front, before),
        0 <= j < with_event(before, e).len(),
    ensures
        is_kept_rightly(front.push(e), with_event(before, e)[j]),
{
    let at = event_place(before, e);
    lemma_place(before, e);
    if is_taken_in(before, e) && j == at {
        lemma_taken_is_best(front, before, e);
    } else {
        lemma_rest_is_best(front, before, e, j);
    }
}

#[verifier::rlimit(40)]
proof fn lemma_step_copies(
    front: Seq<ServiceEvent>,
    before: Seq<ServiceEvent>,
    e: ServiceEvent,
    n: int,
)
    requires
        kept_well(front, before),
        0 <= n <= front.len(),
    ensures
        keeps_copy(with_event(before, e), front.push(e)[n]),
{
    let kept = with_event(before, e);
    let at = event_place(before, e);
    lemma_place(before, e);
    if n < front.len() {
        assert(keeps_copy(before, front[n]));
        let j = choose|j: int| 0 <= j < before.len() && are_copies(#[trigger] before[j], front[n]);
        assert(are_copies(kept[j], front[n]));
    } else {
        assert(are_copies(kept[at], e));
    }
}

#[verifier::rlimit(40)]
proof fn lemma_step_once(
    front: Seq<ServiceEvent>,
    before: Seq<ServiceEvent>,
    e: ServiceEvent,
    i: int,
    j: int,
)
    requires
        kept_well(front, before),
        0 <= i < j < with_event(before, e).len(),
    ensures
        !are_copies(with_event(before, e)[i], with_event(before, e)[j]),
{
    lemma_place(before, e);
    if j < before.len() {
        assert(!are_copies(before[i], before[j]));
    } else {
        assert(!are_copies(before[i], e));
    }
}

#[verifier::rlimit(40)]
proof fn lemma_kept_step(front: Seq<ServiceEvent>, before: Seq<ServiceEvent>, e: ServiceEvent)
    requires
        kept_well(front, before),
    ensures
        kept_well(front.push(e), with_event(before, e)),
{
    let list = front.push(e);
    let kept = with_event(before, e);
    assert forall|j: int| 0 <= j < kept.len() implies is_kept_rightly(list, #[trigger] kept[j]) by {
        lemma_step_best(front, before, e, j);
    }
    assert forall|n: int| 0 <= n < list.len() implies keeps_copy(kept, #[trigger] list[n]) by {
        lemma_step_copies(front, before, e, n);
    }
    assert forall|i: int, j: int| 0 <= i < j < kept.len() implies !are_copies(
        #[trigger] kept[i],
        #[trigger] kept[j],
    ) by {
        lemma_step_once(front, before, e, i, j);
    }
}

#[verifier::rlimit(40)]
proof fn lemma_kept_well(list: Seq<ServiceEvent>)
    ensures
        kept_well(list, kept_of(list)),
    decreases list.len(),
{
    if list.len() > 0 {
        let front = list.drop_last();
        lemma_kept_well(front);
        lemma_kept_step(front, kept_of(front), list.last());
        assert(front.push(list.last()) =~= list);
    }
}

/// Of the copies of every event that were collected exactly one is kept: the one
/// that tells most, and of those that tell as much the first. Nothing else is
/// kept.
pub proof fn law_best_copies_are_kept(sections: Seq<EitView>)
    ensures
        ({
            let list = all_events(sections);
            let kept = gathered(sections);
            &&& forall|j: int| 0 <= j < kept.len() ==> is_kept_rightly(list, #[trigger] kept[j])
            &&& forall|n: int| 0 <= n < list.len() ==> keeps_copy(kept, #[trigger] list[n])
            &&& forall|i: int, j: int|
                0 <= i < j < kept.len() ==> !are_copies(#[trigger] kept[i], #[trigger] kept[j])
        }),
{
    lemma_gathered(sections);
    lemma_kept_well(all_events(sections));
}

/// A time as one number; an event without a start comes first.
pub open spec fn moment(start: Option<DateTime>) -> int {
    match start {
        None => -1,
        Some(d) => ((((d.year * 256 + d.month) * 256 + d.day) * 256 + d.hour) * 256 + d.min) * 256
            + d.sec,
    }
}

proof fn lemma_when(a: ServiceEvent, b: ServiceEvent)
    ensures
        comes_before(a, b) <==> moment(a.1.start) < moment(b.1.start) || moment(a.1.start) == moment(
            b.1.start,
        ) && a.0 < b.0,
{
}

/// A sorted list holds the events that it held before, by their starts and then by
/// their services; those without a start come first.
pub proof fn law_events_come_by_time(list: Seq<ServiceEvent>, i: int, j: int)
    requires
        0 <= i < j < list.len(),
    ensures
        in_order(list).len() == list.len(),
        in_order(list).to_multiset() == list.to_multiset(),
        moment(in_order(list)[i].1.start) <= moment(in_order(list)[j].1.start),
        moment(in_order(list)[i].1.start) == moment(in_order(list)[j].1.start) ==> in_order(list)[i].0
            <= in_order(list)[j].0,
{
    let out = in_order(list);
    law_events_are_put_in_order(list);
    out.to_multiset_ensures();
    list.to_multiset_ensures();
    assert(out.to_multiset().len() == out.len());
    assert(list.to_multiset().len() == list.len());
    assert(!comes_before(out[j], out[i]));
    lemma_when(out[j], out[i]);
}

/// Whether a text is more than white space.
pub open spec fn is_more_than_blank(s: Seq<char>) -> bool {
    exists|i: int| 0 <= i < s.len() && !is_blank(#[trigger] s[i])
}

proof fn lemma_blank(s: Seq<char>)
    ensures
        trimmed(s).len() > 0 <==> is_more_than_blank(s),
{
    lemma_trimmed_empty(s);
    assert(forall|i: int| 0 <= i < s.len() ==> is_blank(#[trigger] s[i]) == is_white_space(s[i]));
    if trimmed(s).len() > 0 {
        let i = choose|i: int| 0 <= i < s.len() && !is_white_space(s[i]);
        assert(!is_blank(s[i]));
    }
}

/// The events that are dropped from a guide are those whose name and text are
/// nothing but white space; the others stay, in order.
pub proof fn law_blank_events_are_dropped(list: Seq<ServiceEvent>)
    ensures
        speaking(list) == list.filter(
            |e: ServiceEvent| is_more_than_blank(e.1.title) || is_more_than_blank(e.1.text),
        ),
    decreases list.len(),
{
    reveal(Seq::filter);
    if list.len() > 0 {
        law_blank_events_are_dropped(list.drop_last());
        lemma_blank(list.last().1.title);
        lemma_blank(list.last().1.text);
    }
}

/// A guide is the events that are kept, in order; those that are blank are left
/// out, unless they are asked for.
pub proof fn law_guides(
    sections: &Vec<EitSection>,
    include_empty: bool,
    list: Vec<(u16, EitEvent)>,
)
    requires
        call_ensures(guide, (sections, include_empty), list),
    ensures
        include_empty ==> event_views(list@) == in_order(gathered(views(sections@))),
        !include_empty ==> event_views(list@) == in_order(gathered(views(sections@))).filter(
            |e: ServiceEvent| is_more_than_blank(e.1.title) || is_more_than_blank(e.1.text),
        ),
{
    law_blank_events_are_dropped(in_order(gathered(views(sections@))));
}

// ---- Collecting ------------------------------------------------------------

/// Whether a section is asked for: of the present and following events of this
/// transport, or of its schedule where that is wanted, and of the service where
/// one is given.
pub open spec fn is_asked_for(w: Wanted, s: EitView) -> bool {
    &&& s.table_id == 0x4e || w.schedule && 0x50 <= s.table_id <= 0x5f
    &&& w.only_service matches Some(id) ==> s.service_id == id
}

/// Whether sections hold one with the service, the table and the number of
/// another.
pub open spec fn holds_section(sections: Seq<EitView>, s: EitView) -> bool {
    exists|i: int|
        0 <= i < sections.len() && (#[trigger] sections[i]).service_id == s.service_id
            && sections[i].table_id == s.table_id && sections[i].section_number == s.section_number
}

proof fn lemma_known(sections: Seq<EitView>, s: EitView)
    ensures
        is_known(sections, s) <==> holds_section(sections, s),
{
    if is_known(sections, s) {
        let i = choose|i: int|
            0 <= i < sections.len() && crate::epg::same_section(#[trigger] sections[i], s);
        assert(sections[i].service_id == s.service_id);
    }
    if holds_section(sections, s) {
        let i = choose|i: int|
            0 <= i < sections.len() && (#[trigger] sections[i]).service_id == s.service_id
                && sections[i].table_id == s.table_id && sections[i].section_number
                == s.section_number;
        assert(crate::epg::same_section(sections[i], s));
    }
}

/// One more section is taken exactly where it can be read, is asked for, and was
/// not taken before; it is put behind the others.
pub proof fn law_sections_are_taken(w: Wanted, sections: Seq<EitView>, raws: Seq<Seq<u8>>, raw: Seq<u8>)
    ensures
        with_raws(w, sections, Seq::empty()) == sections,
        ({
            let before = with_raws(w, sections, raws);
            let after = with_raws(w, sections, raws.push(raw));
            match eit(raw) {
                Ok(s) => after == (if is_asked_for(w, s) && !holds_section(before, s) {
                    before + seq![s]
                } else {
                    before
                }),
                Err(_) => after == before,
            }
        }),
{
    let before = with_raws(w, sections, raws);
    assert(raws.push(raw).drop_last() =~= raws);
    if let Ok(s) = eit(raw) {
        lemma_known(before, s);
        assert(s.table_id == raw[0]);
        assert(before.push(s) =~= before + seq![s]);
    }
}

/// What the assemblers of a collector have ready behind a packet, one assembler
/// behind the other.
pub open spec fn made_ready(st: EitCollectorView, p: Seq<u8>, n: int) -> Seq<Seq<u8>>
    decreases n,
{
    if n <= 0 {
        Seq::empty()
    } else {
        made_ready(st, p, n - 1) + fed(st.assemblers[n - 1], p).ready
    }
}

proof fn lemma_raws_join(
    w: Wanted,
    sections: Seq<EitView>,
    a: Seq<Seq<u8>>,
    b: Seq<Seq<u8>>,
)
    ensures
        with_raws(w, with_raws(w, sections, a), b) == with_raws(w, sections, a + b),
    decreases b.len(),
{
    if b.len() == 0 {
        assert(a + b =~= a);
    } else {
        lemma_raws_join(w, sections, a, b.drop_last());
        assert((a + b).drop_last() =~= a + b.drop_last());
    }
}

proof fn lemma_offered(w: Wanted, st: EitCollectorView, p: Seq<u8>, n: int)
    requires
        0 <= n <= st.assemblers.len(),
    ensures
        offered(w, st, p, n).sections == with_raws(w, st.sections, made_ready(st, p, n)),
        offered(w, st, p, n).assemblers.len() == st.assemblers.len(),
        forall|k: int|
            0 <= k < n ==> (#[trigger] offered(w, st, p, n).assemblers[k]).partial == fed(
                st.assemblers[k],
                p,
            ).partial && offered(w, st, p, n).assemblers[k].ready.len() == 0,
    decreases n,
{
    if n > 0 {
        lemma_offered(w, st, p, n - 1);
        lemma_raws_join(
            w,
            st.sections,
            made_ready(st, p, n - 1),
            fed(st.assemblers[n - 1], p).ready,
        );
    }
}

/// Every assembler of a collector is offered every packet, each takes it for
/// itself, and all that they make ready is looked at.
pub proof fn law_packets_are_offered_to_all(w: Wanted, st: EitCollectorView, p: Seq<u8>, k: int)
    requires
        0 <= k < st.assemblers.len(),
    ensures
        after_packet(w, st, p).sections == with_raws(
            w,
            st.sections,
            made_ready(st, p, st.assemblers.len() as int),
        ),
        after_packet(w, st, p).assemblers[k].partial == fed(st.assemblers[k], p).partial,
        after_packet(w, st, p).assemblers[k].ready.len() == 0,
{
    lemma_offered(w, st, p, st.assemblers.len() as int);
    assert(after_packet(w, st, p).assemblers[k].partial == fed(st.assemblers[k], p).partial);
}

/// A stream is looked at packet by packet; what is less than a packet at its end
/// is nothing.
pub proof fn law_streams_are_looked_at(
    w: Wanted,
    st: EitCollectorView,
    p: Seq<u8>,
    rest: Seq<u8>,
    tail: Seq<u8>,
)
    requires
        p.len() == 188,
        tail.len() < 188,
    ensures
        after_stream(w, st, tail) == st,
        after_stream(w, st, p + rest) == after_stream(w, after_packet(w, st, p), rest),
{
    assert((p + rest).take(188) =~= p);
    assert((p + rest).skip(188) =~= rest);
}

// ---- What is tapped --------------------------------------------------------

/// What is tapped for a service is the PAT, its map, its clock unless it has none,
/// its entitlement messages and its streams, ascending, and nothing else.
pub proof fn law_tapped_packets(
    pmt_pid: u16,
    pmt_section: &[u8],
    out: Result<Vec<u16>, Error>,
    pid: u16,
)
    requires
        call_ensures(service_pids_from_pmt, (pmt_pid, pmt_section), out),
    ensures
        match pmt(pmt_section@) {
            Err(e) => out matches Err(error) && error@ == e,
            Ok(map) => out matches Ok(pids) && {
                &&& strictly_ascending(pids@)
                &&& pids@.contains(pid) <==> {
                    ||| pid == 0
                    ||| pid == pmt_pid
                    ||| map.pcr_pid != 0x1fff && pid == map.pcr_pid
                    ||| map.ca_pids.contains(pid)
                    ||| exists|i: int|
                        0 <= i < map.streams.len() && (#[trigger] map.streams[i]).pid == pid
                }
            },
        },
{
    if let Ok(map) = pmt(pmt_section@) {
        law_ascending(wanted_pids(pmt_pid, map));
        lemma_wanted(pmt_pid, map, pid);
    }
}

proof fn lemma_wanted(pmt_pid: u16, map: PmtView, pid: u16)
    ensures
        wanted_pids(pmt_pid, map).contains(pid) <==> {
            ||| pid == 0
            ||| pid == pmt_pid
            ||| map.pcr_pid != 0x1fff && pid == map.pcr_pid
            ||| map.ca_pids.contains(pid)
            ||| exists|i: int|
                0 <= i < map.streams.len() && (#[trigger] map.streams[i]).pid == pid
        },
{
    let all = wanted_pids(pmt_pid, map);
    let n: int = if map.pcr_pid != 0x1fff {
        3
    } else {
        2
    };
    let ca = map.ca_pids.len() as int;
    assert(all[0] == 0 && all[1] == pmt_pid);
    if map.pcr_pid != 0x1fff {
        assert(all[2] == map.pcr_pid);
    }
    if map.ca_pids.contains(pid) {
        let k = choose|k: int| 0 <= k < ca && map.ca_pids[k] == pid;
        assert(all[n + k] == pid);
    }
    if exists|i: int| 0 <= i < map.streams.len() && (#[trigger] map.streams[i]).pid == pid {
        let i = choose|i: int|
            0 <= i < map.streams.len() && (#[trigger] map.streams[i]).pid == pid;
        assert(all[n + ca + i] == pid);
    }
    if all.contains(pid) {
        let k = choose|k: int| 0 <= k < all.len() && all[k] == pid;
        if k >= n + ca {
            assert(map.streams[k - n - ca].pid == pid);
        } else if k >= n {
            assert(map.ca_pids[k - n] == pid);
        }
    }
}

proof fn lemma_map_pid(programs: Seq<PatProgram>, service_id: u16, i: int)
    requires
        0 <= i < programs.len(),
        programs[i].program_number == service_id,
        forall|k: int| 0 <= k < i ==> (#[trigger] programs[k]).program_number != service_id,
    ensures
        map_pid(programs, service_id) == Some(programs[i].pid),
    decreases programs.len(),
{
    if i > 0 {
        let rest = programs.skip(1);
        assert(programs[0].program_number != service_id);
        assert forall|k: int| 0 <= k < i - 1 implies (#[trigger] rest[k]).program_number
            != service_id by {
            assert(rest[k] == programs[k + 1]);
        }
        lemma_map_pid(rest, service_id, i - 1);
    }
}

proof fn lemma_no_map_pid(programs: Seq<PatProgram>, service_id: u16)
    requires
        forall|k: int|
            0 <= k < programs.len() ==> (#[trigger] programs[k]).program_number != service_id,
    ensures
        map_pid(programs, service_id) is None,
    decreases programs.len(),
{
    if programs.len() > 0 {
        let rest = programs.skip(1);
        assert(programs[0].program_number != service_id);
        assert forall|k: int| 0 <= k < rest.len() implies (#[trigger] rest[k]).program_number
            != service_id by {
            assert(rest[k] == programs[k + 1]);
        }
        lemma_no_map_pid(rest, service_id);
    }
}

/// The map of a service is where the first program with its number says; without
/// such a program there is none, and the error tells the number.
pub proof fn law_maps_are_found(
    pat_section: &[u8],
    service_id: u16,
    out: Result<u16, Error>,
    i: int,
)
    requires
        call_ensures(pmt_pid_for_service, (pat_section, service_id), out),
    ensures
        match pat(pat_section@) {
            Err(e) => out matches Err(error) && error@ == e,
            Ok(programs) => {
                &&& 0 <= i < programs.len() && programs[i].program_number == service_id && (forall|
                    k: int,
                |
                    0 <= k < i ==> (#[trigger] programs[k]).program_number != service_id) ==> out
                    == Ok::<u16, Error>(programs[i].pid)
                &&& (forall|k: int|
                    0 <= k < programs.len() ==> (#[trigger] programs[k]).program_number
                        != service_id) ==> (out matches Err(error) && error@ == ErrorView::Si(
                    "service_id "@ + decimal(service_id as nat) + " not found in PAT"@,
                ))
            },
        },
{
    if let Ok(programs) = pat(pat_section@) {
        if 0 <= i < programs.len() && programs[i].program_number == service_id && (forall|k: int|
            0 <= k < i ==> (#[trigger] programs[k]).program_number != service_id) {
            lemma_map_pid(programs, service_id, i);
        }
        if forall|k: int|
            0 <= k < programs.len() ==> (#[trigger] programs[k]).program_number != service_id {
            lemma_no_map_pid(programs, service_id);
        }
    }
}

/// Events are collected for as long as is asked for, from 1 to 60 s; more is cut,
/// less is an error. Without a wish it is 60 s for a schedule, else 10 s.
pub proof fn law_collection_times(schedule: bool, wish: Option<u64>, out: Result<u64, Error>)
    requires
        call_ensures(bounded_epg_collect_secs, (schedule, wish), out),
    ensures
        wish is None && schedule ==> out == Ok::<u64, Error>(60),
        wish is None && !schedule ==> out == Ok::<u64, Error>(10),
        wish matches Some(n) ==> {
            &&& n == 0 ==> (out matches Err(e) && e@ == ErrorView::Msg(
                "--collect-secs must be at least 1"@,
            ))
            &&& 1 <= n <= 60 ==> out == Ok::<u64, Error>(n)
            &&& n > 60 ==> out == Ok::<u64, Error>(60)
        },
{
}

} // verus!
