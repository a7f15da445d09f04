//! The programme guide: collecting the sections of the event tables of a
//! transport, choosing the best copy of each event, and writing the events out.

use crate::eit::{
    eit, fed, fresh, is_sized, law_ready_sections_are_sized, packet_pid, parse_eit_section,
    AssemblerView, DateTime, EitEvent, EitSection, EitView, EventView, TsSectionAssembler,
    EIT_ACTUAL_PF, EIT_ACTUAL_SCHED_FIRST, EIT_ACTUAL_SCHED_LAST, TS_PACKET_SIZE,
};
use crate::error::{Error, ErrorView};
use crate::si_reader::ReadEvent;
use crate::si_tables::{
    ascending, checked, headless, law_ascending, parse_pat, parse_pmt, pat, pmt, sorted_pids,
    strictly_ascending, PatProgram, Pmt, PmtStream, PmtView,
};
use crate::text::{
    chars_of, decimal, decimal_text, is_white_space, lemma_trimmed_empty, trim, trimmed,
};
use crate::views::{lemma_views_push, views};
use vstd::prelude::*;
use vstd::slice::slice_subrange;

verus! {

// ---- The packets of a service ----------------------------------------------

/// The packets of the map of a service, by the programs of a PAT.
pub open spec fn map_pid(programs: Seq<PatProgram>, service_id: u16) -> Option<u16>
    decreases programs.len(),
{
    if programs.len() == 0 {
        None
    } else if programs[0].program_number == service_id {
        Some(programs[0].pid)
    } else {
        map_pid(programs.skip(1), service_id)
    }
}

/// The packets of the map of a service, by a PAT section. A section that passes
/// every test but whose header leaves no room for a CRC is no input.
pub fn pmt_pid_for_service(pat_section: &[u8], service_id: u16) -> (out: Result<u16, Error>)
    requires
        !(checked(pat_section@, 0x00, 16) && headless(pat_section@)),
    ensures
        match pat(pat_section@) {
            Err(e) => out matches Err(error) && error@ == e,
            Ok(programs) => match map_pid(programs, service_id) {
                Some(pid) => out == Ok::<u16, Error>(pid),
                None => out matches Err(error) && error@ == ErrorView::Si(
                    "service_id "@ + decimal(service_id as nat) + " not found in PAT"@,
                ),
            },
        },
{
    let programs = match parse_pat(pat_section) {
        Ok(p) => p,
        Err(e) => return Err(e),
    };
    let mut i: usize = 0;
    assert(programs@.skip(0) =~= programs@);
    while i < programs.len()
        invariant
            i <= programs@.len(),
            map_pid(programs@, service_id) == map_pid(programs@.skip(i as int), service_id),
            pat(pat_section@) == Ok::<Seq<PatProgram>, ErrorView>(programs@),
        decreases programs@.len() - i,
    {
        assert(programs@.skip(i as int).skip(1) =~= programs@.skip(i + 1));
        if programs[i].program_number == service_id {
            return Ok(programs[i].pid);
        }
        i += 1;
    }
    let mut text = "service_id ".to_owned();
    text.append(&decimal_text(service_id as u128));
    text.append(" not found in PAT");
    Err(Error::Si(text))
}

/// The identifiers of streams.
pub open spec fn stream_pids(streams: Seq<PmtStream>) -> Seq<u16> {
    streams.map_values(|s: PmtStream| s.pid)
}

/// Everything that has to be tapped for a service: the PAT, the map, the clock if
/// there is one, the entitlement messages and the streams.
pub open spec fn wanted_pids(pmt_pid: u16, map: PmtView) -> Seq<u16> {
    seq![0u16, pmt_pid] + (if map.pcr_pid != 0x1fff {
        seq![map.pcr_pid]
    } else {
        Seq::empty()
    }) + map.ca_pids + stream_pids(map.streams)
}

/// Everything that has to be tapped for a service, ascending.
pub fn service_pids(pmt_pid: u16, map: &Pmt) -> (pids: Vec<u16>)
    ensures
        pids@ == ascending(wanted_pids(pmt_pid, map@)),
{
    let mut pids: Vec<u16> = Vec::new();
    pids.push(0);
    pids.push(pmt_pid);
    if map.pcr_pid != 0x1fff {
        pids.push(map.pcr_pid);
    }
    let ghost head = pids@;
    let mut more = vstd::slice::slice_to_vec(map.ca_pids.as_slice());
    pids.append(&mut more);
    let ghost known = pids@;
    let mut i: usize = 0;
    while i < map.streams.len()
        invariant
            i <= map.streams@.len(),
            pids@ == known + stream_pids(map.streams@).take(i as int),
        decreases map.streams@.len() - i,
    {
        pids.push(map.streams[i].pid);
        i += 1;
        assert(pids@ =~= known + stream_pids(map.streams@).take(i as int));
    }
    assert(pids@ =~= wanted_pids(pmt_pid, map@));
    sorted_pids(pids.as_slice())
}

/// Everything that has to be tapped for a service, by the section of its map.
pub fn service_pids_from_pmt(pmt_pid: u16, pmt_section: &[u8]) -> (out: Result<Vec<u16>, Error>)
    ensures
        match pmt(pmt_section@) {
            Err(e) => out matches Err(error) && error@ == e,
            Ok(map) => out matches Ok(pids) && pids@ == ascending(wanted_pids(pmt_pid, map)),
        },
{
    match parse_pmt(pmt_section) {
        Ok(map) => Ok(service_pids(pmt_pid, &map)),
        Err(e) => Err(e),
    }
}

/// What is tapped for a service holds the PAT, its map, every stream and every
/// entitlement message of it, and its clock unless it has none; each once.
pub proof fn law_service_is_tapped_whole(pmt_pid: u16, map: PmtView)
    ensures
        ({
            let pids = ascending(wanted_pids(pmt_pid, map));
            &&& strictly_ascending(pids)
            &&& pids.contains(0) && pids.contains(pmt_pid)
            &&& map.pcr_pid != 0x1fff ==> pids.contains(map.pcr_pid)
            &&& forall|i: int|
                0 <= i < map.ca_pids.len() ==> pids.contains(#[trigger] map.ca_pids[i])
            &&& forall|i: int|
                0 <= i < map.streams.len() ==> pids.contains((#[trigger] map.streams[i]).pid)
        }),
{
    let all = wanted_pids(pmt_pid, map);
    law_ascending(all);
    assert(all[0] == 0 && all[1] == pmt_pid);
    assert(all.contains(0) && all.contains(pmt_pid));
    let n: int = if map.pcr_pid != 0x1fff {
        3
    } else {
        2
    };
    if map.pcr_pid != 0x1fff {
        assert(all[2] == map.pcr_pid);
        assert(all.contains(map.pcr_pid));
    }
    assert forall|i: int| 0 <= i < map.ca_pids.len() implies ascending(all).contains(
        #[trigger] map.ca_pids[i],
    ) by {
        assert(all[n + i] == map.ca_pids[i]);
        assert(all.contains(map.ca_pids[i]));
    }
    assert forall|i: int| 0 <= i < map.streams.len() implies ascending(all).contains(
        (#[trigger] map.streams[i]).pid,
    ) by {
        assert(all[n + map.ca_pids.len() + i] == map.streams[i].pid);
        assert(all.contains(map.streams[i].pid));
    }
}

// ---- How long to collect ---------------------------------------------------

/// The longest time that events are collected for, in seconds.
pub const MAX_EPG_COLLECT_SECS: u64 = 60;

/// How long events are collected for, in seconds: as long as is asked for, up to
/// the longest time; 10 s for present events, 60 s for a schedule.
pub fn bounded_epg_collect_secs(schedule: bool, collect_secs: Option<u64>) -> (out: Result<
    u64,
    Error,
>)
    ensures
        ({
            let secs = match collect_secs {
                Some(n) => n,
                None => if schedule {
                    60
                } else {
                    10
                },
            };
            if secs == 0 {
                out matches Err(e) && e@ == ErrorView::Msg("--collect-secs must be at least 1"@)
            } else if secs > MAX_EPG_COLLECT_SECS {
                out == Ok::<u64, Error>(MAX_EPG_COLLECT_SECS)
            } else {
                out == Ok::<u64, Error>(secs)
            }
        }),
{
    let secs: u64 = match collect_secs {
        Some(n) => n,
        None => if schedule {
            60
        } else {
            10
        },
    };
    if secs == 0 {
        return Err(Error::Msg("--collect-secs must be at least 1".to_owned()));
    }
    if secs > MAX_EPG_COLLECT_SECS {
        return Ok(MAX_EPG_COLLECT_SECS);
    }
    Ok(secs)
}

// ---- Collecting ------------------------------------------------------------

/// Which sections are collected.
#[derive(Debug, Clone, Copy)]
pub struct Wanted {
    /// Those of one service, if not of all.
    pub only_service: Option<u16>,
    /// Those of the schedule too, not only of the present and following events.
    pub schedule: bool,
}

/// Whether a table is one that is collected.
pub open spec fn wants_table(w: Wanted, table_id: u8) -> bool {
    table_id == EIT_ACTUAL_PF || w.schedule && EIT_ACTUAL_SCHED_FIRST <= table_id
        <= EIT_ACTUAL_SCHED_LAST
}

/// Whether a service is one that is collected.
pub open spec fn wants_service(w: Wanted, service_id: u16) -> bool {
    w.only_service matches Some(only) ==> service_id == only
}

/// Whether two sections are the same section of the same table of a service.
pub open spec fn same_section(a: EitView, b: EitView) -> bool {
    a.service_id == b.service_id && a.table_id == b.table_id && a.section_number
        == b.section_number
}

/// Whether a section was collected already.
pub open spec fn is_known(sections: Seq<EitView>, s: EitView) -> bool {
    exists|i: int| 0 <= i < sections.len() && same_section(#[trigger] sections[i], s)
}

/// The sections with one more, if it is wanted, can be read and is not known.
pub open spec fn with_raw(w: Wanted, sections: Seq<EitView>, raw: Seq<u8>) -> Seq<EitView> {
    match eit(raw) {
        Ok(s) if wants_table(w, raw[0]) && wants_service(w, s.service_id) && !is_known(
            sections,
            s,
        ) => sections.push(s),
        _ => sections,
    }
}

/// The sections with a list of more.
pub open spec fn with_raws(w: Wanted, sections: Seq<EitView>, raws: Seq<Seq<u8>>) -> Seq<EitView>
    decreases raws.len(),
{
    if raws.len() == 0 {
        sections
    } else {
        with_raw(w, with_raws(w, sections, raws.drop_last()), raws.last())
    }
}

/// The state of a collector.
#[verifier::ext_equal]
pub struct EitCollectorView {
    /// One for each identifier: what comes of one is no gap in another.
    pub assemblers: Seq<AssemblerView>,
    pub sections: Seq<EitView>,
}

/// An assembler when it was drained.
pub open spec fn drained(a: AssemblerView) -> AssemblerView {
    AssemblerView { ready: Seq::empty(), ..a }
}

/// The state when the first `n` assemblers were offered a packet.
pub open spec fn offered(
    w: Wanted,
    st: EitCollectorView,
    p: Seq<u8>,
    n: int,
) -> EitCollectorView
    decreases n,
{
    if n <= 0 {
        st
    } else {
        let before = offered(w, st, p, n - 1);
        let next = fed(st.assemblers[n - 1], p);
        EitCollectorView {
            assemblers: before.assemblers.update(n - 1, drained(next)),
            sections: with_raws(w, before.sections, next.ready),
        }
    }
}

/// The state behind a packet: every assembler is offered it.
pub open spec fn after_packet(w: Wanted, st: EitCollectorView, p: Seq<u8>) -> EitCollectorView {
    offered(w, st, p, st.assemblers.len() as int)
}

/// The state behind the packets of `data`. Bytes behind the last whole packet are
/// dropped.
pub open spec fn after_stream(w: Wanted, st: EitCollectorView, data: Seq<u8>) -> EitCollectorView
    decreases data.len(),
{
    if data.len() < 188 {
        st
    } else {
        after_stream(w, after_packet(w, st, data.take(188)), data.skip(188))
    }
}

/// What the reader of a collector does next.
#[derive(Debug, Clone, Copy, PartialEq, Eq, Structural)]
pub enum CollectAction {
    Read,
    /// Wait a little, then read.
    PauseAndRead,
    Stop,
}

/// Collects the sections of event tables from the packets of some identifiers.
pub struct EitCollector {
    wanted: Wanted,
    assemblers: Vec<TsSectionAssembler>,
    sections: Vec<EitSection>,
}

impl View for EitCollector {
    type V = EitCollectorView;

    closed spec fn view(&self) -> EitCollectorView {
        EitCollectorView { assemblers: views(self.assemblers@), sections: views(self.sections@) }
    }
}

impl EitCollector {
    pub closed spec fn wants(self) -> Wanted {
        self.wanted
    }

    /// Whether no assembler holds sections back.
    pub closed spec fn wf(self) -> bool {
        forall|i: int| 0 <= i < self.assemblers@.len() ==> (#[trigger] self.assemblers@[i])@.ready.len()
            == 0
    }

    pub fn new(pids: &[u16], wanted: Wanted) -> (c: Self)
        ensures
            c.wf(),
            c.wants() == wanted,
            c@ == (EitCollectorView {
                assemblers: pids@.map_values(|pid: u16| fresh(pid)),
                sections: Seq::empty(),
            }),
    {
        let mut assemblers: Vec<TsSectionAssembler> = Vec::new();
        let mut i: usize = 0;
        while i < pids.len()
            invariant
                i <= pids@.len(),
                assemblers@.len() == i,
                forall|k: int| 0 <= k < i ==> (#[trigger] assemblers@[k])@ == fresh(pids@[k]),
            decreases pids@.len() - i,
        {
            assemblers.push(TsSectionAssembler::new(pids[i]));
            i += 1;
        }
        let c = EitCollector { wanted, assemblers, sections: Vec::new() };
        assert(c@.assemblers =~= pids@.map_values(|pid: u16| fresh(pid)));
        assert(c@.sections =~= Seq::empty());
        c
    }

    fn knows(&self, s: &EitSection) -> (yes: bool)
        ensures
            yes == is_known(views(self.sections@), s@),
    {
        let mut i: usize = 0;
        while i < self.sections.len()
            invariant
                i <= self.sections@.len(),
                forall|j: int|
                    0 <= j < i ==> !same_section(#[trigger] views(self.sections@)[j], s@),
            decreases self.sections@.len() - i,
        {
            let known = &self.sections[i];
            if known.service_id == s.service_id && known.table_id == s.table_id
                && known.section_number == s.section_number {
                assert(same_section(views(self.sections@)[i as int], s@));
                return true;
            }
            i += 1;
        }
        false
    }

    /// Takes one section.
    fn take_raw(&mut self, raw: &[u8])
        requires
            is_sized(raw@),
        ensures
            views(final(self).sections@) == with_raw(
                old(self).wanted,
                views(old(self).sections@),
                raw@,
            ),
            final(self).wanted == old(self).wanted,
            final(self).assemblers == old(self).assemblers,
    {
        let table_id = raw[0];
        let wanted = table_id == EIT_ACTUAL_PF || self.wanted.schedule && EIT_ACTUAL_SCHED_FIRST
            <= table_id && table_id <= EIT_ACTUAL_SCHED_LAST;
        if !wanted {
            return ;
        }
        match parse_eit_section(raw) {
            Ok(s) => {
                if let Some(only) = self.wanted.only_service {
                    if s.service_id != only {
                        return ;
                    }
                }
                if !self.knows(&s) {
                    proof {
                        lemma_views_push(self.sections@, s);
                    }
                    self.sections.push(s);
                }
            },
            Err(_) => {},
        }
    }

    /// Takes a list of sections.
    fn take_raws(&mut self, raws: Vec<Vec<u8>>)
        requires
            forall|i: int| 0 <= i < raws@.len() ==> is_sized((#[trigger] raws@[i])@),
        ensures
            views(final(self).sections@) == with_raws(
                old(self).wanted,
                views(old(self).sections@),
                views(raws@),
            ),
            final(self).wanted == old(self).wanted,
            final(self).assemblers == old(self).assemblers,
    {
        let ghost all = views(raws@);
        let mut i: usize = 0;
        assert(all.take(0) =~= Seq::<Seq<u8>>::empty());
        while i < raws.len()
            invariant
                all == views(raws@),
                i <= raws@.len(),
                forall|k: int| 0 <= k < raws@.len() ==> is_sized((#[trigger] raws@[k])@),
                views(self.sections@) == with_raws(
                    old(self).wanted,
                    views(old(self).sections@),
                    all.take(i as int),
                ),
                self.wanted == old(self).wanted,
                self.assemblers == old(self).assemblers,
            decreases raws@.len() - i,
        {
            assert(all.take(i + 1).drop_last() =~= all.take(i as int));
            assert(all.take(i + 1).last() == raws@[i as int]@);
            self.take_raw(raws[i].as_slice());
            i += 1;
        }
        assert(all.take(i as int) =~= all);
    }

    /// Offers a packet to every assembler.
    fn take_packet(&mut self, p: &[u8])
        requires
            old(self).wf(),
        ensures
            final(self).wf(),
            final(self).wanted == old(self).wanted,
            final(self)@ == after_packet(old(self).wanted, old(self)@, p@),
    {
        let ghost st = self@;
        let mut i: usize = 0;
        while i < self.assemblers.len()
            invariant
                st == old(self)@,
                self.wf(),
                self.wanted == old(self).wanted,
                i <= self.assemblers@.len(),
                self.assemblers@.len() == st.assemblers.len(),
                forall|k: int|
                    i <= k < self.assemblers@.len() ==> (#[trigger] self.assemblers@[k])@
                        == st.assemblers[k],
                self@ == offered(self.wanted, st, p@, i as int),
            decreases self.assemblers@.len() - i,
        {
            let ghost before = self@;
            let mut assembler = self.assemblers.remove(i);
            assert(assembler@ == st.assemblers[i as int]);
            assembler.feed(p);
            let raws = assembler.drain();
            proof {
                law_ready_sections_are_sized(st.assemblers[i as int], p@);
                assert forall|k: int| 0 <= k < raws@.len() implies is_sized(
                    (#[trigger] raws@[k])@,
                ) by {
                    assert(views(raws@)[k] == raws@[k]@);
                }
            }
            self.assemblers.insert(i, assembler);
            assert(views(self.assemblers@) =~= before.assemblers.update(
                i as int,
                drained(fed(st.assemblers[i as int], p@)),
            ));
            self.take_raws(raws);
            i += 1;
        }
    }

    /// Takes the packets of `data`.
    #[verifier::rlimit(40)]
    pub fn push(&mut self, data: &[u8])
        requires
            old(self).wf(),
        ensures
            final(self).wf(),
            final(self).wants() == old(self).wants(),
            final(self)@ == after_stream(old(self).wants(), old(self)@, data@),
    {
        let mut off: usize = 0;
        assert(data@.skip(0) =~= data@);
        while data.len() - off >= TS_PACKET_SIZE
            invariant
                self.wf(),
                self.wanted == old(self).wanted,
                off <= data@.len(),
                after_stream(self.wanted, self@, data@.skip(off as int)) == after_stream(
                    old(self).wanted,
                    old(self)@,
                    data@,
                ),
            decreases data@.len() - off,
        {
            let ghost rest = data@.skip(off as int);
            let p = slice_subrange(data, off, off + TS_PACKET_SIZE);
            assert(p@ =~= rest.take(188));
            assert(rest.skip(188) =~= data@.skip(off + 188));
            self.take_packet(p);
            off += TS_PACKET_SIZE;
        }
    }

    /// What the reader does behind an event. Any failure of the device ends the
    /// collection with what there is.
    pub fn on_event(&mut self, event: ReadEvent<'_>) -> (action: CollectAction)
        requires
            old(self).wf(),
        ensures
            final(self).wf(),
            final(self).wants() == old(self).wants(),
            match event {
                ReadEvent::Data(data) if data@.len() > 0 => {
                    &&& final(self)@ == after_stream(old(self).wants(), old(self)@, data@)
                    &&& action == CollectAction::Read
                },
                ReadEvent::Data(_) => final(self)@ == old(self)@ && action
                    == CollectAction::PauseAndRead,
                ReadEvent::Interrupted => final(self)@ == old(self)@ && action
                    == CollectAction::Read,
                _ => final(self)@ == old(self)@ && action == CollectAction::Stop,
            },
    {
        match event {
            ReadEvent::Data(data) => {
                if data.len() == 0 {
                    return CollectAction::PauseAndRead;
                }
                self.push(data);
                CollectAction::Read
            },
            ReadEvent::Interrupted => CollectAction::Read,
            _ => CollectAction::Stop,
        }
    }

    /// Hands over the sections.
    pub fn into_sections(self) -> (sections: Vec<EitSection>)
        ensures
            views(sections@) == self@.sections,
    {
        self.sections
    }
}

/// Whether no section of a table of a service stands twice in a list.
pub open spec fn sections_once(sections: Seq<EitView>) -> bool {
    forall|i: int, j: int|
        0 <= i < j < sections.len() ==> !same_section(
            #[trigger] sections[i],
            #[trigger] sections[j],
        )
}

proof fn lemma_raws_once(w: Wanted, sections: Seq<EitView>, raws: Seq<Seq<u8>>)
    requires
        sections_once(sections),
    ensures
        sections_once(with_raws(w, sections, raws)),
    decreases raws.len(),
{
    if raws.len() > 0 {
        lemma_raws_once(w, sections, raws.drop_last());
    }
}

proof fn lemma_offered_once(w: Wanted, st: EitCollectorView, p: Seq<u8>, n: int)
    requires
        sections_once(st.sections),
    ensures
        sections_once(offered(w, st, p, n).sections),
    decreases n,
{
    if n > 0 {
        lemma_offered_once(w, st, p, n - 1);
        lemma_raws_once(w, offered(w, st, p, n - 1).sections, fed(st.assemblers[n - 1], p).ready);
    }
}

/// However often the tables are repeated, no section is collected twice.
pub proof fn law_no_section_is_collected_twice(w: Wanted, st: EitCollectorView, data: Seq<u8>)
    requires
        sections_once(st.sections),
    ensures
        sections_once(after_stream(w, st, data).sections),
    decreases data.len(),
{
    if data.len() >= 188 {
        let p = data.take(188);
        lemma_offered_once(w, st, p, st.assemblers.len() as int);
        law_no_section_is_collected_twice(w, after_packet(w, st, p), data.skip(188));
    }
}

/// Whether every section of a list is one that is collected: by its table, and by
/// its service.
pub open spec fn all_wanted(w: Wanted, sections: Seq<EitView>) -> bool {
    forall|i: int|
        0 <= i < sections.len() ==> wants_table(w, (#[trigger] sections[i]).table_id)
            && wants_service(w, sections[i].service_id)
}

proof fn lemma_raws_wanted(w: Wanted, sections: Seq<EitView>, raws: Seq<Seq<u8>>)
    requires
        all_wanted(w, sections),
    ensures
        all_wanted(w, with_raws(w, sections, raws)),
    decreases raws.len(),
{
    if raws.len() > 0 {
        lemma_raws_wanted(w, sections, raws.drop_last());
    }
}

proof fn lemma_offered_wanted(w: Wanted, st: EitCollectorView, p: Seq<u8>, n: int)
    requires
        all_wanted(w, st.sections),
    ensures
        all_wanted(w, offered(w, st, p, n).sections),
    decreases n,
{
    if n > 0 {
        lemma_offered_wanted(w, st, p, n - 1);
        lemma_raws_wanted(w, offered(w, st, p, n - 1).sections, fed(st.assemblers[n - 1], p).ready);
    }
}

/// No section is collected but those that were asked for: of the tables that are
/// wanted, and of the one service where one is given.
pub proof fn law_only_wanted_sections_are_collected(
    w: Wanted,
    st: EitCollectorView,
    data: Seq<u8>,
)
    requires
        all_wanted(w, st.sections),
    ensures
        all_wanted(w, after_stream(w, st, data).sections),
    decreases data.len(),
{
    if data.len() >= 188 {
        let p = data.take(188);
        lemma_offered_wanted(w, st, p, st.assemblers.len() as int);
        law_only_wanted_sections_are_collected(w, after_packet(w, st, p), data.skip(188));
    }
}

/// Every section that is wanted and can be read is collected, of whatever service
/// of the transport it is, and stays collected.
pub proof fn law_wanted_sections_are_collected(
    w: Wanted,
    sections: Seq<EitView>,
    raws: Seq<Seq<u8>>,
)
    ensures
        forall|i: int|
            0 <= i < sections.len() ==> is_known(
                with_raws(w, sections, raws),
                #[trigger] sections[i],
            ),
        forall|k: int|
            0 <= k < raws.len() && eit(#[trigger] raws[k]) is Ok && wants_table(w, raws[k][0])
                && wants_service(w, eit(raws[k])->Ok_0.service_id) ==> is_known(
                with_raws(w, sections, raws),
                eit(raws[k])->Ok_0,
            ),
    decreases raws.len(),
{
    let next = with_raws(w, sections, raws);
    if raws.len() > 0 {
        let front = raws.drop_last();
        let mid = with_raws(w, sections, front);
        law_wanted_sections_are_collected(w, sections, front);
        assert forall|x: EitView| is_known(mid, x) implies #[trigger] is_known(next, x) by {
            let i = choose|i: int| 0 <= i < mid.len() && same_section(#[trigger] mid[i], x);
            assert(same_section(next[i], x));
        }
        assert forall|k: int|
            0 <= k < raws.len() && eit(#[trigger] raws[k]) is Ok && wants_table(w, raws[k][0])
                && wants_service(w, eit(raws[k])->Ok_0.service_id) implies is_known(
            next,
            eit(raws[k])->Ok_0,
        ) by {
            if k < front.len() {
                assert(front[k] == raws[k]);
            } else {
                let s = eit(raws.last())->Ok_0;
                if !is_known(mid, s) {
                    assert(same_section(next[mid.len() as int], s));
                }
            }
        }
    } else {
        assert forall|i: int| 0 <= i < sections.len() implies is_known(
            next,
            #[trigger] sections[i],
        ) by {
            assert(same_section(sections[i], sections[i]));
        }
    }
}

proof fn lemma_offered_to_others(w: Wanted, st: EitCollectorView, p: Seq<u8>, n: int, k: int)
    requires
        n <= st.assemblers.len(),
        0 <= k < st.assemblers.len(),
        packet_pid(p) != st.assemblers[k].pid,
        st.assemblers[k].ready.len() == 0,
    ensures
        offered(w, st, p, n).assemblers.len() == st.assemblers.len(),
        offered(w, st, p, n).assemblers[k] == st.assemblers[k],
    decreases n,
{
    if n > 0 {
        lemma_offered_to_others(w, st, p, n - 1, k);
        if n - 1 == k {
            assert(drained(st.assemblers[k]) =~= st.assemblers[k]);
        }
    }
}

/// The packets of one identifier do not disturb the assembly of another.
pub proof fn law_identifiers_do_not_disturb_each_other(
    w: Wanted,
    st: EitCollectorView,
    p: Seq<u8>,
    k: int,
)
    requires
        0 <= k < st.assemblers.len(),
        packet_pid(p) != st.assemblers[k].pid,
        st.assemblers[k].ready.len() == 0,
    ensures
        after_packet(w, st, p).assemblers[k] == st.assemblers[k],
{
    lemma_offered_to_others(w, st, p, st.assemblers.len() as int, k);
}

// ---- Choosing events -------------------------------------------------------

/// An event and the service that it belongs to.
pub type ServiceEvent = (u16, EventView);

/// The events of a list, as they are viewed.
pub open spec fn event_views(list: Seq<(u16, EitEvent)>) -> Seq<ServiceEvent> {
    list.map_values(|e: (u16, EitEvent)| (e.0, e.1@))
}

/// How much there is to an event: the characters of its name and its text, and
/// eight for every kind of content.
pub open spec fn richness(e: EventView) -> nat {
    e.title.len() + e.text.len() + 8 * e.content_nibbles.len()
}

/// Whether two events are the same event of the same service.
pub open spec fn same_event(a: ServiceEvent, b: ServiceEvent) -> bool {
    a.0 == b.0 && a.1.event_id == b.1.event_id
}

/// The place of an event in a list, or the length of the list.
pub open spec fn event_place(list: Seq<ServiceEvent>, e: ServiceEvent) -> int
    decreases list.len(),
{
    if list.len() == 0 || same_event(list[0], e) {
        0
    } else {
        1 + event_place(list.skip(1), e)
    }
}

/// A list with one more event. Of two copies of an event the richer stays, the
/// first where they are as rich.
pub open spec fn with_event(list: Seq<ServiceEvent>, e: ServiceEvent) -> Seq<ServiceEvent> {
    let i = event_place(list, e);
    if i >= list.len() {
        list.push(e)
    } else if richness(e.1) > richness(list[i].1) {
        list.update(i, e)
    } else {
        list
    }
}

/// A list with the events of a service.
pub open spec fn with_events(
    list: Seq<ServiceEvent>,
    service_id: u16,
    events: Seq<EventView>,
) -> Seq<ServiceEvent>
    decreases events.len(),
{
    if events.len() == 0 {
        list
    } else {
        with_event(
            with_events(list, service_id, events.drop_last()),
            (service_id, events.last()),
        )
    }
}

/// The events of sections, each once.
pub open spec fn gathered(sections: Seq<EitView>) -> Seq<ServiceEvent>
    decreases sections.len(),
{
    if sections.len() == 0 {
        Seq::empty()
    } else {
        with_events(
            gathered(sections.drop_last()),
            sections.last().service_id,
            sections.last().events,
        )
    }
}

fn measure(e: &EitEvent) -> (n: u128)
    ensures
        n == richness(e@),
{
    let title = chars_of(e.title.as_str());
    let text = chars_of(e.text.as_str());
    title.len() as u128 + text.len() as u128 + 8 * (e.content_nibbles.len() as u128)
}

/// Takes one more event into a list.
fn take_event(list: &mut Vec<(u16, EitEvent)>, service_id: u16, e: &EitEvent)
    ensures
        event_views(final(list)@) == with_event(event_views(old(list)@), (service_id, e@)),
{
    let ghost all = event_views(list@);
    let ghost item = (service_id, e@);
    let mut i: usize = 0;
    assert(all.skip(0) =~= all);
    while i < list.len()
        invariant
            list@ == old(list)@,
            all == event_views(list@),
            item == (service_id, e@),
            i <= list@.len(),
            event_place(all, item) == i + event_place(all.skip(i as int), item),
        decreases list@.len() - i,
    {
        assert(all.skip(i as int)[0] == all[i as int]);
        assert(all.skip(i as int).skip(1) =~= all.skip(i + 1));
        if list[i].0 == service_id && list[i].1.event_id == e.event_id {
            if measure(e) > measure(&list[i].1) {
                list.set(i, (service_id, e.clone()));
                assert(event_views(list@) =~= all.update(i as int, item));
            }
            return ;
        }
        i += 1;
    }
    list.push((service_id, e.clone()));
    assert(event_views(list@) =~= all.push(item));
}

/// The events of sections, each once: the richest copy of it.
pub fn gather_events(sections: &Vec<EitSection>) -> (list: Vec<(u16, EitEvent)>)
    ensures
        event_views(list@) == gathered(views(sections@)),
{
    let ghost all = views(sections@);
    let mut list: Vec<(u16, EitEvent)> = Vec::new();
    let mut i: usize = 0;
    assert(all.take(0) =~= Seq::<EitView>::empty());
    assert(event_views(list@) =~= Seq::<ServiceEvent>::empty());
    while i < sections.len()
        invariant
            all == views(sections@),
            i <= sections@.len(),
            event_views(list@) == gathered(all.take(i as int)),
        decreases sections@.len() - i,
    {
        let s = &sections[i];
        assert(all.take(i + 1).drop_last() =~= all.take(i as int));
        assert(all.take(i + 1).last() == s@);
        let ghost before = event_views(list@);
        let ghost events = views(s.events@);
        let mut k: usize = 0;
        assert(events.take(0) =~= Seq::<EventView>::empty());
        while k < s.events.len()
            invariant
                events == views(s.events@),
                k <= s.events@.len(),
                event_views(list@) == with_events(before, s.service_id, events.take(k as int)),
            decreases s.events@.len() - k,
        {
            assert(events.take(k + 1).drop_last() =~= events.take(k as int));
            assert(events.take(k + 1).last() == s.events@[k as int]@);
            take_event(&mut list, s.service_id, &s.events[k]);
            k += 1;
        }
        assert(events.take(k as int) =~= events);
        i += 1;
    }
    assert(all.take(i as int) =~= all);
    list
}

// ---- Order -----------------------------------------------------------------

/// Whether `a` is an earlier time than `b`.
pub open spec fn is_earlier(a: DateTime, b: DateTime) -> bool {
    ||| a.year < b.year
    ||| a.year == b.year && a.month < b.month
    ||| a.year == b.year && a.month == b.month && a.day < b.day
    ||| a.year == b.year && a.month == b.month && a.day == b.day && a.hour < b.hour
    ||| a.year == b.year && a.month == b.month && a.day == b.day && a.hour == b.hour && a.min < b.min
    ||| a.year == b.year && a.month == b.month && a.day == b.day && a.hour == b.hour && a.min == b.min
        && a.sec < b.sec
}

/// Whether an event comes before another: by its start, those without one first,
/// and then by its service.
pub open spec fn comes_before(a: ServiceEvent, b: ServiceEvent) -> bool {
    match (a.1.start, b.1.start) {
        (None, None) => a.0 < b.0,
        (None, Some(_)) => true,
        (Some(_), None) => false,
        (Some(x), Some(y)) => is_earlier(x, y) || x == y && a.0 < b.0,
    }
}

/// A list with one more event in its place: behind all that it does not come
/// before.
pub open spec fn inserted(list: Seq<ServiceEvent>, e: ServiceEvent) -> Seq<ServiceEvent>
    decreases list.len(),
{
    if list.len() == 0 || !comes_before(e, list.last()) {
        list.push(e)
    } else {
        inserted(list.drop_last(), e).push(list.last())
    }
}

/// The events of a list in order; events that none comes before stay as they
/// were.
pub open spec fn in_order(list: Seq<ServiceEvent>) -> Seq<ServiceEvent>
    decreases list.len(),
{
    if list.len() == 0 {
        list
    } else {
        inserted(in_order(list.drop_last()), list.last())
    }
}

fn earlier(a: &DateTime, b: &DateTime) -> (yes: bool)
    ensures
        yes == is_earlier(*a, *b),
{
    if a.year != b.year {
        a.year < b.year
    } else if a.month != b.month {
        a.month < b.month
    } else if a.day != b.day {
        a.day < b.day
    } else if a.hour != b.hour {
        a.hour < b.hour
    } else if a.min != b.min {
        a.min < b.min
    } else {
        a.sec < b.sec
    }
}

fn before(a: &(u16, EitEvent), b: &(u16, EitEvent)) -> (yes: bool)
    ensures
        yes == comes_before((a.0, a.1@), (b.0, b.1@)),
{
    match (&a.1.start, &b.1.start) {
        (None, None) => a.0 < b.0,
        (None, Some(_)) => true,
        (Some(_), None) => false,
        (Some(x), Some(y)) => if *x == *y {
            a.0 < b.0
        } else {
            earlier(x, y)
        },
    }
}

/// Puts an event in its place.
fn insert_event(list: &mut Vec<(u16, EitEvent)>, e: (u16, EitEvent))
    ensures
        event_views(final(list)@) == inserted(event_views(old(list)@), (e.0, e.1@)),
{
    let ghost all = event_views(list@);
    let ghost item = (e.0, e.1@);
    let mut i: usize = list.len();
    assert(all.take(i as int) =~= all);
    assert(all.skip(i as int) =~= Seq::<ServiceEvent>::empty());
    assert(inserted(all, item) =~= inserted(all.take(i as int), item) + all.skip(i as int));
    while i > 0 && before(&e, &list[i - 1])
        invariant
            list@ == old(list)@,
            all == event_views(list@),
            item == (e.0, e.1@),
            i <= list@.len(),
            inserted(all, item) == inserted(all.take(i as int), item) + all.skip(i as int),
        decreases i,
    {
        let ghost front = all.take(i as int);
        assert(front.last() == all[i - 1]);
        assert(front.drop_last() =~= all.take(i - 1));
        assert(inserted(front.drop_last(), item).push(front.last()) + all.skip(i as int)
            =~= inserted(all.take(i - 1), item) + all.skip(i - 1));
        i -= 1;
    }
    list.insert(i, e);
    assert(event_views(list@) =~= all.take(i as int).push(item) + all.skip(i as int));
}

/// The events of a list by their starts and their services.
pub fn sort_events(list: Vec<(u16, EitEvent)>) -> (out: Vec<(u16, EitEvent)>)
    ensures
        event_views(out@) == in_order(event_views(list@)),
{
    let ghost all = event_views(list@);
    let mut queue = list;
    let mut out: Vec<(u16, EitEvent)> = Vec::new();
    let ghost mut i: int = 0;
    assert(all.take(0) =~= Seq::<ServiceEvent>::empty());
    assert(event_views(out@) =~= Seq::<ServiceEvent>::empty());
    assert(event_views(queue@) =~= all.skip(0));
    while queue.len() > 0
        invariant
            0 <= i <= all.len(),
            event_views(queue@) == all.skip(i),
            event_views(out@) == in_order(all.take(i)),
        decreases queue@.len(),
    {
        let ghost rest = event_views(queue@);
        let e = queue.remove(0);
        proof {
            assert(rest[0] == (e.0, e.1@));
            assert(event_views(queue@) =~= rest.skip(1));
            assert(rest.skip(1) =~= all.skip(i + 1));
            assert(all.take(i + 1).drop_last() =~= all.take(i));
            assert(all.take(i + 1).last() == (e.0, e.1@));
        }
        insert_event(&mut out, e);
        proof {
            i = i + 1;
        }
    }
    assert(all.take(i) =~= all) by {
        assert(all.skip(i).len() == 0);
    }
    out
}

/// Whether an event has a name or a text that is more than white space.
pub open spec fn says_something(e: ServiceEvent) -> bool {
    trimmed(e.1.title).len() > 0 || trimmed(e.1.text).len() > 0
}

/// The events of a list that say something.
pub open spec fn speaking(list: Seq<ServiceEvent>) -> Seq<ServiceEvent>
    decreases list.len(),
{
    if list.len() == 0 {
        list
    } else if says_something(list.last()) {
        speaking(list.drop_last()).push(list.last())
    } else {
        speaking(list.drop_last())
    }
}

/// Drops the events that say nothing.
pub fn drop_empty_events(list: Vec<(u16, EitEvent)>) -> (out: Vec<(u16, EitEvent)>)
    ensures
        event_views(out@) == speaking(event_views(list@)),
{
    let ghost all = event_views(list@);
    let mut queue = list;
    let mut out: Vec<(u16, EitEvent)> = Vec::new();
    let ghost mut i: int = 0;
    assert(all.take(0) =~= Seq::<ServiceEvent>::empty());
    assert(event_views(out@) =~= Seq::<ServiceEvent>::empty());
    assert(event_views(queue@) =~= all.skip(0));
    while queue.len() > 0
        invariant
            0 <= i <= all.len(),
            event_views(queue@) == all.skip(i),
            event_views(out@) == speaking(all.take(i)),
        decreases queue@.len(),
    {
        let ghost rest = event_views(queue@);
        let e = queue.remove(0);
        let ghost done = event_views(out@);
        proof {
            assert(rest[0] == (e.0, e.1@));
            assert(event_views(queue@) =~= rest.skip(1));
            assert(rest.skip(1) =~= all.skip(i + 1));
            assert(all.take(i + 1).drop_last() =~= all.take(i));
            assert(all.take(i + 1).last() == (e.0, e.1@));
        }
        if trim(&chars_of(e.1.title.as_str())).len() > 0 || trim(
            &chars_of(e.1.text.as_str()),
        ).len() > 0 {
            let ghost item = (e.0, e.1@);
            out.push(e);
            assert(event_views(out@) =~= done.push(item));
        }
        proof {
            i = i + 1;
        }
    }
    assert(all.take(i) =~= all) by {
        assert(all.skip(i).len() == 0);
    }
    out
}

/// The guide of the sections that were collected.
pub fn guide(sections: &Vec<EitSection>, include_empty: bool) -> (list: Vec<(u16, EitEvent)>)
    ensures
        event_views(list@) == (if include_empty {
            in_order(gathered(views(sections@)))
        } else {
            speaking(in_order(gathered(views(sections@))))
        }),
{
    let list = sort_events(gather_events(sections));
    if include_empty {
        list
    } else {
        drop_empty_events(list)
    }
}

// ---- Laws of events --------------------------------------------------------

/// Whether no event of a service stands twice in a list.
pub open spec fn events_once(list: Seq<ServiceEvent>) -> bool {
    forall|i: int, j: int|
        0 <= i < j < list.len() ==> !same_event(#[trigger] list[i], #[trigger] list[j])
}

/// Whether a list holds a copy of an event that is at least as rich.
pub open spec fn has_copy(list: Seq<ServiceEvent>, e: ServiceEvent) -> bool {
    exists|i: int|
        0 <= i < list.len() && same_event(#[trigger] list[i], e) && richness(list[i].1) >= richness(
            e.1,
        )
}

proof fn lemma_event_place(list: Seq<ServiceEvent>, e: ServiceEvent)
    ensures
        0 <= event_place(list, e) <= list.len(),
        event_place(list, e) < list.len() ==> same_event(list[event_place(list, e)], e),
        forall|k: int| 0 <= k < event_place(list, e) ==> !same_event(#[trigger] list[k], e),
    decreases list.len(),
{
    if list.len() > 0 && !same_event(list[0], e) {
        let rest = list.skip(1);
        lemma_event_place(rest, e);
        assert forall|k: int| 0 <= k < event_place(list, e) implies !same_event(
            #[trigger] list[k],
            e,
        ) by {
            if k > 0 {
                assert(list[k] == rest[k - 1]);
            }
        }
    }
}

proof fn lemma_with_event(list: Seq<ServiceEvent>, e: ServiceEvent)
    requires
        events_once(list),
    ensures
        events_once(with_event(list, e)),
        has_copy(with_event(list, e), e),
        forall|x: ServiceEvent| has_copy(list, x) ==> #[trigger] has_copy(with_event(list, e), x),
{
    lemma_event_place(list, e);
    let p = event_place(list, e);
    let next = with_event(list, e);
    assert(same_event(next[p], e) && richness(next[p].1) >= richness(e.1));
    assert forall|x: ServiceEvent| has_copy(list, x) implies #[trigger] has_copy(next, x) by {
        let i = choose|i: int|
            0 <= i < list.len() && same_event(#[trigger] list[i], x) && richness(list[i].1)
                >= richness(x.1);
        assert(same_event(next[i], x) && richness(next[i].1) >= richness(x.1));
    }
    assert forall|i: int, j: int| 0 <= i < j < next.len() implies !same_event(
        #[trigger] next[i],
        #[trigger] next[j],
    ) by {
        if i < list.len() && j < list.len() {
            assert(!same_event(list[i], list[j]));
            assert(same_event(next[i], list[i]) && same_event(next[j], list[j]));
        }
    }
}

proof fn lemma_with_events(
    list: Seq<ServiceEvent>,
    service_id: u16,
    events: Seq<EventView>,
)
    requires
        events_once(list),
    ensures
        events_once(with_events(list, service_id, events)),
        forall|x: ServiceEvent|
            has_copy(list, x) ==> #[trigger] has_copy(with_events(list, service_id, events), x),
        forall|k: int|
            0 <= k < events.len() ==> has_copy(
                with_events(list, service_id, events),
                (service_id, #[trigger] events[k]),
            ),
    decreases events.len(),
{
    if events.len() > 0 {
        let front = events.drop_last();
        lemma_with_events(list, service_id, front);
        let mid = with_events(list, service_id, front);
        let next = with_events(list, service_id, events);
        lemma_with_event(mid, (service_id, events.last()));
        assert forall|x: ServiceEvent| has_copy(list, x) implies #[trigger] has_copy(next, x) by {
            assert(has_copy(mid, x));
        }
        assert forall|k: int| 0 <= k < events.len() implies has_copy(
            next,
            (service_id, #[trigger] events[k]),
        ) by {
            if k < front.len() {
                assert(front[k] == events[k]);
                assert(has_copy(mid, (service_id, front[k])));
            }
        }
    }
}

proof fn lemma_gathered_once(sections: Seq<EitView>)
    ensures
        events_once(gathered(sections)),
    decreases sections.len(),
{
    if sections.len() > 0 {
        lemma_gathered_once(sections.drop_last());
        lemma_with_events(
            gathered(sections.drop_last()),
            sections.last().service_id,
            sections.last().events,
        );
    }
}

/// Of every event that was collected one copy is kept, and none that is poorer
/// than another copy of it.
pub proof fn law_richest_copy_is_kept(sections: Seq<EitView>, n: int, k: int)
    requires
        0 <= n < sections.len(),
        0 <= k < sections[n].events.len(),
    ensures
        events_once(gathered(sections)),
        has_copy(gathered(sections), (sections[n].service_id, sections[n].events[k])),
    decreases sections.len(),
{
    lemma_gathered_once(sections);
    let front = sections.drop_last();
    lemma_gathered_once(front);
    lemma_with_events(gathered(front), sections.last().service_id, sections.last().events);
    if n < front.len() {
        law_richest_copy_is_kept(front, n, k);
        assert(has_copy(gathered(front), (sections[n].service_id, sections[n].events[k])));
    } else {
        let e = sections.last().events[k];
        assert(has_copy(gathered(sections), (sections.last().service_id, e)));
    }
}

/// An event says nothing exactly where its name and its text are nothing but
/// white space.
pub proof fn law_blank_events_say_nothing(e: ServiceEvent)
    ensures
        !says_something(e) <==> {
            &&& forall|i: int| 0 <= i < e.1.title.len() ==> is_white_space(e.1.title[i])
            &&& forall|i: int| 0 <= i < e.1.text.len() ==> is_white_space(e.1.text[i])
        },
{
    lemma_trimmed_empty(e.1.title);
    lemma_trimmed_empty(e.1.text);
}

/// Whether no event of a list comes before one that stands ahead of it.
pub open spec fn is_ordered(list: Seq<ServiceEvent>) -> bool {
    forall|i: int, j: int|
        0 <= i < j < list.len() ==> !comes_before(#[trigger] list[j], #[trigger] list[i])
}

proof fn lemma_order(a: ServiceEvent, b: ServiceEvent, c: ServiceEvent)
    ensures
        !comes_before(a, b) && !comes_before(b, c) ==> !comes_before(a, c),
        comes_before(a, b) ==> !comes_before(b, a),
{
}

proof fn lemma_inserted(list: Seq<ServiceEvent>, e: ServiceEvent)
    requires
        is_ordered(list),
    ensures
        is_ordered(inserted(list, e)),
        inserted(list, e).to_multiset() == list.to_multiset().insert(e),
        inserted(list, e).len() == list.len() + 1,
        forall|x: ServiceEvent|
            #[trigger] inserted(list, e).contains(x) ==> list.contains(x) || x == e,
    decreases list.len(),
{
    broadcast use vstd::seq_lib::group_to_multiset_ensures;

    let out = inserted(list, e);
    if list.len() == 0 || !comes_before(e, list.last()) {
        assert forall|i: int, j: int| 0 <= i < j < out.len() implies !comes_before(
            #[trigger] out[j],
            #[trigger] out[i],
        ) by {
            if j == list.len() && i < list.len() - 1 {
                assert(!comes_before(list[list.len() - 1], list[i]));
                lemma_order(e, list.last(), list[i]);
            }
        }
        assert forall|x: ServiceEvent| #[trigger] out.contains(x) implies list.contains(x) || x
            == e by {
            let i = choose|i: int| 0 <= i < out.len() && out[i] == x;
            if i < list.len() {
                assert(list[i] == x);
            }
        }
    } else {
        let front = list.drop_last();
        let last = list.last();
        assert forall|i: int, j: int| 0 <= i < j < front.len() implies !comes_before(
            #[trigger] front[j],
            #[trigger] front[i],
        ) by {
            assert(front[i] == list[i] && front[j] == list[j]);
        }
        lemma_inserted(front, e);
        let mid = inserted(front, e);
        assert(list =~= front.push(last));
        assert(list.to_multiset() == front.to_multiset().insert(last));
        assert(out.to_multiset() == mid.to_multiset().insert(last));
        assert(out.to_multiset() =~= list.to_multiset().insert(e));
        assert forall|i: int, j: int| 0 <= i < j < out.len() implies !comes_before(
            #[trigger] out[j],
            #[trigger] out[i],
        ) by {
            if j == mid.len() {
                assert(mid.contains(mid[i]));
                if mid[i] != e {
                    let k = choose|k: int| 0 <= k < front.len() && front[k] == mid[i];
                    assert(!comes_before(list[list.len() - 1], list[k]));
                } else {
                    lemma_order(e, last, last);
                }
            }
        }
        assert forall|x: ServiceEvent| #[trigger] out.contains(x) implies list.contains(x) || x
            == e by {
            let i = choose|i: int| 0 <= i < out.len() && out[i] == x;
            if i < mid.len() {
                assert(mid.contains(x));
                if x != e {
                    let k = choose|k: int| 0 <= k < front.len() && front[k] == x;
                    assert(list[k] == x);
                }
            } else {
                assert(list[list.len() - 1] == x);
            }
        }
    }
}

/// Sorting puts events in order and neither adds nor loses one.
pub proof fn law_events_are_put_in_order(list: Seq<ServiceEvent>)
    ensures
        is_ordered(in_order(list)),
        in_order(list).to_multiset() == list.to_multiset(),
    decreases list.len(),
{
    broadcast use vstd::seq_lib::group_to_multiset_ensures;

    if list.len() > 0 {
        law_events_are_put_in_order(list.drop_last());
        lemma_inserted(in_order(list.drop_last()), list.last());
        assert(list =~= list.drop_last().push(list.last()));
    }
}

} // verus!
