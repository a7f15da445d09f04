//! Reading a table off a live transport: the packets of its identifier come in,
//! and the sections of the table are collected until it is whole.

use crate::eit::{
    fed, fresh, AssemblerView, TsSectionAssembler, TS_PACKET_SIZE,
};
use crate::error::{Error, ErrorView};
use crate::text::{numeral, numeral_chars, pad, padded, text_of};
use crate::views::{option_view, views};
use vstd::prelude::*;
use vstd::slice::slice_subrange;

verus! {

/// How long one table is waited for, in seconds.
pub const SI_READ_TIMEOUT_SECS: u64 = 5;

/// The number of a section in its table and the number of the last one, if the
/// section has numbers.
pub open spec fn numbers(section: Seq<u8>) -> Option<(u8, u8)> {
    if section.len() < 8 || section[1] < 128 {
        None
    } else {
        Some((section[6], section[7]))
    }
}

/// The number of a section in its table and the number of the last one.
pub fn section_numbers(section: &[u8]) -> (out: Option<(u8, u8)>)
    ensures
        out == numbers(section@),
{
    if section.len() < 8 || section[1] < 128 {
        return None;
    }
    Some((section[6], section[7]))
}

/// The state of a collector.
#[verifier::ext_equal]
pub struct CollectorView {
    pub table_id: u8,
    /// Whether one section is enough.
    pub first_only: bool,
    pub assembler: AssemblerView,
    /// The sections that were seen, each at its number.
    pub collected: Seq<Option<Seq<u8>>>,
    /// The number of the last section of the table, as last seen.
    pub last: Option<u8>,
}

/// A list with `item` at `at`, filled up with nothing where it was shorter.
pub open spec fn put<T>(list: Seq<Option<T>>, at: nat, item: T) -> Seq<Option<T>> {
    if at < list.len() {
        list.update(at as int, Some(item))
    } else {
        (list + Seq::new((at - list.len()) as nat, |i: int| None)).push(Some(item))
    }
}

/// Whether a section ends the collection by itself: it is of the table, and one
/// is enough or it has no number.
pub open spec fn ends_collection(st: CollectorView, section: Seq<u8>) -> bool {
    section.len() > 0 && section[0] == st.table_id && (st.first_only || numbers(section) is None)
}

/// The state behind a section that does not end the collection.
pub open spec fn with_section(st: CollectorView, section: Seq<u8>) -> CollectorView {
    match numbers(section) {
        Some((number, last)) if section[0] == st.table_id => CollectorView {
            collected: put(st.collected, number as nat, section),
            last: Some(last),
            ..st
        },
        _ => st,
    }
}

/// The state behind a list of sections, and the one that ended the collection,
/// if one did; those behind it are not looked at.
pub open spec fn with_sections(
    st: CollectorView,
    sections: Seq<Seq<u8>>,
) -> (CollectorView, Option<Seq<u8>>)
    decreases sections.len(),
{
    if sections.len() == 0 {
        (st, None)
    } else if ends_collection(st, sections[0]) {
        (st, Some(sections[0]))
    } else {
        with_sections(with_section(st, sections[0]), sections.skip(1))
    }
}

/// The state behind a packet, and the section that ended the collection.
pub open spec fn with_packet(
    st: CollectorView,
    p: Seq<u8>,
) -> (CollectorView, Option<Seq<u8>>) {
    let next = fed(st.assembler, p);
    with_sections(
        CollectorView { assembler: AssemblerView { ready: Seq::empty(), ..next }, ..st },
        next.ready,
    )
}

/// The state behind the packets of `data`, and the section that ended the
/// collection. Bytes behind the last whole packet are dropped.
pub open spec fn with_packets(
    st: CollectorView,
    data: Seq<u8>,
) -> (CollectorView, Option<Seq<u8>>)
    decreases data.len(),
{
    if data.len() < 188 {
        (st, None)
    } else {
        let (next, ended) = with_packet(st, data.take(188));
        if ended is Some {
            (next, ended)
        } else {
            with_packets(next, data.skip(188))
        }
    }
}

/// Whether every section up to the last was seen.
pub open spec fn is_complete(st: CollectorView) -> bool {
    &&& st.last matches Some(last)
    &&& st.collected.len() > last
    &&& forall|i: int| 0 <= i <= last ==> (#[trigger] st.collected[i]) is Some
}

/// What there is in a list, in order.
pub open spec fn present<T>(list: Seq<Option<T>>) -> Seq<T>
    decreases list.len(),
{
    if list.len() == 0 {
        Seq::empty()
    } else {
        match list.last() {
            Some(item) => present(list.drop_last()).push(item),
            None => present(list.drop_last()),
        }
    }
}

/// What is known of the table when `data` has come in: its sections, where that
/// ends the collection.
pub open spec fn after_data(
    st: CollectorView,
    data: Seq<u8>,
) -> (CollectorView, Option<Seq<Seq<u8>>>) {
    let (next, ended) = with_packets(st, data);
    match ended {
        Some(section) => (next, Some(seq![section])),
        None => if is_complete(next) {
            (next, Some(present(next.collected)))
        } else {
            (next, None)
        },
    }
}

/// `timed out reading table 0x42 from PID 0x0011`.
pub open spec fn timeout_text(table_id: u8, pid: u16) -> Seq<char> {
    "timed out reading table 0x"@ + padded(numeral(table_id as nat, 16), 2, '0') + " from PID 0x"@
        + padded(numeral(pid as nat, 16), 4, '0')
}

/// What a collector holds when time is up: the sections that were seen, and an
/// error where there is none.
pub open spec fn at_deadline(st: CollectorView) -> Result<Seq<Seq<u8>>, ErrorView> {
    if present(st.collected).len() == 0 {
        Err(ErrorView::Si(timeout_text(st.table_id, st.assembler.pid)))
    } else {
        Ok(present(st.collected))
    }
}

/// What came of reading the device.
#[derive(Debug, Clone, Copy)]
pub enum ReadEvent<'a> {
    Data(&'a [u8]),
    /// Nothing was there.
    WouldBlock,
    Interrupted,
    /// Any other failure.
    Failed,
    /// The time for the table is up.
    Deadline,
}

/// What the reader does next.
#[derive(Debug)]
pub enum ReadAction {
    Read,
    /// Wait a little, then read.
    PauseAndRead,
    /// Hand over the sections.
    Finish(Vec<Vec<u8>>),
    GiveUp(Error),
    /// Report the failure of the device.
    Fail,
}

/// Collects the sections of one table from the packets of its identifier.
pub struct SectionCollector {
    table_id: u8,
    pid: u16,
    first_only: bool,
    assembler: TsSectionAssembler,
    collected: Vec<Option<Vec<u8>>>,
    last: Option<u8>,
}

/// The views of a list that has gaps.
pub open spec fn gap_views<T: View>(list: Seq<Option<T>>) -> Seq<Option<T::V>> {
    list.map_values(|o: Option<T>| option_view(o))
}

impl View for SectionCollector {
    type V = CollectorView;

    closed spec fn view(&self) -> CollectorView {
        CollectorView {
            table_id: self.table_id,
            first_only: self.first_only,
            assembler: self.assembler@,
            collected: gap_views(self.collected@),
            last: self.last,
        }
    }
}

impl SectionCollector {
    /// Whether the parts of the collector belong together.
    pub closed spec fn wf(self) -> bool {
        self.pid == self.assembler@.pid && self.assembler@.ready.len() == 0
    }

    pub fn new(pid: u16, table_id: u8, first_only: bool) -> (c: Self)
        ensures
            c.wf(),
            c@ == (CollectorView {
                table_id,
                first_only,
                assembler: fresh(pid),
                collected: Seq::empty(),
                last: None,
            }),
    {
        let c = SectionCollector {
            table_id,
            pid,
            first_only,
            assembler: TsSectionAssembler::new(pid),
            collected: Vec::new(),
            last: None,
        };
        assert(c@.collected =~= Seq::empty());
        c
    }

    /// Puts a section at its number.
    fn store(&mut self, number: u8, section: Vec<u8>)
        ensures
            gap_views(final(self).collected@) == put(
                gap_views(old(self).collected@),
                number as nat,
                section@,
            ),
            final(self).table_id == old(self).table_id,
            final(self).pid == old(self).pid,
            final(self).first_only == old(self).first_only,
            final(self).assembler == old(self).assembler,
            final(self).last == old(self).last,
    {
        let at = number as usize;
        let ghost before = gap_views(self.collected@);
        while self.collected.len() < at
            invariant
                before.len() <= self.collected@.len(),
                self.collected@.len() == before.len() || self.collected@.len() <= at,
                gap_views(self.collected@) == before + Seq::new(
                    (self.collected@.len() - before.len()) as nat,
                    |i: int| None,
                ),
                self.table_id == old(self).table_id,
                self.pid == old(self).pid,
                self.first_only == old(self).first_only,
                self.assembler == old(self).assembler,
                self.last == old(self).last,
            decreases at - self.collected@.len(),
        {
            let ghost now = gap_views(self.collected@);
            self.collected.push(None);
            assert(gap_views(self.collected@) =~= now.push(None));
            assert(gap_views(self.collected@) =~= before + Seq::new(
                (self.collected@.len() - before.len()) as nat,
                |i: int| None,
            ));
        }
        if at < self.collected.len() {
            self.collected.set(at, Some(section));
        } else {
            self.collected.push(Some(section));
        }
        assert(gap_views(self.collected@) =~= put(before, number as nat, section@));
    }

    /// Looks at the sections that the assembler has ready. The one that ends the
    /// collection, if one does.
    fn take_sections(&mut self, sections: Vec<Vec<u8>>) -> (ended: Option<Vec<u8>>)
        requires
            old(self).wf(),
        ensures
            final(self).wf(),
            (final(self)@, option_view(ended)) == with_sections(old(self)@, views(sections@)),
    {
        let mut queue = sections;
        while queue.len() > 0
            invariant
                self.wf(),
                with_sections(self@, views(queue@)) == with_sections(old(self)@, views(sections@)),
            decreases queue@.len(),
        {
            let ghost list = views(queue@);
            let ghost st = self@;
            let section = queue.remove(0);
            assert(list[0] == section@);
            assert(views(queue@) =~= list.skip(1));
            if section.len() > 0 && section[0] == self.table_id {
                if self.first_only {
                    return Some(section);
                }
                match section_numbers(section.as_slice()) {
                    None => {
                        return Some(section);
                    },
                    Some((number, last)) => {
                        self.last = Some(last);
                        self.store(number, section);
                        assert(self@ =~= with_section(st, section@));
                    },
                }
            }
        }
        None
    }

    /// Takes the packets of `data`. The sections of the table, where that ends
    /// the collection.
    pub fn push(&mut self, data: &[u8]) -> (out: Option<Vec<Vec<u8>>>)
        requires
            old(self).wf(),
        ensures
            final(self).wf(),
            final(self)@ == after_data(old(self)@, data@).0,
            match out {
                Some(sections) => after_data(old(self)@, data@).1 == Some(views(sections@)),
                None => after_data(old(self)@, data@).1 is None,
            },
    {
        let mut off: usize = 0;
        assert(data@.skip(0) =~= data@);
        while data.len() - off >= TS_PACKET_SIZE
            invariant
                self.wf(),
                off <= data@.len(),
                with_packets(self@, data@.skip(off as int)) == with_packets(old(self)@, data@),
            decreases data@.len() - off,
        {
            let ghost rest = data@.skip(off as int);
            let ghost st = self@;
            let p = slice_subrange(data, off, off + TS_PACKET_SIZE);
            assert(p@ =~= rest.take(188));
            assert(rest.skip(188) =~= data@.skip(off + 188));
            self.assembler.feed(p);
            let sections = self.assembler.drain();
            assert(self@ =~= (CollectorView {
                assembler: AssemblerView { ready: Seq::empty(), ..fed(st.assembler, p@) },
                ..st
            }));
            let ended = self.take_sections(sections);
            if let Some(section) = ended {
                let mut out: Vec<Vec<u8>> = Vec::new();
                out.push(section);
                assert(views(out@) =~= seq![section@]);
                return Some(out);
            }
            off += TS_PACKET_SIZE;
        }
        if self.complete() {
            Some(self.sections())
        } else {
            None
        }
    }

    /// Whether every section up to the last was seen.
    fn complete(&self) -> (yes: bool)
        ensures
            yes == is_complete(self@),
    {
        match self.last {
            None => false,
            Some(last) => {
                if self.collected.len() <= last as usize {
                    return false;
                }
                let mut i: usize = 0;
                while i <= last as usize
                    invariant
                        self.last == Some(last),
                        i <= last + 1 <= self.collected@.len(),
                        forall|j: int| 0 <= j < i ==> (#[trigger] self@.collected[j]) is Some,
                    decreases last + 1 - i,
                {
                    if self.collected[i].is_none() {
                        assert(self@.collected[i as int] is None);
                        return false;
                    }
                    i += 1;
                }
                true
            },
        }
    }

    /// The sections that were seen, by their numbers.
    pub fn sections(&self) -> (out: Vec<Vec<u8>>)
        ensures
            views(out@) == present(self@.collected),
    {
        let ghost all = self@.collected;
        let mut out: Vec<Vec<u8>> = Vec::new();
        let mut i: usize = 0;
        assert(all.take(0) =~= Seq::<Option<Seq<u8>>>::empty());
        assert(views(out@) =~= Seq::<Seq<u8>>::empty());
        while i < self.collected.len()
            invariant
                all == self@.collected,
                i <= self.collected@.len(),
                views(out@) == present(all.take(i as int)),
            decreases self.collected@.len() - i,
        {
            assert(all.take(i + 1).drop_last() =~= all.take(i as int));
            assert(all.take(i + 1).last() == all[i as int]);
            if let Some(section) = &self.collected[i] {
                let copy = vstd::slice::slice_to_vec(section.as_slice());
                let ghost before = views(out@);
                out.push(copy);
                assert(views(out@) =~= before.push(section@));
            }
            i += 1;
        }
        assert(all.take(i as int) =~= all);
        out
    }

    /// What there is when time is up.
    pub fn finish(&self) -> (out: Result<Vec<Vec<u8>>, Error>)
        requires
            self.wf(),
        ensures
            match out {
                Ok(sections) => at_deadline(self@) == Ok::<Seq<Seq<u8>>, ErrorView>(
                    views(sections@),
                ),
                Err(e) => at_deadline(self@) == Err::<Seq<Seq<u8>>, ErrorView>(e@),
            },
    {
        let out = self.sections();
        if out.len() == 0 {
            let mut text = "timed out reading table 0x".to_owned();
            text.append(&text_of(&pad(numeral_chars(self.table_id as u128, 16), 2, '0')));
            text.append(" from PID 0x");
            text.append(&text_of(&pad(numeral_chars(self.pid as u128, 16), 4, '0')));
            return Err(Error::Si(text));
        }
        Ok(out)
    }

    /// What the reader does behind an event. A device that has nothing yet is
    /// asked again after a pause, one that was interrupted at once.
    pub fn on_event(&mut self, event: ReadEvent<'_>) -> (action: ReadAction)
        requires
            old(self).wf(),
        ensures
            final(self).wf(),
            match event {
                ReadEvent::Data(data) if data@.len() > 0 => {
                    &&& final(self)@ == after_data(old(self)@, data@).0
                    &&& match after_data(old(self)@, data@).1 {
                        Some(sections) => action matches ReadAction::Finish(out) && views(out@)
                            == sections,
                        None => action is Read,
                    }
                },
                ReadEvent::Data(_) | ReadEvent::WouldBlock => final(self)@ == old(self)@
                    && action is PauseAndRead,
                ReadEvent::Interrupted => final(self)@ == old(self)@ && action is Read,
                ReadEvent::Failed => final(self)@ == old(self)@ && action is Fail,
                ReadEvent::Deadline => {
                    &&& final(self)@ == old(self)@
                    &&& match at_deadline(old(self)@) {
                        Ok(sections) => action matches ReadAction::Finish(out) && views(out@)
                            == sections,
                        Err(e) => action matches ReadAction::GiveUp(error) && error@ == e,
                    }
                },
            },
    {
        match event {
            ReadEvent::Data(data) => {
                if data.len() == 0 {
                    return ReadAction::PauseAndRead;
                }
                match self.push(data) {
                    Some(sections) => ReadAction::Finish(sections),
                    None => ReadAction::Read,
                }
            },
            ReadEvent::WouldBlock => ReadAction::PauseAndRead,
            ReadEvent::Interrupted => ReadAction::Read,
            ReadEvent::Failed => ReadAction::Fail,
            ReadEvent::Deadline => match self.finish() {
                Ok(sections) => ReadAction::Finish(sections),
                Err(e) => ReadAction::GiveUp(e),
            },
        }
    }
}

// ---- Laws ------------------------------------------------------------------

/// Whether every section of a list is of the table and stands at its number.
pub open spec fn in_place(list: Seq<Option<Seq<u8>>>, table_id: u8) -> bool {
    forall|i: int|
        0 <= i < list.len() ==> match #[trigger] list[i] {
            Some(section) => {
                &&& section.len() >= 8
                &&& section[0] == table_id
                &&& section[6] == i
            },
            None => true,
        }
}

proof fn lemma_sections_in_place(st: CollectorView, sections: Seq<Seq<u8>>)
    requires
        in_place(st.collected, st.table_id),
    ensures
        in_place(with_sections(st, sections).0.collected, st.table_id),
        with_sections(st, sections).0.table_id == st.table_id,
    decreases sections.len(),
{
    if sections.len() > 0 && !ends_collection(st, sections[0]) {
        lemma_sections_in_place(with_section(st, sections[0]), sections.skip(1));
    }
}

proof fn lemma_packets_in_place(st: CollectorView, data: Seq<u8>)
    requires
        in_place(st.collected, st.table_id),
    ensures
        in_place(with_packets(st, data).0.collected, st.table_id),
        with_packets(st, data).0.table_id == st.table_id,
    decreases data.len(),
{
    if data.len() >= 188 {
        let p = data.take(188);
        let next = fed(st.assembler, p);
        lemma_sections_in_place(
            CollectorView { assembler: AssemblerView { ready: Seq::empty(), ..next }, ..st },
            next.ready,
        );
        let (next, ended) = with_packet(st, p);
        if ended is None {
            lemma_packets_in_place(next, data.skip(188));
        }
    }
}

/// Whatever comes in, every section that is collected is of the table and stands
/// at its number.
pub proof fn law_sections_stay_in_place(st: CollectorView, data: Seq<u8>)
    requires
        in_place(st.collected, st.table_id),
    ensures
        in_place(after_data(st, data).0.collected, st.table_id),
{
    lemma_packets_in_place(st, data);
}

/// A table that is complete is handed over from its first section to its last,
/// with none missing.
pub proof fn law_complete_table_is_whole(st: CollectorView)
    requires
        in_place(st.collected, st.table_id),
        is_complete(st),
    ensures
        present(st.collected).len() > st.last->0,
        forall|i: int|
            0 <= i <= st.last->0 ==> {
                &&& (#[trigger] present(st.collected)[i])[0] == st.table_id
                &&& present(st.collected)[i][6] == i
            },
{
    lemma_present_front(st.collected, st.last->0 + 1);
    assert forall|i: int| 0 <= i <= st.last->0 implies {
        &&& (#[trigger] present(st.collected)[i])[0] == st.table_id
        &&& present(st.collected)[i][6] == i
    } by {
        assert(st.collected[i] is Some);
    }
}

proof fn lemma_present_front<T>(list: Seq<Option<T>>, n: int)
    requires
        0 <= n <= list.len(),
        forall|i: int| 0 <= i < n ==> (#[trigger] list[i]) is Some,
    ensures
        present(list).len() >= n,
        present(list).len() <= list.len(),
        forall|i: int| 0 <= i < n ==> Some(#[trigger] present(list)[i]) == list[i],
    decreases list.len(),
{
    if list.len() > 0 {
        let front = list.drop_last();
        let m = if n == list.len() {
            n - 1
        } else {
            n
        };
        assert forall|i: int| 0 <= i < m implies (#[trigger] front[i]) is Some by {
            assert(front[i] == list[i]);
        }
        lemma_present_front(front, m);
        if n == list.len() {
            assert(list[n - 1] is Some);
            assert(present(front).len() == n - 1);
        }
        assert forall|i: int| 0 <= i < n implies Some(#[trigger] present(list)[i]) == list[i] by {
            if i < m {
                assert(present(list)[i] == present(front)[i]);
                assert(front[i] == list[i]);
            }
        }
    }
}

/// However often a table is repeated, each of its sections is handed over once,
/// by ascending numbers.
pub proof fn law_no_section_twice(list: Seq<Option<Seq<u8>>>, table_id: u8)
    requires
        in_place(list, table_id),
    ensures
        forall|i: int, j: int|
            0 <= i < j < present(list).len() ==> (#[trigger] present(list)[i])[6] < (
            #[trigger] present(list)[j])[6],
        forall|i: int| 0 <= i < present(list).len() ==> (#[trigger] present(list)[i])[6] < list.len(),
    decreases list.len(),
{
    if list.len() > 0 {
        let front = list.drop_last();
        assert forall|i: int| 0 <= i < front.len() implies match #[trigger] front[i] {
            Some(section) => {
                &&& section.len() >= 8
                &&& section[0] == table_id
                &&& section[6] == i
            },
            None => true,
        } by {
            assert(front[i] == list[i]);
        }
        law_no_section_twice(front, table_id);
        assert(list[list.len() - 1] == list.last());
        assert forall|i: int| 0 <= i < present(list).len() implies (#[trigger] present(
            list,
        )[i])[6] < list.len() by {
            if i < present(front).len() {
                assert(present(front)[i] == present(list)[i]);
            }
        }
        assert forall|i: int, j: int| 0 <= i < j < present(list).len() implies (
        #[trigger] present(list)[i])[6] < (#[trigger] present(list)[j])[6] by {
            assert(present(front)[i] == present(list)[i]);
            if j < present(front).len() {
                assert(present(front)[j] == present(list)[j]);
            }
        }
    }
}

/// Whether sections are a whole table, in order.
pub open spec fn is_table(sections: Seq<Seq<u8>>, table_id: u8) -> bool {
    &&& 1 <= sections.len() <= 256
    &&& forall|i: int|
        0 <= i < sections.len() ==> {
            let s = #[trigger] sections[i];
            s[0] == table_id && numbers(s) == Some((i as u8, (sections.len() - 1) as u8))
        }
}

/// A list whose places are all taken.
pub open spec fn all_present<T>(list: Seq<T>) -> Seq<Option<T>> {
    list.map_values(|t: T| Some(t))
}

proof fn lemma_all_present<T>(list: Seq<T>)
    ensures
        present(all_present(list)) == list,
    decreases list.len(),
{
    if list.len() > 0 {
        lemma_all_present(list.drop_last());
        assert(all_present(list).drop_last() =~= all_present(list.drop_last()));
        assert(list.drop_last().push(list.last()) =~= list);
    } else {
        assert(present(all_present(list)) =~= list);
    }
}

proof fn lemma_table_in_order(st: CollectorView, sections: Seq<Seq<u8>>, n: int)
    requires
        !st.first_only,
        is_table(sections, st.table_id),
        0 <= n <= sections.len(),
        st.collected == all_present(sections.take(n)),
        n > 0 ==> st.last == Some((sections.len() - 1) as u8),
    ensures
        ({
            let (next, ended) = with_sections(st, sections.skip(n));
            &&& ended is None
            &&& next.collected == all_present(sections)
            &&& next.last == Some((sections.len() - 1) as u8)
        }),
    decreases sections.len() - n,
{
    let rest = sections.skip(n);
    if n < sections.len() {
        let s = sections[n];
        assert(rest[0] == s);
        let next = with_section(st, s);
        assert(next.collected =~= all_present(sections.take(n + 1)));
        assert(rest.skip(1) =~= sections.skip(n + 1));
        lemma_table_in_order(next, sections, n + 1);
    } else {
        assert(sections.take(n) =~= sections);
    }
}

/// When a whole table has come in, section by section, it is complete, and what
/// is handed over is that table.
pub proof fn law_whole_table_is_handed_over(st: CollectorView, sections: Seq<Seq<u8>>)
    requires
        !st.first_only,
        st.collected.len() == 0,
        is_table(sections, st.table_id),
    ensures
        ({
            let (next, ended) = with_sections(st, sections);
            &&& ended is None
            &&& is_complete(next)
            &&& present(next.collected) == sections
        }),
{
    assert(sections.skip(0) =~= sections);
    assert(st.collected =~= all_present(sections.take(0)));
    lemma_table_in_order(st, sections, 0);
    lemma_all_present(sections);
}

} // verus!
