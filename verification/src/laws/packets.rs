//! What is read of transport stream packets and of the sections that they carry,
//! and which packets a filter keeps.

use crate::eit::{
    completed, counter, fed, is_packet, is_taken, packet_pid, payload, starts_section,
    without_stuffing, AssemblerView,
};
use crate::error::{Error, ErrorView};
use crate::laws::events::hex;
use crate::laws::sections::{lemma_section, lemma_sized};
use crate::laws::wire::{section, sized};
use crate::px4::{
    after_pull, beyond_packets, device_path, freq_no_for_physical, ingested, isdbt_request, kept,
    physical_from_frequency, pull_or_serve, synced, FilterView, PtxFreq, PullAction, PulledView,
};
use crate::si_reader::{
    after_data, at_deadline, ends_collection, numbers, present, with_packets, with_section,
    with_sections, CollectorView,
};
use crate::si_tables::{joined, total_len};
use crate::text::{decimal, numeral, padded};
use vstd::prelude::*;

verus! {

// ---- Packets ---------------------------------------------------------------

/// A transport stream packet.
pub struct WrittenPacket {
    pub pid: int,
    pub starts: bool,
    pub failed: bool,
    pub urgent: bool,
    pub scrambling: int,
    pub counter: int,
    /// What is in the adaptation field behind its length.
    pub adaptation: Option<Seq<u8>>,
    pub payload: Seq<u8>,
}

pub open spec fn is_written_packet(p: WrittenPacket) -> bool {
    &&& 0 <= p.pid < 0x2000
    &&& 0 <= p.scrambling < 4
    &&& 0 <= p.counter < 16
    &&& p.adaptation matches Some(a) ==> a.len() <= 255
}

pub open spec fn flag(b: bool) -> int {
    if b {
        1
    } else {
        0
    }
}

pub open spec fn adaptation_bytes(a: Option<Seq<u8>>) -> Seq<u8> {
    match a {
        Some(bytes) => seq![bytes.len() as u8] + bytes,
        None => Seq::empty(),
    }
}

pub open spec fn packet_bytes(p: WrittenPacket) -> Seq<u8> {
    let kind: int = match (p.adaptation is Some, p.payload.len() > 0) {
        (true, true) => 3,
        (true, false) => 2,
        _ => 1,
    };
    seq![
        0x47u8,
        (flag(p.failed) * 128 + flag(p.starts) * 64 + flag(p.urgent) * 32 + p.pid / 256) as u8,
        (p.pid % 256) as u8,
        (p.scrambling * 64 + kind * 16 + p.counter) as u8,
    ] + adaptation_bytes(p.adaptation) + p.payload
}

/// A packet is read as it was written: its identifier, whether a section starts in
/// it, its counter, and what it carries behind its adaptation field.
#[verifier::rlimit(60)]
pub proof fn law_written_packets_are_read(p: WrittenPacket)
    requires
        is_written_packet(p),
        packet_bytes(p).len() >= 188,
    ensures
        is_packet(packet_bytes(p)),
        packet_pid(packet_bytes(p)) == p.pid,
        starts_section(packet_bytes(p)) == p.starts,
        counter(packet_bytes(p)) == p.counter,
        p.payload.len() > 0 ==> payload(packet_bytes(p)) == Some(p.payload),
        p.payload.len() == 0 ==> payload(packet_bytes(p)) is None,
{
    let b = packet_bytes(p);
    let kind: int = match (p.adaptation is Some, p.payload.len() > 0) {
        (true, true) => 3,
        (true, false) => 2,
        _ => 1,
    };
    let one = flag(p.failed) * 128 + flag(p.starts) * 64 + flag(p.urgent) * 32 + p.pid / 256;
    let three = p.scrambling * 64 + kind * 16 + p.counter;
    assert(b[1] == one && b[2] == p.pid % 256 && b[3] == three);
    assert(one % 32 == p.pid / 256);
    assert(one / 64 % 2 == flag(p.starts));
    assert(three % 16 == p.counter);
    assert(three / 16 % 4 == kind);
    match p.adaptation {
        Some(a) => {
            assert(b[4] == a.len());
            assert(b.skip(5 + a.len() as int) =~= p.payload);
        },
        None => {
            assert(b.skip(4) =~= p.payload);
        },
    }
}

/// What is shorter than a packet, does not start with a sync byte, has another
/// identifier or carries nothing changes nothing in an assembler.
pub proof fn law_ignored_packets(st: AssemblerView, p: Seq<u8>)
    requires
        p.len() < 188 || p[0] != 0x47 || packet_pid(p) != st.pid || payload(p) is None,
    ensures
        fed(st, p) == st,
{
}

// ---- Assembling ------------------------------------------------------------

/// A section of any table: its table, its length, and as many bytes.
pub open spec fn raw_section(table_id: u8, bits: int, body: Seq<u8>) -> Seq<u8> {
    seq![table_id] + sized(bits, body.len() as int) + body
}

pub open spec fn is_raw_section(s: Seq<u8>) -> bool {
    exists|table_id: u8, bits: int, body: Seq<u8>|
        {
            &&& table_id != 0xff
            &&& 0 <= bits < 16
            &&& body.len() <= 4093
            &&& s == #[trigger] raw_section(table_id, bits, body)
        }
}

proof fn lemma_raw_section(s: Seq<u8>, rest: Seq<u8>)
    requires
        is_raw_section(s),
    ensures
        3 <= s.len() <= 4096,
        s[0] != 0xff,
        total_len(s) == s.len(),
        total_len(s + rest) == s.len(),
{
    let (table_id, bits, body) = choose|table_id: u8, bits: int, body: Seq<u8>|
        {
            &&& table_id != 0xff
            &&& 0 <= bits < 16
            &&& body.len() <= 4093
            &&& s == #[trigger] raw_section(table_id, bits, body)
        };
    lemma_sized(bits, body.len() as int);
    let z = sized(bits, body.len() as int);
    assert(s[1] == z[0] && s[2] == z[1]);
    assert((s + rest)[1] == s[1] && (s + rest)[2] == s[2]);
}

/// Sections one behind the other are told apart by their lengths, and what is less
/// than a section behind them is left.
pub proof fn law_sections_in_a_row(sections: Seq<Seq<u8>>, next: Seq<u8>, n: int)
    requires
        forall|i: int| 0 <= i < sections.len() ==> is_raw_section(#[trigger] sections[i]),
        is_raw_section(next),
        0 <= n < next.len(),
    ensures
        completed(joined(sections) + next.take(n)) == (sections, next.take(n)),
    decreases sections.len(),
{
    let tail = next.take(n);
    let data = joined(sections) + tail;
    if sections.len() == 0 {
        assert(data =~= tail);
        lemma_raw_section(next, Seq::empty());
        if n >= 3 {
            assert(tail[0] == next[0] && tail[1] == next[1] && tail[2] == next[2]);
        }
        assert(sections =~= Seq::<Seq<u8>>::empty());
    } else {
        let s = sections[0];
        let others = sections.skip(1);
        assert(is_raw_section(s));
        assert forall|i: int| 0 <= i < others.len() implies is_raw_section(#[trigger] others[i]) by {
            assert(others[i] == sections[i + 1]);
        }
        law_sections_in_a_row(others, next, n);
        let rest = joined(others) + tail;
        assert(data =~= s + rest);
        lemma_raw_section(s, rest);
        assert(data[0] == s[0]);
        assert(data.take(s.len() as int) =~= s);
        assert(data.skip(s.len() as int) =~= rest);
        assert(seq![s] + others =~= sections);
    }
}

/// Stuffing before a section is skipped.
pub proof fn law_stuffing_is_skipped(n: nat, s: Seq<u8>, rest: Seq<u8>)
    requires
        is_raw_section(s),
    ensures
        completed(Seq::new(n, |i: int| 0xffu8) + (s + rest)) == completed(s + rest),
{
    let stuffing = Seq::new(n, |i: int| 0xffu8);
    let data = stuffing + (s + rest);
    lemma_raw_section(s, rest);
    assert((s + rest)[0] == s[0]);
    lemma_stuffed(n, s + rest);
    if n == 0 {
        assert(data =~= s + rest);
    } else {
        assert(data[0] == 0xff);
    }
}

proof fn lemma_stuffed(n: nat, data: Seq<u8>)
    requires
        data.len() > 0,
        data[0] != 0xff,
    ensures
        without_stuffing(Seq::new(n, |i: int| 0xffu8) + data) == data,
    decreases n,
{
    let all = Seq::new(n, |i: int| 0xffu8) + data;
    if n == 0 {
        assert(all =~= data);
    } else {
        lemma_stuffed((n - 1) as nat, data);
        assert(all.skip(1) =~= Seq::new((n - 1) as nat, |i: int| 0xffu8) + data);
    }
}

/// A section that claims more than 4096 bytes takes all that follows with it.
pub proof fn law_oversized_sections(table_id: u8, bits: int, len: int, rest: Seq<u8>)
    requires
        table_id != 0xff,
        0 <= bits < 16,
        4094 <= len < 4096,
    ensures
        completed(seq![table_id] + sized(bits, len) + rest) == (
            Seq::<Seq<u8>>::empty(),
            Seq::<u8>::empty(),
        ),
{
    lemma_sized(bits, len);
    let data = seq![table_id] + sized(bits, len) + rest;
    assert(data[1] == sized(bits, len)[0] && data[2] == sized(bits, len)[1]);
}

/// A packet that starts no section goes on with the one being assembled, where
/// there is one and no packet was missed.
pub proof fn law_going_on(st: AssemblerView, p: Seq<u8>)
    requires
        is_taken(st.pid, p),
        !starts_section(p),
        st.last_cc matches Some(prev) ==> p[3] % 16 == (prev + 1) % 16,
    ensures
        fed(st, p).last_cc == Some((p[3] % 16) as u8),
        fed(st, p).cc_drops == st.cc_drops,
        fed(st, p).valid == st.valid,
        !st.valid ==> fed(st, p).ready == st.ready && fed(st, p).partial == st.partial,
        st.valid ==> fed(st, p).ready == st.ready + completed(st.partial + payload(p)->0).0,
        st.valid ==> fed(st, p).partial == completed(st.partial + payload(p)->0).1,
{
}

/// A packet that starts a section tells in its first byte how many bytes still
/// belong to the old one. Where no packet was missed the old one is ended with
/// them; the new one starts behind them.
pub proof fn law_starting(st: AssemblerView, p: Seq<u8>, old_part: Seq<u8>, new_part: Seq<u8>)
    requires
        is_taken(st.pid, p),
        starts_section(p),
        old_part.len() <= 255,
        payload(p) == Some(seq![old_part.len() as u8] + old_part + new_part),
        st.last_cc matches Some(prev) ==> p[3] % 16 == (prev + 1) % 16,
    ensures
        fed(st, p).valid,
        fed(st, p).last_cc == Some((p[3] % 16) as u8),
        fed(st, p).cc_drops == st.cc_drops,
        fed(st, p).partial == completed(new_part).1,
        fed(st, p).ready == st.ready + (if st.valid {
            completed(st.partial + old_part).0
        } else {
            Seq::empty()
        }) + completed(new_part).0,
{
    let data = payload(p)->0;
    assert(data[0] == old_part.len());
    assert(data.subrange(1, 1 + old_part.len() as int) =~= old_part);
    assert(data.skip(1 + old_part.len() as int) =~= new_part);
    assert(Seq::<u8>::empty() + new_part =~= new_part);
    assert(st.ready + Seq::<Seq<u8>>::empty() =~= st.ready);
}

/// Where the counter of a packet is not the one that was due, one more loss is
/// counted, whatever the packet starts.
pub proof fn law_losses_are_counted(st: AssemblerView, p: Seq<u8>)
    requires
        is_taken(st.pid, p),
        st.last_cc matches Some(prev) && p[3] % 16 != (prev + 1) % 16,
        st.cc_drops < u64::MAX,
    ensures
        fed(st, p).cc_drops == st.cc_drops + 1,
        fed(st, p).last_cc == Some((p[3] % 16) as u8),
        !starts_section(p) ==> !fed(st, p).valid && fed(st, p).partial.len() == 0,
{
}

// ---- Tables ----------------------------------------------------------------

/// The numbers of a section that has some are those that were written; one in the
/// short form has none, and neither has one that is shorter than its header.
pub proof fn law_section_numbers(
    table_id: u8,
    bits: int,
    ext: u16,
    version: u8,
    number: u8,
    last: u8,
    body: Seq<u8>,
    short: Seq<u8>,
)
    requires
        0 <= bits < 16,
        body.len() + 9 < 4096,
        short.len() < 8,
    ensures
        numbers(section(table_id, bits, ext, version, number, last, body)) == (if bits >= 8 {
            Some((number, last))
        } else {
            None
        }),
        numbers(short) is None,
{
    let s = section(table_id, bits, ext, version, number, last, body);
    lemma_section(table_id, bits, ext, version, number, last, body);
    let z = sized(bits, body.len() as int + 9);
    lemma_sized(bits, body.len() as int + 9);
    assert(s[1] == z[0]);
    assert(z[0] / 16 == bits);
}

proof fn lemma_sections_push(st: CollectorView, list: Seq<Seq<u8>>, s: Seq<u8>)
    requires
        with_sections(st, list).1 is None,
    ensures
        with_sections(st, list.push(s)) == with_sections(with_sections(st, list).0, seq![s]),
    decreases list.len(),
{
    if list.len() == 0 {
        assert(list.push(s) =~= seq![s]);
    } else {
        assert(list.push(s)[0] == list[0]);
        assert(list.push(s).skip(1) =~= list.skip(1).push(s));
        lemma_sections_push(with_section(st, list[0]), list.skip(1), s);
    }
}

/// One more section: one of another table is passed over; where one is enough, or
/// where the section has no number, it ends the collection; otherwise it is put at
/// its number, over an older copy, and tells which is the last.
#[verifier::rlimit(60)]
pub proof fn law_one_more_section(st: CollectorView, list: Seq<Seq<u8>>, s: Seq<u8>)
    requires
        with_sections(st, list).1 is None,
        s.len() > 0,
    ensures
        ({
            let before = with_sections(st, list).0;
            let (after, ended) = with_sections(st, list.push(s));
            &&& s[0] != st.table_id ==> after == before && ended is None
            &&& s[0] == st.table_id && (st.first_only || s.len() < 8 || s[1] < 128) ==> ended
                == Some(s) && after == before
            &&& s[0] == st.table_id && !st.first_only && s.len() >= 8 && s[1] >= 128 ==> {
                &&& ended is None
                &&& after.last == Some(s[7])
                &&& after.collected.len() == (if before.collected.len() > s[6] {
                    before.collected.len() as int
                } else {
                    s[6] + 1
                })
                &&& after.collected[s[6] as int] == Some(s)
                &&& forall|i: int|
                    0 <= i < after.collected.len() && i != s[6] ==> #[trigger] after.collected[i]
                        == (if i < before.collected.len() {
                        before.collected[i]
                    } else {
                        None
                    })
            }
        }),
{
    let before = with_sections(st, list).0;
    lemma_sections_push(st, list, s);
    lemma_same_table(st, list);
    assert(seq![s].skip(1) =~= Seq::<Seq<u8>>::empty());
    assert(with_sections(before, seq![s]) == (if ends_collection(before, s) {
        (before, Some(s))
    } else {
        (with_section(before, s), None)
    })) by {
        assert(seq![s][0] == s);
        assert(with_sections(with_section(before, s), seq![s].skip(1)) == (
            with_section(before, s),
            None::<Seq<u8>>,
        ));
    }
}

proof fn lemma_same_table(st: CollectorView, list: Seq<Seq<u8>>)
    ensures
        with_sections(st, list).0.table_id == st.table_id,
        with_sections(st, list).0.first_only == st.first_only,
    decreases list.len(),
{
    if list.len() > 0 && !ends_collection(st, list[0]) {
        lemma_same_table(with_section(st, list[0]), list.skip(1));
    }
}

/// What is handed over is the sections that were seen, by their numbers.
pub proof fn law_sections_are_handed_over<T>(list: Seq<Option<T>>)
    ensures
        present(list) == list.filter(|o: Option<T>| o is Some).map_values(|o: Option<T>| o->0),
    decreases list.len(),
{
    reveal(Seq::filter);
    let is_there = |o: Option<T>| o is Some;
    let item = |o: Option<T>| o->0;
    if list.len() > 0 {
        law_sections_are_handed_over(list.drop_last());
        let front = list.drop_last().filter(is_there);
        assert(front.push(list.last()).map_values(item) =~= front.map_values(item).push(
            item(list.last()),
        ));
    }
    assert(present(list) =~= list.filter(is_there).map_values(item));
}

/// When time is up, the sections that were seen are handed over; where there are
/// none, the error tells the table and the identifier in hexadecimal.
#[verifier::rlimit(60)]
pub proof fn law_deadlines(st: CollectorView)
    ensures
        present(st.collected).len() > 0 ==> at_deadline(st) == Ok::<Seq<Seq<u8>>, ErrorView>(
            present(st.collected),
        ),
        present(st.collected).len() == 0 ==> at_deadline(st) == Err::<Seq<Seq<u8>>, ErrorView>(
            ErrorView::Si(
                "timed out reading table 0x"@ + seq![
                    hex(st.table_id / 16),
                    hex(st.table_id % 16),
                ] + " from PID 0x"@ + seq![
                    hex((st.assembler.pid / 4096) as u8),
                    hex((st.assembler.pid / 256 % 16) as u8),
                    hex((st.assembler.pid / 16 % 16) as u8),
                    hex((st.assembler.pid % 16) as u8),
                ],
            ),
        ),
{
    lemma_hex2(st.table_id);
    lemma_hex4(st.assembler.pid);
}

pub proof fn lemma_hex2(n: u8)
    ensures
        padded(numeral(n as nat, 16), 2, '0') == seq![hex(n / 16), hex(n % 16)],
{
    reveal_with_fuel(numeral, 3);
    reveal_with_fuel(padded, 3);
    assert(padded(numeral(n as nat, 16), 2, '0') =~= seq![hex(n / 16), hex(n % 16)]);
}

#[verifier::rlimit(60)]
proof fn lemma_hex4(n: u16)
    ensures
        padded(numeral(n as nat, 16), 4, '0') == seq![
            hex((n / 4096) as u8),
            hex((n / 256 % 16) as u8),
            hex((n / 16 % 16) as u8),
            hex((n % 16) as u8),
        ],
{
    reveal_with_fuel(numeral, 5);
    reveal_with_fuel(padded, 5);
    let a = n as nat;
    assert(a / 16 / 16 == a / 256);
    assert(a / 16 / 16 / 16 == a / 4096);
    assert(padded(numeral(a, 16), 4, '0') =~= seq![
        hex((n / 4096) as u8),
        hex((n / 256 % 16) as u8),
        hex((n / 16 % 16) as u8),
        hex((n % 16) as u8),
    ]);
}

/// Packets are looked at one by one: a section that ends the collection ends it at
/// once, and what is less than a packet at the end is nothing. All that the
/// assembler makes ready of a packet is looked at.
pub proof fn law_packet_by_packet(st: CollectorView, p: Seq<u8>, rest: Seq<u8>, tail: Seq<u8>)
    requires
        p.len() == 188,
        tail.len() < 188,
    ensures
        with_packets(st, tail) == (st, None::<Seq<u8>>),
        ({
            let fresh_ready = fed(st.assembler, p).ready;
            let emptied = CollectorView {
                assembler: AssemblerView { ready: Seq::empty(), ..fed(st.assembler, p) },
                ..st
            };
            let (next, ended) = with_sections(emptied, fresh_ready);
            &&& ended is Some ==> with_packets(st, p + rest) == (next, ended)
            &&& ended is None ==> with_packets(st, p + rest) == with_packets(next, rest)
        }),
{
    assert((p + rest).take(188) =~= p);
    assert((p + rest).skip(188) =~= rest);
}

/// A collection is over when a section ends it, which is then all that is handed
/// over, or when every section from the first to the last was seen.
pub proof fn law_end_of_a_collection(st: CollectorView, data: Seq<u8>)
    ensures
        ({
            let (next, ended) = with_packets(st, data);
            let whole = next.last is Some && next.collected.len() > next.last->0 && forall|i: int|
                0 <= i <= next.last->0 ==> (#[trigger] next.collected[i]) is Some;
            &&& after_data(st, data).0 == next
            &&& ended matches Some(s) ==> after_data(st, data).1 == Some(seq![s])
            &&& ended is None && whole ==> after_data(st, data).1 == Some(present(next.collected))
            &&& ended is None && !whole ==> after_data(st, data).1 is None
        }),
{
}

// ---- Filtering -------------------------------------------------------------

/// What is done behind a reading of the source of a filter: where something is
/// staged it is handed out, else the source is read again, up to 4096 times; the
/// end and a failure are reported, and change nothing.
pub proof fn law_readings_of_a_source(st: FilterView, pulls: u32, data: Seq<u8>)
    ensures
        ({
            let (next, action) = after_pull(st, pulls, PulledView::Bytes(data));
            &&& next == ingested(st, data)
            &&& action is Serve <==> next.staged.len() > 0 || pulls >= 4096
            &&& action is Pull <==> next.staged.len() == 0 && pulls < 4096
        }),
        ({
            let (next, action) = after_pull(st, pulls, PulledView::Interrupted);
            &&& next == st
            &&& action is Serve <==> st.staged.len() > 0 || pulls >= 4096
            &&& action is Pull <==> st.staged.len() == 0 && pulls < 4096
        }),
        after_pull(st, pulls, PulledView::End) == (st, PullAction::End),
        after_pull(st, pulls, PulledView::Failed) == (st, PullAction::Fail),
        pull_or_serve(st, 0) is Serve <==> st.staged.len() > 0,
        pull_or_serve(st, 0) is Pull <==> st.staged.len() == 0,
{
}

/// Bytes that come in go behind what was carried over; what stands before a sync
/// byte is dropped, the packets that are kept are staged behind the others, and
/// what is less than a packet is carried over.
pub proof fn law_bytes_come_in(
    st: FilterView,
    junk: Seq<u8>,
    packets: Seq<WrittenPacket>,
    tail: Seq<u8>,
    data: Seq<u8>,
)
    requires
        forall|i: int| 0 <= i < junk.len() ==> #[trigger] junk[i] != 0x47,
        forall|i: int|
            0 <= i < packets.len() ==> is_written_packet(#[trigger] packets[i]) && packet_bytes(
                packets[i],
            ).len() == 188,
        tail.len() < 188,
        packets.len() == 0 && tail.len() > 0 ==> tail[0] == 0x47,
        st.carry + data == junk + (stream_of(packets) + tail),
    ensures
        ingested(st, data).keep == st.keep,
        ingested(st, data).staged == st.staged + stream_of(asked_for(packets, st.keep)),
        ingested(st, data).carry == tail,
{
    let rest = stream_of(packets) + tail;
    if packets.len() > 0 {
        assert(is_written_packet(packets[0]) && packet_bytes(packets[0]).len() == 188);
        assert(rest[0] == packet_bytes(packets[0])[0]);
    } else {
        assert(rest =~= tail);
    }
    law_resyncing(junk, rest);
    law_filtered_packets(packets, st.keep, tail);
}

/// The packets of a list, one behind the other.
pub open spec fn stream_of(packets: Seq<WrittenPacket>) -> Seq<u8>
    decreases packets.len(),
{
    if packets.len() == 0 {
        Seq::empty()
    } else {
        packet_bytes(packets[0]) + stream_of(packets.skip(1))
    }
}

/// The packets of a list whose identifiers are among some.
pub open spec fn asked_for(packets: Seq<WrittenPacket>, keep: Seq<u16>) -> Seq<WrittenPacket>
    decreases packets.len(),
{
    if packets.len() == 0 {
        Seq::empty()
    } else if keep.contains(packets[0].pid as u16) {
        seq![packets[0]] + asked_for(packets.skip(1), keep)
    } else {
        asked_for(packets.skip(1), keep)
    }
}

/// A filter keeps exactly the packets of a stream whose identifiers are asked for,
/// whole and in order, and leaves what is less than a packet behind them.
#[verifier::rlimit(60)]
pub proof fn law_filtered_packets(packets: Seq<WrittenPacket>, keep: Seq<u16>, tail: Seq<u8>)
    requires
        forall|i: int|
            0 <= i < packets.len() ==> is_written_packet(#[trigger] packets[i]) && packet_bytes(
                packets[i],
            ).len() == 188,
        tail.len() < 188,
    ensures
        kept(keep, stream_of(packets) + tail) == stream_of(asked_for(packets, keep)),
        beyond_packets(stream_of(packets) + tail) == tail,
        stream_of(packets).len() == 188 * packets.len(),
    decreases packets.len(),
{
    let data = stream_of(packets) + tail;
    if packets.len() == 0 {
        assert(data =~= tail);
        assert(beyond_packets(data) =~= tail);
    } else {
        let p = packets[0];
        let others = packets.skip(1);
        assert(is_written_packet(p) && packet_bytes(p).len() == 188);
        assert forall|i: int| 0 <= i < others.len() implies is_written_packet(#[trigger] others[i])
            && packet_bytes(others[i]).len() == 188 by {
            assert(others[i] == packets[i + 1]);
        }
        law_filtered_packets(others, keep, tail);
        law_written_packets_are_read(p);
        let rest = stream_of(others) + tail;
        assert(data.take(188) =~= packet_bytes(p));
        assert(data.skip(188) =~= rest);
        assert(beyond_packets(data) =~= tail);
        let more = asked_for(others, keep);
        assert((seq![p] + more).skip(1) =~= more);
        assert((seq![p] + more)[0] == p);
    }
}

/// Bytes before the first sync byte are dropped.
pub proof fn law_resyncing(junk: Seq<u8>, rest: Seq<u8>)
    requires
        forall|i: int| 0 <= i < junk.len() ==> #[trigger] junk[i] != 0x47,
        rest.len() > 0 ==> rest[0] == 0x47,
    ensures
        synced(junk + rest) == rest,
    decreases junk.len(),
{
    let data = junk + rest;
    if junk.len() == 0 {
        assert(data =~= rest);
    } else {
        assert(data[0] == junk[0]);
        assert(data.skip(1) =~= junk.skip(1) + rest);
        assert forall|i: int| 0 <= i < junk.skip(1).len() implies #[trigger] junk.skip(1)[i]
            != 0x47 by {
            assert(junk.skip(1)[i] == junk[i + 1]);
        }
        law_resyncing(junk.skip(1), rest);
    }
}

// ---- Channels of px4 devices -----------------------------------------------

/// UHF channels 13 to 62 lie 6 MHz apart from 473.142857 MHz on. A frequency
/// belongs to a channel from its centre up to 100 kHz above it; any other is an
/// error that tells it, and on which side of the band it lies.
pub proof fn law_physical_channels(freq: u32, out: Result<u16, Error>)
    requires
        call_ensures(physical_from_frequency, (freq,), out),
    ensures
        forall|ch: int|
            13 <= ch <= 62 && 0 <= freq - #[trigger] centre(ch) <= 100_000 ==> out == Ok::<
                u16,
                Error,
            >(ch as u16),
        out matches Ok(ch) ==> 13 <= ch <= 62 && 0 <= freq - centre(ch as int) <= 100_000,
        freq < 473_142_857 ==> (out matches Err(e) && e@ == ErrorView::Msg(
            "frequency "@ + decimal(freq as nat)
                + " Hz is below UHF 13 — CATV passthrough is not supported on the px4 backend"@,
        )),
        freq >= centre(63) ==> (out matches Err(e) && e@ == ErrorView::Msg(
            "frequency "@ + decimal(freq as nat) + " Hz is above UHF 62 (would be channel "@
                + decimal(((freq - 473_142_857) / 6_000_000 + 13) as nat) + ")"@,
        )),
        473_142_857 <= freq < centre(63) && out is Err ==> (out matches Err(e) && e@
            == ErrorView::Msg(
            "frequency "@ + decimal(freq as nat) + " Hz is not on a UHF 13-62 centre"@,
        )),
{
    let off = freq - 473_142_857;
    assert forall|ch: int| 13 <= ch <= 62 && 0 <= freq - #[trigger] centre(ch) <= 100_000 implies out
        == Ok::<u16, Error>(ch as u16) by {
        assert(off == (ch - 13) * 6_000_000 + (freq - centre(ch)));
        assert(off / 6_000_000 == ch - 13);
        assert(off % 6_000_000 == freq - centre(ch));
    }
}

/// The centre of a UHF channel, in Hz.
pub open spec fn centre(ch: int) -> int {
    473_142_857 + (ch - 13) * 6_000_000
}

/// The driver knows a physical channel by its number plus 50; terrestrial channels
/// have no slots. The device of a tuner has its number at its end.
pub proof fn law_px4_requests(ch: u16, n: i32, freq: PtxFreq, adapter: u32, path: String)
    requires
        call_ensures(freq_no_for_physical, (ch,), n),
        call_ensures(isdbt_request, (ch,), freq),
        call_ensures(device_path, (adapter,), path),
    ensures
        n - 50 == ch,
        freq.freq_no - 50 == ch,
        freq.slot == 0,
        path@ == "/dev/px4video"@ + decimal(adapter as nat),
{
}

} // verus!
