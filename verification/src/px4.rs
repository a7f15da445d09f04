//! The character devices of px4_drv: channel numbers, and the packet filter that
//! stands in for the demultiplexer that these devices do not have.

use crate::bytes::{append_bytes, low13, read_low13};
use crate::eit::TS_PACKET_SIZE;
use crate::error::{Error, ErrorView};
use crate::si_tables::{ascending, joined, law_ascending, sorted_pids};
use crate::text::{decimal, decimal_text};
use vstd::prelude::*;
use vstd::slice::slice_subrange;

verus! {

// ---- Channels --------------------------------------------------------------

/// The device of a tuner: `/dev/px4video` and its number.
pub fn device_path(adapter: u32) -> (path: String)
    ensures
        path@ == "/dev/px4video"@ + decimal(adapter as nat),
{
    let mut path = "/dev/px4video".to_owned();
    path.append(&decimal_text(adapter as u128));
    path
}

/// A channel as the driver takes it: its number in the driver's plan, and a
/// stream, which is 0 for terrestrial channels.
#[derive(Debug, Clone, Copy, PartialEq, Eq, Structural)]
pub struct PtxFreq {
    pub freq_no: i32,
    pub slot: i32,
}

/// The centre of the first UHF channel, in Hz.
pub const UHF_BASE: u32 = 473_142_857;

/// The distance of two neighbouring UHF channels, in Hz.
pub const UHF_SPACING: u32 = 6_000_000;

pub const FIRST_PHYSICAL: u32 = 13;

pub const LAST_PHYSICAL: u32 = 62;

/// The centre of a UHF channel, in Hz.
pub open spec fn uhf_frequency(ch: int) -> int {
    UHF_BASE + (ch - FIRST_PHYSICAL) * UHF_SPACING
}

/// The driver's number of a physical channel.
pub fn freq_no_for_physical(ch: u16) -> (n: i32)
    ensures
        n == ch + 50,
{
    ch as i32 + 50
}

/// What the driver is asked for to tune to a terrestrial channel.
pub fn isdbt_request(physical_ch: u16) -> (freq: PtxFreq)
    ensures
        freq == (PtxFreq { freq_no: (physical_ch + 50) as i32, slot: 0 }),
{
    PtxFreq { freq_no: freq_no_for_physical(physical_ch), slot: 0 }
}

/// The UHF channel whose centre is at most 100 kHz below a frequency, or why
/// there is none.
pub open spec fn physical_channel(freq: u32) -> Result<u16, ErrorView> {
    let ch = (freq - UHF_BASE) / UHF_SPACING as int + FIRST_PHYSICAL;
    if freq < UHF_BASE {
        Err(
            ErrorView::Msg(
                "frequency "@ + decimal(freq as nat)
                    + " Hz is below UHF 13 — CATV passthrough is not supported on the px4 backend"@,
            ),
        )
    } else if ch > LAST_PHYSICAL {
        Err(
            ErrorView::Msg(
                "frequency "@ + decimal(freq as nat) + " Hz is above UHF 62 (would be channel "@
                    + decimal(ch as nat) + ")"@,
            ),
        )
    } else if (freq - UHF_BASE) % UHF_SPACING as int > 100_000 {
        Err(
            ErrorView::Msg(
                "frequency "@ + decimal(freq as nat) + " Hz is not on a UHF 13-62 centre"@,
            ),
        )
    } else {
        Ok(ch as u16)
    }
}

/// The UHF channel of a frequency. Only UHF 13 to 62 is accepted: the cable
/// channels below have other numbers, and would be tuned wrongly.
pub fn physical_from_frequency(freq: u32) -> (out: Result<u16, Error>)
    ensures
        match out {
            Ok(ch) => physical_channel(freq) == Ok::<u16, ErrorView>(ch),
            Err(e) => physical_channel(freq) == Err::<u16, ErrorView>(e@),
        },
{
    let mut text = "frequency ".to_owned();
    text.append(&decimal_text(freq as u128));
    if freq < UHF_BASE {
        text.append(
            " Hz is below UHF 13 — CATV passthrough is not supported on the px4 backend",
        );
        return Err(Error::Msg(text));
    }
    let offset: u32 = freq - UHF_BASE;
    let ch: u32 = offset / UHF_SPACING + FIRST_PHYSICAL;
    if ch > LAST_PHYSICAL {
        text.append(" Hz is above UHF 62 (would be channel ");
        text.append(&decimal_text(ch as u128));
        text.append(")");
        return Err(Error::Msg(text));
    }
    if offset % UHF_SPACING > 100_000 {
        text.append(" Hz is not on a UHF 13-62 centre");
        return Err(Error::Msg(text));
    }
    Ok(ch as u16)
}

/// The centre of every UHF channel belongs to that channel, and so does every
/// frequency up to 100 kHz above it; the driver knows the channel by its number
/// plus 50.
pub proof fn law_uhf_channels(ch: int, above: int)
    requires
        FIRST_PHYSICAL <= ch <= LAST_PHYSICAL,
        0 <= above <= 100_000,
    ensures
        physical_channel((uhf_frequency(ch) + above) as u32) == Ok::<u16, ErrorView>(ch as u16),
{
    let offset = (ch - 13) * 6_000_000 + above;
    assert(offset / 6_000_000 == ch - 13);
    assert(offset % 6_000_000 == above);
}

/// A frequency that is accepted lies at the centre of its channel or at most
/// 100 kHz above it.
pub proof fn law_accepted_frequencies_are_near_a_centre(freq: u32)
    requires
        physical_channel(freq) is Ok,
    ensures
        FIRST_PHYSICAL <= physical_channel(freq)->Ok_0 <= LAST_PHYSICAL,
        0 <= freq - uhf_frequency(physical_channel(freq)->Ok_0 as int) <= 100_000,
{
}

// ---- Packet filter ---------------------------------------------------------

/// The state of a packet filter.
#[verifier::ext_equal]
pub struct FilterView {
    /// The identifiers that are kept, ascending.
    pub keep: Seq<u16>,
    /// Bytes that are not yet a packet.
    pub carry: Seq<u8>,
    /// Packets that were kept and not yet handed out.
    pub staged: Seq<u8>,
}

/// A filter that has seen nothing.
pub open spec fn new_filter(asked: Seq<u16>) -> FilterView {
    FilterView { keep: ascending(asked), carry: Seq::empty(), staged: Seq::empty() }
}

/// Bytes from the first sync byte on.
pub open spec fn synced(data: Seq<u8>) -> Seq<u8>
    decreases data.len(),
{
    if data.len() > 0 && data[0] != 0x47 {
        synced(data.skip(1))
    } else {
        data
    }
}

/// The packets of `data` whose identifier is kept, one behind the other.
pub open spec fn kept(keep: Seq<u16>, data: Seq<u8>) -> Seq<u8>
    decreases data.len(),
{
    if data.len() < 188 {
        Seq::empty()
    } else {
        let p = data.take(188);
        let rest = kept(keep, data.skip(188));
        if keep.contains(low13(p[1], p[2])) {
            p + rest
        } else {
            rest
        }
    }
}

/// What is left of `data` when whole packets are taken from it.
pub open spec fn beyond_packets(data: Seq<u8>) -> Seq<u8> {
    data.skip(data.len() - data.len() % 188)
}

/// The state when `data` has come in: bytes before a sync byte are dropped, whole
/// packets that are kept are staged, and the rest is carried over.
pub open spec fn ingested(st: FilterView, data: Seq<u8>) -> FilterView {
    let stream = synced(st.carry + data);
    FilterView {
        keep: st.keep,
        carry: beyond_packets(stream),
        staged: st.staged + kept(st.keep, stream),
    }
}

/// How many bytes are handed out where there is room for `room`.
pub open spec fn served_len(st: FilterView, room: nat) -> nat {
    if room < st.staged.len() {
        room
    } else {
        st.staged.len()
    }
}

/// What came of reading the source of a filter.
#[derive(Debug, Clone, Copy)]
pub enum Pulled<'a> {
    Bytes(&'a [u8]),
    /// The source has ended.
    End,
    Interrupted,
    /// Any other failure; that nothing is there yet is one.
    Failed,
}

/// What came of reading the source of a filter.
#[verifier::ext_equal]
pub enum PulledView {
    Bytes(Seq<u8>),
    End,
    Interrupted,
    Failed,
}

impl<'a> View for Pulled<'a> {
    type V = PulledView;

    open spec fn view(&self) -> PulledView {
        match self {
            Pulled::Bytes(data) => PulledView::Bytes(data@),
            Pulled::End => PulledView::End,
            Pulled::Interrupted => PulledView::Interrupted,
            Pulled::Failed => PulledView::Failed,
        }
    }
}

/// What the reader of a filter does next.
#[derive(Debug, Clone, Copy, PartialEq, Eq, Structural)]
pub enum PullAction {
    /// Read the source.
    Pull,
    /// Hand out what is staged.
    Serve,
    /// Report the end.
    End,
    /// Report the failure of the source.
    Fail,
}

/// How often the source is read before a stream without a packet to keep is
/// given up.
pub const MAX_PULLS: u32 = 4096;

/// What is done next with `pulls` reads of the source behind.
pub open spec fn pull_or_serve(st: FilterView, pulls: u32) -> PullAction {
    if st.staged.len() > 0 || pulls >= MAX_PULLS {
        PullAction::Serve
    } else {
        PullAction::Pull
    }
}

/// The state when the source was read for the time `pulls`, and what is done next.
/// Only bytes that came change the state.
pub open spec fn after_pull(st: FilterView, pulls: u32, pulled: PulledView) -> (
    FilterView,
    PullAction,
) {
    match pulled {
        PulledView::Bytes(data) => {
            let next = ingested(st, data);
            (next, pull_or_serve(next, pulls))
        },
        PulledView::Interrupted => (st, pull_or_serve(st, pulls)),
        PulledView::End => (st, PullAction::End),
        PulledView::Failed => (st, PullAction::Fail),
    }
}

/// The state when `n` staged bytes were handed out.
pub open spec fn after_serve(st: FilterView, n: nat) -> FilterView {
    FilterView { staged: st.staged.skip(n as int), ..st }
}

/// Keeps the packets of some identifiers out of a transport stream, byte by byte
/// continuous, so that what comes out can be read in pieces of any size.
pub struct TsPidFilter {
    keep: Vec<u16>,
    carry: Vec<u8>,
    staged: Vec<u8>,
}

impl View for TsPidFilter {
    type V = FilterView;

    closed spec fn view(&self) -> FilterView {
        FilterView { keep: self.keep@, carry: self.carry@, staged: self.staged@ }
    }
}

impl TsPidFilter {
    pub fn new(keep: &[u16]) -> (f: Self)
        ensures
            f@ == new_filter(keep@),
    {
        let f = TsPidFilter { keep: sorted_pids(keep), carry: Vec::new(), staged: Vec::new() };
        assert(f@ =~= new_filter(keep@));
        f
    }

    /// Takes in bytes of the stream.
    pub fn push(&mut self, data: &[u8])
        ensures
            final(self)@ == ingested(old(self)@, data@),
    {
        append_bytes(&mut self.carry, data);
        self.ingest();
    }

    fn keeps(&self, pid: u16) -> (yes: bool)
        ensures
            yes == self.keep@.contains(pid),
    {
        let mut i: usize = 0;
        while i < self.keep.len()
            invariant
                i <= self.keep@.len(),
                forall|j: int| 0 <= j < i ==> self.keep@[j] != pid,
            decreases self.keep@.len() - i,
        {
            if self.keep[i] == pid {
                return true;
            }
            i += 1;
        }
        false
    }

    /// Moves whole packets that are kept from the carried bytes to the staged ones.
    fn ingest(&mut self)
        ensures
            final(self)@ == ingested(old(self)@, Seq::empty()),
    {
        let ghost all = self.carry@;
        assert(all + Seq::<u8>::empty() =~= all);
        let mut off: usize = 0;
        assert(all.skip(0) =~= all);
        while off < self.carry.len() && self.carry[off] != 0x47
            invariant
                self.carry@ == all,
                off <= all.len(),
                synced(all.skip(off as int)) == synced(all),
            decreases all.len() - off,
        {
            assert(all.skip(off as int).skip(1) =~= all.skip(off + 1));
            off += 1;
        }
        let ghost stream = all.skip(off as int);
        assert(stream == synced(all));
        let ghost start = off;
        assert(self.staged@ + kept(self.keep@, stream) =~= old(self).staged@ + kept(
            self.keep@,
            stream,
        ));
        while self.carry.len() - off >= TS_PACKET_SIZE
            invariant
                self.carry@ == all,
                start <= off <= all.len(),
                (off - start) % 188 == 0,
                stream == all.skip(start as int),
                self.keep == old(self).keep,
                self.staged@ + kept(self.keep@, all.skip(off as int)) == old(self).staged@ + kept(
                    self.keep@,
                    stream,
                ),
            decreases all.len() - off,
        {
            let ghost rest = all.skip(off as int);
            let ghost before = self.staged@;
            let pid = read_low13(self.carry[off + 1], self.carry[off + 2]);
            let ghost p = rest.take(188);
            assert(rest.skip(188) =~= all.skip(off + 188));
            assert(pid == low13(p[1], p[2]));
            if self.keeps(pid) {
                append_bytes(
                    &mut self.staged,
                    slice_subrange(self.carry.as_slice(), off, off + TS_PACKET_SIZE),
                );
                assert(self.staged@ =~= before + p);
                assert(before + (p + kept(self.keep@, rest.skip(188))) =~= self.staged@ + kept(
                    self.keep@,
                    rest.skip(188),
                ));
            }
            off += TS_PACKET_SIZE;
        }
        assert(self.staged@ + Seq::<u8>::empty() =~= self.staged@);
        assert(stream.len() - stream.len() % 188 == off - start);
        self.carry = self.carry.split_off(off);
        assert(self.carry@ =~= beyond_packets(stream));
    }

    /// What the reader does first: what is staged goes out before the source is
    /// read again.
    pub fn first_action(&self) -> (action: PullAction)
        ensures
            action == pull_or_serve(self@, 0),
    {
        if self.staged.len() > 0 {
            PullAction::Serve
        } else {
            PullAction::Pull
        }
    }

    /// What the reader does when the source was read for the time `pulls`. Bytes
    /// that came are taken in.
    pub fn on_pull(&mut self, pulls: u32, pulled: Pulled<'_>) -> (action: PullAction)
        ensures
            (final(self)@, action) == after_pull(old(self)@, pulls, pulled@),
    {
        match pulled {
            Pulled::Bytes(data) => {
                self.push(data);
            },
            Pulled::Interrupted => {},
            Pulled::End => {
                return PullAction::End;
            },
            Pulled::Failed => {
                return PullAction::Fail;
            },
        }
        if self.staged.len() > 0 || pulls >= MAX_PULLS {
            PullAction::Serve
        } else {
            PullAction::Pull
        }
    }

    /// Hands out staged bytes, as many as there is room for.
    pub fn serve(&mut self, buf: &mut [u8]) -> (n: usize)
        ensures
            n == served_len(old(self)@, old(buf)@.len()),
            final(buf)@ == old(self)@.staged.take(n as int) + old(buf)@.skip(n as int),
            final(self)@ == after_serve(old(self)@, n as nat),
    {
        let n: usize = if buf.len() < self.staged.len() {
            buf.len()
        } else {
            self.staged.len()
        };
        let mut i: usize = 0;
        while i < n
            invariant
                i <= n <= old(buf)@.len(),
                n <= self.staged@.len(),
                buf@.len() == old(buf)@.len(),
                buf@ == self.staged@.take(i as int) + old(buf)@.skip(i as int),
                *self == *old(self),
            decreases n - i,
        {
            buf[i] = self.staged[i];
            i += 1;
            assert(buf@ =~= self.staged@.take(i as int) + old(buf)@.skip(i as int));
        }
        self.staged = self.staged.split_off(n);
        assert(self.staged@ =~= old(self).staged@.skip(n as int));
        n
    }
}

// ---- Laws of the packet filter ---------------------------------------------

/// Packet `i` of bytes that are packets one behind the other.
pub open spec fn packet_at(data: Seq<u8>, i: int) -> Seq<u8> {
    data.subrange(188 * i, 188 * i + 188)
}

/// What comes out is whole packets, all of them of identifiers that are kept.
pub proof fn law_only_kept_packets(keep: Seq<u16>, data: Seq<u8>)
    ensures
        kept(keep, data).len() % 188 == 0,
        forall|i: int|
            0 <= i < kept(keep, data).len() / 188 ==> {
                let p = #[trigger] packet_at(kept(keep, data), i);
                keep.contains(low13(p[1], p[2]))
            },
    decreases data.len(),
{
    if data.len() >= 188 {
        law_only_kept_packets(keep, data.skip(188));
        let rest = kept(keep, data.skip(188));
        let out = kept(keep, data);
        let first = data.take(188);
        if keep.contains(low13(first[1], first[2])) {
            assert forall|i: int| 0 <= i < out.len() / 188 implies {
                let p = #[trigger] packet_at(out, i);
                keep.contains(low13(p[1], p[2]))
            } by {
                if i == 0 {
                    assert(packet_at(out, 0) =~= first);
                } else {
                    assert(packet_at(out, i) =~= packet_at(rest, i - 1));
                }
            }
        }
    }
}

/// Every packet of an identifier that was asked for is kept, and no other.
pub proof fn law_filter_keeps_what_was_asked_for(asked: Seq<u16>, pid: u16)
    ensures
        ascending(asked).contains(pid) <==> asked.contains(pid),
{
    law_ascending(asked);
}

/// Whether every packet of a stream starts with a sync byte.
pub open spec fn is_aligned(stream: Seq<u8>) -> bool {
    forall|i: int| 0 <= i < stream.len() && i % 188 == 0 ==> stream[i] == 0x47
}

proof fn lemma_remainder(n: int, m: int)
    requires
        n >= 0,
        m >= 0,
    ensures
        (n % 188 + m) % 188 == (n + m) % 188,
{
}

proof fn lemma_beyond_in_pieces(a: Seq<u8>, b: Seq<u8>)
    ensures
        beyond_packets(a + b) == beyond_packets(beyond_packets(a) + b),
{
    lemma_remainder(a.len() as int, b.len() as int);
    let left = beyond_packets(a) + b;
    assert(left.len() == a.len() % 188 + b.len());
    assert(left =~= (a + b).skip(a.len() - a.len() % 188));
    assert(beyond_packets(a + b) =~= beyond_packets(left));
}

proof fn lemma_kept_in_pieces(keep: Seq<u16>, a: Seq<u8>, b: Seq<u8>)
    ensures
        kept(keep, a + b) == kept(keep, a) + kept(keep, beyond_packets(a) + b),
    decreases a.len(),
{
    if a.len() < 188 {
        assert(beyond_packets(a) =~= a);
        assert(kept(keep, a) + kept(keep, a + b) =~= kept(keep, a + b));
    } else {
        let tail = a.skip(188);
        lemma_kept_in_pieces(keep, tail, b);
        assert((a + b).take(188) =~= a.take(188));
        assert((a + b).skip(188) =~= tail + b);
        lemma_remainder(188, tail.len() as int);
        assert(beyond_packets(tail) =~= beyond_packets(a));
        let p = a.take(188);
        let last = kept(keep, beyond_packets(a) + b);
        assert(p + (kept(keep, tail) + last) =~= (p + kept(keep, tail)) + last);
    }
}

/// Whether a stream that is aligned comes in at once or in two pieces makes no
/// difference, wherever it is cut.
pub proof fn law_pieces_make_no_difference(st: FilterView, a: Seq<u8>, b: Seq<u8>)
    requires
        is_aligned(st.carry + a + b),
    ensures
        ingested(ingested(st, a), b) == ingested(st, a + b),
{
    let whole = st.carry + a + b;
    let first = st.carry + a;
    assert(st.carry + (a + b) =~= whole);
    assert(whole.len() > 0 ==> whole[0] == 0x47);
    assert(first.len() > 0 ==> first[0] == whole[0]);
    assert(synced(whole) == whole);
    assert(synced(first) == first);
    lemma_kept_in_pieces(st.keep, first, b);
    lemma_beyond_in_pieces(first, b);
    let second = beyond_packets(first) + b;
    let cut = first.len() - first.len() % 188;
    assert(second =~= whole.skip(cut));
    assert(cut % 188 == 0);
    assert(second.len() > 0 ==> second[0] == whole[cut]);
    assert(synced(second) == second);
    assert(st.staged + kept(st.keep, first) + kept(st.keep, second) =~= st.staged + kept(
        st.keep,
        whole,
    ));
}

/// The state when several pieces have come in.
pub open spec fn ingested_all(st: FilterView, pieces: Seq<Seq<u8>>) -> FilterView
    decreases pieces.len(),
{
    if pieces.len() == 0 {
        st
    } else {
        ingested_all(ingested(st, pieces[0]), pieces.skip(1))
    }
}

/// What is carried over of the front of an aligned stream is aligned with the rest.
proof fn lemma_carried_is_aligned(st: FilterView, a: Seq<u8>, b: Seq<u8>)
    requires
        is_aligned(st.carry + a + b),
    ensures
        is_aligned(ingested(st, a).carry + b),
{
    let first = st.carry + a;
    let whole = first + b;
    let cut = first.len() - first.len() % 188;
    assert(first.len() > 0 ==> first[0] == whole[0]);
    assert(synced(first) == first);
    let left = beyond_packets(first) + b;
    assert(left =~= whole.skip(cut));
    assert forall|i: int| 0 <= i < left.len() && i % 188 == 0 implies left[i] == 0x47 by {
        assert(whole[cut + i] == left[i]);
        assert((cut + i) % 188 == 0);
    }
}

/// However an aligned stream is cut into pieces, the same packets come out.
pub proof fn law_cuts_make_no_difference(st: FilterView, pieces: Seq<Seq<u8>>)
    requires
        pieces.len() >= 1,
        is_aligned(st.carry + joined(pieces)),
    ensures
        ingested_all(st, pieces) == ingested(st, joined(pieces)),
    decreases pieces.len(),
{
    let rest = pieces.skip(1);
    let a = pieces[0];
    let b = joined(rest);
    assert(st.carry + a + b =~= st.carry + joined(pieces));
    law_pieces_make_no_difference(st, a, b);
    if rest.len() >= 1 {
        lemma_carried_is_aligned(st, a, b);
        law_cuts_make_no_difference(ingested(st, a), rest);
    } else {
        assert(b =~= Seq::<u8>::empty());
        assert(joined(pieces) =~= a);
        assert(ingested_all(ingested(st, a), rest) == ingested(st, a));
    }
}

/// Staged bytes come out in order, whatever the room at each time.
pub proof fn law_served_in_order(st: FilterView, a: nat, b: nat)
    ensures
        ({
            let n = served_len(st, a) as int;
            let next = FilterView { staged: st.staged.skip(n), ..st };
            let m = served_len(next, b) as int;
            &&& st.staged.take(n) + next.staged.take(m) == st.staged.take(
                served_len(st, a + b) as int,
            )
            &&& next.staged.skip(m) == st.staged.skip(served_len(st, a + b) as int)
        }),
{
    let n = served_len(st, a) as int;
    let next = FilterView { staged: st.staged.skip(n), ..st };
    let m = served_len(next, b) as int;
    assert(st.staged.take(n) + next.staged.take(m) =~= st.staged.take(
        served_len(st, a + b) as int,
    ));
    assert(next.staged.skip(m) =~= st.staged.skip(served_len(st, a + b) as int));
}

// ---- Laws of reading through the packet filter -----------------------------

/// In what order the identifiers are asked for, and how often each of them, makes
/// no difference.
pub proof fn law_asking_in_any_order(a: Seq<u16>, b: Seq<u16>, data: Seq<u8>)
    requires
        forall|pid: u16| a.contains(pid) <==> b.contains(pid),
    ensures
        kept(a, data) == kept(b, data),
    decreases data.len(),
{
    if data.len() >= 188 {
        law_asking_in_any_order(a, b, data.skip(188));
    }
}

/// A filter in use: its state, what has come in, and what was handed out.
#[verifier::ext_equal]
pub struct FilterTrace {
    pub filter: FilterView,
    pub arrived: Seq<u8>,
    pub out: Seq<u8>,
}

/// A filter before its use.
pub open spec fn new_trace(asked: Seq<u16>) -> FilterTrace {
    FilterTrace { filter: new_filter(asked), arrived: Seq::empty(), out: Seq::empty() }
}

/// The bytes that came of reading the source once.
pub open spec fn pulled_bytes(pulled: PulledView) -> Seq<u8> {
    match pulled {
        PulledView::Bytes(data) => data,
        _ => Seq::empty(),
    }
}

/// One use of a filter.
pub enum FilterStep {
    /// The source was read.
    Pull(PulledView),
    /// Staged bytes were handed out to somebody with room for so many.
    Serve(nat),
}

/// The bytes that come in by a use.
pub open spec fn step_bytes(step: FilterStep) -> Seq<u8> {
    match step {
        FilterStep::Pull(pulled) => pulled_bytes(pulled),
        FilterStep::Serve(_) => Seq::empty(),
    }
}

/// A filter behind one more use.
pub open spec fn after_step(t: FilterTrace, step: FilterStep) -> FilterTrace {
    match step {
        FilterStep::Pull(pulled) => FilterTrace {
            filter: after_pull(t.filter, 0, pulled).0,
            arrived: t.arrived + pulled_bytes(pulled),
            ..t
        },
        FilterStep::Serve(room) => {
            let n = served_len(t.filter, room);
            FilterTrace {
                filter: after_serve(t.filter, n),
                out: t.out + t.filter.staged.take(n as int),
                ..t
            }
        },
    }
}

/// A filter behind a series of uses.
pub open spec fn after_steps(t: FilterTrace, steps: Seq<FilterStep>) -> FilterTrace
    decreases steps.len(),
{
    if steps.len() == 0 {
        t
    } else {
        after_step(after_steps(t, steps.drop_last()), steps.last())
    }
}

/// Whether a filter has neither lost nor changed anything: what was handed out
/// with what is staged behind it is the packets that were asked for of all that
/// came in, and what is carried over is what is no packet yet.
pub open spec fn is_faithful(asked: Seq<u16>, t: FilterTrace) -> bool {
    &&& t.filter.keep == ascending(asked)
    &&& t.out + t.filter.staged == kept(asked, t.arrived)
    &&& t.filter.carry == beyond_packets(t.arrived)
}

proof fn lemma_new_is_faithful(asked: Seq<u16>)
    ensures
        is_faithful(asked, new_trace(asked)),
{
    let t = new_trace(asked);
    assert(t.out + t.filter.staged =~= kept(asked, t.arrived));
    assert(t.filter.carry =~= beyond_packets(t.arrived));
}

proof fn lemma_aligned_front(a: Seq<u8>, b: Seq<u8>)
    requires
        is_aligned(a + b),
    ensures
        is_aligned(a),
{
    assert forall|i: int| 0 <= i < a.len() && i % 188 == 0 implies a[i] == 0x47 by {
        assert((a + b)[i] == a[i]);
    }
}

proof fn lemma_ingest_is_faithful(asked: Seq<u16>, t: FilterTrace, data: Seq<u8>)
    requires
        is_faithful(asked, t),
        is_aligned(t.arrived + data),
    ensures
        is_faithful(
            asked,
            FilterTrace {
                filter: ingested(t.filter, data),
                arrived: t.arrived + data,
                ..t
            },
        ),
{
    let whole = t.arrived + data;
    let cut = t.arrived.len() - t.arrived.len() % 188;
    let stream = t.filter.carry + data;
    assert(cut % 188 == 0);
    assert(stream =~= whole.skip(cut));
    assert(stream.len() > 0 ==> stream[0] == whole[cut]);
    assert(synced(stream) == stream);
    lemma_beyond_in_pieces(t.arrived, data);
    lemma_kept_in_pieces(asked, t.arrived, data);
    law_ascending(asked);
    law_asking_in_any_order(ascending(asked), asked, stream);
    assert(t.out + (t.filter.staged + kept(asked, stream)) =~= t.out + t.filter.staged + kept(
        asked,
        stream,
    ));
}

proof fn lemma_step_is_faithful(asked: Seq<u16>, t: FilterTrace, step: FilterStep)
    requires
        is_faithful(asked, t),
        is_aligned(t.arrived + step_bytes(step)),
    ensures
        is_faithful(asked, after_step(t, step)),
        after_step(t, step).arrived == t.arrived + step_bytes(step),
{
    assert(t.arrived + Seq::<u8>::empty() =~= t.arrived);
    match step {
        FilterStep::Pull(PulledView::Bytes(data)) => lemma_ingest_is_faithful(asked, t, data),
        FilterStep::Pull(_) => {},
        FilterStep::Serve(room) => {
            let n = served_len(t.filter, room) as int;
            let staged = t.filter.staged;
            assert(t.out + staged.take(n) + staged.skip(n) =~= t.out + staged);
        },
    }
}

/// However readings of the source and hand-outs of any size follow each other, of
/// a stream of packets that each start with a sync byte nothing is lost and
/// nothing is added: what was handed out with what is staged behind it is the
/// packets that were asked for, whole, unchanged and in order, and what is carried
/// over is what is no packet yet. A reading that is interrupted or fails changes
/// nothing.
pub proof fn law_filter_is_faithful(asked: Seq<u16>, steps: Seq<FilterStep>)
    requires
        is_aligned(after_steps(new_trace(asked), steps).arrived),
    ensures
        is_faithful(asked, after_steps(new_trace(asked), steps)),
    decreases steps.len(),
{
    if steps.len() == 0 {
        lemma_new_is_faithful(asked);
    } else {
        let before = after_steps(new_trace(asked), steps.drop_last());
        let next = after_steps(new_trace(asked), steps);
        assert(next.arrived =~= before.arrived + step_bytes(steps.last()));
        lemma_aligned_front(before.arrived, step_bytes(steps.last()));
        law_filter_is_faithful(asked, steps.drop_last());
        lemma_step_is_faithful(asked, before, steps.last());
    }
}

/// What a read through a filter gives.
pub enum ReadOutcome {
    /// So many bytes.
    Bytes(nat),
    /// The source has ended.
    End,
    /// The source failed.
    Failed,
}

/// Whether a read reports that it gave nothing.
pub open spec fn gave_nothing(outcome: ReadOutcome) -> bool {
    outcome is End || outcome == ReadOutcome::Bytes(0)
}

/// A filter that is read through, and what its source has still to give. A source
/// that has nothing more to give has ended.
#[verifier::ext_equal]
pub struct FilterRun {
    pub trace: FilterTrace,
    pub source: Seq<PulledView>,
}

/// The rest of a read into `room` bytes, with `pulls` readings of the source
/// behind and `action` next.
pub open spec fn after_action(run: FilterRun, action: PullAction, pulls: u32, room: nat) -> (
    FilterRun,
    ReadOutcome,
)
    decreases run.source.len(),
{
    match action {
        PullAction::Serve => (
            FilterRun { trace: after_step(run.trace, FilterStep::Serve(room)), ..run },
            ReadOutcome::Bytes(served_len(run.trace.filter, room)),
        ),
        PullAction::End => (run, ReadOutcome::End),
        PullAction::Fail => (run, ReadOutcome::Failed),
        PullAction::Pull => if run.source.len() == 0 {
            (run, ReadOutcome::End)
        } else {
            let pulled = run.source[0];
            after_action(
                FilterRun {
                    trace: after_step(run.trace, FilterStep::Pull(pulled)),
                    source: run.source.skip(1),
                },
                after_pull(run.trace.filter, (pulls + 1) as u32, pulled).1,
                (pulls + 1) as u32,
                room,
            )
        },
    }
}

/// A read into `room` bytes: what is staged is handed out; where nothing is, the
/// source is read before.
pub open spec fn after_read(run: FilterRun, room: nat) -> (FilterRun, ReadOutcome) {
    after_action(run, pull_or_serve(run.trace.filter, 0), 0, room)
}

/// A filter behind a series of reads.
pub open spec fn after_reads(run: FilterRun, rooms: Seq<nat>) -> FilterRun
    decreases rooms.len(),
{
    if rooms.len() == 0 {
        run
    } else {
        after_read(after_reads(run, rooms.drop_last()), rooms.last()).0
    }
}

/// A filter before its first read.
pub open spec fn new_run(asked: Seq<u16>, source: Seq<PulledView>) -> FilterRun {
    FilterRun { trace: new_trace(asked), source }
}

/// The bytes of a source.
pub open spec fn bytes_of(source: Seq<PulledView>) -> Seq<u8>
    decreases source.len(),
{
    if source.len() == 0 {
        Seq::empty()
    } else {
        bytes_of(source.drop_last()) + pulled_bytes(source.last())
    }
}

/// How many times the source was read when `rest` is still to come.
spec fn pulls_behind(source: Seq<PulledView>, rest: Seq<PulledView>) -> int {
    source.len() - rest.len()
}

/// How a filter stands that is read through.
spec fn run_is_faithful(asked: Seq<u16>, source: Seq<PulledView>, run: FilterRun) -> bool {
    let c = pulls_behind(source, run.source);
    &&& 0 <= c
    &&& run.source == source.skip(c)
    &&& run.trace.arrived == bytes_of(source.take(c))
    &&& is_faithful(asked, run.trace)
}

proof fn lemma_bytes_of_front(source: Seq<PulledView>, c: int)
    requires
        0 <= c <= source.len(),
    ensures
        exists|rest: Seq<u8>| bytes_of(source) == #[trigger] (bytes_of(source.take(c)) + rest),
    decreases source.len() - c,
{
    if c == source.len() {
        assert(source.take(c) =~= source);
        assert(bytes_of(source) =~= bytes_of(source.take(c)) + Seq::<u8>::empty());
    } else {
        let more = pulled_bytes(source[c]);
        lemma_bytes_of_front(source, c + 1);
        lemma_bytes_of_next(source, c);
        let rest = choose|rest: Seq<u8>|
            bytes_of(source) == #[trigger] (bytes_of(source.take(c + 1)) + rest);
        assert(bytes_of(source) =~= bytes_of(source.take(c)) + (more + rest));
    }
}

proof fn lemma_bytes_of_next(source: Seq<PulledView>, c: int)
    requires
        0 <= c < source.len(),
    ensures
        bytes_of(source.take(c + 1)) == bytes_of(source.take(c)) + pulled_bytes(source[c]),
{
    assert(source.take(c + 1).drop_last() =~= source.take(c));
    assert(source.take(c + 1).last() == source[c]);
}

proof fn lemma_aligned_so_far(source: Seq<PulledView>, c: int)
    requires
        0 <= c <= source.len(),
        is_aligned(bytes_of(source)),
    ensures
        is_aligned(bytes_of(source.take(c))),
{
    lemma_bytes_of_front(source, c);
    let rest = choose|rest: Seq<u8>|
        bytes_of(source) == #[trigger] (bytes_of(source.take(c)) + rest);
    lemma_aligned_front(bytes_of(source.take(c)), rest);
}

/// A read keeps a filter faithful. Where it gives nothing though there is room,
/// nothing is staged; and unless the source has ended, it was read as often as it
/// is read at all, with nothing to keep.
proof fn lemma_action_is_faithful(
    asked: Seq<u16>,
    source: Seq<PulledView>,
    run: FilterRun,
    action: PullAction,
    pulls: u32,
    room: nat,
)
    requires
        is_aligned(bytes_of(source)),
        run_is_faithful(asked, source, run),
        pulls <= MAX_PULLS,
        action is Pull ==> pulls < MAX_PULLS,
        action is Serve ==> run.trace.filter.staged.len() > 0 || pulls >= MAX_PULLS,
        !(action is Serve) ==> run.trace.filter.staged.len() == 0,
        action is End ==> pulls_behind(source, run.source) > 0 && source[pulls_behind(
            source,
            run.source,
        ) - 1] is End,
    ensures
        ({
            let (end, outcome) = after_action(run, action, pulls, room);
            let c = pulls_behind(source, run.source);
            let d = pulls_behind(source, end.source);
            &&& run_is_faithful(asked, source, end)
            &&& c <= d
            &&& gave_nothing(outcome) && room > 0 ==> end.trace.filter.staged.len() == 0
            &&& outcome == ReadOutcome::Bytes(0) && room > 0 ==> {
                &&& pulls + (d - c) == MAX_PULLS
                &&& end.trace.out == run.trace.out
                &&& run.trace.filter.staged.len() == 0
            }
            &&& outcome is End ==> d == source.len() || d > 0 && source[d - 1] is End
        }),
    decreases run.source.len(),
{
    let c = pulls_behind(source, run.source);
    match action {
        PullAction::Serve => {
            let step = FilterStep::Serve(room);
            assert(run.trace.arrived + step_bytes(step) =~= run.trace.arrived);
            lemma_aligned_so_far(source, c);
            lemma_step_is_faithful(asked, run.trace, step);
            let end = after_step(run.trace, step);
            if served_len(run.trace.filter, room) == 0 {
                assert(end.out =~= run.trace.out);
            }
        },
        PullAction::Pull => {
            if run.source.len() > 0 {
                let pulled = run.source[0];
                let step = FilterStep::Pull(pulled);
                let next = FilterRun {
                    trace: after_step(run.trace, step),
                    source: run.source.skip(1),
                };
                let more = (pulls + 1) as u32;
                assert(pulled == source[c]);
                assert(next.source =~= source.skip(c + 1));
                lemma_bytes_of_next(source, c);
                lemma_aligned_so_far(source, c + 1);
                lemma_step_is_faithful(asked, run.trace, step);
                lemma_action_is_faithful(
                    asked,
                    source,
                    next,
                    after_pull(run.trace.filter, more, pulled).1,
                    more,
                    room,
                );
            }
        },
        _ => {},
    }
}

proof fn lemma_read_is_faithful(
    asked: Seq<u16>,
    source: Seq<PulledView>,
    run: FilterRun,
    room: nat,
)
    requires
        is_aligned(bytes_of(source)),
        run_is_faithful(asked, source, run),
    ensures
        run_is_faithful(asked, source, after_read(run, room).0),
{
    lemma_action_is_faithful(
        asked,
        source,
        run,
        pull_or_serve(run.trace.filter, 0),
        0,
        room,
    );
}

proof fn lemma_reads_are_faithful(asked: Seq<u16>, source: Seq<PulledView>, rooms: Seq<nat>)
    requires
        is_aligned(bytes_of(source)),
    ensures
        run_is_faithful(asked, source, after_reads(new_run(asked, source), rooms)),
    decreases rooms.len(),
{
    if rooms.len() == 0 {
        lemma_new_is_faithful(asked);
        assert(source.skip(0) =~= source);
        assert(source.take(0) =~= Seq::<PulledView>::empty());
    } else {
        lemma_reads_are_faithful(asked, source, rooms.drop_last());
        lemma_read_is_faithful(
            asked,
            source,
            after_reads(new_run(asked, source), rooms.drop_last()),
            rooms.last(),
        );
    }
}

/// Whatever a source gives and in reads of whatever sizes, what was read with what
/// is staged behind it is the packets that were asked for of what the source has
/// given so far: interruptions and failures lose no byte.
pub proof fn law_reads_lose_nothing(asked: Seq<u16>, source: Seq<PulledView>, rooms: Seq<nat>)
    requires
        is_aligned(bytes_of(source)),
    ensures
        ({
            let run = after_reads(new_run(asked, source), rooms);
            let c = source.len() - run.source.len();
            &&& 0 <= c
            &&& run.source == source.skip(c)
            &&& run.trace.arrived == bytes_of(source.take(c))
            &&& is_faithful(asked, run.trace)
        }),
{
    lemma_reads_are_faithful(asked, source, rooms);
}

/// Whether a source never brings nothing to keep for so many readings that it is
/// given up.
pub open spec fn never_idle(asked: Seq<u16>, source: Seq<PulledView>) -> bool {
    forall|i: int|
        0 <= i && i + MAX_PULLS <= source.len() ==> kept(
            asked,
            bytes_of(#[trigger] source.take(i)),
        ) != kept(asked, bytes_of(source.take(i + MAX_PULLS)))
}

/// Whoever reads into buffers that are not empty until a read gives nothing has
/// read exactly the packets that were asked for, whole, unchanged and in order, of
/// all that the source had given; and that is all up to its end, unless the source
/// was given up because it brought nothing to keep for too long.
pub proof fn law_reading_to_the_end(
    asked: Seq<u16>,
    source: Seq<PulledView>,
    rooms: Seq<nat>,
    room: nat,
)
    requires
        is_aligned(bytes_of(source)),
        room > 0,
        gave_nothing(after_read(after_reads(new_run(asked, source), rooms), room).1),
    ensures
        ({
            let end = after_read(after_reads(new_run(asked, source), rooms), room).0;
            let c = source.len() - end.source.len();
            &&& 0 <= c <= source.len()
            &&& end.trace.out == kept(asked, bytes_of(source.take(c)))
            &&& never_idle(asked, source) ==> c == source.len() || c > 0 && source[c - 1] is End
            &&& never_idle(asked, source) && !source.contains(PulledView::End)
                ==> end.trace.out == kept(asked, bytes_of(source))
        }),
{
    let run = after_reads(new_run(asked, source), rooms);
    let (end, outcome) = after_read(run, room);
    lemma_reads_are_faithful(asked, source, rooms);
    lemma_action_is_faithful(
        asked,
        source,
        run,
        pull_or_serve(run.trace.filter, 0),
        0,
        room,
    );
    let c = pulls_behind(source, run.source);
    let d = pulls_behind(source, end.source);
    assert(end.trace.out + end.trace.filter.staged =~= end.trace.out);
    if never_idle(asked, source) {
        if outcome == ReadOutcome::Bytes(0) {
            assert(run.trace.out + run.trace.filter.staged =~= run.trace.out);
            assert(source.take(c + MAX_PULLS) == source.take(d));
            assert(false);
        }
        assert(source.take(source.len() as int) =~= source);
        assert(d > 0 && source[d - 1] is End ==> source.contains(PulledView::End));
    }
}

} // verus!
