//! The sections of the service information: CRC, descriptors, PAT, PMT, SDT.

use crate::arib_b24::{builtin_tables, decode, decoded};
use crate::bytes::{be16, be32, low12, low13, read_be16, read_be32, read_low12, read_low13};
use crate::error::{outcome, outcome_list, si_error, Error, ErrorView};
use crate::views::{lemma_views_push, views};
use vstd::prelude::*;
use vstd::slice::{slice_subrange, slice_to_vec};

verus! {

const PAT_TABLE_ID: u8 = 0x00;

const PMT_TABLE_ID: u8 = 0x02;

const SDT_ACTUAL_TABLE_ID: u8 = 0x42;

// ---- CRC -------------------------------------------------------------------

/// One bit of the CRC-32 of EN 300 468: polynomial `0x04C11DB7`, most
/// significant bit first.
pub open spec fn crc_bit(crc: u32) -> u32 {
    if crc & 0x8000_0000 != 0 {
        (crc << 1) ^ 0x04c1_1db7
    } else {
        crc << 1
    }
}

/// `n` bits of the CRC.
pub open spec fn crc_bits(crc: u32, n: nat) -> u32
    decreases n,
{
    if n == 0 {
        crc
    } else {
        crc_bit(crc_bits(crc, (n - 1) as nat))
    }
}

/// The CRC of `data`: initial value all ones, no final inversion.
pub open spec fn crc32(data: Seq<u8>) -> u32
    decreases data.len(),
{
    if data.len() == 0 {
        0xffff_ffff
    } else {
        crc_bits(crc32(data.drop_last()) ^ ((data.last() as u32) << 24), 8)
    }
}

/// Whether the last four bytes of `data` are the CRC of those before them.
pub open spec fn crc_ok(data: Seq<u8>) -> bool {
    let n = data.len() - 4;
    n >= 0 && be32(data[n], data[n + 1], data[n + 2], data[n + 3]) == crc32(data.take(n))
}

/// The CRC of `data`.
pub fn crc32_mpeg(data: &[u8]) -> (crc: u32)
    ensures
        crc == crc32(data@),
{
    let mut crc: u32 = 0xffff_ffff;
    let mut i: usize = 0;
    while i < data.len()
        invariant
            i <= data@.len(),
            crc == crc32(data@.take(i as int)),
        decreases data@.len() - i,
    {
        let ghost before = crc;
        crc = crc ^ ((data[i] as u32) << 24);
        let ghost start = crc;
        let mut k: u8 = 0;
        while k < 8
            invariant
                k <= 8,
                crc == crc_bits(start, k as nat),
            decreases 8 - k,
        {
            crc = if crc & 0x8000_0000 != 0 {
                (crc << 1) ^ 0x04c1_1db7
            } else {
                crc << 1
            };
            k += 1;
        }
        assert(data@.take(i + 1).drop_last() =~= data@.take(i as int));
        i += 1;
    }
    assert(data@.take(i as int) =~= data@);
    crc
}

/// Whether the last four bytes of `data` are the CRC of those before them.
pub fn section_crc_ok(data: &[u8]) -> (ok: bool)
    ensures
        ok == crc_ok(data@),
{
    if data.len() < 4 {
        return false;
    }
    let n = data.len() - 4;
    let expected = read_be32(data[n], data[n + 1], data[n + 2], data[n + 3]);
    assert(data@.take(n as int) =~= data@.subrange(0, n as int));
    let crc = crc32_mpeg(slice_subrange(data, 0, n));
    crc == expected
}

// ---- Section header --------------------------------------------------------

/// The length of a section with its header and CRC, by its first three bytes.
pub open spec fn total_len(section: Seq<u8>) -> nat {
    3 + low12(section[1], section[2])
}

/// The length of a section with its header and CRC; nothing where the header is
/// not whole.
pub fn section_byte_len_from_prefix(header3: &[u8]) -> (len: Option<usize>)
    ensures
        len == (if header3@.len() < 3 {
            None
        } else {
            Some(total_len(header3@) as usize)
        }),
        len matches Some(n) ==> n == total_len(header3@),
{
    if header3.len() < 3 {
        return None;
    }
    Some(3 + read_low12(header3[1], header3[2]))
}

// ---- Descriptors -----------------------------------------------------------

/// A descriptor: its tag and the bytes it holds.
pub struct Descriptor {
    pub tag: u8,
    pub body: Seq<u8>,
}

/// The descriptors of a descriptor loop, up to the first that is not whole.
pub open spec fn descriptors(data: Seq<u8>) -> Seq<Descriptor>
    decreases data.len(),
{
    if data.len() < 2 || 2 + data[1] > data.len() {
        Seq::empty()
    } else {
        seq![Descriptor { tag: data[0], body: data.subrange(2, 2 + data[1]) }] + descriptors(
            data.skip(2 + data[1]),
        )
    }
}

/// A descriptor within the bytes of a section.
#[derive(Debug, Clone, Copy)]
pub struct DescriptorSlice<'a> {
    pub tag: u8,
    pub body: &'a [u8],
}

impl<'a> View for DescriptorSlice<'a> {
    type V = Descriptor;

    open spec fn view(&self) -> Descriptor {
        Descriptor { tag: self.tag, body: self.body@ }
    }
}

/// The descriptors of a descriptor loop, up to the first that is not whole.
pub fn split_descriptors<'a>(data: &'a [u8]) -> (out: Vec<DescriptorSlice<'a>>)
    ensures
        views(out@) == descriptors(data@),
{
    let mut out: Vec<DescriptorSlice<'a>> = Vec::new();
    let mut off: usize = 0;
    assert(data@.skip(0) =~= data@);
    assert(views(out@) + descriptors(data@) =~= descriptors(data@));
    while data.len() - off >= 2
        invariant
            off <= data@.len(),
            views(out@) + descriptors(data@.skip(off as int)) == descriptors(data@),
        decreases data@.len() - off,
    {
        let ghost here = data@.skip(off as int);
        let ghost done = views(out@);
        let tag = data[off];
        let len = data[off + 1] as usize;
        if len > data.len() - off - 2 {
            assert(done + Seq::<Descriptor>::empty() =~= done);
            return out;
        }
        let d = DescriptorSlice { tag, body: slice_subrange(data, off + 2, off + 2 + len) };
        proof {
            assert(d.body@ =~= here.subrange(2, 2 + len));
            assert(here.skip(2 + len) =~= data@.skip(off + 2 + len));
            lemma_views_push(out@, d);
            assert(done + (seq![d@] + descriptors(here.skip(2 + len))) =~= done.push(d@)
                + descriptors(here.skip(2 + len)));
        }
        out.push(d);
        off += 2 + len;
    }
    assert(views(out@) + Seq::<Descriptor>::empty() =~= views(out@));
    out
}

// ---- Sets of packet identifiers --------------------------------------------

/// `list` with `x` in its place in ascending order, unless it is there already.
pub open spec fn insert_ascending(list: Seq<u16>, x: u16) -> Seq<u16>
    decreases list.len(),
{
    if list.len() == 0 || list.last() < x {
        list.push(x)
    } else if list.last() == x {
        list
    } else {
        insert_ascending(list.drop_last(), x).push(list.last())
    }
}

/// The items of `list` in ascending order, each once.
pub open spec fn ascending(list: Seq<u16>) -> Seq<u16>
    decreases list.len(),
{
    if list.len() == 0 {
        list
    } else {
        insert_ascending(ascending(list.drop_last()), list.last())
    }
}

pub open spec fn strictly_ascending(list: Seq<u16>) -> bool {
    forall|i: int, j: int| 0 <= i < j < list.len() ==> list[i] < list[j]
}

proof fn lemma_insert_ascending(list: Seq<u16>, x: u16)
    requires
        strictly_ascending(list),
    ensures
        strictly_ascending(insert_ascending(list, x)),
        forall|y: u16|
            insert_ascending(list, x).contains(y) <==> list.contains(y) || y == x,
    decreases list.len(),
{
    let out = insert_ascending(list, x);
    if list.len() == 0 || list.last() < x {
        assert(out[list.len() as int] == x);
        assert forall|y: u16| out.contains(y) <==> list.contains(y) || y == x by {
            if list.contains(y) {
                let i = choose|i: int| 0 <= i < list.len() && list[i] == y;
                assert(out[i] == y);
            }
        }
    } else if list.last() == x {
        assert(list[list.len() - 1] == x);
    } else {
        let front = list.drop_last();
        assert forall|i: int, j: int| 0 <= i < j < front.len() implies front[i] < front[j] by {
            assert(front[i] == list[i] && front[j] == list[j]);
        }
        lemma_insert_ascending(front, x);
        let mid = insert_ascending(front, x);
        assert(forall|y: u16| #[trigger] mid.contains(y) <==> front.contains(y) || y == x);
        assert forall|y: u16| out.contains(y) <==> list.contains(y) || y == x by {
            if list.contains(y) {
                let i = choose|i: int| 0 <= i < list.len() && list[i] == y;
                if i < list.len() - 1 {
                    assert(front[i] == y);
                    assert(mid.contains(y));
                    let k = choose|k: int| 0 <= k < mid.len() && mid[k] == y;
                    assert(out[k] == y);
                } else {
                    assert(out[out.len() - 1] == y);
                }
            } else if y == x {
                assert(mid.contains(y));
                let k = choose|k: int| 0 <= k < mid.len() && mid[k] == y;
                assert(out[k] == y);
            } else if out.contains(y) {
                let k = choose|k: int| 0 <= k < out.len() && out[k] == y;
                if k < mid.len() {
                    assert(mid[k] == y);
                    assert(mid.contains(y));
                    let i = choose|i: int| 0 <= i < front.len() && front[i] == y;
                    assert(list[i] == y);
                } else {
                    assert(list[list.len() - 1] == y);
                }
            }
        }
        assert forall|i: int, j: int| 0 <= i < j < out.len() implies out[i] < out[j] by {
            if j == out.len() - 1 {
                assert(mid.contains(mid[i]));
                if mid[i] != x {
                    let k = choose|k: int| 0 <= k < front.len() && front[k] == mid[i];
                    assert(list[k] < list[list.len() - 1]);
                }
            }
        }
    }
}

/// Sorting leaves every item once, in ascending order, and adds none.
pub proof fn law_ascending(list: Seq<u16>)
    ensures
        strictly_ascending(ascending(list)),
        forall|y: u16| ascending(list).contains(y) <==> list.contains(y),
    decreases list.len(),
{
    if list.len() > 0 {
        let front = list.drop_last();
        law_ascending(front);
        lemma_insert_ascending(ascending(front), list.last());
        assert forall|y: u16| ascending(list).contains(y) <==> list.contains(y) by {
            if list.contains(y) {
                let i = choose|i: int| 0 <= i < list.len() && list[i] == y;
                if i < list.len() - 1 {
                    assert(front[i] == y);
                }
            }
            if front.contains(y) {
                let i = choose|i: int| 0 <= i < front.len() && front[i] == y;
                assert(list[i] == y);
            }
            assert(list[list.len() - 1] == list.last());
        }
    }
}

/// Puts `x` into the ascending list, unless it is there already.
fn insert_pid(list: &mut Vec<u16>, x: u16)
    ensures
        final(list)@ == insert_ascending(old(list)@, x),
{
    let mut i: usize = list.len();
    let ghost all = list@;
    assert(all.take(i as int) =~= all);
    assert(all.skip(i as int) =~= Seq::<u16>::empty());
    assert(insert_ascending(all, x) =~= insert_ascending(all.take(i as int), x) + all.skip(
        i as int,
    ));
    while i > 0 && list[i - 1] > x
        invariant
            list@ == all,
            i <= all.len(),
            insert_ascending(all, x) == insert_ascending(all.take(i as int), x) + all.skip(
                i as int,
            ),
        decreases i,
    {
        let ghost front = all.take(i as int);
        assert(front.drop_last() =~= all.take(i - 1));
        assert(insert_ascending(front.drop_last(), x).push(front.last()) + all.skip(i as int)
            =~= insert_ascending(all.take(i - 1), x) + all.skip(i - 1));
        i -= 1;
    }
    if i > 0 && list[i - 1] == x {
        assert(all.take(i as int) + all.skip(i as int) =~= all);
        return ;
    }
    list.insert(i, x);
    assert(list@ =~= all.take(i as int).push(x) + all.skip(i as int));
}

/// The identifiers of `list` in ascending order, each once.
pub fn sorted_pids(list: &[u16]) -> (out: Vec<u16>)
    ensures
        out@ == ascending(list@),
{
    let mut out: Vec<u16> = Vec::new();
    let mut i: usize = 0;
    assert(list@.take(0) =~= out@);
    while i < list.len()
        invariant
            i <= list@.len(),
            out@ == ascending(list@.take(i as int)),
        decreases list@.len() - i,
    {
        assert(list@.take(i + 1).drop_last() =~= list@.take(i as int));
        insert_pid(&mut out, list[i]);
        i += 1;
    }
    assert(list@.take(i as int) =~= list@);
    out
}

// ---- PAT -------------------------------------------------------------------

/// A program and the packets that carry its map.
#[derive(Debug, Clone, Copy, PartialEq, Eq, Structural)]
pub struct PatProgram {
    pub program_number: u16,
    pub pid: u16,
}

/// How many programs a PAT section holds.
pub open spec fn pat_count(section: Seq<u8>) -> nat {
    if total_len(section) < 12 {
        0
    } else {
        ((total_len(section) - 12) / 4) as nat
    }
}

/// Program `i` of a PAT section.
pub open spec fn pat_program(section: Seq<u8>, i: int) -> PatProgram {
    let off = 8 + 4 * i;
    PatProgram {
        program_number: be16(section[off], section[off + 1]),
        pid: low13(section[off + 2], section[off + 3]),
    }
}

/// Whether a section passes the tests that come before its length is used.
pub open spec fn checked(section: Seq<u8>, table_id: u8, min: nat) -> bool {
    section.len() >= min && section[0] == table_id && crc_ok(section)
}

/// A section that is told by its header to end before its CRC.
pub open spec fn headless(section: Seq<u8>) -> bool {
    total_len(section) < 4
}

/// What a PAT section says.
pub open spec fn pat(section: Seq<u8>) -> Result<Seq<PatProgram>, ErrorView> {
    if section.len() < 16 {
        Err(ErrorView::Si("PAT too short"@))
    } else if section[0] != 0x00 {
        Err(ErrorView::Si("not a PAT section"@))
    } else if !crc_ok(section) {
        Err(ErrorView::Si("PAT CRC mismatch"@))
    } else if section.len() < total_len(section) {
        Err(ErrorView::Si("incomplete PAT section"@))
    } else {
        Ok(Seq::new(pat_count(section), |i: int| pat_program(section, i)))
    }
}

/// The programs of a PAT section. A section that passes every test but whose
/// header leaves no room for a CRC is no input.
pub fn parse_pat(section: &[u8]) -> (out: Result<Vec<PatProgram>, Error>)
    requires
        !(checked(section@, 0x00, 16) && headless(section@)),
    ensures
        outcome(out) == pat(section@),
{
    if section.len() < 16 {
        return Err(si_error("PAT too short"));
    }
    if section[0] != PAT_TABLE_ID {
        return Err(si_error("not a PAT section"));
    }
    if !section_crc_ok(section) {
        return Err(si_error("PAT CRC mismatch"));
    }
    let tot: usize = 3 + read_low12(section[1], section[2]);
    if section.len() < tot {
        return Err(si_error("incomplete PAT section"));
    }
    let mut off: usize = 8;
    let mut out: Vec<PatProgram> = Vec::new();
    while off + 4 <= tot - 4
        invariant
            4 <= tot == total_len(section@) <= section@.len(),
            off == 8 + 4 * out@.len(),
            out@.len() <= pat_count(section@),
            forall|i: int| 0 <= i < out@.len() ==> out@[i] == pat_program(section@, i),
        decreases tot - off,
    {
        out.push(
            PatProgram {
                program_number: read_be16(section[off], section[off + 1]),
                pid: read_low13(section[off + 2], section[off + 3]),
            },
        );
        off += 4;
    }
    assert(out@ =~= Seq::new(pat_count(section@), |i: int| pat_program(section@, i)));
    Ok(out)
}

// ---- PMT -------------------------------------------------------------------

/// An elementary stream of a program.
#[derive(Debug, Clone, Copy, PartialEq, Eq, Structural)]
pub struct PmtStream {
    pub stream_type: u8,
    pub pid: u16,
}

/// A program: its clock, its elementary streams, and the packets that carry its
/// entitlement messages, ascending.
#[derive(Debug)]
pub struct Pmt {
    pub program_number: u16,
    pub pcr_pid: u16,
    pub ca_pids: Vec<u16>,
    pub streams: Vec<PmtStream>,
}

/// A program, with its lists as sequences.
pub struct PmtView {
    pub program_number: u16,
    pub pcr_pid: u16,
    pub ca_pids: Seq<u16>,
    pub streams: Seq<PmtStream>,
}

impl View for Pmt {
    type V = PmtView;

    open spec fn view(&self) -> PmtView {
        PmtView {
            program_number: self.program_number,
            pcr_pid: self.pcr_pid,
            ca_pids: self.ca_pids@,
            streams: self.streams@,
        }
    }
}

impl Clone for Pmt {
    fn clone(&self) -> (out: Self)
        ensures
            out@ == self@,
    {
        Pmt {
            program_number: self.program_number,
            pcr_pid: self.pcr_pid,
            ca_pids: slice_to_vec(self.ca_pids.as_slice()),
            streams: slice_to_vec(self.streams.as_slice()),
        }
    }
}

/// Whether a descriptor is a CA descriptor with a packet identifier.
pub open spec fn has_ca_pid(d: Descriptor) -> bool {
    d.tag == 0x09 && d.body.len() >= 4
}

/// The packet identifiers of the CA descriptors of a list.
pub open spec fn ca_pids(list: Seq<Descriptor>) -> Seq<u16>
    decreases list.len(),
{
    if list.len() == 0 {
        Seq::empty()
    } else {
        let before = ca_pids(list.drop_last());
        let d = list.last();
        if has_ca_pid(d) {
            before.push(low13(d.body[2], d.body[3]))
        } else {
            before
        }
    }
}

/// Adds the packet identifiers of the CA descriptors of a descriptor loop.
fn collect_ca_pids(data: &[u8], out: &mut Vec<u16>)
    ensures
        final(out)@ == old(out)@ + ca_pids(descriptors(data@)),
{
    let list = split_descriptors(data);
    let mut i: usize = 0;
    let ghost all = descriptors(data@);
    assert(all.take(0) =~= Seq::<Descriptor>::empty());
    assert(out@ =~= old(out)@ + ca_pids(all.take(0)));
    while i < list.len()
        invariant
            i <= list@.len(),
            all == views(list@),
            out@ == old(out)@ + ca_pids(all.take(i as int)),
        decreases list@.len() - i,
    {
        let d = list[i];
        assert(all[i as int] == d@);
        assert(all.take(i + 1).drop_last() =~= all.take(i as int));
        let ghost so_far = out@;
        if d.tag == 0x09 && d.body.len() >= 4 {
            out.push(read_low13(d.body[2], d.body[3]));
        }
        assert(out@ =~= old(out)@ + ca_pids(all.take(i + 1)));
        i += 1;
    }
    assert(all.take(i as int) =~= all);
}

/// The elementary streams of the stream loop of a PMT and the packet
/// identifiers of their CA descriptors, unless the information of a stream
/// reaches beyond the loop.
pub open spec fn stream_loop(data: Seq<u8>) -> Option<(Seq<PmtStream>, Seq<u16>)>
    decreases data.len(),
{
    if data.len() < 5 {
        Some((Seq::empty(), Seq::empty()))
    } else {
        let end = 5 + low12(data[3], data[4]);
        if end > data.len() {
            None
        } else {
            match stream_loop(data.skip(end as int)) {
                Some((streams, pids)) => Some(
                    (
                        seq![PmtStream { stream_type: data[0], pid: low13(data[1], data[2]) }]
                            + streams,
                        ca_pids(descriptors(data.subrange(5, end as int))) + pids,
                    ),
                ),
                None => None,
            }
        }
    }
}

/// What a PMT section says.
pub open spec fn pmt(section: Seq<u8>) -> Result<PmtView, ErrorView> {
    if section.len() < 16 {
        Err(ErrorView::Si("PMT too short"@))
    } else if section[0] != 0x02 {
        Err(ErrorView::Si("not a PMT section"@))
    } else if !crc_ok(section) {
        Err(ErrorView::Si("PMT CRC mismatch"@))
    } else if section.len() < total_len(section) {
        Err(ErrorView::Si("incomplete PMT section"@))
    } else {
        let info_end = 12 + low12(section[10], section[11]);
        let end = total_len(section) - 4;
        if info_end > end {
            Err(ErrorView::Si("bad PMT program info length"@))
        } else {
            match stream_loop(section.subrange(info_end as int, end)) {
                None => Err(ErrorView::Si("bad PMT ES info length"@)),
                Some((streams, pids)) => Ok(
                    PmtView {
                        program_number: be16(section[3], section[4]),
                        pcr_pid: low13(section[8], section[9]),
                        ca_pids: ascending(
                            ca_pids(descriptors(section.subrange(12, info_end as int))) + pids,
                        ),
                        streams,
                    },
                ),
            }
        }
    }
}

/// The program of a PMT section.
pub fn parse_pmt(section: &[u8]) -> (out: Result<Pmt, Error>)
    ensures
        outcome(out) == pmt(section@),
{
    if section.len() < 16 {
        return Err(si_error("PMT too short"));
    }
    if section[0] != PMT_TABLE_ID {
        return Err(si_error("not a PMT section"));
    }
    if !section_crc_ok(section) {
        return Err(si_error("PMT CRC mismatch"));
    }
    let tot: usize = 3 + read_low12(section[1], section[2]);
    if section.len() < tot {
        return Err(si_error("incomplete PMT section"));
    }
    let program_number = read_be16(section[3], section[4]);
    let pcr_pid = read_low13(section[8], section[9]);
    let info_end: usize = 12 + read_low12(section[10], section[11]);
    if tot < 4 || info_end > tot - 4 {
        return Err(si_error("bad PMT program info length"));
    }
    let end: usize = tot - 4;
    let mut found: Vec<u16> = Vec::new();
    collect_ca_pids(slice_subrange(section, 12, info_end), &mut found);
    let ghost info_pids = ca_pids(descriptors(section@.subrange(12, info_end as int)));
    let ghost whole = stream_loop(section@.subrange(info_end as int, end as int));
    assert(found@ =~= info_pids);
    let mut off: usize = info_end;
    let mut streams: Vec<PmtStream> = Vec::new();
    proof {
        if let Some((s, p)) = whole {
            assert(streams@ + s =~= s);
            assert(found@ + p =~= info_pids + p);
        }
    }
    while off + 5 <= end
        invariant
            info_end <= off <= end <= section@.len(),
            end < 0x2000,
            whole is None ==> pmt(section@) == Err::<PmtView, ErrorView>(
                ErrorView::Si("bad PMT ES info length"@),
            ),
            match stream_loop(section@.subrange(off as int, end as int)) {
                None => whole is None,
                Some((s, p)) => {
                    &&& whole matches Some((all_s, all_p))
                    &&& all_s == streams@ + s
                    &&& info_pids + all_p == found@ + p
                },
            },
        decreases end - off,
    {
        let ghost rest = section@.subrange(off as int, end as int);
        let stream = PmtStream {
            stream_type: section[off],
            pid: read_low13(section[off + 1], section[off + 2]),
        };
        let es_end: usize = off + 5 + read_low12(section[off + 3], section[off + 4]);
        assert(es_end - off == 5 + low12(rest[3], rest[4]));
        if es_end > end {
            return Err(si_error("bad PMT ES info length"));
        }
        let ghost found_before = found@;
        let ghost streams_before = streams@;
        collect_ca_pids(slice_subrange(section, off + 5, es_end), &mut found);
        streams.push(stream);
        proof {
            assert(rest.subrange(5, es_end - off) =~= section@.subrange(off + 5, es_end as int));
            assert(rest.skip(es_end - off) =~= section@.subrange(es_end as int, end as int));
            let own = ca_pids(descriptors(rest.subrange(5, es_end - off)));
            if let Some((s, p)) = stream_loop(rest.skip(es_end - off)) {
                assert(streams_before + (seq![stream] + s) =~= streams@ + s);
                assert(found_before + (own + p) =~= found@ + p);
            }
        }
        off = es_end;
    }
    let ghost rest = section@.subrange(off as int, end as int);
    assert(rest.len() < 5);
    assert(streams@ + Seq::<PmtStream>::empty() =~= streams@);
    assert(found@ + Seq::<u16>::empty() =~= found@);
    Ok(Pmt { program_number, pcr_pid, ca_pids: sorted_pids(found.as_slice()), streams })
}

// ---- SDT -------------------------------------------------------------------

/// A service and its name.
#[derive(Debug)]
pub struct SdtService {
    pub service_id: u16,
    pub name: String,
}

/// A service, with its name as characters.
pub struct SdtServiceView {
    pub service_id: u16,
    pub name: Seq<char>,
}

impl View for SdtService {
    type V = SdtServiceView;

    open spec fn view(&self) -> SdtServiceView {
        SdtServiceView { service_id: self.service_id, name: self.name@ }
    }
}

impl Clone for SdtService {
    fn clone(&self) -> (out: Self)
        ensures
            out@ == self@,
    {
        SdtService { service_id: self.service_id, name: self.name.clone() }
    }
}

/// The bytes of the service name in the body of a service descriptor: behind
/// the service type, the provider with its length, and the length of the name.
pub open spec fn name_bytes(body: Seq<u8>) -> Option<Seq<u8>> {
    if body.len() < 2 || 2 + body[1] >= body.len() {
        None
    } else {
        let at = 2 + body[1];
        let end = at + 1 + body[at];
        if end > body.len() {
            None
        } else {
            Some(body.subrange(at + 1, end))
        }
    }
}

/// The name that a list of descriptors gives a service: that of the last service
/// descriptor with a whole name, and none where there is no such descriptor.
pub open spec fn service_name(list: Seq<Descriptor>) -> Seq<char>
    decreases list.len(),
{
    if list.len() == 0 {
        Seq::empty()
    } else {
        match name_bytes(list.last().body) {
            Some(raw) if list.last().tag == 0x48 => decoded(builtin_tables(), raw),
            _ => service_name(list.drop_last()),
        }
    }
}

/// The services of the service loop of an SDT, up to the first entry that is not
/// whole.
pub open spec fn service_loop(data: Seq<u8>) -> Seq<SdtServiceView>
    decreases data.len(),
{
    if data.len() < 5 || 5 + low12(data[3], data[4]) > data.len() {
        Seq::empty()
    } else {
        let end = 5 + low12(data[3], data[4]) as int;
        seq![
            SdtServiceView {
                service_id: be16(data[0], data[1]),
                name: service_name(descriptors(data.subrange(5, end))),
            },
        ] + service_loop(data.skip(end))
    }
}

/// The bytes of a section from `from` to its CRC.
pub open spec fn section_body(section: Seq<u8>, from: nat) -> Seq<u8> {
    if total_len(section) < from + 4 {
        Seq::empty()
    } else {
        section.subrange(from as int, total_len(section) - 4)
    }
}

/// What a section of the SDT of this transport says.
pub open spec fn sdt(section: Seq<u8>) -> Result<Seq<SdtServiceView>, ErrorView> {
    if section.len() < 15 {
        Err(ErrorView::Si("SDT too short"@))
    } else if section[0] != 0x42 {
        Err(ErrorView::Si("not an SDT actual section"@))
    } else if !crc_ok(section) {
        Err(ErrorView::Si("SDT CRC mismatch"@))
    } else if section.len() < total_len(section) {
        Err(ErrorView::Si("incomplete SDT section"@))
    } else {
        Ok(service_loop(section_body(section, 11)))
    }
}

/// The name that a descriptor loop gives a service.
fn read_service_name(data: &[u8]) -> (name: String)
    ensures
        name@ == service_name(descriptors(data@)),
{
    let list = split_descriptors(data);
    let ghost all = descriptors(data@);
    let mut i: usize = list.len();
    assert(all.take(i as int) =~= all);
    while i > 0
        invariant
            i <= list@.len(),
            all == views(list@),
            all == descriptors(data@),
            service_name(all) == service_name(all.take(i as int)),
        decreases i,
    {
        let ghost front = all.take(i as int);
        i -= 1;
        let d = list[i];
        assert(front.last() == d@);
        assert(front.drop_last() =~= all.take(i as int));
        if d.tag == 0x48 && d.body.len() >= 2 {
            let at: usize = 2 + d.body[1] as usize;
            if at < d.body.len() {
                let end: usize = at + 1 + d.body[at] as usize;
                if end <= d.body.len() {
                    return decode(slice_subrange(d.body, at + 1, end));
                }
            }
        }
    }
    assert(all.take(0) =~= Seq::<Descriptor>::empty());
    String::new()
}

/// The first service of a service loop, where its entry is whole, and those
/// behind it.
proof fn lemma_service_loop_step(before: Seq<SdtServiceView>, data: Seq<u8>)
    requires
        data.len() >= 5,
        5 + low12(data[3], data[4]) <= data.len(),
    ensures
        ({
            let end = 5 + low12(data[3], data[4]) as int;
            before + service_loop(data) == before.push(
                SdtServiceView {
                    service_id: be16(data[0], data[1]),
                    name: service_name(descriptors(data.subrange(5, end))),
                },
            ) + service_loop(data.skip(end))
        }),
{
    let end = 5 + low12(data[3], data[4]) as int;
    let first = SdtServiceView {
        service_id: be16(data[0], data[1]),
        name: service_name(descriptors(data.subrange(5, end))),
    };
    let rest = service_loop(data.skip(end));
    assert(before + (seq![first] + rest) =~= before.push(first) + rest);
}

/// The services of a service loop, up to the first entry that is not whole.
#[verifier::rlimit(40)]
fn read_services(data: &[u8]) -> (services: Vec<SdtService>)
    requires
        data@.len() < 0x2000,
    ensures
        views(services@) == service_loop(data@),
{
    let mut services: Vec<SdtService> = Vec::new();
    let mut off: usize = 0;
    assert(data@.skip(0) =~= data@);
    assert(views(services@) + service_loop(data@) =~= service_loop(data@));
    while off + 5 <= data.len()
        invariant
            off <= data@.len() < 0x2000,
            views(services@) + service_loop(data@.skip(off as int)) == service_loop(data@),
        decreases data@.len() - off,
    {
        let ghost rest = data@.skip(off as int);
        let ghost before = views(services@);
        let next: usize = off + 5 + read_low12(data[off + 3], data[off + 4]);
        if next > data.len() {
            assert(before + Seq::<SdtServiceView>::empty() =~= before);
            return services;
        }
        let service_id = read_be16(data[off], data[off + 1]);
        let name = read_service_name(slice_subrange(data, off + 5, next));
        let service = SdtService { service_id, name };
        proof {
            assert(rest.subrange(5, next - off) =~= data@.subrange(off + 5, next as int));
            assert(rest.skip(next - off) =~= data@.skip(next as int));
            lemma_views_push(services@, service);
            lemma_service_loop_step(before, rest);
        }
        services.push(service);
        off = next;
    }
    assert(views(services@) + Seq::<SdtServiceView>::empty() =~= views(services@));
    services
}

/// The services of a section of the SDT of this transport. Names are ARIB
/// STD-B24 text. A section that passes every test but whose header leaves no
/// room for a CRC is no input.
pub fn parse_sdt(section: &[u8]) -> (out: Result<Vec<SdtService>, Error>)
    requires
        !(checked(section@, 0x42, 15) && headless(section@)),
    ensures
        outcome_list(out) == sdt(section@),
{
    if section.len() < 15 {
        return Err(si_error("SDT too short"));
    }
    if section[0] != SDT_ACTUAL_TABLE_ID {
        return Err(si_error("not an SDT actual section"));
    }
    if !section_crc_ok(section) {
        return Err(si_error("SDT CRC mismatch"));
    }
    let tot: usize = 3 + read_low12(section[1], section[2]);
    if section.len() < tot {
        return Err(si_error("incomplete SDT section"));
    }
    // An SDT has no length of its service loop: the loop starts behind the
    // fixed header and runs to the CRC.
    let end: usize = tot - 4;
    if end < 11 {
        let none: Vec<SdtService> = Vec::new();
        assert(views(none@) =~= service_loop(section_body(section@, 11)));
        return Ok(none);
    }
    Ok(read_services(slice_subrange(section, 11, end)))
}

// ---- Laws ------------------------------------------------------------------

/// Four bytes of a number, most significant first.
pub open spec fn bytes4(n: u32) -> Seq<u8> {
    seq![
        (n / 0x100_0000) as u8,
        (n / 0x1_0000 % 256) as u8,
        (n / 0x100 % 256) as u8,
        (n % 256) as u8,
    ]
}

/// The four bytes of a number are those of no other.
proof fn lemma_bytes4(n: u32)
    ensures
        be32(bytes4(n)[0], bytes4(n)[1], bytes4(n)[2], bytes4(n)[3]) == n,
{
    let a = n / 0x100_0000;
    let b = n / 0x1_0000 % 256;
    let c = n / 0x100 % 256;
    let d = n % 256;
    assert(n == (n / 0x100_0000) * 0x100_0000 + (n / 0x1_0000 % 256) * 0x1_0000 + (n / 0x100 % 256)
        * 0x100 + n % 256) by (bit_vector);
    assert(a < 256 && b < 256 && c < 256 && d < 256);
    assert(a as u8 == a && b as u8 == b && c as u8 == c && d as u8 == d);
}

/// Data with its own CRC behind it is accepted.
pub proof fn law_appended_crc_is_accepted(data: Seq<u8>)
    ensures
        crc_ok(data + bytes4(crc32(data))),
{
    let crc = crc32(data);
    let tail = bytes4(crc);
    let framed = data + tail;
    let n = data.len() as int;
    lemma_bytes4(crc);
    assert(framed.take(n) =~= data);
    assert(framed[n] == tail[0] && framed[n + 1] == tail[1] && framed[n + 2] == tail[2] && framed[n
        + 3] == tail[3]);
}

/// With anything else behind it, data is rejected.
pub proof fn law_other_crc_is_rejected(data: Seq<u8>, crc: u32)
    requires
        crc != crc32(data),
    ensures
        !crc_ok(data + bytes4(crc)),
{
    let tail = bytes4(crc);
    let framed = data + tail;
    let n = data.len() as int;
    lemma_bytes4(crc);
    assert(framed.take(n) =~= data);
    assert(framed[n] == tail[0] && framed[n + 1] == tail[1] && framed[n + 2] == tail[2] && framed[n
        + 3] == tail[3]);
}

/// The bytes of several lists, one behind the other.
pub open spec fn joined(parts: Seq<Seq<u8>>) -> Seq<u8>
    decreases parts.len(),
{
    if parts.len() == 0 {
        Seq::empty()
    } else {
        parts[0] + joined(parts.skip(1))
    }
}

/// Parts joined are the first `n` joined and the rest joined.
pub proof fn lemma_joined_split(parts: Seq<Seq<u8>>, n: int)
    requires
        0 <= n <= parts.len(),
    ensures
        joined(parts) == joined(parts.take(n)) + joined(parts.skip(n)),
    decreases n,
{
    if n == 0 {
        assert(parts.take(0) =~= Seq::<Seq<u8>>::empty());
        assert(parts.skip(0) =~= parts);
        assert(joined(parts) =~= joined(parts.take(0)) + joined(parts));
    } else {
        let others = parts.skip(1);
        lemma_joined_split(others, n - 1);
        assert(parts.take(n).skip(1) =~= others.take(n - 1));
        assert(others.skip(n - 1) =~= parts.skip(n));
        assert(parts.take(n)[0] == parts[0]);
        assert(joined(parts) =~= joined(parts.take(n)) + joined(parts.skip(n)));
    }
}

/// Whether `entry` is an entry of a service loop, whole and nothing more.
pub open spec fn is_service_entry(entry: Seq<u8>) -> bool {
    entry.len() >= 5 && entry.len() == 5 + low12(entry[3], entry[4])
}

/// Whether `tail` is less than an entry of a service loop.
pub open spec fn is_cut_entry(tail: Seq<u8>) -> bool {
    tail.len() < 5 || tail.len() < 5 + low12(tail[3], tail[4])
}

/// The service of a whole entry.
pub open spec fn entry_service(entry: Seq<u8>) -> SdtServiceView {
    SdtServiceView {
        service_id: be16(entry[0], entry[1]),
        name: service_name(descriptors(entry.skip(5))),
    }
}

/// Every whole entry of a service loop is reported, in order, whatever part of a
/// further entry stands behind them.
pub proof fn law_every_whole_service_is_reported(entries: Seq<Seq<u8>>, tail: Seq<u8>)
    requires
        forall|i: int| 0 <= i < entries.len() ==> is_service_entry(#[trigger] entries[i]),
        is_cut_entry(tail),
    ensures
        service_loop(joined(entries) + tail) == entries.map_values(
            |e: Seq<u8>| entry_service(e),
        ),
    decreases entries.len(),
{
    let data = joined(entries) + tail;
    let want = entries.map_values(|e: Seq<u8>| entry_service(e));
    if entries.len() == 0 {
        assert(data =~= tail);
        assert(want =~= Seq::empty());
    } else {
        let first = entries[0];
        let others = entries.skip(1);
        assert forall|i: int| 0 <= i < others.len() implies is_service_entry(
            #[trigger] others[i],
        ) by {
            assert(others[i] == entries[i + 1]);
        }
        law_every_whole_service_is_reported(others, tail);
        let end = first.len() as int;
        assert(data[3] == first[3] && data[4] == first[4]);
        assert(data.subrange(5, end) =~= first.skip(5));
        assert(data.skip(end) =~= joined(others) + tail);
        assert(want =~= seq![entry_service(first)] + others.map_values(
            |e: Seq<u8>| entry_service(e),
        ));
    }
}

/// Whether `entry` is an entry of a stream loop, whole and nothing more.
pub open spec fn is_stream_entry(entry: Seq<u8>) -> bool {
    entry.len() >= 5 && entry.len() == 5 + low12(entry[3], entry[4])
}

/// The stream of a whole entry.
pub open spec fn entry_stream(entry: Seq<u8>) -> PmtStream {
    PmtStream { stream_type: entry[0], pid: low13(entry[1], entry[2]) }
}

/// Every stream of a stream loop of whole entries is reported, in order.
pub proof fn law_every_stream_is_reported(entries: Seq<Seq<u8>>)
    requires
        forall|i: int| 0 <= i < entries.len() ==> is_stream_entry(#[trigger] entries[i]),
    ensures
        stream_loop(joined(entries)) matches Some((streams, _)) && streams == entries.map_values(
            |e: Seq<u8>| entry_stream(e),
        ),
    decreases entries.len(),
{
    let data = joined(entries);
    let want = entries.map_values(|e: Seq<u8>| entry_stream(e));
    if entries.len() == 0 {
        assert(want =~= Seq::empty());
    } else {
        let first = entries[0];
        let others = entries.skip(1);
        assert forall|i: int| 0 <= i < others.len() implies is_stream_entry(
            #[trigger] others[i],
        ) by {
            assert(others[i] == entries[i + 1]);
        }
        law_every_stream_is_reported(others);
        let end = first.len() as int;
        assert(data[3] == first[3] && data[4] == first[4]);
        assert(data.skip(end) =~= joined(others));
        assert(want =~= seq![entry_stream(first)] + others.map_values(
            |e: Seq<u8>| entry_stream(e),
        ));
    }
}

/// Whether `part` is a descriptor, whole and nothing more.
pub open spec fn is_descriptor(part: Seq<u8>) -> bool {
    part.len() >= 2 && part.len() == 2 + part[1]
}

/// Whether `tail` is less than a descriptor.
pub open spec fn is_cut_descriptor(tail: Seq<u8>) -> bool {
    tail.len() < 2 || tail.len() < 2 + tail[1]
}

/// Every whole descriptor of a descriptor loop is found, in order, whatever part
/// of a further descriptor stands behind them.
pub proof fn law_every_whole_descriptor_is_found(parts: Seq<Seq<u8>>, tail: Seq<u8>)
    requires
        forall|i: int| 0 <= i < parts.len() ==> is_descriptor(#[trigger] parts[i]),
        is_cut_descriptor(tail),
    ensures
        descriptors(joined(parts) + tail) == parts.map_values(
            |p: Seq<u8>| Descriptor { tag: p[0], body: p.skip(2) },
        ),
    decreases parts.len(),
{
    let data = joined(parts) + tail;
    let want = parts.map_values(|p: Seq<u8>| Descriptor { tag: p[0], body: p.skip(2) });
    if parts.len() == 0 {
        assert(data =~= tail);
        assert(want =~= Seq::empty());
    } else {
        let first = parts[0];
        let others = parts.skip(1);
        assert forall|i: int| 0 <= i < others.len() implies is_descriptor(
            #[trigger] others[i],
        ) by {
            assert(others[i] == parts[i + 1]);
        }
        law_every_whole_descriptor_is_found(others, tail);
        let end = first.len() as int;
        assert(data.subrange(2, end) =~= first.skip(2));
        assert(data.skip(end) =~= joined(others) + tail);
        assert(want =~= seq![Descriptor { tag: first[0], body: first.skip(2) }]
            + others.map_values(|p: Seq<u8>| Descriptor { tag: p[0], body: p.skip(2) }));
    }
}

/// A section: a header, what it holds, and the CRC of both.
pub open spec fn framed(header: Seq<u8>, body: Seq<u8>) -> Seq<u8> {
    header + body + bytes4(crc32(header + body))
}

/// Whether a header gives the length of the section that it starts.
pub open spec fn fits(header: Seq<u8>, body: Seq<u8>) -> bool {
    header.len() >= 3 && total_len(header) == header.len() + body.len() + 4
}

/// A framed SDT section gives back the services of the loop that it holds.
pub proof fn law_framed_sdt(header: Seq<u8>, body: Seq<u8>)
    requires
        header.len() == 11,
        header[0] == 0x42,
        fits(header, body),
    ensures
        sdt(framed(header, body)) == Ok::<Seq<SdtServiceView>, ErrorView>(service_loop(body)),
{
    let section = framed(header, body);
    law_appended_crc_is_accepted(header + body);
    assert(section[1] == header[1] && section[2] == header[2]);
    assert(section_body(section, 11) =~= body);
}

/// The four bytes of a program in a PAT, with the reserved bits set.
pub open spec fn program_byte(p: PatProgram, k: int) -> u8 {
    if k == 0 {
        (p.program_number / 256) as u8
    } else if k == 1 {
        (p.program_number % 256) as u8
    } else if k == 2 {
        (0xe0 + p.pid / 256) as u8
    } else {
        (p.pid % 256) as u8
    }
}

/// The program loop of a PAT.
pub open spec fn program_loop(programs: Seq<PatProgram>) -> Seq<u8> {
    Seq::new(4 * programs.len(), |k: int| program_byte(programs[k / 4], k % 4))
}

/// A framed PAT section gives back the programs that it lists, in order.
pub proof fn law_framed_pat(header: Seq<u8>, programs: Seq<PatProgram>)
    requires
        header.len() == 8,
        header[0] == 0x00,
        programs.len() >= 1,
        fits(header, program_loop(programs)),
        forall|i: int| 0 <= i < programs.len() ==> (#[trigger] programs[i]).pid < 0x2000,
    ensures
        pat(framed(header, program_loop(programs))) == Ok::<Seq<PatProgram>, ErrorView>(programs),
{
    let body = program_loop(programs);
    let section = framed(header, body);
    law_appended_crc_is_accepted(header + body);
    assert(section[1] == header[1] && section[2] == header[2]);
    let found = Seq::new(pat_count(section), |i: int| pat_program(section, i));
    assert forall|i: int| 0 <= i < programs.len() implies pat_program(section, i)
        == programs[i] by {
        let p = programs[i];
        assert(section[8 + 4 * i] == body[4 * i]);
        assert(section[8 + 4 * i + 1] == body[4 * i + 1]);
        assert(section[8 + 4 * i + 2] == body[4 * i + 2]);
        assert(section[8 + 4 * i + 3] == body[4 * i + 3]);
        assert((4 * i) / 4 == i && (4 * i + 1) / 4 == i && (4 * i + 2) / 4 == i && (4 * i + 3) / 4
            == i);
        assert(p.pid / 256 < 32);
    }
    assert(found =~= programs);
}

} // verus!
