//! What is read of the sections of a PAT, a PMT and an SDT that were written.

use crate::arib_b24::{builtin_tables, decoded};
use crate::bytes::{be16, low12, low13};
use crate::error::ErrorView;
use crate::laws::wire::{
    all_whole, counted, four, is_whole, marked, section, sized, two, unsealed, written,
};
use crate::si_tables::{
    ascending, bytes4, ca_pids, crc32, crc_ok, descriptors, joined, law_appended_crc_is_accepted,
    law_ascending, law_every_whole_descriptor_is_found, law_every_whole_service_is_reported, pat,
    pmt, sdt, section_body, service_name, stream_loop, strictly_ascending, total_len, Descriptor,
    PatProgram, PmtStream, PmtView, SdtServiceView,
};
use vstd::prelude::*;

verus! {

// ---- Numbers ---------------------------------------------------------------

pub proof fn lemma_sized(bits: int, len: int)
    requires
        0 <= bits < 16,
        0 <= len < 4096,
    ensures
        low12(sized(bits, len)[0], sized(bits, len)[1]) == len,
        sized(bits, len)[0] / 16 == bits,
{
    assert((bits * 16 + len / 256) % 16 == len / 256);
    assert((bits * 16 + len / 256) / 16 == bits);
}

pub proof fn lemma_marked(bits: int, pid: int)
    requires
        0 <= bits < 8,
        0 <= pid < 0x2000,
    ensures
        low13(marked(bits, pid)[0], marked(bits, pid)[1]) == pid,
{
    assert((bits * 32 + pid / 256) % 32 == pid / 256);
}

pub proof fn lemma_two(n: u16)
    ensures
        be16(two(n)[0], two(n)[1]) == n,
{
}

/// The header and the body of a section that was written.
#[verifier::rlimit(60)]
pub proof fn lemma_section(
    table_id: u8,
    bits: int,
    ext: u16,
    version: u8,
    number: u8,
    last: u8,
    body: Seq<u8>,
)
    requires
        0 <= bits < 16,
        body.len() + 9 < 4096,
    ensures
        ({
            let s = section(table_id, bits, ext, version, number, last, body);
            &&& s.len() == 8 + body.len() + 4
            &&& s[0] == table_id
            &&& total_len(s) == s.len()
            &&& be16(s[3], s[4]) == ext
            &&& s[5] == version && s[6] == number && s[7] == last
            &&& s.subrange(8, s.len() - 4) == body
            &&& forall|i: int| 8 <= i < 8 + body.len() ==> s[i] == body[i - 8]
            &&& crc_ok(s)
        }),
{
    let data = unsealed(table_id, bits, ext, version, number, last, body);
    let s = section(table_id, bits, ext, version, number, last, body);
    law_appended_crc_is_accepted(data);
    assert(four(crc32(data)) =~= bytes4(crc32(data)));
    lemma_sized(bits, body.len() as int + 9);
    lemma_two(ext);
    let z = sized(bits, body.len() as int + 9);
    let w = two(ext);
    assert(s[1] == z[0] && s[2] == z[1] && s[3] == w[0] && s[4] == w[1]);
    assert(s.subrange(8, s.len() - 4) =~= body);
}

// ---- CRC -------------------------------------------------------------------

/// A CRC register behind one more bit: doubled, and with the polynomial of EN 300
/// 468 taken off where its highest bit falls out.
pub open spec fn shifted(crc: u32) -> u32 {
    if crc >= 0x8000_0000 {
        ((crc - 0x8000_0000) * 2) as u32 ^ 0x04c1_1db7
    } else {
        (crc * 2) as u32
    }
}

/// The CRC of data is a register that starts with all ones, takes every byte in at
/// its top, and is shifted eight times for it.
pub proof fn law_crc(data: Seq<u8>, b: u8)
    ensures
        crc32(Seq::empty()) == 0xffff_ffff,
        ({
            let top = (b * 0x100_0000) as u32;
            let start = crc32(data) ^ top;
            crc32(data.push(b)) == shifted(
                shifted(shifted(shifted(shifted(shifted(shifted(shifted(start))))))),
            )
        }),
{
    assert(data.push(b).drop_last() =~= data);
    let top = (b as u32) << 24;
    assert(top == b as u32 * 0x100_0000) by (bit_vector)
        requires
            top == (b as u32) << 24,
    ;
    let start = crc32(data) ^ top;
    reveal_with_fuel(crate::si_tables::crc_bits, 9);
    lemma_shifted();
}

proof fn lemma_shifted()
    ensures
        forall|crc: u32| #[trigger] crate::si_tables::crc_bit(crc) == shifted(crc),
{
    assert forall|crc: u32| #[trigger] crate::si_tables::crc_bit(crc) == shifted(crc) by {
        assert(crc & 0x8000_0000 != 0 <==> crc >= 0x8000_0000) by (bit_vector);
        assert(crc >= 0x8000_0000 ==> crc << 1 == (crc - 0x8000_0000) * 2) by (bit_vector);
        assert(crc < 0x8000_0000 ==> crc << 1 == crc * 2) by (bit_vector);
    }
}

// ---- PAT -------------------------------------------------------------------

/// The programs of a PAT, four bytes each.
pub open spec fn program_bytes(programs: Seq<PatProgram>, bits: int) -> Seq<u8>
    decreases programs.len(),
{
    if programs.len() == 0 {
        Seq::empty()
    } else {
        program_bytes(programs.drop_last(), bits) + two(programs.last().program_number) + marked(
            bits,
            programs.last().pid as int,
        )
    }
}

proof fn lemma_program_bytes(programs: Seq<PatProgram>, bits: int, i: int)
    requires
        0 <= i < programs.len(),
    ensures
        program_bytes(programs, bits).len() == 4 * programs.len(),
        ({
            let all = program_bytes(programs, bits);
            let w = two(programs[i].program_number);
            let m = marked(bits, programs[i].pid as int);
            all[4 * i] == w[0] && all[4 * i + 1] == w[1] && all[4 * i + 2] == m[0] && all[4 * i + 3]
                == m[1]
        }),
    decreases programs.len(),
{
    let front = programs.drop_last();
    if front.len() == 0 {
        assert(program_bytes(front, bits).len() == 0);
    } else {
        lemma_program_bytes(front, bits, 0);
        if i < front.len() {
            lemma_program_bytes(front, bits, i);
        }
    }
}

/// Every program that a PAT lists is read, in order, with its number and its
/// packet identifier; bytes behind them that are less than a program are passed
/// over.
#[verifier::rlimit(60)]
pub proof fn law_written_pat_is_read(
    bits: int,
    ext: u16,
    version: u8,
    number: u8,
    last: u8,
    programs: Seq<PatProgram>,
    reserved: int,
    tail: Seq<u8>,
)
    requires
        0 <= bits < 16,
        0 <= reserved < 8,
        tail.len() < 4,
        1 <= programs.len() <= 1000,
        forall|i: int| 0 <= i < programs.len() ==> (#[trigger] programs[i]).pid < 0x2000,
    ensures
        pat(
            section(
                0x00,
                bits,
                ext,
                version,
                number,
                last,
                program_bytes(programs, reserved) + tail,
            ),
        ) == Ok::<Seq<PatProgram>, ErrorView>(programs),
{
    let front = program_bytes(programs, reserved);
    let body = front + tail;
    lemma_program_bytes(programs, reserved, 0);
    lemma_section(0x00, bits, ext, version, number, last, body);
    let s = section(0x00, bits, ext, version, number, last, body);
    let read = pat(s)->Ok_0;
    assert forall|i: int| 0 <= i < programs.len() implies read[i] == programs[i] by {
        lemma_program_bytes(programs, reserved, i);
        lemma_two(programs[i].program_number);
        lemma_marked(reserved, programs[i].pid as int);
        assert(body[4 * i] == front[4 * i] && body[4 * i + 1] == front[4 * i + 1] && body[4 * i + 2]
            == front[4 * i + 2] && body[4 * i + 3] == front[4 * i + 3]);
        assert(s[8 + 4 * i] == body[4 * i] && s[8 + 4 * i + 1] == body[4 * i + 1] && s[8 + 4 * i
            + 2] == body[4 * i + 2] && s[8 + 4 * i + 3] == body[4 * i + 3]);
    }
    assert(read =~= programs);
}

/// A PAT is read exactly where it is a whole section of its table with a right
/// CRC; otherwise the first of these that fails is the error.
pub proof fn law_pat_errors(s: Seq<u8>)
    ensures
        pat(s) is Ok <==> s.len() >= 16 && s[0] == 0x00 && crc_ok(s) && s.len() >= total_len(s),
        s.len() < 16 ==> pat(s) == Err::<Seq<PatProgram>, ErrorView>(
            ErrorView::Si("PAT too short"@),
        ),
        s.len() >= 16 && s[0] != 0x00 ==> pat(s) == Err::<Seq<PatProgram>, ErrorView>(
            ErrorView::Si("not a PAT section"@),
        ),
        s.len() >= 16 && s[0] == 0x00 && !crc_ok(s) ==> pat(s) == Err::<
            Seq<PatProgram>,
            ErrorView,
        >(ErrorView::Si("PAT CRC mismatch"@)),
        s.len() >= 16 && s[0] == 0x00 && crc_ok(s) && s.len() < total_len(s) ==> pat(s) == Err::<
            Seq<PatProgram>,
            ErrorView,
        >(ErrorView::Si("incomplete PAT section"@)),
{
}

// ---- Service names ---------------------------------------------------------

/// A service descriptor.
pub open spec fn service_descriptor(
    service_type: u8,
    provider: Seq<u8>,
    name: Seq<u8>,
    more: Seq<u8>,
) -> Seq<u8> {
    written(0x48, seq![service_type] + counted(provider) + counted(name) + more)
}

pub open spec fn no_service_descriptor(parts: Seq<Seq<u8>>) -> bool {
    forall|i: int| 0 <= i < parts.len() ==> (#[trigger] parts[i])[0] != 0x48
}

/// The descriptors of parts.
pub open spec fn bodies(parts: Seq<Seq<u8>>) -> Seq<Descriptor> {
    parts.map_values(|p: Seq<u8>| Descriptor { tag: p[0], body: p.skip(2) })
}

pub proof fn lemma_bodies(parts: Seq<Seq<u8>>)
    requires
        all_whole(parts),
    ensures
        descriptors(joined(parts)) == bodies(parts),
{
    assert forall|i: int| 0 <= i < parts.len() implies crate::si_tables::is_descriptor(
        #[trigger] parts[i],
    ) by {
        assert(is_whole(parts[i]));
    }
    law_every_whole_descriptor_is_found(parts, Seq::empty());
    assert(joined(parts) + Seq::<u8>::empty() =~= joined(parts));
}

proof fn lemma_no_name(list: Seq<Descriptor>)
    requires
        forall|i: int| 0 <= i < list.len() ==> (#[trigger] list[i]).tag != 0x48,
    ensures
        service_name(list) == Seq::<char>::empty(),
    decreases list.len(),
{
    if list.len() > 0 {
        let front = list.drop_last();
        assert forall|i: int| 0 <= i < front.len() implies (#[trigger] front[i]).tag != 0x48 by {
            assert(front[i] == list[i]);
        }
        assert(list[list.len() - 1].tag != 0x48);
        lemma_no_name(front);
    }
}

proof fn lemma_name_before(list: Seq<Descriptor>, others: Seq<Descriptor>)
    requires
        forall|i: int| 0 <= i < others.len() ==> (#[trigger] others[i]).tag != 0x48,
    ensures
        service_name(list + others) == service_name(list),
    decreases others.len(),
{
    if others.len() == 0 {
        assert(list + others =~= list);
    } else {
        let front = others.drop_last();
        assert forall|i: int| 0 <= i < front.len() implies (#[trigger] front[i]).tag != 0x48 by {
            assert(front[i] == others[i]);
        }
        assert(others[others.len() - 1].tag != 0x48);
        assert((list + others).drop_last() =~= list + front);
        lemma_name_before(list, front);
    }
}

/// The name of a service is the text of the name field of its last service
/// descriptor, whatever its provider is, whatever other descriptors stand before
/// and behind it, and whatever follows in the descriptor.
#[verifier::rlimit(60)]
pub proof fn law_service_name_is_read(
    before: Seq<Seq<u8>>,
    service_type: u8,
    provider: Seq<u8>,
    name: Seq<u8>,
    more: Seq<u8>,
    behind: Seq<Seq<u8>>,
)
    requires
        all_whole(before),
        all_whole(behind),
        no_service_descriptor(behind),
        provider.len() + name.len() + more.len() + 3 <= 255,
    ensures
        service_name(
            descriptors(
                joined(
                    before + seq![service_descriptor(service_type, provider, name, more)] + behind,
                ),
            ),
        ) == decoded(builtin_tables(), name),
{
    let own = service_descriptor(service_type, provider, name, more);
    let body = seq![service_type] + counted(provider) + counted(name) + more;
    let parts = before + seq![own] + behind;
    assert forall|i: int| 0 <= i < parts.len() implies is_whole(#[trigger] parts[i]) by {
        if i < before.len() {
            assert(parts[i] == before[i]);
        } else if i > before.len() {
            assert(parts[i] == behind[i - before.len() - 1]);
        }
    }
    lemma_bodies(parts);
    let list = bodies(before) + seq![Descriptor { tag: 0x48, body }];
    assert(own.skip(2) =~= body);
    assert(bodies(parts) =~= list + bodies(behind));
    assert forall|i: int| 0 <= i < bodies(behind).len() implies (#[trigger] bodies(behind)[i]).tag
        != 0x48 by {
        assert(behind[i][0] != 0x48);
    }
    lemma_name_before(list, bodies(behind));
    assert(list.last() == Descriptor { tag: 0x48, body });
    assert(body[1] == provider.len());
    let at = 2 + provider.len() as int;
    assert(body[at] == name.len());
    assert(body.subrange(at + 1, at + 1 + name.len()) =~= name);
}

/// A service descriptor whose name is not whole is passed over.
pub proof fn law_cut_service_names(parts: Seq<Seq<u8>>, body: Seq<u8>)
    requires
        all_whole(parts),
        body.len() <= 255,
        body.len() < 2 || body.len() <= 2 + body[1] || body.len() < 3 + body[1] + body[2 + body[1]],
    ensures
        service_name(descriptors(joined(parts.push(written(0x48, body))))) == service_name(
            descriptors(joined(parts)),
        ),
{
    let own = written(0x48, body);
    let all = parts.push(own);
    assert forall|i: int| 0 <= i < all.len() implies is_whole(#[trigger] all[i]) by {
        if i < parts.len() {
            assert(all[i] == parts[i]);
        }
    }
    lemma_bodies(parts);
    lemma_bodies(all);
    assert(own.skip(2) =~= body);
    assert(bodies(all).drop_last() =~= bodies(parts));
    assert(bodies(all).last() == Descriptor { tag: 0x48, body });
}

/// A service without a service descriptor has no name.
pub proof fn law_no_descriptor_no_name(parts: Seq<Seq<u8>>)
    requires
        all_whole(parts),
        no_service_descriptor(parts),
    ensures
        service_name(descriptors(joined(parts))) == Seq::<char>::empty(),
{
    lemma_bodies(parts);
    assert forall|i: int| 0 <= i < bodies(parts).len() implies (#[trigger] bodies(parts)[i]).tag
        != 0x48 by {
        assert(parts[i][0] != 0x48);
    }
    lemma_no_name(bodies(parts));
}

// ---- SDT -------------------------------------------------------------------

/// An entry of the service loop of an SDT.
pub struct WrittenService {
    pub id: u16,
    pub flags: u8,
    /// Running status and scrambling: four bits.
    pub status: int,
    pub descriptors: Seq<u8>,
}

pub open spec fn service_bytes(s: WrittenService) -> Seq<u8> {
    two(s.id) + seq![s.flags] + sized(s.status, s.descriptors.len() as int) + s.descriptors
}

pub open spec fn is_written_service(s: WrittenService) -> bool {
    0 <= s.status < 16 && s.descriptors.len() < 4096
}

/// The bytes of entries.
pub open spec fn services_bytes(services: Seq<WrittenService>) -> Seq<Seq<u8>> {
    services.map_values(|s: WrittenService| service_bytes(s))
}

proof fn lemma_service_bytes(s: WrittenService)
    requires
        is_written_service(s),
    ensures
        crate::si_tables::is_service_entry(service_bytes(s)),
        crate::si_tables::entry_service(service_bytes(s)) == (SdtServiceView {
            service_id: s.id,
            name: service_name(descriptors(s.descriptors)),
        }),
{
    let b = service_bytes(s);
    let z = sized(s.status, s.descriptors.len() as int);
    lemma_sized(s.status, s.descriptors.len() as int);
    lemma_two(s.id);
    assert(b[0] == two(s.id)[0] && b[1] == two(s.id)[1] && b[3] == z[0] && b[4] == z[1]);
    assert(b.skip(5) =~= s.descriptors);
}

/// Every service that an SDT lists is read, in order, with its number and the
/// name that its descriptors give; bytes behind them that are less than an entry
/// are passed over.
#[verifier::rlimit(60)]
pub proof fn law_written_sdt_is_read(
    bits: int,
    ext: u16,
    version: u8,
    number: u8,
    last: u8,
    network: u16,
    reserved: u8,
    services: Seq<WrittenService>,
    cut: WrittenService,
    n: int,
)
    requires
        0 <= bits < 16,
        forall|i: int| 0 <= i < services.len() ==> is_written_service(#[trigger] services[i]),
        is_written_service(cut),
        0 <= n < service_bytes(cut).len(),
        joined(services_bytes(services)).len() + n + 12 < 4096,
    ensures
        sdt(
            section(
                0x42,
                bits,
                ext,
                version,
                number,
                last,
                two(network) + seq![reserved] + (joined(services_bytes(services)) + service_bytes(
                    cut,
                ).take(n)),
            ),
        ) == Ok::<Seq<SdtServiceView>, ErrorView>(
            services.map_values(
                |s: WrittenService|
                    SdtServiceView {
                        service_id: s.id,
                        name: service_name(descriptors(s.descriptors)),
                    },
            ),
        ),
{
    let entries = services_bytes(services);
    let tail = service_bytes(cut).take(n);
    let loop_bytes = joined(entries) + tail;
    let body = two(network) + seq![reserved] + loop_bytes;
    let s = section(0x42, bits, ext, version, number, last, body);
    lemma_section(0x42, bits, ext, version, number, last, body);
    assert(section_body(s, 11) =~= loop_bytes);
    assert forall|i: int| 0 <= i < entries.len() implies crate::si_tables::is_service_entry(
        #[trigger] entries[i],
    ) by {
        lemma_service_bytes(services[i]);
    }
    lemma_service_bytes(cut);
    if n >= 5 {
        assert(tail[3] == service_bytes(cut)[3] && tail[4] == service_bytes(cut)[4]);
    }
    law_every_whole_service_is_reported(entries, tail);
    let want = services.map_values(
        |s: WrittenService|
            SdtServiceView { service_id: s.id, name: service_name(descriptors(s.descriptors)) },
    );
    let got = entries.map_values(|e: Seq<u8>| crate::si_tables::entry_service(e));
    assert forall|i: int| 0 <= i < want.len() implies got[i] == want[i] by {
        lemma_service_bytes(services[i]);
    }
    assert(got =~= want);
}

/// An SDT is read exactly where it is a whole section of its table with a right
/// CRC; otherwise the first of these that fails is the error.
pub proof fn law_sdt_errors(s: Seq<u8>)
    ensures
        sdt(s) is Ok <==> s.len() >= 15 && s[0] == 0x42 && crc_ok(s) && s.len() >= total_len(s),
        s.len() < 15 ==> sdt(s) == Err::<Seq<SdtServiceView>, ErrorView>(
            ErrorView::Si("SDT too short"@),
        ),
        s.len() >= 15 && s[0] != 0x42 ==> sdt(s) == Err::<Seq<SdtServiceView>, ErrorView>(
            ErrorView::Si("not an SDT actual section"@),
        ),
        s.len() >= 15 && s[0] == 0x42 && !crc_ok(s) ==> sdt(s) == Err::<
            Seq<SdtServiceView>,
            ErrorView,
        >(ErrorView::Si("SDT CRC mismatch"@)),
        s.len() >= 15 && s[0] == 0x42 && crc_ok(s) && s.len() < total_len(s) ==> sdt(s) == Err::<
            Seq<SdtServiceView>,
            ErrorView,
        >(ErrorView::Si("incomplete SDT section"@)),
{
}

// ---- PMT -------------------------------------------------------------------

/// An entry of the stream loop of a PMT.
pub struct WrittenStream {
    pub stream_type: u8,
    pub pid: int,
    pub parts: Seq<Seq<u8>>,
}

pub open spec fn is_written_stream(s: WrittenStream) -> bool {
    0 <= s.pid < 0x2000 && all_whole(s.parts) && joined(s.parts).len() < 4096
}

pub open spec fn stream_bytes(s: WrittenStream) -> Seq<u8> {
    seq![s.stream_type] + marked(7, s.pid) + sized(15, joined(s.parts).len() as int) + joined(
        s.parts,
    )
}

/// The bytes of entries, one behind the other.
pub open spec fn streams_bytes(streams: Seq<WrittenStream>) -> Seq<u8>
    decreases streams.len(),
{
    if streams.len() == 0 {
        Seq::empty()
    } else {
        stream_bytes(streams[0]) + streams_bytes(streams.skip(1))
    }
}

/// Whether a descriptor is one of conditional access, whole enough to tell a
/// packet identifier, and tells this one.
pub open spec fn tells_ca_pid(part: Seq<u8>, pid: u16) -> bool {
    part.len() >= 6 && part[0] == 0x09 && part[4] % 32 == pid / 256 && part[5] == pid % 256
}

pub open spec fn some_tells(parts: Seq<Seq<u8>>, pid: u16) -> bool {
    exists|i: int| 0 <= i < parts.len() && tells_ca_pid(#[trigger] parts[i], pid)
}

proof fn lemma_ca_pids(parts: Seq<Seq<u8>>, pid: u16)
    requires
        all_whole(parts),
    ensures
        ca_pids(bodies(parts)).contains(pid) <==> some_tells(parts, pid),
    decreases parts.len(),
{
    if parts.len() > 0 {
        let front = parts.drop_last();
        let last = parts.last();
        assert forall|i: int| 0 <= i < front.len() implies is_whole(#[trigger] front[i]) by {
            assert(front[i] == parts[i]);
        }
        assert(is_whole(parts[parts.len() - 1]));
        lemma_ca_pids(front, pid);
        assert(bodies(parts).drop_last() =~= bodies(front));
        let d = Descriptor { tag: last[0], body: last.skip(2) };
        assert(bodies(parts).last() == d);
        let before = ca_pids(bodies(front));
        let all = ca_pids(bodies(parts));
        if last[0] == 0x09 && last.len() >= 6 {
            let own = low13(last[4], last[5]);
            assert(all == before.push(own));
            assert(own == pid <==> tells_ca_pid(last, pid));
            assert(all[before.len() as int] == own);
            if before.contains(pid) {
                let k = choose|k: int| 0 <= k < before.len() && before[k] == pid;
                assert(all[k] == pid);
            }
            if all.contains(pid) && own != pid {
                let k = choose|k: int| 0 <= k < all.len() && all[k] == pid;
                assert(before[k] == pid);
            }
        }
        if some_tells(front, pid) {
            let i = choose|i: int| 0 <= i < front.len() && tells_ca_pid(#[trigger] front[i], pid);
            assert(tells_ca_pid(parts[i], pid));
        }
        if some_tells(parts, pid) && !tells_ca_pid(last, pid) {
            let i = choose|i: int| 0 <= i < parts.len() && tells_ca_pid(#[trigger] parts[i], pid);
            assert(tells_ca_pid(front[i], pid));
        }
        if tells_ca_pid(last, pid) {
            assert(tells_ca_pid(parts[parts.len() - 1], pid));
        }
    }
}

/// Whether some entry tells a packet identifier of conditional access.
pub open spec fn some_stream_tells(streams: Seq<WrittenStream>, pid: u16) -> bool {
    exists|i: int| 0 <= i < streams.len() && some_tells((#[trigger] streams[i]).parts, pid)
}

pub open spec fn read_streams(streams: Seq<WrittenStream>) -> Seq<PmtStream> {
    streams.map_values(
        |s: WrittenStream| PmtStream { stream_type: s.stream_type, pid: s.pid as u16 },
    )
}

#[verifier::rlimit(60)]
proof fn lemma_stream_loop(streams: Seq<WrittenStream>, tail: Seq<u8>, pid: u16)
    requires
        forall|i: int| 0 <= i < streams.len() ==> is_written_stream(#[trigger] streams[i]),
        tail.len() < 5,
    ensures
        stream_loop(streams_bytes(streams) + tail) matches Some((found, pids)) && found == read_streams(
            streams,
        ) && (pids.contains(pid) <==> some_stream_tells(streams, pid)),
    decreases streams.len(),
{
    let data = streams_bytes(streams) + tail;
    if streams.len() == 0 {
        assert(data =~= tail);
        assert(read_streams(streams) =~= Seq::<PmtStream>::empty());
    } else {
        let s = streams[0];
        let others = streams.skip(1);
        assert(is_written_stream(s));
        assert forall|i: int| 0 <= i < others.len() implies is_written_stream(
            #[trigger] others[i],
        ) by {
            assert(others[i] == streams[i + 1]);
        }
        lemma_stream_loop(others, tail, pid);
        let own = stream_bytes(s);
        let info = joined(s.parts);
        lemma_marked(7, s.pid);
        lemma_sized(15, info.len() as int);
        assert(data[1] == marked(7, s.pid)[0] && data[2] == marked(7, s.pid)[1]);
        assert(data[3] == sized(15, info.len() as int)[0] && data[4] == sized(
            15,
            info.len() as int,
        )[1]);
        let end = 5 + info.len() as int;
        assert(data.subrange(5, end) =~= info);
        assert(data.skip(end) =~= streams_bytes(others) + tail);
        lemma_bodies(s.parts);
        lemma_ca_pids(s.parts, pid);
        let (found, pids) = stream_loop(streams_bytes(others) + tail)->0;
        let first = PmtStream { stream_type: s.stream_type, pid: s.pid as u16 };
        assert(seq![first] + found =~= read_streams(streams));
        let mine = ca_pids(descriptors(info));
        lemma_contains_either(mine, pids, pid);
        if some_stream_tells(streams, pid) && !some_tells(s.parts, pid) {
            let i = choose|i: int|
                0 <= i < streams.len() && some_tells((#[trigger] streams[i]).parts, pid);
            assert(some_tells(others[i - 1].parts, pid));
        }
        if some_stream_tells(others, pid) {
            let i = choose|i: int|
                0 <= i < others.len() && some_tells((#[trigger] others[i]).parts, pid);
            assert(some_tells(streams[i + 1].parts, pid));
        }
    }
}

proof fn lemma_contains_either(a: Seq<u16>, b: Seq<u16>, x: u16)
    ensures
        (a + b).contains(x) <==> a.contains(x) || b.contains(x),
{
    if a.contains(x) {
        let k = choose|k: int| 0 <= k < a.len() && a[k] == x;
        assert((a + b)[k] == x);
    }
    if b.contains(x) {
        let k = choose|k: int| 0 <= k < b.len() && b[k] == x;
        assert((a + b)[a.len() + k] == x);
    }
    if (a + b).contains(x) {
        let k = choose|k: int| 0 <= k < (a + b).len() && (a + b)[k] == x;
        if k >= a.len() {
            assert(b[k - a.len()] == x);
        }
    }
}

/// The body of a PMT section.
pub open spec fn map_bytes(
    pcr_pid: int,
    info: Seq<Seq<u8>>,
    streams: Seq<WrittenStream>,
    tail: Seq<u8>,
) -> Seq<u8> {
    marked(7, pcr_pid) + sized(15, joined(info).len() as int) + joined(info) + (streams_bytes(
        streams,
    ) + tail)
}

/// A section of a PMT by what is in it.
#[verifier::rlimit(60)]
proof fn lemma_pmt_of(s: Seq<u8>, pcr_pid: int, info: Seq<u8>, loop_bytes: Seq<u8>)
    requires
        0 <= pcr_pid < 0x2000,
        info.len() < 4096,
        s.len() == 16 + info.len() + loop_bytes.len(),
        s[0] == 0x02,
        total_len(s) == s.len(),
        crc_ok(s),
        s.subrange(8, s.len() - 4) == marked(7, pcr_pid) + sized(15, info.len() as int) + info
            + loop_bytes,
    ensures
        pmt(s) == (match stream_loop(loop_bytes) {
            None => Err::<PmtView, ErrorView>(ErrorView::Si("bad PMT ES info length"@)),
            Some((streams, pids)) => Ok(
                PmtView {
                    program_number: be16(s[3], s[4]),
                    pcr_pid: pcr_pid as u16,
                    ca_pids: ascending(ca_pids(descriptors(info)) + pids),
                    streams,
                },
            ),
        }),
{
    let inner = s.subrange(8, s.len() - 4);
    lemma_marked(7, pcr_pid);
    lemma_sized(15, info.len() as int);
    assert(s[8] == inner[0] && s[9] == inner[1] && s[10] == inner[2] && s[11] == inner[3]);
    let info_end = 12 + info.len() as int;
    assert(s.subrange(12, info_end) =~= inner.subrange(4, info_end - 8));
    assert(inner.subrange(4, info_end - 8) =~= info);
    assert(s.subrange(info_end, s.len() - 4) =~= inner.skip(info_end - 8));
    assert(inner.skip(info_end - 8) =~= loop_bytes);
}

/// A section of a PMT that claims more information on its program than it has room
/// for.
#[verifier::rlimit(60)]
proof fn lemma_short_pmt_of(s: Seq<u8>, pcr_pid: int, claimed: int, body: Seq<u8>)
    requires
        0 <= claimed < 4096,
        body.len() < claimed,
        s.len() == 16 + body.len(),
        s[0] == 0x02,
        total_len(s) == s.len(),
        crc_ok(s),
        s.subrange(8, s.len() - 4) == marked(7, pcr_pid) + sized(15, claimed) + body,
    ensures
        pmt(s) == Err::<PmtView, ErrorView>(ErrorView::Si("bad PMT program info length"@)),
{
    let inner = s.subrange(8, s.len() - 4);
    lemma_sized(15, claimed);
    assert(s[10] == inner[2] && s[11] == inner[3]);
}

/// A PMT gives back its program, its clock, every stream in order, and exactly
/// the packet identifiers that some descriptor of conditional access tells, of the
/// program or of a stream, ascending and each once; bytes behind the streams that
/// are less than a stream are passed over.
#[verifier::rlimit(60)]
pub proof fn law_written_pmt_is_read(
    bits: int,
    program: u16,
    version: u8,
    number: u8,
    last: u8,
    pcr_pid: int,
    info: Seq<Seq<u8>>,
    streams: Seq<WrittenStream>,
    tail: Seq<u8>,
)
    requires
        0 <= bits < 16,
        0 <= pcr_pid < 0x2000,
        tail.len() < 5,
        all_whole(info),
        forall|i: int| 0 <= i < streams.len() ==> is_written_stream(#[trigger] streams[i]),
        map_bytes(pcr_pid, info, streams, tail).len() + 9 < 4096,
    ensures
        pmt(section(0x02, bits, program, version, number, last, map_bytes(pcr_pid, info, streams, tail)))
            matches Ok(map) && {
            &&& map.program_number == program
            &&& map.pcr_pid == pcr_pid
            &&& map.streams == read_streams(streams)
            &&& strictly_ascending(map.ca_pids)
            &&& forall|pid: u16| #[trigger]
                map.ca_pids.contains(pid) <==> some_tells(info, pid) || some_stream_tells(
                    streams,
                    pid,
                )
        },
{
    let body = map_bytes(pcr_pid, info, streams, tail);
    let s = section(0x02, bits, program, version, number, last, body);
    lemma_section(0x02, bits, program, version, number, last, body);
    lemma_pmt_of(s, pcr_pid, joined(info), streams_bytes(streams) + tail);
    lemma_stream_loop(streams, tail, 0);
    let (found, pids) = stream_loop(streams_bytes(streams) + tail)->0;
    let own = ca_pids(descriptors(joined(info)));
    law_ascending(own + pids);
    lemma_bodies(info);
    let map = pmt(s)->Ok_0;
    assert forall|pid: u16| #[trigger] map.ca_pids.contains(pid) <==> some_tells(info, pid)
        || some_stream_tells(streams, pid) by {
        lemma_stream_loop(streams, tail, pid);
        lemma_ca_pids(info, pid);
        lemma_contains_either(own, pids, pid);
    }
}

proof fn lemma_broken_loop(streams: Seq<WrittenStream>, bad: Seq<u8>)
    requires
        forall|i: int| 0 <= i < streams.len() ==> is_written_stream(#[trigger] streams[i]),
        bad.len() >= 5,
        5 + (bad[3] % 16) * 256 + bad[4] > bad.len(),
    ensures
        stream_loop(streams_bytes(streams) + bad) is None,
    decreases streams.len(),
{
    let data = streams_bytes(streams) + bad;
    if streams.len() == 0 {
        assert(data =~= bad);
    } else {
        let s = streams[0];
        let others = streams.skip(1);
        assert(is_written_stream(s));
        assert forall|i: int| 0 <= i < others.len() implies is_written_stream(
            #[trigger] others[i],
        ) by {
            assert(others[i] == streams[i + 1]);
        }
        lemma_broken_loop(others, bad);
        let info = joined(s.parts);
        lemma_sized(15, info.len() as int);
        assert(data[3] == sized(15, info.len() as int)[0] && data[4] == sized(
            15,
            info.len() as int,
        )[1]);
        assert(data.skip(5 + info.len() as int) =~= streams_bytes(others) + bad);
    }
}

/// A PMT whose information on a stream reaches beyond its end is an error, whatever
/// streams stand before it.
#[verifier::rlimit(60)]
pub proof fn law_streams_beyond_the_end(
    bits: int,
    program: u16,
    version: u8,
    number: u8,
    last: u8,
    pcr_pid: int,
    info: Seq<Seq<u8>>,
    streams: Seq<WrittenStream>,
    bad: Seq<u8>,
)
    requires
        0 <= bits < 16,
        0 <= pcr_pid < 0x2000,
        all_whole(info),
        forall|i: int| 0 <= i < streams.len() ==> is_written_stream(#[trigger] streams[i]),
        bad.len() >= 5,
        5 + (bad[3] % 16) * 256 + bad[4] > bad.len(),
        map_bytes(pcr_pid, info, streams, bad).len() + 9 < 4096,
    ensures
        pmt(
            section(
                0x02,
                bits,
                program,
                version,
                number,
                last,
                map_bytes(pcr_pid, info, streams, bad),
            ),
        ) == Err::<PmtView, ErrorView>(ErrorView::Si("bad PMT ES info length"@)),
{
    let inner = map_bytes(pcr_pid, info, streams, bad);
    let s = section(0x02, bits, program, version, number, last, inner);
    lemma_section(0x02, bits, program, version, number, last, inner);
    lemma_pmt_of(s, pcr_pid, joined(info), streams_bytes(streams) + bad);
    lemma_broken_loop(streams, bad);
}

/// A PMT whose information on its program reaches beyond its end is an error.
#[verifier::rlimit(60)]
pub proof fn law_information_beyond_the_end(
    bits: int,
    program: u16,
    version: u8,
    number: u8,
    last: u8,
    pcr_pid: int,
    claimed: int,
    body: Seq<u8>,
)
    requires
        0 <= bits < 16,
        0 <= claimed < 4096,
        body.len() < claimed,
        body.len() + 13 < 4096,
    ensures
        pmt(
            section(
                0x02,
                bits,
                program,
                version,
                number,
                last,
                marked(7, pcr_pid) + sized(15, claimed) + body,
            ),
        ) == Err::<PmtView, ErrorView>(ErrorView::Si("bad PMT program info length"@)),
{
    let short = marked(7, pcr_pid) + sized(15, claimed) + body;
    let u = section(0x02, bits, program, version, number, last, short);
    lemma_section(0x02, bits, program, version, number, last, short);
    lemma_short_pmt_of(u, pcr_pid, claimed, body);
}

/// A section that is no PMT, not whole or with a wrong CRC is no program.
pub proof fn law_pmt_errors(s: Seq<u8>)
    ensures
        s.len() < 16 ==> pmt(s) == Err::<PmtView, ErrorView>(ErrorView::Si("PMT too short"@)),
        s.len() >= 16 && s[0] != 0x02 ==> pmt(s) == Err::<PmtView, ErrorView>(
            ErrorView::Si("not a PMT section"@),
        ),
        s.len() >= 16 && s[0] == 0x02 && !crc_ok(s) ==> pmt(s) == Err::<PmtView, ErrorView>(
            ErrorView::Si("PMT CRC mismatch"@),
        ),
        s.len() >= 16 && s[0] == 0x02 && crc_ok(s) && s.len() < total_len(s) ==> pmt(s) == Err::<
            PmtView,
            ErrorView,
        >(ErrorView::Si("incomplete PMT section"@)),
{
}

} // verus!
