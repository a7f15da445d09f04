//! Paths, parameters and texts of devices, and what is done with a stream.

use crate::demux::{demux_path, dvr_path, stream_step, StreamEvent, StreamStep};
use crate::error::{Error, ErrorView};
use crate::frontend::{adapter_in_use, adapter_lock_path, frontend_path};
use crate::laws::events::hex;
use crate::signal::{stats_text, SignalStats};
use crate::sys::dmx_abi::{DmxPesFilterParams, DmxSctFilterParams};
use crate::text::{decimal, numeral, padded};
use vstd::prelude::*;

verus! {

/// The paths of the devices of an adapter, and the file that is locked by who uses
/// it.
pub proof fn law_paths(
    adapter: u32,
    index: u32,
    demux: String,
    dvr: String,
    frontend: String,
    lock: String,
    in_use: Error,
)
    requires
        call_ensures(demux_path, (adapter, index), demux),
        call_ensures(dvr_path, (adapter, index), dvr),
        call_ensures(frontend_path, (adapter, index), frontend),
        call_ensures(adapter_lock_path, (adapter,), lock),
        call_ensures(adapter_in_use, (adapter,), in_use),
    ensures
        ({
            let front = "/dev/dvb/adapter"@ + decimal(adapter as nat);
            &&& demux@ == front + "/demux"@ + decimal(index as nat)
            &&& dvr@ == front + "/dvr"@ + decimal(index as nat)
            &&& frontend@ == front + "/frontend"@ + decimal(index as nat)
        }),
        lock@ == "/tmp/dvbr-adapter"@ + decimal(adapter as nat) + ".lock"@,
        in_use@ == ErrorView::Msg(
            "DVB adapter "@ + decimal(adapter as nat) + " is already in use (lock: "@ + lock@
                + ")"@,
        ),
{
    reveal_strlit("/demux");
    reveal_strlit("/dvr");
    reveal_strlit("/frontend");
    reveal_strlit("demux");
    reveal_strlit("dvr");
    reveal_strlit("frontend");
    let front = "/dev/dvb/adapter"@ + decimal(adapter as nat);
    assert("/demux"@ =~= seq!['/'] + "demux"@);
    assert("/dvr"@ =~= seq!['/'] + "dvr"@);
    assert("/frontend"@ =~= seq!['/'] + "frontend"@);
    assert(demux@ =~= front + "/demux"@ + decimal(index as nat));
    assert(dvr@ =~= front + "/dvr"@ + decimal(index as nat));
    assert(frontend@ =~= front + "/frontend"@ + decimal(index as nat));
}

/// Bytes of a stream are written as they come. Silence is waited for, and given up
/// after 30 s; an interruption is nothing, any other failure is reported.
pub proof fn law_streaming(event: StreamEvent, silent_secs: u64, step: StreamStep)
    requires
        call_ensures(stream_step, (event, silent_secs), step),
    ensures
        event matches StreamEvent::Bytes(n) ==> {
            &&& n > 0 ==> step == StreamStep::Write(n)
            &&& n == 0 && silent_secs < 30 ==> step is PauseAndRead
            &&& n == 0 && silent_secs >= 30 ==> (step matches StreamStep::GiveUp(e) && e@
                == ErrorView::Msg(
                "DVR delivered no data for 30s; aborting (signal loss or driver hang?)"@,
            ))
        },
        event is Interrupted ==> step is Read,
        event is Failed ==> step is Fail,
{
    reveal_strlit("DVR delivered no data for ");
    reveal_strlit("s; aborting (signal loss or driver hang?)");
    reveal_strlit("DVR delivered no data for 30s; aborting (signal loss or driver hang?)");
    reveal_with_fuel(numeral, 3);
    assert(decimal(30) =~= seq!['3', '0']);
    assert("DVR delivered no data for "@ + decimal(30)
        + "s; aborting (signal loss or driver hang?)"@
        =~= "DVR delivered no data for 30s; aborting (signal loss or driver hang?)"@);
}

/// A tap of packets reads from the frontend and writes packets as they are; that
/// of one identifier starts at once.
pub proof fn law_taps(pid: u16, all: DmxPesFilterParams, one: DmxPesFilterParams)
    requires
        call_ensures(DmxPesFilterParams::ts_tap_all_pids_mythological, (pid,), all),
        call_ensures(DmxPesFilterParams::ts_tap_pid, (pid,), one),
    ensures
        all == (DmxPesFilterParams { pid, input: 0, output: 2, pes_type: 20, flags: 0 }),
        one == (DmxPesFilterParams { pid, input: 0, output: 2, pes_type: 20, flags: 4 }),
{
}

/// Whether a filter lets a section pass by its first bytes: where the bits of the
/// mask are set, they have to be those of the filter.
pub open spec fn only_table(p: DmxSctFilterParams, table_id: u8, mask: u8) -> bool {
    &&& p.filter.filter@[0] == table_id
    &&& p.filter.mask@[0] == mask
    &&& forall|i: int| 1 <= i < 16 ==> #[trigger] p.filter.mask@[i] == 0
    &&& forall|i: int| 1 <= i < 16 ==> #[trigger] p.filter.filter@[i] == 0
    &&& forall|i: int| 0 <= i < 16 ==> #[trigger] p.filter.mode@[i] == 0
}

/// Whether a filter looks at the table and at the number of a service.
pub open spec fn only_service(
    p: DmxSctFilterParams,
    table_id: u8,
    mask: u8,
    service_id: u16,
) -> bool {
    &&& p.filter.filter@[0] == table_id
    &&& p.filter.mask@[0] == mask
    &&& p.filter.filter@[3] * 256 + p.filter.filter@[4] == service_id
    &&& p.filter.mask@[3] == 0xff && p.filter.mask@[4] == 0xff
    &&& forall|i: int|
        1 <= i < 16 && i != 3 && i != 4 ==> #[trigger] p.filter.mask@[i] == 0
    &&& forall|i: int|
        1 <= i < 16 && i != 3 && i != 4 ==> #[trigger] p.filter.filter@[i] == 0
    &&& forall|i: int| 1 <= i < 16 ==> #[trigger] p.filter.mode@[i] == 0
}

/// What the section filters let pass, and how they are started: those for events
/// under a weak signal and for anything without a look at the CRC.
pub proof fn law_section_filters(
    pid: u16,
    timeout: u32,
    service_id: u16,
    pat: DmxSctFilterParams,
    sdt: DmxSctFilterParams,
    pf: DmxSctFilterParams,
    own_pf: DmxSctFilterParams,
    any: DmxSctFilterParams,
    schedule: DmxSctFilterParams,
)
    requires
        call_ensures(DmxSctFilterParams::pat, (pid,), pat),
        call_ensures(DmxSctFilterParams::sdt_actual, (pid,), sdt),
        call_ensures(DmxSctFilterParams::eit_pf, (pid, timeout), pf),
        call_ensures(DmxSctFilterParams::eit_pf_for_service, (pid, service_id), own_pf),
        call_ensures(DmxSctFilterParams::any_on_pid, (pid,), any),
        call_ensures(DmxSctFilterParams::eit_schedule_for_service, (pid, service_id), schedule),
    ensures
        only_table(pat, 0x00, 0xff) && pat.pid == pid && pat.timeout == 0 && pat.flags == 5,
        only_table(sdt, 0x42, 0xff) && sdt.pid == pid && sdt.timeout == 0 && sdt.flags == 5,
        only_table(pf, 0x4e, 0xff) && pf.pid == pid && pf.timeout == timeout && pf.flags == 4,
        only_table(any, 0x00, 0x00) && any.pid == pid && any.timeout == 0 && any.flags == 4,
        only_service(own_pf, 0x4e, 0xff, service_id) && own_pf.filter.mode@[0] == 0,
        own_pf.pid == pid && own_pf.timeout == 0 && own_pf.flags == 5,
        only_service(schedule, 0x50, 0xf0, service_id) && schedule.filter.mode@[0] == 0xff,
        schedule.pid == pid && schedule.timeout == 0 && schedule.flags == 5,
{
}

/// A line for a value that is there.
pub open spec fn line_if(label: Seq<char>, value: Option<u16>) -> Seq<char> {
    if value is None {
        Seq::empty()
    } else {
        label + decimal(value->0 as nat) + "\n"@
    }
}

/// What is said of a signal: the status in eight hexadecimal digits, and a line
/// for each value that is there.
pub proof fn law_signal_text(s: SignalStats)
    ensures
        stats_text(s) == "status mask: 0x"@ + hex8(s.lock_mask) + " (HAS_LOCK=0x10)\n"@ + line_if(
            "signal (legacy ioctl): "@,
            s.signal_strength_0_ffff,
        ) + line_if("snr (legacy ioctl): "@, s.snr_0_ffff),
{
    reveal_strlit("\n");
    assert("\n"@ =~= seq!['\n']);
    lemma_hex8(s.lock_mask);
}

/// Four hexadecimal digits.
pub open spec fn hex4(n: int) -> Seq<char> {
    seq![
        hex((n / 4096 % 16) as u8),
        hex((n / 256 % 16) as u8),
        hex((n / 16 % 16) as u8),
        hex((n % 16) as u8),
    ]
}

/// Eight hexadecimal digits.
pub open spec fn hex8(n: u32) -> Seq<char> {
    hex4(n as int / 0x1_0000) + hex4(n as int)
}

/// The last `k` hexadecimal digits.
spec fn low_digits(n: nat, k: nat) -> Seq<char>
    decreases k,
{
    if k == 0 {
        Seq::empty()
    } else {
        low_digits(n / 16, (k - 1) as nat).push(crate::text::digit(n % 16))
    }
}

proof fn lemma_low_digits(n: nat, k: nat)
    requires
        k >= 1,
        n < pow16(k),
    ensures
        padded(numeral(n, 16), k, '0') == low_digits(n, k),
        numeral(n, 16).len() <= k,
    decreases k,
{
    crate::laws::texts::law_padding(numeral(n, 16), k, '0');
    if n < 16 {
        lemma_zero_digits((k - 1) as nat);
        assert(n / 16 == 0);
        assert(padded(numeral(n, 16), k, '0') =~= low_digits(n, k));
    } else {
        reveal_with_fuel(pow16, 2);
        assert(k >= 2);
        assert(n / 16 < pow16((k - 1) as nat));
        lemma_low_digits(n / 16, (k - 1) as nat);
        crate::laws::texts::law_padding(numeral(n / 16, 16), (k - 1) as nat, '0');
        assert(padded(numeral(n, 16), k, '0') =~= low_digits(n, k));
    }
}

proof fn lemma_zero_digits(k: nat)
    ensures
        low_digits(0, k) == Seq::new(k, |i: int| '0'),
    decreases k,
{
    if k > 0 {
        lemma_zero_digits((k - 1) as nat);
    }
    assert(low_digits(0, k) =~= Seq::new(k, |i: int| '0'));
}

spec fn pow16(k: nat) -> nat
    decreases k,
{
    if k == 0 {
        1
    } else {
        16 * pow16((k - 1) as nat)
    }
}

/// A number without its last `k` hexadecimal digits.
spec fn without_low(n: nat, k: nat) -> nat
    decreases k,
{
    if k == 0 {
        n
    } else {
        without_low(n / 16, (k - 1) as nat)
    }
}

proof fn lemma_digits_join(n: nat, j: nat, k: nat)
    ensures
        low_digits(n, j + k) == low_digits(without_low(n, k), j) + low_digits(n, k),
    decreases k,
{
    if k > 0 {
        lemma_digits_join(n / 16, j, (k - 1) as nat);
    }
    assert(low_digits(n, j + k) =~= low_digits(without_low(n, k), j) + low_digits(n, k));
}

proof fn lemma_hex4(n: nat)
    ensures
        low_digits(n, 4) == hex4(n as int),
        without_low(n, 4) == n / 0x1_0000,
{
    reveal_with_fuel(low_digits, 5);
    reveal_with_fuel(without_low, 5);
    assert(n / 16 / 16 == n / 256);
    assert(n / 256 / 16 == n / 4096);
    assert(n / 4096 / 16 == n / 0x1_0000);
    assert(low_digits(n, 4) =~= hex4(n as int));
}

proof fn lemma_hex8(n: u32)
    ensures
        padded(numeral(n as nat, 16), 8, '0') == hex8(n),
{
    assert(n < pow16(8)) by {
        reveal_with_fuel(pow16, 9);
    }
    lemma_low_digits(n as nat, 8);
    lemma_digits_join(n as nat, 4, 4);
    lemma_hex4(n as nat);
    lemma_hex4(n as nat / 0x1_0000);
}

} // verus!
