//! The parameters of the demultiplexer of Linux DVB (`linux/dvb/dmx.h`).

use vstd::prelude::*;

verus! {

/// Where a demultiplexer reads from.
#[derive(Debug, Clone, Copy, PartialEq, Eq, Structural)]
pub enum DmxInput {
    Frontend,
    Dvr,
}

/// Where a demultiplexer writes to.
#[derive(Debug, Clone, Copy, PartialEq, Eq, Structural)]
pub enum DmxOutput {
    Decoder,
    Tap,
    TsTap,
    TsDemuxTap,
}

/// The kind of a stream; for what is tapped as packets there is one.
#[derive(Debug, Clone, Copy, PartialEq, Eq, Structural)]
pub enum DmxPesType {
    Other,
}

pub open spec fn input_number(input: DmxInput) -> u32 {
    match input {
        DmxInput::Frontend => 0,
        DmxInput::Dvr => 1,
    }
}

pub open spec fn output_number(output: DmxOutput) -> u32 {
    match output {
        DmxOutput::Decoder => 0,
        DmxOutput::Tap => 1,
        DmxOutput::TsTap => 2,
        DmxOutput::TsDemuxTap => 3,
    }
}

pub open spec fn pes_type_number(pes_type: DmxPesType) -> u32 {
    match pes_type {
        DmxPesType::Other => 20,
    }
}

impl DmxInput {
    /// The kernel's number.
    pub fn number(self) -> (n: u32)
        ensures
            n == input_number(self),
    {
        match self {
            DmxInput::Frontend => 0,
            DmxInput::Dvr => 1,
        }
    }
}

impl DmxOutput {
    /// The kernel's number.
    pub fn number(self) -> (n: u32)
        ensures
            n == output_number(self),
    {
        match self {
            DmxOutput::Decoder => 0,
            DmxOutput::Tap => 1,
            DmxOutput::TsTap => 2,
            DmxOutput::TsDemuxTap => 3,
        }
    }
}

impl DmxPesType {
    /// The kernel's number.
    pub fn number(self) -> (n: u32)
        ensures
            n == pes_type_number(self),
    {
        match self {
            DmxPesType::Other => 20,
        }
    }
}

/// The parameters of a tap.
#[derive(Debug, Clone, Copy, PartialEq, Eq, Structural)]
pub struct DmxPesFilterParams {
    pub pid: u16,
    pub input: u32,
    pub output: u32,
    pub pes_type: u32,
    pub flags: u32,
}

pub const DMX_IMMEDIATE_START_PES: u32 = 4;

/// A tap of the packets that come from the frontend, as they are.
pub open spec fn packet_tap(pid: u16, flags: u32) -> DmxPesFilterParams {
    DmxPesFilterParams {
        pid,
        input: input_number(DmxInput::Frontend),
        output: output_number(DmxOutput::TsTap),
        pes_type: pes_type_number(DmxPesType::Other),
        flags,
    }
}

impl DmxPesFilterParams {
    /// A tap of all packets, which starts when it is told to.
    pub fn ts_tap_all_pids_mythological(pid: u16) -> (p: Self)
        ensures
            p == packet_tap(pid, 0),
    {
        DmxPesFilterParams {
            pid,
            input: DmxInput::Frontend.number(),
            output: DmxOutput::TsTap.number(),
            pes_type: DmxPesType::Other.number(),
            flags: 0,
        }
    }

    /// A tap of the packets of one identifier, which starts at once.
    pub fn ts_tap_pid(pid: u16) -> (p: Self)
        ensures
            p == packet_tap(pid, DMX_IMMEDIATE_START_PES),
    {
        DmxPesFilterParams {
            pid,
            input: DmxInput::Frontend.number(),
            output: DmxOutput::TsTap.number(),
            pes_type: DmxPesType::Other.number(),
            flags: DMX_IMMEDIATE_START_PES,
        }
    }
}

/// What a section filter looks at in the first bytes of a section.
#[derive(Debug, Clone, Copy)]
pub struct DmxFilter {
    pub filter: [u8; 16],
    pub mask: [u8; 16],
    pub mode: [u8; 16],
}

/// The parameters of a section filter.
#[derive(Debug, Clone, Copy)]
pub struct DmxSctFilterParams {
    pub pid: u16,
    pub filter: DmxFilter,
    /// In milliseconds; 0 for none.
    pub timeout: u32,
    pub flags: u32,
}

pub const DMX_CHECK_CRC: u32 = 1;

pub const DMX_IMMEDIATE_START: u32 = 4;

/// The flags of a filter that checks the CRC and starts at once.
pub const DMX_CHECKED_START: u32 = 5;

/// Sixteen zeros.
pub open spec fn zeros() -> Seq<u8> {
    Seq::new(16, |i: int| 0u8)
}

/// Sixteen bytes: the first, and in the fourth and fifth a number of 16 bits.
pub open spec fn with_service(first: u8, service_id: u16) -> Seq<u8> {
    zeros().update(0, first).update(3, (service_id / 256) as u8).update(4, (service_id % 256) as u8)
}

/// A filter that lets everything pass.
fn open_filter() -> (f: DmxFilter)
    ensures
        f.filter@ == zeros(),
        f.mask@ == zeros(),
        f.mode@ == zeros(),
{
    let f = DmxFilter { filter: [0; 16], mask: [0; 16], mode: [0; 16] };
    assert(f.filter@ =~= zeros());
    assert(f.mask@ =~= zeros());
    assert(f.mode@ =~= zeros());
    f
}

/// A filter for one table, or for several by the bits of `mask`.
fn table_filter(table_id: u8, mask: u8) -> (f: DmxFilter)
    ensures
        f.filter@ == zeros().update(0, table_id),
        f.mask@ == zeros().update(0, mask),
        f.mode@ == zeros(),
{
    let mut f = open_filter();
    f.filter[0] = table_id;
    f.mask[0] = mask;
    f
}

/// A filter for tables of one service.
fn service_filter(table_id: u8, mask: u8, service_id: u16) -> (f: DmxFilter)
    ensures
        f.filter@ == with_service(table_id, service_id),
        f.mask@ == with_service(mask, 0xffff),
        f.mode@ == zeros(),
{
    let mut f = table_filter(table_id, mask);
    f.filter[3] = (service_id / 256) as u8;
    f.mask[3] = 0xff;
    f.filter[4] = (service_id % 256) as u8;
    f.mask[4] = 0xff;
    assert(f.mask@ =~= with_service(mask, 0xffff));
    f
}

impl DmxSctFilterParams {
    /// A filter for the PAT.
    pub fn pat(pid: u16) -> (p: Self)
        ensures
            p.pid == pid,
            p.filter.filter@ == zeros(),
            p.filter.mask@ == zeros().update(0, 0xff),
            p.filter.mode@ == zeros(),
            p.timeout == 0,
            p.flags == DMX_CHECKED_START,
    {
        let filter = table_filter(0x00, 0xff);
        assert(filter.filter@ =~= zeros());
        DmxSctFilterParams { pid, filter, timeout: 0, flags: DMX_CHECKED_START }
    }

    /// A filter for the SDT of this transport.
    pub fn sdt_actual(pid: u16) -> (p: Self)
        ensures
            p.pid == pid,
            p.filter.filter@ == zeros().update(0, 0x42),
            p.filter.mask@ == zeros().update(0, 0xff),
            p.filter.mode@ == zeros(),
            p.timeout == 0,
            p.flags == DMX_CHECKED_START,
    {
        DmxSctFilterParams {
            pid,
            filter: table_filter(0x42, 0xff),
            timeout: 0,
            flags: DMX_CHECKED_START,
        }
    }

    /// A filter for present and following events, whatever their CRC: under a weak
    /// signal some drivers would drop them all.
    pub fn eit_pf(pid: u16, kernel_timeout_ms: u32) -> (p: Self)
        ensures
            p.pid == pid,
            p.filter.filter@ == zeros().update(0, 0x4e),
            p.filter.mask@ == zeros().update(0, 0xff),
            p.filter.mode@ == zeros(),
            p.timeout == kernel_timeout_ms,
            p.flags == DMX_IMMEDIATE_START,
    {
        DmxSctFilterParams {
            pid,
            filter: table_filter(0x4e, 0xff),
            timeout: kernel_timeout_ms,
            flags: DMX_IMMEDIATE_START,
        }
    }

    /// A filter for the present and following events of a service.
    pub fn eit_pf_for_service(pid: u16, service_id: u16) -> (p: Self)
        ensures
            p.pid == pid,
            p.filter.filter@ == with_service(0x4e, service_id),
            p.filter.mask@ == with_service(0xff, 0xffff),
            p.filter.mode@ == zeros(),
            p.timeout == 0,
            p.flags == DMX_CHECKED_START,
    {
        DmxSctFilterParams {
            pid,
            filter: service_filter(0x4e, 0xff, service_id),
            timeout: 0,
            flags: DMX_CHECKED_START,
        }
    }

    /// A filter for all sections.
    pub fn any_on_pid(pid: u16) -> (p: Self)
        ensures
            p.pid == pid,
            p.filter.filter@ == zeros(),
            p.filter.mask@ == zeros(),
            p.filter.mode@ == zeros(),
            p.timeout == 0,
            p.flags == DMX_IMMEDIATE_START,
    {
        DmxSctFilterParams { pid, filter: open_filter(), timeout: 0, flags: DMX_IMMEDIATE_START }
    }

    /// A filter for the schedule of a service: the sixteen tables from 0x50 on, by
    /// the upper half of their number, with all bits of the first mode byte set.
    pub fn eit_schedule_for_service(pid: u16, service_id: u16) -> (p: Self)
        ensures
            p.pid == pid,
            p.filter.filter@ == with_service(0x50, service_id),
            p.filter.mask@ == with_service(0xf0, 0xffff),
            p.filter.mode@ == zeros().update(0, 0xff),
            p.timeout == 0,
            p.flags == DMX_CHECKED_START,
    {
        let mut filter = service_filter(0x50, 0xf0, service_id);
        filter.mode[0] = 0xff;
        DmxSctFilterParams { pid, filter, timeout: 0, flags: DMX_CHECKED_START }
    }
}

} // verus!
