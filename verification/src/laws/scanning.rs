//! Which channels a scan of a transport finds.

use crate::channel::{ChannelView, ChannelsFile};
use crate::config::DvbV5Entry;
use crate::error::{Error, ErrorView};
use crate::scan::{
    channels_from_sections, check_overwrite, has_service, pat_channels, scan_props, scan_source,
    scan_transport, sdt_channels, sdt_errors, transport_channels, with_services, ScanSource,
    Transport, TransportView,
};
use crate::si_tables::{pat, sdt, PatProgram, SdtServiceView};
use crate::text::{decimal, uppercase};
use crate::tuner::{entry_properties, simple_isdbt_properties, DtvProperty};
use crate::views::views;
use vstd::prelude::*;

verus! {

/// The services that the sections of an SDT list, in order; a section that cannot
/// be read lists none.
pub open spec fn listed(sections: Seq<Seq<u8>>) -> Seq<SdtServiceView>
    decreases sections.len(),
{
    if sections.len() == 0 {
        Seq::empty()
    } else {
        listed(sections.drop_last()) + (match sdt(sections.last()) {
            Ok(services) => services,
            Err(_) => Seq::empty(),
        })
    }
}

/// Whether a service is not listed before place `n`.
pub open spec fn is_first_listing(list: Seq<SdtServiceView>, n: int) -> bool {
    forall|m: int| 0 <= m < n ==> (#[trigger] list[m]).service_id != list[n].service_id
}

/// Whether a channel is that of a listed service on a transport: its name, or
/// `service_` and its number where it has none.
pub open spec fn is_channel_of(c: ChannelView, t: TransportView, s: SdtServiceView) -> bool {
    &&& c.service_id == s.service_id
    &&& c.name == (if s.name.len() == 0 {
        "service_"@ + decimal(s.service_id as nat)
    } else {
        s.name
    })
    &&& c.delivery == t.delivery
    &&& c.frequency == t.frequency
    &&& c.bandwidth_hz == t.bandwidth_hz
    &&& c.video_pids.len() == 0
    &&& c.audio_pids.len() == 0
}

proof fn lemma_services_join(
    t: TransportView,
    channels: Seq<ChannelView>,
    a: Seq<SdtServiceView>,
    b: Seq<SdtServiceView>,
)
    ensures
        with_services(t, with_services(t, channels, a), b) == with_services(t, channels, a + b),
    decreases b.len(),
{
    if b.len() == 0 {
        assert(a + b =~= a);
    } else {
        lemma_services_join(t, channels, a, b.drop_last());
        assert((a + b).drop_last() =~= a + b.drop_last());
    }
}

proof fn lemma_listed(t: TransportView, sections: Seq<Seq<u8>>)
    ensures
        sdt_channels(t, sections) == with_services(t, Seq::empty(), listed(sections)),
    decreases sections.len(),
{
    if sections.len() > 0 {
        let front = sections.drop_last();
        lemma_listed(t, front);
        match sdt(sections.last()) {
            Ok(services) => lemma_services_join(t, Seq::empty(), listed(front), services),
            Err(_) => {
                assert(listed(front) + Seq::<SdtServiceView>::empty() =~= listed(front));
            },
        }
    }
}

/// Whether the channel at place `j` is that of the service at place `n` of a list,
/// which is not listed before.
pub open spec fn stems_from(
    t: TransportView,
    list: Seq<SdtServiceView>,
    channels: Seq<ChannelView>,
    j: int,
    n: int,
) -> bool {
    0 <= j < channels.len() && 0 <= n < list.len() && is_first_listing(list, n) && is_channel_of(
        channels[j],
        t,
        list[n],
    )
}

/// Whether the channel at place `j` is that of a listed service.
pub open spec fn is_listed(
    t: TransportView,
    list: Seq<SdtServiceView>,
    channels: Seq<ChannelView>,
    j: int,
) -> bool {
    exists|n: int| stems_from(t, list, channels, j, n)
}

#[verifier::rlimit(60)]
proof fn lemma_scan(t: TransportView, list: Seq<SdtServiceView>)
    ensures
        ({
            let channels = with_services(t, Seq::empty(), list);
            &&& forall|j: int|
                0 <= j < channels.len() ==> #[trigger] is_listed(t, list, channels, j)
            &&& forall|n: int|
                0 <= n < list.len() ==> has_service(channels, (#[trigger] list[n]).service_id)
            &&& forall|j: int, k: int, n: int, m: int|
                0 <= j < k && #[trigger] stems_from(t, list, channels, j, n)
                    && #[trigger] stems_from(t, list, channels, k, m) ==> n < m
        }),
    decreases list.len(),
{
    let channels = with_services(t, Seq::empty(), list);
    if list.len() > 0 {
        let front = list.drop_last();
        let last = list.len() - 1;
        let s = list.last();
        let before = with_services(t, Seq::empty(), front);
        lemma_scan(t, front);
        assert forall|n: int| 0 <= n < last implies is_first_listing(front, n)
            == #[trigger] is_first_listing(list, n) by {
            assert(forall|m: int| 0 <= m <= n ==> #[trigger] front[m] == list[m]);
            if is_first_listing(front, n) {
                assert forall|m: int| 0 <= m < n implies (#[trigger] list[m]).service_id
                    != list[n].service_id by {
                    assert(front[m].service_id != front[n].service_id);
                }
            }
            if is_first_listing(list, n) {
                assert forall|m: int| 0 <= m < n implies (#[trigger] front[m]).service_id
                    != front[n].service_id by {
                    assert(list[m].service_id != list[n].service_id);
                }
            }
        }
        if has_service(before, s.service_id) {
            assert(channels == before);
        } else {
            assert(is_first_listing(list, last)) by {
                assert forall|m: int| 0 <= m < last implies (#[trigger] list[m]).service_id
                    != s.service_id by {
                    assert(front[m] == list[m]);
                    assert(has_service(before, front[m].service_id));
                }
            }
        }
        assert forall|j: int| 0 <= j < channels.len() implies #[trigger] is_listed(
            t,
            list,
            channels,
            j,
        ) by {
            if j < before.len() {
                assert(is_listed(t, front, before, j));
                let n = choose|n: int| stems_from(t, front, before, j, n);
                assert(is_first_listing(list, n));
                assert(stems_from(t, list, channels, j, n));
            } else {
                assert(stems_from(t, list, channels, j, last));
            }
        }
        assert forall|n: int| 0 <= n < list.len() implies has_service(
            channels,
            (#[trigger] list[n]).service_id,
        ) by {
            if n < last {
                assert(front[n] == list[n]);
                let i = choose|i: int|
                    0 <= i < before.len() && (#[trigger] before[i]).service_id
                        == front[n].service_id;
                assert(channels[i].service_id == list[n].service_id);
            } else if has_service(before, s.service_id) {
                let i = choose|i: int|
                    0 <= i < before.len() && (#[trigger] before[i]).service_id == s.service_id;
                assert(channels[i].service_id == s.service_id);
            } else {
                assert(channels[before.len() as int].service_id == s.service_id);
            }
        }
        assert forall|j: int, k: int, n: int, m: int|
            0 <= j < k && #[trigger] stems_from(t, list, channels, j, n) && #[trigger] stems_from(
                t,
                list,
                channels,
                k,
                m,
            ) implies n < m by {
            if k < before.len() {
                if m == last {
                    assert(is_listed(t, front, before, k));
                    let q = choose|q: int| stems_from(t, front, before, k, q);
                    assert(list[q].service_id != list[last].service_id);
                }
                if n == last {
                    assert(is_listed(t, front, before, j));
                    let q = choose|q: int| stems_from(t, front, before, j, q);
                    assert(list[q].service_id != list[last].service_id);
                }
                assert(is_first_listing(front, n) && is_first_listing(front, m));
                assert(stems_from(t, front, before, j, n));
                assert(stems_from(t, front, before, k, m));
            } else {
                assert(channels[k].service_id == s.service_id);
                if m < last {
                    assert(front[m] == list[m]);
                    assert(has_service(before, front[m].service_id));
                }
                if n == last {
                    assert(before[j].service_id == s.service_id);
                    assert(has_service(before, s.service_id));
                }
            }
        }
    }
}

/// The channels of a transport are the services that its SDT lists, each once, in
/// the order of their first listing and by what that says, whatever the names of
/// the others are: every listed service is a channel, and every channel is a
/// listed service.
pub proof fn law_every_listed_service_is_found(
    t: TransportView,
    programs: Seq<PatProgram>,
    sections: Seq<Seq<u8>>,
)
    requires
        listed(sections).len() > 0,
    ensures
        ({
            let list = listed(sections);
            let channels = transport_channels(t, programs, sections);
            &&& forall|j: int|
                0 <= j < channels.len() ==> #[trigger] is_listed(t, list, channels, j)
            &&& forall|n: int|
                0 <= n < list.len() ==> exists|j: int|
                    0 <= j < channels.len() && (#[trigger] channels[j]).service_id == (
                    #[trigger] list[n]).service_id
            &&& forall|j: int, k: int, n: int, m: int|
                0 <= j < k && #[trigger] stems_from(t, list, channels, j, n)
                    && #[trigger] stems_from(t, list, channels, k, m) ==> n < m
        }),
{
    let list = listed(sections);
    lemma_listed(t, sections);
    lemma_scan(t, list);
    let found = sdt_channels(t, sections);
    assert(has_service(found, list[0].service_id));
    let i = choose|i: int|
        0 <= i < found.len() && (#[trigger] found[i]).service_id == list[0].service_id;
    assert(found.len() > 0);
    let channels = transport_channels(t, programs, sections);
    assert(channels == found);
    assert forall|n: int| 0 <= n < list.len() implies exists|j: int|
        0 <= j < channels.len() && (#[trigger] channels[j]).service_id == (
        #[trigger] list[n]).service_id by {
        assert(has_service(channels, list[n].service_id));
    }
}

/// Every service of a section that can be read is among the listed ones.
pub proof fn law_sections_are_listed(sections: Seq<Seq<u8>>, k: int, i: int)
    requires
        0 <= k < sections.len(),
        sdt(sections[k]) matches Ok(services) && 0 <= i < services.len(),
    ensures
        listed(sections).contains(sdt(sections[k])->Ok_0[i]),
    decreases sections.len(),
{
    let front = sections.drop_last();
    let s = sdt(sections[k])->Ok_0[i];
    let a = listed(front);
    let all = listed(sections);
    if k < front.len() {
        law_sections_are_listed(front, k, i);
        let n = choose|n: int| 0 <= n < a.len() && a[n] == s;
        assert(all[n] == s);
    } else {
        assert(all[a.len() + i] == s);
    }
}

/// For every section of an SDT that can be read and every service in it, a scan
/// finds a channel of that number, whatever the names of the others are.
pub proof fn law_scan_is_complete(
    t: TransportView,
    programs: Seq<PatProgram>,
    sections: Seq<Seq<u8>>,
    k: int,
    i: int,
)
    requires
        0 <= k < sections.len(),
        sdt(sections[k]) matches Ok(services) && 0 <= i < services.len(),
    ensures
        exists|j: int|
            0 <= j < transport_channels(t, programs, sections).len() && (
            #[trigger] transport_channels(t, programs, sections)[j]).service_id == sdt(
                sections[k],
            )->Ok_0[i].service_id,
{
    law_sections_are_listed(sections, k, i);
    let s = sdt(sections[k])->Ok_0[i];
    let list = listed(sections);
    let n = choose|n: int| 0 <= n < list.len() && list[n] == s;
    law_every_listed_service_is_found(t, programs, sections);
    let channels = transport_channels(t, programs, sections);
    assert(exists|j: int|
        0 <= j < channels.len() && (#[trigger] channels[j]).service_id == list[n].service_id);
}

/// Where no section of the SDT lists a service, the channels are the programs of
/// the PAT, in order, but for program 0, named `program_` and their number.
pub proof fn law_programs_stand_in(
    t: TransportView,
    programs: Seq<PatProgram>,
    sections: Seq<Seq<u8>>,
)
    requires
        listed(sections).len() == 0,
    ensures
        transport_channels(t, programs, sections) == programs.filter(
            |p: PatProgram| p.program_number != 0,
        ).map_values(
            |p: PatProgram|
                ChannelView {
                    name: "program_"@ + decimal(p.program_number as nat),
                    delivery: t.delivery,
                    frequency: t.frequency,
                    bandwidth_hz: t.bandwidth_hz,
                    service_id: p.program_number,
                    video_pids: Seq::empty(),
                    audio_pids: Seq::empty(),
                },
        ),
{
    lemma_listed(t, sections);
    assert(listed(sections) =~= Seq::<SdtServiceView>::empty());
    lemma_programs(t, programs);
}

proof fn lemma_programs(t: TransportView, programs: Seq<PatProgram>)
    ensures
        pat_channels(t, programs) == programs.filter(
            |p: PatProgram| p.program_number != 0,
        ).map_values(
            |p: PatProgram|
                ChannelView {
                    name: "program_"@ + decimal(p.program_number as nat),
                    delivery: t.delivery,
                    frequency: t.frequency,
                    bandwidth_hz: t.bandwidth_hz,
                    service_id: p.program_number,
                    video_pids: Seq::empty(),
                    audio_pids: Seq::empty(),
                },
        ),
    decreases programs.len(),
{
    reveal(Seq::filter);
    let keep = |p: PatProgram| p.program_number != 0;
    let make = |p: PatProgram|
        ChannelView {
            name: "program_"@ + decimal(p.program_number as nat),
            delivery: t.delivery,
            frequency: t.frequency,
            bandwidth_hz: t.bandwidth_hz,
            service_id: p.program_number,
            video_pids: Seq::empty(),
            audio_pids: Seq::empty(),
        };
    if programs.len() > 0 {
        lemma_programs(t, programs.drop_last());
        let front = programs.drop_last().filter(keep);
        assert(front.push(programs.last()).map_values(make) =~= front.map_values(make).push(
            make(programs.last()),
        ));
    }
    assert(pat_channels(t, programs) =~= programs.filter(keep).map_values(make));
}

/// The errors of a scan are those of the sections that cannot be read, in order.
pub proof fn law_scan_errors(sections: Seq<Seq<u8>>)
    ensures
        sdt_errors(sections) == sections.filter(|s: Seq<u8>| sdt(s) is Err).map_values(
            |s: Seq<u8>| sdt(s)->Err_0,
        ),
    decreases sections.len(),
{
    reveal(Seq::filter);
    let wrong = |s: Seq<u8>| sdt(s) is Err;
    let error = |s: Seq<u8>| sdt(s)->Err_0;
    if sections.len() > 0 {
        law_scan_errors(sections.drop_last());
        let front = sections.drop_last().filter(wrong);
        assert(front.push(sections.last()).map_values(error) =~= front.map_values(error).push(
            error(sections.last()),
        ));
    }
    assert(sdt_errors(sections) =~= sections.filter(wrong).map_values(error));
}

/// A scan whose PAT can be read finds the channels of the transport; one whose PAT
/// cannot be read is the error of the PAT.
pub proof fn law_scans(
    t: &Transport,
    pat_section: &[u8],
    sdt_sections: &Vec<Vec<u8>>,
    out: Result<(ChannelsFile, Vec<Error>), Error>,
)
    requires
        call_ensures(channels_from_sections, (t, pat_section, sdt_sections), out),
    ensures
        match pat(pat_section@) {
            Ok(programs) => out matches Ok((file, errors)) && file@ == transport_channels(
                t@,
                programs,
                views(sdt_sections@),
            ) && views(errors@) == sdt_errors(views(sdt_sections@)),
            Err(e) => out matches Err(error) && error@ == e,
        },
{
}

/// What a scan tunes to and writes into its channels: what the entry says where
/// there is one, else what was asked for; 6 MHz where the width is 0.
pub proof fn law_scanned_transport(
    entry: Option<&DvbV5Entry>,
    delivery: &str,
    frequency: u32,
    bandwidth_hz: u32,
    out: Transport,
)
    requires
        call_ensures(scan_transport, (entry, delivery, frequency, bandwidth_hz), out),
    ensures
        entry matches Some(e) ==> {
            &&& out.delivery@ == e.channel.delivery@
            &&& out.frequency == e.channel.frequency
            &&& out.bandwidth_hz == (if e.channel.bandwidth_hz == 0 {
                6_000_000
            } else {
                e.channel.bandwidth_hz
            })
        },
        entry is None ==> {
            &&& out.delivery@ == delivery@
            &&& out.frequency == frequency
            &&& out.bandwidth_hz == (if bandwidth_hz == 0 {
                6_000_000
            } else {
                bandwidth_hz
            })
        },
{
}

/// A scan tunes by the entry where there is one. Without one it tunes to a plain
/// ISDB-T transport, and to nothing else.
pub proof fn law_scan_properties(
    entry: Option<&DvbV5Entry>,
    delivery: &str,
    frequency: u32,
    bandwidth_hz: u32,
    out: Result<Vec<DtvProperty>, Error>,
)
    requires
        call_ensures(scan_props, (entry, delivery, frequency, bandwidth_hz), out),
    ensures
        entry matches Some(e) ==> (match entry_properties(e@) {
            Ok(props) => out matches Ok(v) && v@ == props,
            Err(error) => out matches Err(x) && x@ == error,
        }),
        entry is None && (uppercase(delivery@) == "ISDBT"@ || uppercase(delivery@).len() == 0)
            ==> (out matches Ok(v) && v@ == simple_isdbt_properties(frequency, bandwidth_hz)),
        entry is None && !(uppercase(delivery@) == "ISDBT"@ || uppercase(delivery@).len() == 0)
            ==> (out matches Err(x) && x@ == ErrorView::Msg(
            "scan without .conf entry only supports ISDBT for now (got "@ + delivery@ + ")"@,
        )),
{
}

/// A scan starts from a name in a channel list where there is a list, else from a
/// frequency; without them it does not start.
pub proof fn law_scan_sources(
    has_list: bool,
    name: Option<String>,
    frequency: Option<u32>,
    out: Result<ScanSource, Error>,
)
    requires
        call_ensures(scan_source, (has_list, name, frequency), out),
    ensures
        has_list && name is Some ==> out == Ok::<ScanSource, Error>(ScanSource::Entry(name->0)),
        has_list && name is None ==> (out matches Err(e) && e@ == ErrorView::Msg(
            "--name required with --channels"@,
        )),
        !has_list && frequency is Some ==> out == Ok::<ScanSource, Error>(
            ScanSource::Frequency(frequency->0),
        ),
        !has_list && frequency is None ==> (out matches Err(e) && e@ == ErrorView::Msg(
            "either --channels + --name or --frequency is required"@,
        )),
{
}

/// A channel list is written over only where that is forced.
pub proof fn law_overwriting(path: &str, is_list: bool, force: bool, out: Result<(), Error>)
    requires
        call_ensures(check_overwrite, (path, is_list, force), out),
    ensures
        out is Err <==> is_list && !force,
{
}

} // verus!
