use dvb_rs::eit::{DateTime, EitEvent, EitSection, HmsDuration};
use dvb_rs::epg::{
    bounded_epg_collect_secs, drop_empty_events, gather_events, guide, pmt_pid_for_service,
    service_pids, service_pids_from_pmt, sort_events, CollectAction, EitCollector, Wanted,
};
use dvb_rs::error::Error;
use dvb_rs::guide_text::{events_human, events_json, json_escape};
use dvb_rs::si_reader::ReadEvent;
use dvb_rs::si_tables::{crc32_mpeg, Pmt, PmtStream};

fn framed(mut s: Vec<u8>, body: &[u8]) -> Vec<u8> {
    s.extend_from_slice(body);
    let n = (s.len() - 3 + 4) as u16;
    s[1] = 0xf0 | (n >> 8) as u8;
    s[2] = n as u8;
    let crc = crc32_mpeg(&s);
    s.extend_from_slice(&crc.to_be_bytes());
    s
}

#[test]
fn identifiers_of_a_service() {
    let pat = framed(
        vec![0, 0, 0, 0, 1, 0xc1, 0, 0],
        &[0, 0, 0xe0, 0x10, 4, 0, 0xe1, 0xf0, 4, 8, 0xe1, 0xf1],
    );
    assert_eq!(pmt_pid_for_service(&pat, 0x408).unwrap(), 0x1f1);
    match pmt_pid_for_service(&pat, 7) {
        Err(Error::Si(s)) => assert_eq!(s, "service_id 7 not found in PAT"),
        other => panic!("{other:?}"),
    }
    let map = Pmt {
        program_number: 0x408,
        pcr_pid: 0x1ff,
        ca_pids: vec![0x901],
        streams: vec![
            PmtStream { stream_type: 2, pid: 0x111 },
            PmtStream { stream_type: 15, pid: 0x112 },
            PmtStream { stream_type: 13, pid: 0x111 },
        ],
    };
    assert_eq!(
        service_pids(0x1f1, &map),
        vec![0, 0x111, 0x112, 0x1f1, 0x1ff, 0x901]
    );
    let clockless = Pmt { pcr_pid: 0x1fff, ca_pids: vec![], streams: vec![], ..map };
    assert_eq!(service_pids(0x1f1, &clockless), vec![0, 0x1f1]);
    let section = framed(
        vec![2, 0, 0, 4, 8, 0xc1, 0, 0],
        &[0xff, 0xff, 0xf0, 0, 2, 0xe1, 0x11, 0xf0, 0],
    );
    assert_eq!(service_pids_from_pmt(0x1f1, &section).unwrap(), vec![0, 0x111, 0x1f1]);
    assert!(service_pids_from_pmt(0x1f1, &pat).is_err());
}

#[test]
fn collection_times() {
    assert_eq!(bounded_epg_collect_secs(false, None).unwrap(), 10);
    assert_eq!(bounded_epg_collect_secs(true, None).unwrap(), 60);
    assert_eq!(bounded_epg_collect_secs(true, Some(7)).unwrap(), 7);
    assert_eq!(bounded_epg_collect_secs(false, Some(600)).unwrap(), 60);
    match bounded_epg_collect_secs(false, Some(0)) {
        Err(Error::Msg(s)) => assert_eq!(s, "--collect-secs must be at least 1"),
        other => panic!("{other:?}"),
    }
}

fn raw_section(table_id: u8, service: u16, number: u8, event_id: u16) -> Vec<u8> {
    let s = service.to_be_bytes();
    let e = event_id.to_be_bytes();
    framed(
        vec![table_id, 0, 0, s[0], s[1], 0xc1, number, number, 0, 1, 0, 4, number, table_id],
        &[e[0], e[1], 0xc0, 0x79, 0x12, 0, 0, 0, 0x30, 0, 0, 0],
    )
}

fn packet(pid: u16, cc: u8, section: &[u8]) -> Vec<u8> {
    let mut p = vec![0x47, 0x40 | (pid >> 8) as u8, pid as u8, 0x10 | (cc & 0x0f), 0];
    p.extend_from_slice(section);
    p.resize(188, 0xff);
    p
}

fn keys(sections: &[EitSection]) -> Vec<(u16, u8, u8)> {
    sections
        .iter()
        .map(|s| (s.service_id, s.table_id, s.section_number))
        .collect()
}

fn stream() -> Vec<u8> {
    let mut bad = raw_section(0x4e, 9, 0, 1);
    bad[15] ^= 1;
    [
        packet(0x12, 0, &raw_section(0x4e, 1, 0, 1)),
        packet(0x27, 7, &raw_section(0x4e, 2, 0, 1)),
        packet(0x12, 1, &raw_section(0x50, 1, 0, 2)),
        packet(0x12, 2, &raw_section(0x4e, 1, 0, 1)),
        packet(0x12, 3, &raw_section(0x4e, 3, 0, 1)),
        packet(0x12, 4, &raw_section(0x4f, 4, 0, 1)),
        packet(0x12, 5, &bad),
        packet(0x10, 6, &raw_section(0x4e, 5, 0, 1)),
        packet(0x12, 6, &raw_section(0x4e, 1, 1, 1)),
    ]
    .concat()
}

#[test]
fn sections_of_a_whole_transport_are_collected_once() {
    let mut c = EitCollector::new(&[0x12, 0x27], Wanted { only_service: None, schedule: false });
    c.push(&stream());
    c.push(&stream());
    assert_eq!(
        keys(&c.into_sections()),
        vec![(1, 0x4e, 0), (2, 0x4e, 0), (3, 0x4e, 0), (1, 0x4e, 1)]
    );
}

#[test]
fn collection_can_be_narrowed_and_widened() {
    let mut c = EitCollector::new(&[0x12, 0x27], Wanted { only_service: Some(1), schedule: true });
    assert_eq!(c.on_event(ReadEvent::Data(&stream())), CollectAction::Read);
    assert_eq!(c.on_event(ReadEvent::Data(&[])), CollectAction::PauseAndRead);
    assert_eq!(c.on_event(ReadEvent::Interrupted), CollectAction::Read);
    assert_eq!(c.on_event(ReadEvent::WouldBlock), CollectAction::Stop);
    assert_eq!(c.on_event(ReadEvent::Failed), CollectAction::Stop);
    assert_eq!(c.on_event(ReadEvent::Deadline), CollectAction::Stop);
    assert_eq!(
        keys(&c.into_sections()),
        vec![(1, 0x4e, 0), (1, 0x50, 0), (1, 0x4e, 1)]
    );
}

/// The packets of a section that needs several.
fn packets(pid: u16, first_cc: u8, section: &[u8]) -> Vec<Vec<u8>> {
    let mut out = vec![packet(pid, first_cc, &section[..183])];
    for (i, chunk) in section[183..].chunks(184).enumerate() {
        let cc = first_cc + 1 + i as u8;
        let mut p = vec![0x47, (pid >> 8) as u8, pid as u8, 0x10 | (cc & 0x0f)];
        p.extend_from_slice(chunk);
        p.resize(188, 0xff);
        out.push(p);
    }
    out
}

#[test]
fn interleaved_identifiers_do_not_disturb_each_other() {
    let long = |service: u8| {
        let header = vec![0x4e, 0, 0, 0, service, 0xc1, 0, 0, 0, 1, 0, 4, 0, 0x4e];
        let mut event = vec![0, 1, 0xc0, 0x79, 0x12, 0, 0, 0, 0x30, 0, 0x01, 0x00];
        event.extend_from_slice(&[0x80, 0xfe]);
        event.resize(12 + 256, 0);
        framed(header, &event)
    };
    let a = packets(0x12, 3, &long(1));
    let b = packets(0x27, 9, &long(2));
    assert_eq!((a.len(), b.len()), (2, 2));
    let mut c = EitCollector::new(&[0x12, 0x27], Wanted { only_service: None, schedule: false });
    c.push(&[&a[0][..], &b[0][..], &a[1][..], &b[1][..]].concat());
    assert_eq!(keys(&c.into_sections()), vec![(1, 0x4e, 0), (2, 0x4e, 0)]);
}

fn at(hour: u8) -> Option<DateTime> {
    Some(DateTime { year: 2024, month: 2, day: 29, hour, min: 0, sec: 0 })
}

fn event(event_id: u16, start: Option<DateTime>, title: &str, text: &str) -> EitEvent {
    EitEvent {
        event_id,
        start,
        duration: Some(HmsDuration { hour: 0, min: 30, sec: 0 }),
        running_status: 0,
        free_ca: false,
        title: title.into(),
        text: text.into(),
        content_nibbles: vec![],
    }
}

fn section_of(service_id: u16, events: Vec<EitEvent>) -> EitSection {
    EitSection {
        table_id: 0x4e,
        service_id,
        transport_stream_id: 0,
        original_network_id: 0,
        section_number: 0,
        last_section_number: 0,
        segment_last_section_number: 0,
        last_table_id: 0x4e,
        events,
    }
}

#[test]
fn the_richest_copy_is_kept() {
    let mut typed = event(1, at(9), "", "");
    typed.content_nibbles = vec![(0, 0)];
    let list = gather_events(&vec![
        section_of(10, vec![event(1, at(9), "TBC", ""), event(2, at(8), "B", "")]),
        section_of(11, vec![event(1, at(9), "other", "")]),
        section_of(10, vec![event(1, at(9), "News", "now"), event(2, at(8), "C", "")]),
        section_of(10, vec![typed.clone()]),
        section_of(10, vec![event(1, at(9), "x", "")]),
    ]);
    let found: Vec<(u16, u16, &str)> = list
        .iter()
        .map(|(s, e)| (*s, e.event_id, e.title.as_str()))
        .collect();
    // Seven characters are less than one kind of content.
    assert_eq!(found, vec![(10, 1, ""), (10, 2, "B"), (11, 1, "other")]);
    assert_eq!(list[0].1.content_nibbles, vec![(0, 0)]);
}

#[test]
fn events_come_in_order() {
    let list = vec![
        (2, event(1, at(9), "a", "")),
        (1, event(2, at(9), "b", "")),
        (1, event(3, None, "c", "")),
        (1, event(4, at(8), "d", "")),
        (1, event(5, at(9), "e", "")),
    ];
    let ids: Vec<u16> = sort_events(list).iter().map(|(_, e)| e.event_id).collect();
    assert_eq!(ids, vec![3, 4, 2, 5, 1]);
}

#[test]
fn the_order_is_that_of_the_dates() {
    let mut dates = vec![
        DateTime { year: 2024, month: 2, day: 29, hour: 1, min: 2, sec: 3 },
        DateTime { year: 2024, month: 2, day: 29, hour: 1, min: 2, sec: 2 },
        DateTime { year: 2024, month: 2, day: 29, hour: 1, min: 1, sec: 9 },
        DateTime { year: 2024, month: 2, day: 29, hour: 0, min: 9, sec: 9 },
        DateTime { year: 2024, month: 2, day: 28, hour: 9, min: 9, sec: 9 },
        DateTime { year: 2024, month: 1, day: 31, hour: 9, min: 9, sec: 9 },
        DateTime { year: 2023, month: 12, day: 31, hour: 9, min: 9, sec: 9 },
    ];
    let list = dates
        .iter()
        .map(|d| (0, event(0, Some(*d), "", "")))
        .collect();
    let sorted: Vec<DateTime> = sort_events(list).iter().map(|(_, e)| e.start.unwrap()).collect();
    dates.sort();
    assert_eq!(sorted, dates);
}

#[test]
fn events_that_say_nothing_are_dropped() {
    let sections = vec![section_of(
        1,
        vec![
            event(1, at(9), " \u{3000}", "\n"),
            event(2, at(8), "x", ""),
            event(3, at(7), "", "y"),
        ],
    )];
    let ids = |all: bool| -> Vec<u16> {
        guide(&sections, all).iter().map(|(_, e)| e.event_id).collect()
    };
    assert_eq!(ids(false), vec![3, 2]);
    assert_eq!(ids(true), vec![3, 2, 1]);
    assert!(drop_empty_events(vec![(1, event(1, None, "", " "))]).is_empty());
}

#[test]
fn the_guide_for_people() {
    let mut a = event(7, at(21), "News", "one\r\ntwo\n\nthree\r");
    a.running_status = 4;
    a.content_nibbles = vec![(0, 1), (1, 1)];
    let mut b = event(12345, None, "x", "");
    b.duration = None;
    b.running_status = 1;
    assert_eq!(
        events_human(&vec![(1024, a), (1, b)]),
        "  svc 1024 [    7] [running]  2024-02-29 21:00:00  +00:30:00  News  (ニュース/報道)\n\
        \u{20}          one\n           two\n           \n           three\r\n\
        \u{20} svc 1 [12345] [not running]  ??:??:??  +??:??:??  x\n"
    );
    assert_eq!(events_human(&vec![]), "");
}

#[test]
fn the_guide_as_json() {
    let mut a = event(7, at(21), "a\"b", "c\\d\r\ne");
    a.running_status = 4;
    a.content_nibbles = vec![(0, 1), (1, 1)];
    let mut b = event(8, None, "x", "");
    b.duration = None;
    assert_eq!(
        events_json(&vec![(1024, a), (1, b)]),
        "[{\"service_id\":1024,\"event_id\":7,\"start\":\"2024-02-29 21:00:00\",\
         \"duration\":\"00:30:00\",\"running_status\":4,\"title\":\"a\\\"b\",\
         \"text\":\"c\\\\d\\ne\",\"genres\":[\"ニュース/報道\",\"スポーツ\"]},\
         {\"service_id\":1,\"event_id\":8,\"start\":\"\",\"duration\":\"\",\
         \"running_status\":0,\"title\":\"x\",\"text\":\"\",\"genres\":[]}]\n"
    );
    assert_eq!(events_json(&vec![]), "[]\n");
}

#[test]
fn escapes_of_json() {
    assert_eq!(json_escape("a\\n\"\n\r\t"), "a\\\\n\\\"\\n\t");
}

#[test]
fn the_guide_is_json() {
    let e = event(7, at(21), "\"\\\n\r日本", "\\\"");
    let v: serde_json::Value = serde_json::from_str(&events_json(&vec![(3, e)])).unwrap();
    assert_eq!(v[0]["title"], "\"\\\n日本");
    assert_eq!(v[0]["text"], "\\\"");
    assert_eq!(v[0]["service_id"], 3);
}
