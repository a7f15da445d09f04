use dvb_rs::eit::{
    content_genre, parse_datetime, parse_duration, parse_eit_section, parse_event_descriptors,
    DateTime, HmsDuration, TsSectionAssembler, EIT_PID,
};
use dvb_rs::error::Error;
use dvb_rs::si_tables::crc32_mpeg;

fn date(year: u16, month: u8, day: u8) -> DateTime {
    DateTime { year, month, day, hour: 21, min: 5, sec: 59 }
}

fn start_of(mjd: u16) -> Option<DateTime> {
    let b = mjd.to_be_bytes();
    parse_datetime(&[b[0], b[1], 0x21, 0x05, 0x59])
}

#[test]
fn dates_by_the_annex() {
    // The example of the annex: 93/10/13.
    assert_eq!(start_of(0xc079), Some(date(1993, 10, 13)));
    assert_eq!(start_of(15079), Some(date(1900, 3, 1)));
    assert_eq!(start_of(51603), Some(date(2000, 2, 29)));
    assert_eq!(start_of(51604), Some(date(2000, 3, 1)));
    assert_eq!(start_of(60369), Some(date(2024, 2, 29)));
    assert_eq!(start_of(60309), Some(date(2023, 12, 31)));
    assert_eq!(start_of(60310), Some(date(2024, 1, 1)));
    assert_eq!(start_of(0xfffe), Some(date(2038, 4, 21)));
}

#[test]
fn dates_follow_the_calendar() {
    let days = [31, 28, 31, 30, 31, 30, 31, 31, 30, 31, 30, 31];
    let (mut y, mut m, mut d) = (1900u16, 3u8, 1u8);
    for mjd in 15079..0xffffu16 {
        assert_eq!(start_of(mjd), Some(date(y, m, d)), "{mjd}");
        let leap = y % 4 == 0 && (y % 100 != 0 || y % 400 == 0);
        let last = days[m as usize - 1] + if m == 2 && leap { 1 } else { 0 };
        d += 1;
        if d > last {
            d = 1;
            m += 1;
        }
        if m > 12 {
            m = 1;
            y += 1;
        }
    }
}

#[test]
fn starts_that_are_none() {
    assert_eq!(parse_datetime(&[0xff; 5]), None);
    assert_eq!(parse_datetime(&[0xff, 0xff, 0, 0, 0]), None);
    assert_eq!(parse_datetime(&[0xc0, 0x79, 0x2a, 0, 0]), None);
    assert_eq!(parse_datetime(&[0xc0, 0x79, 0, 0xa0, 0]), None);
    assert_eq!(parse_datetime(&[0xc0, 0x79, 0, 0, 0x0f]), None);
    assert_eq!(parse_datetime(&[0xc0, 0x79, 0, 0]), None);
}

#[test]
fn durations() {
    assert_eq!(
        parse_duration(&[0x01, 0x30, 0x45]),
        Some(HmsDuration { hour: 1, min: 30, sec: 45 })
    );
    assert_eq!(parse_duration(&[0xff, 0, 0]), None);
    assert_eq!(parse_duration(&[0x01, 0x3a, 0]), None);
    assert_eq!(parse_duration(&[0x01, 0x30]), None);
}

#[test]
fn times_as_text() {
    assert_eq!(date(2024, 2, 9).text(), "2024-02-09 21:05:59");
    assert_eq!(HmsDuration { hour: 1, min: 2, sec: 3 }.text(), "01:02:03");
    assert_eq!(
        DateTime { year: 7, month: 255, day: 0, hour: 0, min: 0, sec: 0 }.text(),
        "0007-255-00 00:00:00"
    );
}

/// A short event descriptor in alphanumerics.
fn short(title: &str, text: &str) -> Vec<u8> {
    let t = [b"\x0e", title.as_bytes()].concat();
    let x = [b"\x0e", text.as_bytes()].concat();
    let mut d = vec![0x4d, (3 + 1 + t.len() + 1 + x.len()) as u8, b'j', b'p', b'n', t.len() as u8];
    d.extend(t);
    d.push(x.len() as u8);
    d.extend(x);
    d
}

/// An extended event descriptor without items.
fn extended(text: &str) -> Vec<u8> {
    let x = [b"\x0e", text.as_bytes()].concat();
    let mut d = vec![0x4e, (1 + 3 + 1 + 1 + x.len()) as u8, 0, b'j', b'p', b'n', 0, x.len() as u8];
    d.extend(x);
    d
}

#[test]
fn later_descriptors_do_not_wipe_earlier_ones() {
    let data = [
        short("News", "At-nine"),
        short("", ""),
        extended("and-more"),
        vec![0x54, 4, 0x0f, 0xff, 0x73, 0x00],
        short("Newsroom", "x"),
    ]
    .concat();
    let (title, text, nibbles) = parse_event_descriptors(&data);
    assert_eq!(title, "Newsroom");
    assert_eq!(text, "At-nine and-more");
    assert_eq!(nibbles, vec![(0, 15), (7, 3)]);
}

#[test]
fn cut_descriptors_are_passed_over() {
    // The name is longer than the descriptor.
    let (title, text, _) = parse_event_descriptors(&[0x4d, 5, 1, 2, 3, 9, 0x0e]);
    assert_eq!((title.as_str(), text.as_str()), ("", ""));
    // The text is longer than the descriptor, the name is whole.
    let (title, text, _) = parse_event_descriptors(&[0x4d, 8, 1, 2, 3, 2, 0x0e, b'A', 9, 0x0e]);
    assert_eq!((title.as_str(), text.as_str()), ("A", ""));
    let (_, text, _) = parse_event_descriptors(&extended("alone"));
    assert_eq!(text, "alone");
}

fn section(table_id: u8, events: &[u8]) -> Vec<u8> {
    let mut s = vec![
        table_id, 0, 0, 0x04, 0x28, 0xc1, 3, 7, 0x7f, 0xe1, 0x00, 0x04, 5, 0x5f,
    ];
    s.extend_from_slice(events);
    let n = (s.len() - 3 + 4) as u16;
    s[1] = 0xf0 | (n >> 8) as u8;
    s[2] = n as u8;
    let crc = crc32_mpeg(&s);
    s.extend_from_slice(&crc.to_be_bytes());
    s
}

fn event(id: u16, flags: u8, descriptors: &[u8]) -> Vec<u8> {
    let mut e = id.to_be_bytes().to_vec();
    e.extend_from_slice(&[0xc0, 0x79, 0x12, 0x45, 0x00, 0x01, 0x30, 0x00]);
    e.push(flags | (descriptors.len() >> 8) as u8);
    e.push(descriptors.len() as u8);
    e.extend_from_slice(descriptors);
    e
}

#[test]
fn events_of_a_section() {
    let mut events = event(7, 0x90, &short("A", "B"));
    events.extend(event(8, 0x00, &[]));
    events.extend_from_slice(&[1, 2, 3]);
    let s = parse_eit_section(&section(0x4e, &events)).unwrap();
    assert_eq!((s.table_id, s.service_id), (0x4e, 0x428));
    assert_eq!((s.section_number, s.last_section_number), (3, 7));
    assert_eq!((s.transport_stream_id, s.original_network_id), (0x7fe1, 4));
    assert_eq!((s.segment_last_section_number, s.last_table_id), (5, 0x5f));
    assert_eq!(s.events.len(), 2);
    let e = &s.events[0];
    assert_eq!((e.event_id, e.running_status, e.free_ca), (7, 4, true));
    assert_eq!((e.title.as_str(), e.text.as_str()), ("A", "B"));
    assert_eq!(e.start.unwrap().text(), "1993-10-13 12:45:00");
    assert_eq!(e.duration.unwrap().text(), "01:30:00");
    assert_eq!((s.events[1].event_id, s.events[1].free_ca), (8, false));
}

#[test]
fn eit_errors() {
    let text = |s: &[u8]| match parse_eit_section(s).unwrap_err() {
        Error::Si(t) => t,
        other => panic!("{other:?}"),
    };
    let good = section(0x4e, &event(7, 0, &[]));
    assert_eq!(text(&good[..17]), "EIT section too short");
    assert_eq!(text(&section(0x0a, &[])), "not an EIT table_id: 0x0a");
    assert_eq!(text(&section(0x70, &[])), "not an EIT table_id: 0x70");
    let mut bad = good.clone();
    bad[20] ^= 1;
    assert_eq!(text(&bad), "EIT CRC mismatch");
    let mut long = good[..good.len() - 4].to_vec();
    long[2] += 1;
    let crc = crc32_mpeg(&long);
    long.extend_from_slice(&crc.to_be_bytes());
    assert_eq!(text(&long), "EIT section truncated");
}

#[test]
fn a_cut_event_ends_the_loop() {
    let mut e = event(7, 0, &short("A", "B"));
    e.truncate(e.len() - 1);
    let all = [event(6, 0, &[]), e].concat();
    let s = parse_eit_section(&section(0x50, &all)).unwrap();
    assert_eq!(s.events.iter().map(|e| e.event_id).collect::<Vec<_>>(), vec![6]);
}

/// Packets of a section: the first with its start, the rest with what follows.
fn packets(pid: u16, first_cc: u8, section: &[u8]) -> Vec<Vec<u8>> {
    let mut out = Vec::new();
    let mut rest = section;
    let mut cc = first_cc;
    while !rest.is_empty() || out.is_empty() {
        let starts = out.is_empty();
        let mut p = vec![0x47, (pid >> 8) as u8, pid as u8, 0x10 | (cc & 0x0f)];
        if starts {
            p[1] |= 0x40;
            p.push(0);
        }
        let n = rest.len().min(188 - p.len());
        p.extend_from_slice(&rest[..n]);
        p.resize(188, 0xff);
        rest = &rest[n..];
        cc = cc.wrapping_add(1);
        out.push(p);
    }
    out
}

fn long_section(n: usize, mark: u8) -> Vec<u8> {
    let mut s = vec![0x4e, 0xf0 | ((n - 3) >> 8) as u8, (n - 3) as u8];
    s.resize(n, mark);
    s
}

#[test]
fn a_section_is_reassembled() {
    for n in [3, 100, 183, 184, 400, 1021, 4096] {
        let s = long_section(n, 7);
        let mut a = TsSectionAssembler::new(EIT_PID);
        let mut ready = false;
        for p in packets(EIT_PID, 14, &s) {
            ready = a.feed(&p);
        }
        assert!(ready);
        assert_eq!(a.drain(), vec![s], "{n} bytes");
        assert!(a.drain().is_empty());
    }
}

#[test]
fn a_missed_packet_drops_the_section() {
    let s = long_section(700, 9);
    let all = packets(EIT_PID, 0, &s);
    let mut a = TsSectionAssembler::new(EIT_PID);
    for (i, p) in all.iter().enumerate() {
        if i != 1 {
            assert!(!a.feed(p));
        }
    }
    // The next one is whole again.
    let t = long_section(50, 1);
    assert!(a.feed(&packets(EIT_PID, 9, &t)[0]));
    assert_eq!(a.drain(), vec![t]);
}

/// A packet that holds `old` of the section before it and starts `new`.
fn joint(cc: u8, old: &[u8], new: &[u8]) -> Vec<u8> {
    let mut p = vec![0x47, 0x40, 0x12, 0x10 | cc, old.len() as u8];
    p.extend_from_slice(old);
    p.extend_from_slice(new);
    p.resize(188, 0xff);
    p
}

#[test]
fn a_missed_packet_before_a_start_drops_the_section() {
    let s = long_section(300, 9);
    let t = long_section(30, 4);
    let first = packets(EIT_PID, 0, &s).remove(0);

    // The counter goes from 0 to 2: what the pointer skips ends no section.
    let mut a = TsSectionAssembler::new(EIT_PID);
    assert!(!a.feed(&first));
    assert!(a.feed(&joint(2, &[9; 150], &t)));
    assert_eq!(a.drain(), vec![t.clone()]);

    // A new section that is not whole yet: nothing is ready.
    let long = long_section(200, 5);
    let mut a = TsSectionAssembler::new(EIT_PID);
    assert!(!a.feed(&first));
    assert!(!a.feed(&joint(2, &[9; 150], &long[..33])));
    let mut p = vec![0x47, 0x00, 0x12, 0x13];
    p.extend_from_slice(&long[33..]);
    p.resize(188, 0xff);
    assert!(a.feed(&p));
    assert_eq!(a.drain(), vec![long]);

    // With no packet missed the old section is ended.
    let mut a = TsSectionAssembler::new(EIT_PID);
    assert!(!a.feed(&first));
    assert!(a.feed(&joint(1, &[9; 117], &t)));
    assert_eq!(a.drain(), vec![s, t]);
}

#[test]
fn a_cut_section_does_not_spoil_the_next() {
    let first = packets(EIT_PID, 0, &long_section(300, 9)).remove(0);
    let t = long_section(400, 4);
    for first_cc in [1, 7] {
        let mut a = TsSectionAssembler::new(EIT_PID);
        assert!(!a.feed(&first));
        for p in packets(EIT_PID, first_cc, &t) {
            a.feed(&p);
        }
        assert_eq!(a.drain(), vec![t.clone()]);
    }
}

#[test]
fn other_packets_are_ignored() {
    let s = long_section(300, 9);
    let all = packets(EIT_PID, 0, &s);
    let mut a = TsSectionAssembler::new(EIT_PID);
    assert!(!a.feed(&all[0]));
    assert!(!a.feed(&packets(0x27, 5, &s)[0]));
    assert!(!a.feed(&all[1][..187]));
    // Only an adaptation field.
    let mut p = all[1].clone();
    p[3] = 0x20;
    assert!(!a.feed(&p));
    assert!(a.feed(&all[1]));
    // Still there to be drained.
    assert!(a.feed(&p));
    assert_eq!(a.drain(), vec![s]);
}

#[test]
fn a_packet_can_end_one_section_and_start_another() {
    let s = long_section(200, 3);
    let t = long_section(30, 4);
    let first = packets(EIT_PID, 0, &s).remove(0);
    let tail = &s[183..];
    let mut p = vec![0x47, 0x40, 0x12, 0x11, tail.len() as u8];
    p.extend_from_slice(tail);
    p.extend_from_slice(&t);
    p.resize(188, 0xff);
    let mut a = TsSectionAssembler::new(EIT_PID);
    assert!(!a.feed(&first));
    assert!(a.feed(&p));
    assert_eq!(a.drain(), vec![s, t]);
}

#[test]
fn genres() {
    assert_eq!(content_genre(0x0, 3), "ニュース/報道");
    assert_eq!(content_genre(0x7, 0), "アニメ/特撮");
    assert_eq!(content_genre(0xb, 0), "福祉");
    assert_eq!(content_genre(0xf, 0), "その他");
    assert_eq!(content_genre(0xc, 0), "不明");
}
