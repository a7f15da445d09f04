use dvb_rs::error::Error;
use dvb_rs::si_reader::{section_numbers, ReadAction, ReadEvent, SectionCollector};

#[test]
fn section_numbers_reads_long_form_header() {
    // table_id, syntax+len, ..., section_number=2, last=5
    let s = [0x42u8, 0xf0, 0x10, 0, 0, 0, 2, 5];
    assert_eq!(section_numbers(&s), Some((2, 5)));
}

#[test]
fn section_numbers_rejects_short_form_and_runts() {
    // Syntax indicator clear → no section numbering.
    let short_form = [0x42u8, 0x70, 0x10, 0, 0, 0, 0, 0];
    assert_eq!(section_numbers(&short_form), None);
    assert_eq!(section_numbers(&[0x42u8, 0xf0]), None);
}

/// A packet that holds one whole section.
fn packet(pid: u16, cc: u8, section: &[u8]) -> Vec<u8> {
    let mut p = vec![0x47, 0x40 | (pid >> 8) as u8, pid as u8, 0x10 | (cc & 0x0f), 0];
    p.extend_from_slice(section);
    p.resize(188, 0xff);
    p
}

fn section(table_id: u8, number: u8, last: u8, mark: u8) -> Vec<u8> {
    vec![table_id, 0xf0, 6, 0, 1, 0xc1, number, last, mark]
}

#[test]
fn a_table_is_collected_by_its_numbers() {
    let mut c = SectionCollector::new(0x11, 0x42, false);
    let s0 = section(0x42, 0, 1, 10);
    let s1 = section(0x42, 1, 1, 11);
    let other = section(0x46, 0, 0, 12);
    let mut data = packet(0x11, 0, &s1);
    data.extend(packet(0x12, 0, &s0));
    data.extend(packet(0x11, 1, &other));
    data.extend(packet(0x11, 2, &s1));
    data.extend_from_slice(&[0x47, 0x40]);
    assert_eq!(c.push(&data), None);
    assert_eq!(c.sections(), vec![s1.clone()]);
    assert_eq!(c.push(&packet(0x11, 3, &s0)), Some(vec![s0, s1]));
}

#[test]
fn one_section_can_be_enough() {
    let mut c = SectionCollector::new(0, 0, true);
    let s = section(0, 3, 7, 1);
    assert_eq!(c.push(&packet(0, 0, &s)), Some(vec![s]));
}

#[test]
fn a_section_without_numbers_is_the_table() {
    let mut c = SectionCollector::new(0x14, 0x73, false);
    let s = vec![0x73, 0x70, 2, 8, 9];
    assert_eq!(c.push(&packet(0x14, 0, &s)), Some(vec![s]));
}

#[test]
fn at_the_deadline_there_is_what_there_is() {
    let mut c = SectionCollector::new(0x11, 0x42, false);
    match c.on_event(ReadEvent::Deadline) {
        ReadAction::GiveUp(Error::Si(s)) => {
            assert_eq!(s, "timed out reading table 0x42 from PID 0x0011")
        }
        other => panic!("{other:?}"),
    }
    let s = section(0x42, 1, 3, 0);
    assert!(matches!(c.on_event(ReadEvent::Data(&packet(0x11, 0, &s))), ReadAction::Read));
    match c.on_event(ReadEvent::Deadline) {
        ReadAction::Finish(out) => assert_eq!(out, vec![s]),
        other => panic!("{other:?}"),
    }
}

#[test]
fn reads_go_on_after_silence() {
    let mut c = SectionCollector::new(0x11, 0x42, false);
    assert!(matches!(c.on_event(ReadEvent::Data(&[])), ReadAction::PauseAndRead));
    assert!(matches!(c.on_event(ReadEvent::WouldBlock), ReadAction::PauseAndRead));
    assert!(matches!(c.on_event(ReadEvent::Interrupted), ReadAction::Read));
    assert!(matches!(c.on_event(ReadEvent::Failed), ReadAction::Fail));
    let s = section(0x42, 0, 0, 5);
    match c.on_event(ReadEvent::Data(&packet(0x11, 0, &s))) {
        ReadAction::Finish(out) => assert_eq!(out, vec![s]),
        other => panic!("{other:?}"),
    }
}
