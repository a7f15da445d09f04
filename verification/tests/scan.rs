use dvb_rs::channel::{Channel, ChannelsFile};
use dvb_rs::config::{channel_record_to_entry, ChannelRecord, ChannelsDocument, DvbV5Entry};
use dvb_rs::error::Error;
use dvb_rs::scan::{
    channels_from_sections, check_overwrite, is_placeholder_name, merge_scanned,
    merge_scanned_names, new_record, plain_scan_props, scan_props, scan_source, scan_transport,
    MergeReport, ScanSource, Transport,
};
use dvb_rs::si_tables::crc32_mpeg;
use dvb_rs::text_map::TextMap;
use dvb_rs::tuner::build_props_simple_isdbt;

fn rec(name: &str, sid: u16, freq: u32, aliases: &[&str]) -> ChannelRecord {
    let mut tuning = TextMap::new();
    tuning.insert("SERVICE_ID".to_string(), sid.to_string());
    tuning.insert("FREQUENCY".to_string(), freq.to_string());
    ChannelRecord {
        name: name.to_string(),
        aliases: aliases.iter().map(|s| s.to_string()).collect(),
        legacy_zap_section: None,
        tuning,
    }
}

fn scanned(items: &[(&str, u16, u32)]) -> ChannelsFile {
    ChannelsFile {
        channels: items
            .iter()
            .map(|(name, sid, freq)| Channel {
                name: name.to_string(),
                delivery: "ISDBT".into(),
                frequency: *freq,
                bandwidth_hz: 6_000_000,
                service_id: *sid,
                video_pids: Vec::new(),
                audio_pids: Vec::new(),
            })
            .collect(),
    }
}

fn setting<'a>(t: &'a TextMap, key: &str) -> Option<&'a str> {
    t.get(key).map(String::as_str)
}

#[test]
fn placeholder_names_are_recognized() {
    for n in [
        "program_1064",
        "service_23608",
        "u1065_539142857",
        "539.14MHz#1065",
    ] {
        assert!(is_placeholder_name(n), "{n} should be a placeholder");
    }
    for n in ["asahi", "NHK_G", "TOKYO MX1", "テレビ朝日", "tvk1", "u"] {
        assert!(!is_placeholder_name(n), "{n} should be kept");
    }
}

#[test]
fn placeholders_need_their_numbers() {
    for n in ["program_", "service_", "program_12a", "u_1", "u1_", "u1x_2", "uMHz"] {
        assert!(!is_placeholder_name(n), "{n} should be kept");
    }
    assert!(is_placeholder_name("uhf MHz#1"));
}

#[test]
fn curated_name_is_kept_and_gains_an_alias() {
    let mut doc = ChannelsDocument {
        version: 1,
        channels: vec![rec("asahi", 1064, 539142857, &["|ÆìÓD+F|"])],
    };
    let report = merge_scanned_names(&mut doc, &scanned(&[("テレビ朝日", 1064, 539142857)]));

    assert_eq!(doc.channels[0].name, "asahi");
    assert!(doc.channels[0].aliases.contains(&"テレビ朝日".to_string()));
    // Nothing is deleted: the old mojibake alias still resolves.
    assert!(doc.channels[0].aliases.contains(&"|ÆìÓD+F|".to_string()));
    assert_eq!(report.aliased, vec!["asahi".to_string()]);
    assert!(report.renamed.is_empty());
}

#[test]
fn placeholder_is_renamed_and_collisions_get_suffixed() {
    let mut doc = ChannelsDocument {
        version: 1,
        channels: vec![
            rec("u1065_539142857", 1065, 539142857, &[]),
            rec("u1066_539142857", 1066, 539142857, &[]),
        ],
    };
    // Both services broadcast the same service name.
    let report = merge_scanned_names(
        &mut doc,
        &scanned(&[
            ("テレビ朝日", 1065, 539142857),
            ("テレビ朝日", 1066, 539142857),
        ]),
    );

    assert_eq!(doc.channels[0].name, "テレビ朝日");
    assert_eq!(doc.channels[1].name, "テレビ朝日_2");
    // The old placeholder stays reachable.
    assert!(doc.channels[0]
        .aliases
        .contains(&"u1065_539142857".to_string()));
    assert_eq!(report.renamed.len(), 2);
}

fn every_record_answers_to_its_name(doc: &ChannelsDocument) {
    for r in &doc.channels {
        let first = doc
            .channels
            .iter()
            .find(|c| c.name == r.name || c.aliases.contains(&r.name))
            .unwrap();
        assert_eq!(
            first.tuning.get("SERVICE_ID"),
            r.tuning.get("SERVICE_ID"),
            "{} resolves to a different service",
            r.name
        );
    }
}

#[test]
fn rename_does_not_shadow_an_earlier_records_alias() {
    let mut doc = ChannelsDocument {
        version: 1,
        channels: vec![
            rec("asahi", 1064, 539142857, &["テレビ朝日"]),
            rec("u1065_539142857", 1065, 539142857, &[]),
            rec("u1066_539142857", 1066, 539142857, &[]),
        ],
    };
    merge_scanned_names(
        &mut doc,
        &scanned(&[
            ("テレビ朝日", 1065, 539142857),
            ("テレビ朝日", 1066, 539142857),
        ]),
    );

    assert_eq!(doc.channels[0].name, "asahi");
    assert_eq!(
        doc.channels[1].name, "テレビ朝日_2",
        "the plain name already resolves to asahi, so 1065 must be suffixed"
    );
    assert_eq!(doc.channels[2].name, "テレビ朝日_3");

    // Every record must be selectable by its own name, first-match wins.
    every_record_answers_to_its_name(&doc);
}

#[test]
fn rename_does_not_shadow_an_alias_of_the_same_merge() {
    let mut doc = ChannelsDocument {
        version: 1,
        channels: vec![
            rec("asahi", 1064, 539142857, &[]),
            rec("u1065_539142857", 1065, 539142857, &[]),
        ],
    };
    merge_scanned_names(
        &mut doc,
        &scanned(&[
            ("テレビ朝日", 1064, 539142857),
            ("テレビ朝日", 1065, 539142857),
        ]),
    );
    assert_eq!(doc.channels[0].aliases, vec!["テレビ朝日"]);
    assert_eq!(doc.channels[1].name, "テレビ朝日_2");
    every_record_answers_to_its_name(&doc);
}

#[test]
fn collision_with_an_existing_curated_name_is_suffixed() {
    let mut doc = ChannelsDocument {
        version: 1,
        channels: vec![
            rec("テレビ朝日", 1064, 539142857, &[]),
            rec("u1065_539142857", 1065, 539142857, &[]),
        ],
    };
    merge_scanned_names(&mut doc, &scanned(&[("テレビ朝日", 1065, 539142857)]));
    assert_eq!(doc.channels[1].name, "テレビ朝日_2");
}

#[test]
fn matching_requires_both_service_id_and_frequency() {
    let mut doc = ChannelsDocument {
        version: 1,
        channels: vec![rec("other-mux", 1064, 473142857, &[])],
    };
    let report = merge_scanned_names(&mut doc, &scanned(&[("テレビ朝日", 1064, 539142857)]));

    assert_eq!(doc.channels[0].name, "other-mux");
    assert!(doc.channels[0].aliases.is_empty());
    assert_eq!(report.unmatched, vec![1064]);
}

#[test]
fn merge_is_idempotent() {
    let mut doc = ChannelsDocument {
        version: 1,
        channels: vec![rec("asahi", 1064, 539142857, &[])],
    };
    let s = scanned(&[("テレビ朝日", 1064, 539142857)]);
    merge_scanned_names(&mut doc, &s);
    let after_first = doc.channels[0].aliases.clone();
    let report = merge_scanned_names(&mut doc, &s);
    assert_eq!(doc.channels[0].aliases, after_first);
    assert!(report.aliased.is_empty());
}

#[test]
fn add_new_creates_records_from_an_empty_document() {
    let mut doc = ChannelsDocument {
        version: 1,
        channels: vec![],
    };
    let report = merge_scanned(
        &mut doc,
        &scanned(&[("NHK総合", 1024, 557142857), ("NHKEテレ", 1032, 551142857)]),
        true,
    );

    assert_eq!(report.added, vec!["NHK総合", "NHKEテレ"]);
    assert_eq!(doc.channels.len(), 2);
    // Enough to tune with, and nothing the demodulator works out on its own.
    let t = &doc.channels[0].tuning;
    assert_eq!(t.get("SERVICE_ID").map(String::as_str), Some("1024"));
    assert_eq!(t.get("FREQUENCY").map(String::as_str), Some("557142857"));
    assert_eq!(t.get("DELIVERY_SYSTEM").map(String::as_str), Some("ISDBT"));
    assert_eq!(t.get("BANDWIDTH_HZ").map(String::as_str), Some("6000000"));
}

#[test]
fn add_new_is_idempotent_and_keeps_curated_names() {
    let mut doc = ChannelsDocument {
        version: 1,
        channels: vec![rec("asahi", 1064, 539142857, &[])],
    };
    let s = scanned(&[("テレビ朝日", 1064, 539142857), ("テレ玉", 1000, 485142857)]);

    let first = merge_scanned(&mut doc, &s, true);
    assert_eq!(first.added, vec!["テレ玉"]);
    assert_eq!(doc.channels[0].name, "asahi", "curated name must survive");
    assert!(doc.channels[0].aliases.contains(&"テレビ朝日".to_string()));

    let second = merge_scanned(&mut doc, &s, true);
    assert!(second.added.is_empty(), "a rescan must not duplicate");
    assert!(second.aliased.is_empty());
    assert_eq!(doc.channels.len(), 2);
}

#[test]
fn added_names_do_not_shadow_existing_records() {
    let mut doc = ChannelsDocument {
        version: 1,
        channels: vec![rec("asahi", 1064, 539142857, &["テレビ朝日"])],
    };
    // Same service name on a different mux, and twice within the scan.
    let report = merge_scanned(
        &mut doc,
        &scanned(&[
            ("テレビ朝日", 2000, 473142857),
            ("テレビ朝日", 2001, 473142857),
        ]),
        true,
    );

    assert_eq!(report.added, vec!["テレビ朝日_2", "テレビ朝日_3"]);
    every_record_answers_to_its_name(&doc);
}

#[test]
fn add_new_will_not_invent_records_from_pat_program_numbers() {
    let mut doc = ChannelsDocument {
        version: 1,
        channels: vec![],
    };
    let report = merge_scanned(
        &mut doc,
        &scanned(&[("program_23864", 23864, 515142857)]),
        true,
    );
    assert!(doc.channels.is_empty());
    assert!(report.added.is_empty());
    assert_eq!(report.nameless, vec![23864]);
}

#[test]
fn scanned_placeholders_are_ignored() {
    let mut doc = ChannelsDocument {
        version: 1,
        channels: vec![rec("u1065_539142857", 1065, 539142857, &[])],
    };
    let report = merge_scanned_names(&mut doc, &scanned(&[("program_1065", 1065, 539142857)]));
    assert_eq!(doc.channels[0].name, "u1065_539142857");
    // Nothing changed about the document; the service is reported as one
    // the SDT did not name, which is why it was passed over.
    assert_eq!(
        MergeReport {
            nameless: vec![1065],
            ..MergeReport::default()
        },
        report
    );
}

#[test]
fn rescan_of_a_suffixed_name_adds_no_record() {
    let mut doc = ChannelsDocument {
        version: 1,
        channels: vec![rec("X", 1064, 539142857, &[])],
    };
    let s = scanned(&[("X", 1065, 539142857)]);
    let first = merge_scanned(&mut doc, &s, true);
    assert_eq!(first.added, vec!["X_2"]);
    let second = merge_scanned(&mut doc, &s, true);
    assert!(second.added.is_empty());
    assert!(second.unmatched.is_empty());
    assert_eq!(doc.channels.len(), 2);
}

#[test]
fn new_record_tunes_to_its_service() {
    let svc = &scanned(&[("NHK総合", 1024, 557142857)]).channels[0];
    let e = channel_record_to_entry(new_record("nhk", svc)).unwrap();
    assert_eq!(e.channel.name, "nhk");
    assert_eq!(e.channel.frequency, 557142857);
    assert_eq!(e.channel.service_id, 1024);
    assert_eq!(e.channel.bandwidth_hz, 6_000_000);
    assert_eq!(e.channel.delivery, "ISDBT");
    assert_eq!(e.raw.len(), 4);
}

fn framed(mut head: Vec<u8>, body: &[u8]) -> Vec<u8> {
    head.extend_from_slice(body);
    let n = (head.len() - 3 + 4) as u16;
    head[1] = 0xb0 | ((n >> 8) as u8 & 0x0f);
    head[2] = n as u8;
    let crc = crc32_mpeg(&head);
    head.extend_from_slice(&crc.to_be_bytes());
    head
}

fn pat_of(programs: &[(u16, u16)]) -> Vec<u8> {
    let mut body = Vec::new();
    for (number, pid) in programs {
        body.extend_from_slice(&number.to_be_bytes());
        body.extend_from_slice(&(0xe000 | pid).to_be_bytes());
    }
    framed(vec![0x00, 0, 0, 0, 1, 0xc1, 0, 0], &body)
}

fn sdt_of(services: &[(u16, &[u8])]) -> Vec<u8> {
    let mut body = Vec::new();
    for (id, name) in services {
        body.extend_from_slice(&id.to_be_bytes());
        body.push(0);
        let mut d = vec![0x48, name.len() as u8 + 3, 1, 0, name.len() as u8];
        d.extend_from_slice(name);
        body.push(0x80);
        body.push(d.len() as u8);
        body.extend_from_slice(&d);
    }
    framed(vec![0x42, 0, 0, 0, 1, 1, 0, 0, 0, 0, 0], &body)
}

fn transport() -> Transport {
    scan_transport(None, "ISDBT", 539142857, 0)
}

#[test]
fn channels_come_from_every_sdt_section_once() {
    // LS1 selects the alphanumeric set.
    let first = sdt_of(&[(1064, b"\x0eABC"), (1065, b"")]);
    let mut bad = sdt_of(&[(7, b"\x0eX")]);
    let last = bad.len() - 1;
    bad[last] ^= 1;
    let second = sdt_of(&[(1064, b"\x0eZ"), (1066, b"\x0eDEF")]);
    let (file, errors) =
        channels_from_sections(&transport(), &pat_of(&[(1, 0x100)]), &vec![first, bad, second])
            .unwrap();
    let found: Vec<(u16, &str)> = file
        .channels
        .iter()
        .map(|c| (c.service_id, c.name.as_str()))
        .collect();
    assert_eq!(found, vec![(1064, "ABC"), (1065, "service_1065"), (1066, "DEF")]);
    assert_eq!(file.channels[0].bandwidth_hz, 6_000_000);
    assert_eq!(file.channels[0].frequency, 539142857);
    assert_eq!(errors.len(), 1);
    assert!(matches!(&errors[0], Error::Si(s) if s == "SDT CRC mismatch"));
}

#[test]
fn channels_fall_back_to_the_pat() {
    let (file, errors) = channels_from_sections(
        &transport(),
        &pat_of(&[(0, 0x10), (23864, 0x1f0), (5, 0x200)]),
        &vec![],
    )
    .unwrap();
    let found: Vec<(u16, &str)> = file
        .channels
        .iter()
        .map(|c| (c.service_id, c.name.as_str()))
        .collect();
    assert_eq!(found, vec![(23864, "program_23864"), (5, "program_5")]);
    assert!(errors.is_empty());

    let mut doc = ChannelsDocument {
        version: 1,
        channels: vec![],
    };
    let report = merge_scanned(&mut doc, &file, true);
    assert!(doc.channels.is_empty());
    assert_eq!(report.nameless, vec![23864, 5]);
}

#[test]
fn scan_fails_on_a_bad_pat() {
    let out = channels_from_sections(&transport(), &[0u8; 4], &vec![]);
    assert!(matches!(out, Err(Error::Si(s)) if s == "PAT too short"));
}

fn entry() -> DvbV5Entry {
    channel_record_to_entry(rec("asahi", 1064, 539142857, &[])).unwrap()
}

#[test]
fn scan_without_an_entry_is_isdbt_only() {
    let plain = build_props_simple_isdbt(539142857, 6_000_000, 0);
    for delivery in ["ISDBT", "isdbt", ""] {
        assert_eq!(scan_props(None, delivery, 539142857, 0).unwrap(), plain);
    }
    let out = scan_props(None, "dvbt", 539142857, 0);
    assert!(matches!(
        out,
        Err(Error::Msg(s)) if s == "scan without .conf entry only supports ISDBT for now (got dvbt)"
    ));
    assert!(plain_scan_props("isdbt", "isdbt", 1, 2).is_err());
}

#[test]
fn scan_with_an_entry_uses_it() {
    let e = entry();
    assert_eq!(
        scan_props(Some(&e), "dvbt", 1, 2).unwrap(),
        build_props_simple_isdbt(539142857, 6_000_000, 0)
    );
    let t = scan_transport(Some(&e), "x", 1, 2);
    assert_eq!((t.delivery.as_str(), t.frequency, t.bandwidth_hz), ("ISDBT", 539142857, 6_000_000));
    let t = scan_transport(None, "x", 1, 2);
    assert_eq!((t.delivery.as_str(), t.frequency, t.bandwidth_hz), ("x", 1, 2));
}

#[test]
fn scan_needs_a_name_or_a_frequency() {
    assert!(matches!(
        scan_source(true, Some("asahi".into()), None),
        Ok(ScanSource::Entry(n)) if n == "asahi"
    ));
    assert!(matches!(scan_source(false, None, Some(7)), Ok(ScanSource::Frequency(7))));
    assert!(matches!(
        scan_source(true, None, Some(7)),
        Err(Error::Msg(s)) if s == "--name required with --channels"
    ));
    assert!(matches!(
        scan_source(false, Some("asahi".into()), None),
        Err(Error::Msg(s)) if s == "either --channels + --name or --frequency is required"
    ));
}

#[test]
fn a_channel_list_is_not_overwritten_unasked() {
    assert!(check_overwrite("c.json", false, false).is_ok());
    assert!(check_overwrite("c.json", true, true).is_ok());
    assert!(matches!(
        check_overwrite("c.json", true, false),
        Err(Error::Msg(s)) if s.starts_with("c.json is an existing channel list: `scan` without --merge would replace all")
    ));
}

#[test]
fn settings_of_a_new_record_default_the_bandwidth() {
    let mut svc = scanned(&[("A", 1, 2)]).channels.remove(0);
    svc.bandwidth_hz = 0;
    let r = new_record("A", &svc);
    assert_eq!(setting(&r.tuning, "BANDWIDTH_HZ"), Some("6000000"));
    svc.bandwidth_hz = 8_000_000;
    let r = new_record("A", &svc);
    assert_eq!(setting(&r.tuning, "BANDWIDTH_HZ"), Some("8000000"));
}

#[test]
fn the_same_scan_again_reports_what_it_passed_over() {
    let scan = scanned(&[
        ("Asahi", 1064, 539142857),
        ("program_5", 5, 539142857),
        ("Elsewhere", 7, 515142857),
    ]);
    for add_new in [false, true] {
        let mut doc = ChannelsDocument {
            version: 1,
            channels: vec![rec("u1064_539142857", 1064, 539142857, &[])],
        };
        let once = merge_scanned(&mut doc, &scan, add_new);
        assert_eq!(once.nameless, vec![5]);
        assert_eq!(once.unmatched, vec![7]);
        let twice = merge_scanned(&mut doc, &scan, add_new);
        let unmatched = if add_new { vec![] } else { vec![7] };
        assert_eq!(
            MergeReport {
                renamed: vec![],
                aliased: vec![],
                added: vec![],
                unmatched,
                nameless: vec![5],
            },
            twice
        );
    }
}

#[test]
fn further_aliases_stand_behind_the_old_ones() {
    let mut doc = ChannelsDocument {
        version: 1,
        channels: vec![
            rec("asahi", 1064, 539142857, &["z", "a"]),
            rec("u1065_539142857", 1065, 539142857, &["y", "b"]),
        ],
    };
    merge_scanned(
        &mut doc,
        &scanned(&[("One", 1064, 539142857), ("Two", 1065, 539142857)]),
        false,
    );
    assert_eq!(doc.channels[0].aliases, vec!["z", "a", "One"]);
    assert_eq!(doc.channels[1].name, "Two");
    assert_eq!(doc.channels[1].aliases, vec!["y", "b", "u1065_539142857"]);
}
