use dvb_rs::channel::Channel;
use dvb_rs::config::DvbV5Entry;
use dvb_rs::error::Error;
use dvb_rs::text_map::TextMap;
use dvb_rs::tuner::{
    build_props_from_dvbv5, build_props_simple_isdbt, delivery_from_uppercase,
    inversion_from_uppercase, lock_step, modulation_from_uppercase, parse_delivery, parse_fec,
    parse_guard, parse_inversion, parse_modulation, parse_transmission,
    transmission_from_uppercase, DtvProperty, LockStep,
};

fn entry(pairs: &[(&str, &str)], bandwidth_hz: u32) -> DvbV5Entry {
    let mut raw = TextMap::new();
    for (k, v) in pairs {
        raw.insert(k.to_string(), v.to_string());
    }
    DvbV5Entry {
        section_title: "x".into(),
        channel: Channel {
            name: "x".into(),
            delivery: "ISDBT".into(),
            frequency: 1,
            bandwidth_hz,
            service_id: 2,
            video_pids: vec![],
            audio_pids: vec![],
        },
        aliases: vec![],
        raw,
    }
}

fn props(pairs: &[(&str, &str)], bandwidth_hz: u32) -> Vec<(u32, u32)> {
    build_props_from_dvbv5(&entry(pairs, bandwidth_hz))
        .unwrap()
        .iter()
        .map(|p| (p.cmd, p.data))
        .collect()
}

#[test]
fn simple_properties() {
    let want: Vec<DtvProperty> = [
        (2, 0),
        (17, 8),
        (3, 539142857),
        (5, 6_000_000),
        (6, 2),
        (38, 4),
        (39, 2),
        (1, 0),
    ]
    .iter()
    .map(|&(cmd, data)| DtvProperty { cmd, data })
    .collect();
    assert_eq!(build_props_simple_isdbt(539142857, 0, 7), want);
    assert_eq!(build_props_simple_isdbt(539142857, 8_000_000, 7)[3].data, 8_000_000);
}

#[test]
fn a_silent_entry_is_tuned_to_like_a_frequency() {
    let e = entry(&[("FREQUENCY", "539142857"), ("SERVICE_ID", "2")], 0);
    assert_eq!(
        build_props_from_dvbv5(&e).unwrap(),
        build_props_simple_isdbt(539142857, 0, 2)
    );
}

#[test]
fn every_setting_becomes_a_property() {
    let all = [
        ("DELIVERY_SYSTEM", "dvb-t2"),
        ("FREQUENCY", "5"),
        ("BANDWIDTH_HZ", "7"),
        ("INVERSION", " on "),
        ("GUARD_INTERVAL", "1/8"),
        ("TRANSMISSION_MODE", "8k"),
        ("ISDBT_LAYER_ENABLED", "7"),
        ("ISDBT_PARTIAL_RECEPTION", "1"),
        ("ISDBT_SOUND_BROADCASTING", "0"),
        ("ISDBT_SB_SUBCHANNEL_ID", "2"),
        ("ISDBT_SB_SEGMENT_IDX", "3"),
        ("ISDBT_SB_SEGMENT_COUNT", "4"),
        ("ISDBT_LAYERA_FEC", "2/3"),
        ("ISDBT_LAYERA_MODULATION", "QAM/64"),
        ("ISDBT_LAYERA_SEGMENT_COUNT", "5"),
        ("ISDBT_LAYERA_TIME_INTERLEAVING", "6"),
        ("ISDBT_LAYERB_FEC", ""),
        ("ISDBT_LAYERB_MODULATION", "qam/auto"),
        ("ISDBT_LAYERB_SEGMENT_COUNT", "8"),
        ("ISDBT_LAYERB_TIME_INTERLEAVING", "9"),
        ("ISDBT_LAYERC_FEC", "AUTO"),
        ("ISDBT_LAYERC_MODULATION", "QAM/16"),
        ("ISDBT_LAYERC_SEGMENT_COUNT", "10"),
        ("ISDBT_LAYERC_TIME_INTERLEAVING", "255"),
    ];
    assert_eq!(
        props(&all, 9),
        vec![
            (2, 0),
            (17, 16),
            (3, 5),
            (5, 7),
            (6, 1),
            (38, 2),
            (39, 1),
            (41, 7),
            (18, 1),
            (19, 0),
            (20, 2),
            (21, 3),
            (22, 4),
            (23, 9),
            (24, 3),
            (25, 5),
            (26, 6),
            (27, 9),
            (28, 6),
            (29, 8),
            (30, 9),
            (31, 9),
            (32, 1),
            (33, 10),
            (34, 255),
            (1, 0),
        ]
    );
}

#[test]
fn numbers_that_do_not_fit_are_left_out() {
    let p = props(
        &[
            ("FREQUENCY", "5"),
            ("BANDWIDTH_HZ", "wide"),
            ("ISDBT_LAYER_ENABLED", "256"),
            ("ISDBT_LAYERA_SEGMENT_COUNT", "-1"),
        ],
        9,
    );
    assert_eq!(p.len(), 8);
    assert_eq!(p[3], (5, 9));
    assert_eq!(props(&[("FREQUENCY", "5"), ("BANDWIDTH_HZ", "0")], 9)[3], (5, 6_000_000));
}

#[test]
fn what_cannot_be_tuned_to() {
    match build_props_from_dvbv5(&entry(&[("DELIVERY_SYSTEM", "ISDBS"), ("FREQUENCY", "1")], 0)) {
        Err(Error::Msg(s)) => assert_eq!(s, "unsupported or missing DELIVERY_SYSTEM"),
        other => panic!("{other:?}"),
    }
    for pairs in [&[][..], &[("FREQUENCY", "x")][..]] {
        match build_props_from_dvbv5(&entry(pairs, 0)) {
            Err(Error::Parse(s)) => assert_eq!(s, "FREQUENCY"),
            other => panic!("{other:?}"),
        }
    }
}

#[test]
fn words_in_any_case() {
    assert_eq!(parse_inversion(" inverted"), 1);
    assert_eq!(parse_inversion("Off"), 0);
    assert_eq!(parse_inversion("not_inverted"), 0);
    assert_eq!(parse_inversion("maybe"), 2);
    assert_eq!(parse_delivery(" isdbt "), 8);
    assert_eq!(parse_delivery("dvbt"), 3);
    assert_eq!(parse_delivery("DVB-T"), 3);
    assert_eq!(parse_delivery("DvbC"), 1);
    assert_eq!(parse_delivery("DVBC_ANNEX_A"), 1);
    assert_eq!(parse_delivery("atsc"), 11);
    assert_eq!(parse_delivery(""), 0);
    assert_eq!(parse_modulation("qam256"), 5);
    assert_eq!(parse_modulation("auto64"), 6);
    assert_eq!(parse_modulation("QPSK"), 6);
    assert_eq!(parse_fec("1/2"), 9);
    let modes = ["2k", "8K", "auto", "4K", "1K", "16K", "32K", "c1", "C3780", "x"];
    let numbers: Vec<u32> = modes.iter().map(|m| parse_transmission(m)).collect();
    assert_eq!(numbers, vec![0, 1, 2, 3, 4, 5, 6, 7, 8, 2]);
    let guards = ["1/32", " 1/16", "1/8", "1/4 ", "AUTO", "1/128", "1/5"];
    let numbers: Vec<u32> = guards.iter().map(|g| parse_guard(g)).collect();
    assert_eq!(numbers, vec![0, 1, 2, 3, 4, 5, 4]);
}

#[test]
fn words_in_capitals_only() {
    assert_eq!(inversion_from_uppercase("ON"), 1);
    assert_eq!(inversion_from_uppercase("on"), 2);
    assert_eq!(delivery_from_uppercase("DVBT2"), 16);
    assert_eq!(delivery_from_uppercase("dvbt2"), 0);
    assert_eq!(transmission_from_uppercase("8K"), 1);
    assert_eq!(transmission_from_uppercase("8k"), 2);
    assert_eq!(modulation_from_uppercase("64AUTO"), 6);
    assert_eq!(modulation_from_uppercase("64auto"), 3);
}

#[test]
fn a_lock_counts_even_late() {
    assert_eq!(lock_step(0x1f, true), LockStep::Locked);
    assert_eq!(lock_step(0x10, false), LockStep::Locked);
    assert_eq!(lock_step(0x0f, true), LockStep::TimedOut);
    assert_eq!(lock_step(0xffff_ffef, false), LockStep::Poll);
}
