use dvb_rs::error::Error;
use dvb_rs::si_tables::{
    crc32_mpeg, parse_pat, parse_pmt, parse_sdt, section_byte_len_from_prefix, section_crc_ok,
    sorted_pids, split_descriptors, PatProgram, PmtStream,
};

const SDT_ACTUAL_TABLE_ID: u8 = 0x42;

/// One service-loop entry, framed per EN 300 468 §5.2.3:
/// service_id(2), EIT flags(1), running_status/free_CA/desc_len(2).
fn sdt_service_entry(service_id: u16, name_bytes: &[u8]) -> Vec<u8> {
    // 0x48 descriptor body: service_type, provider_len=0, name_len, name.
    let mut desc_body = vec![0x01u8, 0x00, name_bytes.len() as u8];
    desc_body.extend_from_slice(name_bytes);
    let descriptor = {
        let mut d = vec![0x48u8, desc_body.len() as u8];
        d.extend_from_slice(&desc_body);
        d
    };
    let mut svc = service_id.to_be_bytes().to_vec();
    svc.push(0x00); // reserved(6) + EIT_schedule + EIT_present_following
                    // running_status(3) | free_CA(1) | descriptors_loop_length(12)
    svc.push(0x80 | ((descriptor.len() >> 8) as u8 & 0x0f));
    svc.push(descriptor.len() as u8);
    svc.extend_from_slice(&descriptor);
    svc
}

/// A section of a header and a body, with its length and its CRC.
fn framed(mut sec: Vec<u8>, body: &[u8]) -> Vec<u8> {
    sec.extend_from_slice(body);
    // section_length = bytes after [2], including the 4-byte CRC.
    let section_length = (sec.len() - 3 + 4) as u16;
    sec[1] = 0xb0 | ((section_length >> 8) as u8 & 0x0f);
    sec[2] = section_length as u8;

    let crc = crc32_mpeg(&sec);
    sec.extend_from_slice(&crc.to_be_bytes());
    sec
}

// Build a real-layout SDT-actual section from pre-framed service
// entries: fixed 11-byte header, then the service loop straight to the
// CRC — SDT has no loop-length field. The CRC is computed in-place.
fn sdt_section(entries: &[Vec<u8>]) -> Vec<u8> {
    let header = vec![
        SDT_ACTUAL_TABLE_ID, // [0]
        0x00,
        0x00, // [1..3] section_length
        0x00,
        0x01, // [3..5] transport_stream_id
        0x01, // [5]  version / current_next
        0x00, // [6]  section_number
        0x00, // [7]  last_section_number
        0x00,
        0x00, // [8..10] original_network_id
        0x00, // [10] reserved_future_use
    ];
    framed(header, &entries.concat())
}

#[test]
fn sdt_service_name_is_arib_b24_decoded() {
    // ESC $ 3B; LS0; GL 0x7A 0x56 → ARIB additional symbol U+1F211 (🈑).
    // from_utf8_lossy would yield the literal control bytes, not 🈑.
    let arib = [0x1b, 0x24, 0x3b, 0x0f, 0x7a, 0x56];
    let section = sdt_section(&[sdt_service_entry(1234, &arib)]);

    let services = parse_sdt(&section).expect("parse SDT");
    assert_eq!(services.len(), 1);
    assert_eq!(services[0].service_id, 1234);
    assert_eq!(
        services[0].name, "🈑",
        "service name must be ARIB-B24 decoded (got {:?})",
        services[0].name
    );
    assert_ne!(
        services[0].name,
        String::from_utf8_lossy(&arib),
        "name must not be the raw from_utf8_lossy fallback",
    );
}

#[test]
fn sdt_parses_every_service_in_the_loop() {
    let arib = [0x1b, 0x24, 0x3b, 0x0f, 0x7a, 0x56];
    let section = sdt_section(&[
        sdt_service_entry(1064, &arib),
        sdt_service_entry(1065, &[]), // present, but unnamed
        sdt_service_entry(1448, &arib),
    ]);

    let services = parse_sdt(&section).expect("parse SDT");
    let ids: Vec<u16> = services.iter().map(|s| s.service_id).collect();
    assert_eq!(
        ids,
        vec![1064, 1065, 1448],
        "every service in the loop must be reported, in order"
    );
    assert_eq!(services[0].name, "🈑");
    assert_eq!(services[1].name, "", "unnamed service yields an empty name");
    assert_eq!(services[2].name, "🈑");
}

#[test]
fn sdt_tolerates_a_truncated_trailing_entry() {
    let arib = [0x1b, 0x24, 0x3b, 0x0f, 0x7a, 0x56];
    let mut good = sdt_service_entry(1064, &arib);
    good.extend_from_slice(&[0x04, 0x29, 0x00]); // 3 bytes of a 5-byte header
    let section = sdt_section(&[good]);

    let services = parse_sdt(&section).expect("parse SDT");
    assert_eq!(services.len(), 1);
    assert_eq!(services[0].service_id, 1064);
}

fn si_text(e: Error) -> String {
    match e {
        Error::Si(s) => s,
        other => panic!("{other:?}"),
    }
}

#[test]
fn sdt_errors() {
    let good = sdt_section(&[sdt_service_entry(1, b"\x0eA")]);
    assert_eq!(si_text(parse_sdt(&good[..14]).unwrap_err()), "SDT too short");
    let mut other = good.clone();
    other[0] = 0x46;
    assert_eq!(si_text(parse_sdt(&other).unwrap_err()), "not an SDT actual section");
    let mut bad = good.clone();
    bad[12] ^= 0x40;
    assert_eq!(si_text(parse_sdt(&bad).unwrap_err()), "SDT CRC mismatch");
    let mut long = good[..good.len() - 4].to_vec();
    long[2] += 1;
    let crc = crc32_mpeg(&long);
    long.extend_from_slice(&crc.to_be_bytes());
    assert_eq!(si_text(parse_sdt(&long).unwrap_err()), "incomplete SDT section");
}

#[test]
fn crc_of_known_data() {
    // The check value of CRC-32/MPEG-2.
    assert_eq!(crc32_mpeg(b"123456789"), 0x0376e6e7);
    assert_eq!(crc32_mpeg(&[]), 0xffff_ffff);
    let mut data = b"123456789".to_vec();
    data.extend_from_slice(&0x0376e6e7u32.to_be_bytes());
    assert!(section_crc_ok(&data));
    data[3] ^= 1;
    assert!(!section_crc_ok(&data));
    assert!(!section_crc_ok(&[1, 2, 3]));
}

#[test]
fn section_lengths() {
    assert_eq!(section_byte_len_from_prefix(&[0x42, 0xf1, 0x02]), Some(3 + 0x102));
    assert_eq!(section_byte_len_from_prefix(&[0x42, 0xf1]), None);
}

fn pat_section(programs: &[(u16, u16)]) -> Vec<u8> {
    let mut body = Vec::new();
    for (number, pid) in programs {
        body.extend_from_slice(&number.to_be_bytes());
        body.extend_from_slice(&(0xe000 | pid).to_be_bytes());
    }
    framed(vec![0x00, 0, 0, 0, 1, 0xc1, 0, 0], &body)
}

#[test]
fn pat_lists_programs_in_order() {
    let section = pat_section(&[(0, 0x0010), (1024, 0x1fc8), (1032, 0x01f0)]);
    assert_eq!(
        parse_pat(&section).unwrap(),
        vec![
            PatProgram { program_number: 0, pid: 0x0010 },
            PatProgram { program_number: 1024, pid: 0x1fc8 },
            PatProgram { program_number: 1032, pid: 0x01f0 },
        ]
    );
}

#[test]
fn pat_errors() {
    let good = pat_section(&[(1, 0x100), (2, 0x101)]);
    assert_eq!(si_text(parse_pat(&good[..15]).unwrap_err()), "PAT too short");
    let mut other = good.clone();
    other[0] = 2;
    assert_eq!(si_text(parse_pat(&other).unwrap_err()), "not a PAT section");
    let mut bad = good.clone();
    bad[9] ^= 1;
    assert_eq!(si_text(parse_pat(&bad).unwrap_err()), "PAT CRC mismatch");
    let mut long = good[..good.len() - 4].to_vec();
    long[2] += 4;
    let crc = crc32_mpeg(&long);
    long.extend_from_slice(&crc.to_be_bytes());
    assert_eq!(si_text(parse_pat(&long).unwrap_err()), "incomplete PAT section");
}

fn pmt_section(info: &[u8], streams: &[(u8, u16, &[u8])]) -> Vec<u8> {
    let mut body = Vec::new();
    body.extend_from_slice(&(0xf000 | info.len() as u16).to_be_bytes());
    body.extend_from_slice(info);
    for (kind, pid, es_info) in streams {
        body.push(*kind);
        body.extend_from_slice(&(0xe000 | pid).to_be_bytes());
        body.extend_from_slice(&(0xf000 | es_info.len() as u16).to_be_bytes());
        body.extend_from_slice(es_info);
    }
    framed(vec![0x02, 0, 0, 0x04, 0x00, 0xc1, 0, 0, 0xe1, 0xff], &body)
}

#[test]
fn pmt_lists_streams_and_entitlements() {
    let ca_program = [0x09, 0x04, 0x00, 0x05, 0xe9, 0x01];
    let ca_stream = [0x52, 0x01, 0x00, 0x09, 0x04, 0x00, 0x05, 0xe1, 0x12];
    let section = pmt_section(
        &ca_program,
        &[(0x02, 0x111, &ca_stream), (0x0f, 0x112, &ca_program)],
    );
    let map = parse_pmt(&section).unwrap();
    assert_eq!(map.program_number, 1024);
    assert_eq!(map.pcr_pid, 0x1ff);
    assert_eq!(map.ca_pids, vec![0x112, 0x901]);
    assert_eq!(
        map.streams,
        vec![
            PmtStream { stream_type: 0x02, pid: 0x111 },
            PmtStream { stream_type: 0x0f, pid: 0x112 },
        ]
    );
}

#[test]
fn pmt_errors() {
    let good = pmt_section(&[], &[(2, 0x111, &[])]);
    assert_eq!(si_text(parse_pmt(&good[..15]).unwrap_err()), "PMT too short");
    let mut other = good.clone();
    other[0] = 0;
    assert_eq!(si_text(parse_pmt(&other).unwrap_err()), "not a PMT section");
    let mut bad = good.clone();
    bad[8] ^= 1;
    assert_eq!(si_text(parse_pmt(&bad).unwrap_err()), "PMT CRC mismatch");

    let reframe = |f: fn(&mut Vec<u8>)| {
        let mut s = good[..good.len() - 4].to_vec();
        f(&mut s);
        let crc = crc32_mpeg(&s);
        s.extend_from_slice(&crc.to_be_bytes());
        si_text(parse_pmt(&s).unwrap_err())
    };
    assert_eq!(reframe(|s| s[2] += 1), "incomplete PMT section");
    assert_eq!(reframe(|s| s[11] = 0x20), "bad PMT program info length");
    assert_eq!(reframe(|s| s[16] = 0x20), "bad PMT ES info length");
}

#[test]
fn descriptors_up_to_the_cut() {
    let data = [0x48, 2, 1, 2, 0x4d, 0, 0x54, 5, 1];
    let found: Vec<(u8, Vec<u8>)> = split_descriptors(&data)
        .iter()
        .map(|d| (d.tag, d.body.to_vec()))
        .collect();
    assert_eq!(found, vec![(0x48, vec![1, 2]), (0x4d, vec![])]);
}

#[test]
fn identifiers_are_sorted_once() {
    assert_eq!(sorted_pids(&[5, 1, 5, 0, 9, 1]), vec![0, 1, 5, 9]);
    assert_eq!(sorted_pids(&[]), Vec::<u16>::new());
}

#[test]
fn a_header_alone_is_too_short() {
    assert_eq!(si_text(parse_pat(&[0x00, 0xf0, 0x00]).unwrap_err()), "PAT too short");
    assert_eq!(si_text(parse_sdt(&[0x42, 0xf0, 0x00]).unwrap_err()), "SDT too short");
}
