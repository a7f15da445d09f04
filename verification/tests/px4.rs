use dvb_rs::eit::TS_PACKET_SIZE;
use dvb_rs::error::Error;
use dvb_rs::px4::{
    device_path, freq_no_for_physical, isdbt_request, physical_from_frequency, PtxFreq, PullAction,
    Pulled, TsPidFilter, MAX_PULLS,
};
use std::io::{Cursor, ErrorKind, Read};

/// A packet filter in front of a source.
struct Filtered<R: Read> {
    inner: R,
    filter: TsPidFilter,
}

impl<R: Read> Read for Filtered<R> {
    fn read(&mut self, buf: &mut [u8]) -> std::io::Result<usize> {
        let mut tmp = [0u8; TS_PACKET_SIZE * 64];
        let mut action = self.filter.first_action();
        let mut pulls = 0u32;
        let mut failure = None;
        loop {
            match action {
                PullAction::Serve => return Ok(self.filter.serve(buf)),
                PullAction::End => return Ok(0),
                PullAction::Fail => return Err(failure.unwrap()),
                PullAction::Pull => {
                    pulls += 1;
                    action = match self.inner.read(&mut tmp) {
                        Ok(0) => self.filter.on_pull(pulls, Pulled::End),
                        Ok(n) => self.filter.on_pull(pulls, Pulled::Bytes(&tmp[..n])),
                        Err(e) if e.kind() == ErrorKind::Interrupted => {
                            self.filter.on_pull(pulls, Pulled::Interrupted)
                        }
                        Err(e) => {
                            failure = Some(e);
                            self.filter.on_pull(pulls, Pulled::Failed)
                        }
                    };
                }
            }
        }
    }
}

fn filtered<R: Read>(inner: R, keep: &[u16]) -> Filtered<R> {
    Filtered {
        inner,
        filter: TsPidFilter::new(keep),
    }
}

fn freq_no(ch: u16) -> i32 {
    freq_no_for_physical(ch)
}

#[test]
fn uhf_frequencies_map_to_physical_channels() {
    // 13ch is the ISDB-T plan's base; 62ch the top of the band.
    assert_eq!(physical_from_frequency(473_142_857).unwrap(), 13);
    assert_eq!(physical_from_frequency(539_142_857).unwrap(), 24);
    assert_eq!(physical_from_frequency(767_142_857).unwrap(), 62);
    // Not on a 6 MHz centre.
    assert!(physical_from_frequency(540_000_000).is_err());
    // CATV passthrough and out-of-band.
    assert!(physical_from_frequency(225_142_857).is_err());
    assert!(physical_from_frequency(800_000_000).is_err());
    // The ioctl number is ch + 50 (63..112 for UHF 13..62).
    assert_eq!(freq_no(13), 63);
    assert_eq!(freq_no(62), 112);
    assert_eq!(freq_no(24), 74);
}

#[test]
fn frequency_errors_tell_why() {
    let text = |f: u32| match physical_from_frequency(f).unwrap_err() {
        Error::Msg(s) => s,
        other => panic!("{other:?}"),
    };
    assert_eq!(
        text(225_142_857),
        "frequency 225142857 Hz is below UHF 13 — CATV passthrough is not supported on the px4 backend"
    );
    assert_eq!(
        text(800_000_000),
        "frequency 800000000 Hz is above UHF 62 (would be channel 67)"
    );
    assert_eq!(text(540_000_000), "frequency 540000000 Hz is not on a UHF 13-62 centre");
    // 100 kHz above a centre is still on it.
    assert_eq!(physical_from_frequency(539_242_857).unwrap(), 24);
    assert!(physical_from_frequency(539_242_858).is_err());
}

#[test]
fn every_uhf_channel_is_found_again() {
    for ch in 13..=62u16 {
        let f = 473_142_857 + (ch as u32 - 13) * 6_000_000;
        assert_eq!(physical_from_frequency(f).unwrap(), ch);
    }
}

#[test]
fn devices_and_requests() {
    assert_eq!(device_path(3), "/dev/px4video3");
    assert_eq!(isdbt_request(24), PtxFreq { freq_no: 74, slot: 0 });
}

/// Build one TS packet. `payload` is split across packets by the
/// caller; `pusi` marks the start of a section; `pid` selects.
fn pkt(pid: u16, cc: u8, pusi: bool, payload: &[u8]) -> Vec<u8> {
    let mut p = vec![0u8; TS_PACKET_SIZE];
    p[0] = 0x47;
    p[1] = ((pid >> 8) as u8 & 0x1f) | if pusi { 0x40 } else { 0 };
    p[2] = pid as u8;
    p[3] = (0x10) | (cc & 0x0f); // payload only
    if pusi {
        // pointer_field: section starts at payload[1]
        p[4] = 0;
        p[5..5 + payload.len()].copy_from_slice(payload);
    } else {
        p[4..4 + payload.len()].copy_from_slice(payload);
    }
    p
}

#[test]
fn pid_filter_keeps_only_wanted_pids() {
    let wanted = vec![0x0000, 0x0100];
    let mut stream = Vec::new();
    for pid in [0x0000u16, 0x0100, 0x0101, 0x1fff] {
        stream.extend(pkt(pid, 0, true, &[0xaa; 100]));
    }
    let src = Cursor::new(stream);
    let mut f = filtered(src, &wanted);
    let mut out = Vec::new();
    f.read_to_end(&mut out).unwrap();
    assert_eq!(out.len(), 2 * TS_PACKET_SIZE);
    for chunk in out.chunks_exact(TS_PACKET_SIZE) {
        let pid = ((chunk[1] as u16 & 0x1f) << 8) | chunk[2] as u16;
        assert!(wanted.contains(&pid), "unwanted pid {pid} leaked");
    }
}

#[test]
fn pid_filter_resyncs_and_handles_partial_packets() {
    // The stream starts mid-packet (no 0x47 at byte 0): the filter
    // must drop the run-in until a sync candidate, then emit whole
    // packets. A later partial read (packet split across reads) must
    // not lose alignment either.
    let p = pkt(0x0100, 0, true, &[0xbb; 100]);
    let mut stream = Vec::new();
    stream.extend_from_slice(&p[100..]); // run-in: payload bytes, no sync
    stream.extend_from_slice(&p);
    stream.extend(pkt(0x0100, 1, false, &[0xcc; 100]));

    // Give the filter its input in awkward slices so packets span
    // multiple reads.
    let src = Cursor::new(stream);
    let mut f = filtered(src, &[0x0100]);
    let mut out = Vec::new();
    f.read_to_end(&mut out).unwrap();
    assert_eq!(out.len(), 2 * TS_PACKET_SIZE);
    assert!(out.chunks_exact(TS_PACKET_SIZE).all(|w| w[0] == 0x47));
}

#[test]
fn empty_stream_stalls() {
    // A source that never yields data (no signal) must surface as a
    // stall (read returns 0), not an error or a spin.
    let src = Cursor::new(Vec::new());
    let mut f = filtered(src, &[0x0000]);
    let mut out = [0u8; 188];
    assert_eq!(f.read(&mut out).unwrap(), 0);
}

#[test]
fn cuts_make_no_difference() {
    let mut stream = Vec::new();
    for (i, pid) in [0x100u16, 0x200, 0x100, 0x300, 0x100].iter().enumerate() {
        stream.extend(pkt(*pid, i as u8, false, &[i as u8; 90]));
    }
    let whole = {
        let mut f = TsPidFilter::new(&[0x300, 0x100, 0x100]);
        f.push(&stream);
        let mut buf = vec![0u8; stream.len()];
        let n = f.serve(&mut buf);
        buf.truncate(n);
        buf
    };
    assert_eq!(whole.len(), 4 * TS_PACKET_SIZE);
    for size in [1, 7, 187, 188, 189, 400] {
        let mut f = TsPidFilter::new(&[0x100, 0x300]);
        let mut out = Vec::new();
        for piece in stream.chunks(size) {
            f.push(piece);
            let mut buf = [0u8; 50];
            let n = f.serve(&mut buf);
            out.extend_from_slice(&buf[..n]);
        }
        let mut buf = vec![0u8; stream.len()];
        let n = f.serve(&mut buf);
        out.extend_from_slice(&buf[..n]);
        assert_eq!(out, whole, "pieces of {size}");
    }
}

#[test]
fn a_stream_with_nothing_to_keep_is_given_up() {
    let p = pkt(0x1fff, 0, false, &[0; 10]);
    let mut f = TsPidFilter::new(&[0x100]);
    assert_eq!(f.first_action(), PullAction::Pull);
    assert_eq!(f.on_pull(1, Pulled::Bytes(&p)), PullAction::Pull);
    assert_eq!(f.on_pull(2, Pulled::Interrupted), PullAction::Pull);
    assert_eq!(f.on_pull(MAX_PULLS, Pulled::Bytes(&p)), PullAction::Serve);
    assert_eq!(f.serve(&mut [0u8; 188]), 0);
    assert_eq!(f.on_pull(1, Pulled::Failed), PullAction::Fail);
    assert_eq!(f.on_pull(1, Pulled::End), PullAction::End);
}

/// A source that gives pieces, fails or is interrupted, and then ends.
struct Moody {
    turns: Vec<Result<Vec<u8>, ErrorKind>>,
}

impl Read for Moody {
    fn read(&mut self, buf: &mut [u8]) -> std::io::Result<usize> {
        if self.turns.is_empty() {
            return Ok(0);
        }
        let data = self.turns.remove(0)?;
        buf[..data.len()].copy_from_slice(&data);
        Ok(data.len())
    }
}

#[test]
fn reads_between_failures_lose_nothing() {
    let mut stream = Vec::new();
    let mut expected = Vec::new();
    for i in 0..40u8 {
        let pid = [0x100u16, 0x200, 0x1fff, 0x300][i as usize % 4];
        let p = pkt(pid, i, i % 5 == 0, &[i; 120]);
        if pid == 0x100 || pid == 0x300 {
            expected.extend_from_slice(&p);
        }
        stream.extend(p);
    }
    for keep in [vec![0x100u16, 0x300], vec![0x300, 0x100, 0x300]] {
        for piece in [1, 50, 187, 188, 189, 1000] {
            for room in [1, 60, 188, 5000] {
                let mut turns = Vec::new();
                for (i, data) in stream.chunks(piece).enumerate() {
                    turns.push(Ok(data.to_vec()));
                    if i % 3 == 0 {
                        turns.push(Err(ErrorKind::Interrupted));
                    }
                    if i % 4 == 1 {
                        turns.push(Err(ErrorKind::WouldBlock));
                    }
                }
                let mut f = filtered(Moody { turns }, &keep);
                let mut out = Vec::new();
                let mut buf = vec![0u8; room];
                loop {
                    match f.read(&mut buf) {
                        Ok(0) => break,
                        Ok(n) => out.extend_from_slice(&buf[..n]),
                        Err(e) => assert_eq!(e.kind(), ErrorKind::WouldBlock),
                    }
                }
                assert_eq!(out, expected, "pieces of {piece}, reads of {room}");
            }
        }
    }
}
