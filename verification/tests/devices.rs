use dvb_rs::demux::{demux_path, dvr_path, stream_step, StreamEvent, StreamStep};
use dvb_rs::error::Error;
use dvb_rs::frontend::{adapter_in_use, adapter_lock_path, frontend_path};
use dvb_rs::names::unique_name;
use dvb_rs::signal::SignalStats;
use dvb_rs::sys::dmx_abi::{
    DmxInput, DmxOutput, DmxPesFilterParams, DmxPesType, DmxSctFilterParams,
};

#[test]
fn paths() {
    assert_eq!(demux_path(1, 2), "/dev/dvb/adapter1/demux2");
    assert_eq!(dvr_path(0, 10), "/dev/dvb/adapter0/dvr10");
    assert_eq!(frontend_path(3, 0), "/dev/dvb/adapter3/frontend0");
    assert_eq!(adapter_lock_path(4), "/tmp/dvbr-adapter4.lock");
    match adapter_in_use(4) {
        Error::Msg(s) => assert_eq!(
            s,
            "DVB adapter 4 is already in use (lock: /tmp/dvbr-adapter4.lock)"
        ),
        other => panic!("{other:?}"),
    }
}

#[test]
fn a_silent_stream_is_given_up() {
    assert!(matches!(stream_step(StreamEvent::Bytes(5), 99), StreamStep::Write(5)));
    assert!(matches!(stream_step(StreamEvent::Bytes(0), 29), StreamStep::PauseAndRead));
    assert!(matches!(stream_step(StreamEvent::Interrupted, 99), StreamStep::Read));
    assert!(matches!(stream_step(StreamEvent::Failed, 0), StreamStep::Fail));
    match stream_step(StreamEvent::Bytes(0), 30) {
        StreamStep::GiveUp(Error::Msg(s)) => assert_eq!(
            s,
            "DVR delivered no data for 30s; aborting (signal loss or driver hang?)"
        ),
        other => panic!("{other:?}"),
    }
}

#[test]
fn taps() {
    let tap = DmxPesFilterParams::ts_tap_pid(0x12);
    assert_eq!((tap.pid, tap.input, tap.output, tap.pes_type, tap.flags), (0x12, 0, 2, 20, 4));
    let all = DmxPesFilterParams::ts_tap_all_pids_mythological(0x2000);
    assert_eq!((all.pid, all.flags), (0x2000, 0));
    assert_eq!((DmxInput::Dvr.number(), DmxPesType::Other.number()), (1, 20));
    assert_eq!(
        [DmxOutput::Decoder, DmxOutput::Tap, DmxOutput::TsTap, DmxOutput::TsDemuxTap]
            .map(|o| o.number()),
        [0, 1, 2, 3]
    );
}

#[test]
fn section_filters() {
    let zero = [0u8; 16];
    let p = DmxSctFilterParams::pat(0);
    assert_eq!((p.pid, p.timeout, p.flags), (0, 0, 5));
    assert_eq!((p.filter.filter, p.filter.mask[0], p.filter.mode), (zero, 0xff, zero));
    let p = DmxSctFilterParams::sdt_actual(0x11);
    assert_eq!((p.filter.filter[0], p.filter.mask[0], p.flags), (0x42, 0xff, 5));
    let p = DmxSctFilterParams::eit_pf(0x12, 700);
    assert_eq!((p.filter.filter[0], p.timeout, p.flags), (0x4e, 700, 4));
    let p = DmxSctFilterParams::eit_pf_for_service(0x12, 0x0428);
    assert_eq!(p.filter.filter[..6], [0x4e, 0, 0, 0x04, 0x28, 0]);
    assert_eq!(p.filter.mask[..6], [0xff, 0, 0, 0xff, 0xff, 0]);
    let p = DmxSctFilterParams::any_on_pid(0x12);
    assert_eq!((p.filter.filter, p.filter.mask, p.flags), (zero, zero, 4));
    let p = DmxSctFilterParams::eit_schedule_for_service(0x12, 0x0428);
    assert_eq!(p.filter.filter[..6], [0x50, 0, 0, 0x04, 0x28, 0]);
    assert_eq!(p.filter.mask[..6], [0xf0, 0, 0, 0xff, 0xff, 0]);
    assert_eq!((p.filter.mode[0], p.filter.mode[1]), (0xff, 0));
}

#[test]
fn signals_as_text() {
    let mut s = SignalStats {
        lock_mask: 0x1f,
        signal_strength_0_ffff: Some(40000),
        snr_0_ffff: None,
    };
    assert_eq!(
        s.text(),
        "status mask: 0x0000001f (HAS_LOCK=0x10)\nsignal (legacy ioctl): 40000\n"
    );
    s.snr_0_ffff = Some(7);
    s.signal_strength_0_ffff = None;
    assert_eq!(s.text(), "status mask: 0x0000001f (HAS_LOCK=0x10)\nsnr (legacy ioctl): 7\n");
}

#[test]
fn names_that_are_free() {
    let taken: Vec<String> = ["a", "a_2", "a_4"].iter().map(|s| s.to_string()).collect();
    assert_eq!(unique_name("b", &taken), "b");
    assert_eq!(unique_name("a", &taken), "a_3");
    assert_eq!(unique_name("a_2", &taken), "a_2_2");
}

#[test]
fn errors_from_text() {
    assert!(matches!(Error::from("x"), Error::Msg(s) if s == "x"));
    assert!(matches!(Error::from("y".to_string()), Error::Msg(s) if s == "y"));
}
