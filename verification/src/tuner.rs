//! Tuning: the properties that a frontend is given, and the wait for its lock.

use crate::channel::{number, read_number, Settings};
use crate::config::{DvbV5Entry, EntryView};
use crate::dtv_cmds::{
    DTV_BANDWIDTH_HZ, DTV_CLEAR, DTV_DELIVERY_SYSTEM, DTV_FREQUENCY, DTV_GUARD_INTERVAL,
    DTV_INVERSION, DTV_ISDBT_LAYERA_FEC, DTV_ISDBT_LAYERA_MODULATION,
    DTV_ISDBT_LAYERA_SEGMENT_COUNT, DTV_ISDBT_LAYERA_TIME_INTERLEAVING, DTV_ISDBT_LAYERB_FEC,
    DTV_ISDBT_LAYERB_MODULATION, DTV_ISDBT_LAYERB_SEGMENT_COUNT,
    DTV_ISDBT_LAYERB_TIME_INTERLEAVING, DTV_ISDBT_LAYERC_FEC, DTV_ISDBT_LAYERC_MODULATION,
    DTV_ISDBT_LAYERC_SEGMENT_COUNT, DTV_ISDBT_LAYERC_TIME_INTERLEAVING, DTV_ISDBT_LAYER_ENABLED,
    DTV_ISDBT_PARTIAL_RECEPTION, DTV_ISDBT_SB_SEGMENT_COUNT, DTV_ISDBT_SB_SEGMENT_IDX,
    DTV_ISDBT_SB_SUBCHANNEL_ID, DTV_ISDBT_SOUND_BROADCASTING, DTV_TRANSMISSION_MODE, DTV_TUNE,
};
use crate::error::{outcome, Error, ErrorView};
use crate::text::{
    chars_of, find_part, has_part, same_text, text_of, trim, trimmed, uppercase,
};
use crate::text_map::TextMap;
use vstd::prelude::*;

verus! {

/// The bit of the frontend's status that tells of its lock.
pub const FE_HAS_LOCK: u32 = 16;

/// A property of a frontend: what it is and its value.
#[derive(Debug, Clone, Copy, PartialEq, Eq, Structural)]
pub struct DtvProperty {
    pub cmd: u32,
    pub data: u32,
}

/// The numbers of the values of properties (`linux/dvb/frontend.h`).
pub const SYS_UNDEFINED: u32 = 0;

pub const SYS_DVBC_ANNEX_A: u32 = 1;

pub const SYS_DVBT: u32 = 3;

pub const SYS_ISDBT: u32 = 8;

pub const SYS_ATSC: u32 = 11;

pub const SYS_DVBT2: u32 = 16;

pub const INVERSION_OFF: u32 = 0;

pub const INVERSION_ON: u32 = 1;

pub const INVERSION_AUTO: u32 = 2;

pub const FEC_AUTO: u32 = 9;

pub const QAM_16: u32 = 1;

pub const QAM_64: u32 = 3;

pub const QAM_256: u32 = 5;

pub const QAM_AUTO: u32 = 6;

pub const TRANSMISSION_MODE_2K: u32 = 0;

pub const TRANSMISSION_MODE_8K: u32 = 1;

pub const TRANSMISSION_MODE_AUTO: u32 = 2;

pub const TRANSMISSION_MODE_4K: u32 = 3;

pub const TRANSMISSION_MODE_1K: u32 = 4;

pub const TRANSMISSION_MODE_16K: u32 = 5;

pub const TRANSMISSION_MODE_32K: u32 = 6;

pub const TRANSMISSION_MODE_C1: u32 = 7;

pub const TRANSMISSION_MODE_C3780: u32 = 8;

pub const GUARD_INTERVAL_1_32: u32 = 0;

pub const GUARD_INTERVAL_1_16: u32 = 1;

pub const GUARD_INTERVAL_1_8: u32 = 2;

pub const GUARD_INTERVAL_1_4: u32 = 3;

pub const GUARD_INTERVAL_AUTO: u32 = 4;

pub const GUARD_INTERVAL_1_128: u32 = 5;

/// The width of a channel whose width is not given, in Hz.
pub const DEFAULT_BANDWIDTH_HZ: u32 = 6_000_000;

// ---- Values ----------------------------------------------------------------

/// The inversion that a word in capitals stands for.
pub open spec fn inversion(word: Seq<char>) -> u32 {
    if word == "ON"@ || word == "INVERTED"@ {
        INVERSION_ON
    } else if word == "OFF"@ || word == "NOT_INVERTED"@ {
        INVERSION_OFF
    } else {
        INVERSION_AUTO
    }
}

/// The inversion that a word in capitals stands for.
pub fn inversion_from_uppercase(word: &str) -> (n: u32)
    ensures
        n == inversion(word@),
{
    if same_text(word, "ON") || same_text(word, "INVERTED") {
        INVERSION_ON
    } else if same_text(word, "OFF") || same_text(word, "NOT_INVERTED") {
        INVERSION_OFF
    } else {
        INVERSION_AUTO
    }
}

/// A text without the white space around it, in capitals.
pub open spec fn capitals(s: Seq<char>) -> Seq<char> {
    uppercase(trimmed(s))
}

fn to_capitals(s: &str) -> (out: String)
    ensures
        out@ == capitals(s@),
{
    text_of(&trim(&chars_of(s))).as_str().to_uppercase()
}

/// The inversion that a setting stands for.
pub fn parse_inversion(s: &str) -> (n: u32)
    ensures
        n == inversion(capitals(s@)),
{
    inversion_from_uppercase(to_capitals(s).as_str())
}

/// The guard interval that a word stands for.
pub open spec fn guard_interval(word: Seq<char>) -> u32 {
    if word == "1/32"@ {
        GUARD_INTERVAL_1_32
    } else if word == "1/16"@ {
        GUARD_INTERVAL_1_16
    } else if word == "1/8"@ {
        GUARD_INTERVAL_1_8
    } else if word == "1/4"@ {
        GUARD_INTERVAL_1_4
    } else if word == "1/128"@ {
        GUARD_INTERVAL_1_128
    } else {
        GUARD_INTERVAL_AUTO
    }
}

/// The guard interval that a setting stands for.
pub fn parse_guard(s: &str) -> (n: u32)
    ensures
        n == guard_interval(trimmed(s@)),
{
    let text = text_of(&trim(&chars_of(s)));
    let word = text.as_str();
    if same_text(word, "1/32") {
        GUARD_INTERVAL_1_32
    } else if same_text(word, "1/16") {
        GUARD_INTERVAL_1_16
    } else if same_text(word, "1/8") {
        GUARD_INTERVAL_1_8
    } else if same_text(word, "1/4") {
        GUARD_INTERVAL_1_4
    } else if same_text(word, "1/128") {
        GUARD_INTERVAL_1_128
    } else {
        GUARD_INTERVAL_AUTO
    }
}

/// The transmission mode that a word in capitals stands for.
pub open spec fn transmission_mode(word: Seq<char>) -> u32 {
    if word == "2K"@ {
        TRANSMISSION_MODE_2K
    } else if word == "4K"@ {
        TRANSMISSION_MODE_4K
    } else if word == "8K"@ {
        TRANSMISSION_MODE_8K
    } else if word == "1K"@ {
        TRANSMISSION_MODE_1K
    } else if word == "16K"@ {
        TRANSMISSION_MODE_16K
    } else if word == "32K"@ {
        TRANSMISSION_MODE_32K
    } else if word == "C1"@ {
        TRANSMISSION_MODE_C1
    } else if word == "C3780"@ {
        TRANSMISSION_MODE_C3780
    } else {
        TRANSMISSION_MODE_AUTO
    }
}

/// The transmission mode that a word in capitals stands for.
pub fn transmission_from_uppercase(word: &str) -> (n: u32)
    ensures
        n == transmission_mode(word@),
{
    if same_text(word, "2K") {
        TRANSMISSION_MODE_2K
    } else if same_text(word, "4K") {
        TRANSMISSION_MODE_4K
    } else if same_text(word, "8K") {
        TRANSMISSION_MODE_8K
    } else if same_text(word, "1K") {
        TRANSMISSION_MODE_1K
    } else if same_text(word, "16K") {
        TRANSMISSION_MODE_16K
    } else if same_text(word, "32K") {
        TRANSMISSION_MODE_32K
    } else if same_text(word, "C1") {
        TRANSMISSION_MODE_C1
    } else if same_text(word, "C3780") {
        TRANSMISSION_MODE_C3780
    } else {
        TRANSMISSION_MODE_AUTO
    }
}

/// The transmission mode that a setting stands for.
pub fn parse_transmission(s: &str) -> (n: u32)
    ensures
        n == transmission_mode(capitals(s@)),
{
    transmission_from_uppercase(to_capitals(s).as_str())
}

/// The delivery system that a word in capitals stands for.
pub open spec fn delivery_system(word: Seq<char>) -> u32 {
    if word == "ISDBT"@ {
        SYS_ISDBT
    } else if word == "DVBT"@ || word == "DVB-T"@ {
        SYS_DVBT
    } else if word == "DVBT2"@ || word == "DVB-T2"@ {
        SYS_DVBT2
    } else if word == "DVBC"@ || word == "DVBC_ANNEX_A"@ {
        SYS_DVBC_ANNEX_A
    } else if word == "ATSC"@ {
        SYS_ATSC
    } else {
        SYS_UNDEFINED
    }
}

/// The delivery system that a word in capitals stands for.
pub fn delivery_from_uppercase(word: &str) -> (n: u32)
    ensures
        n == delivery_system(word@),
{
    if same_text(word, "ISDBT") {
        SYS_ISDBT
    } else if same_text(word, "DVBT") || same_text(word, "DVB-T") {
        SYS_DVBT
    } else if same_text(word, "DVBT2") || same_text(word, "DVB-T2") {
        SYS_DVBT2
    } else if same_text(word, "DVBC") || same_text(word, "DVBC_ANNEX_A") {
        SYS_DVBC_ANNEX_A
    } else if same_text(word, "ATSC") {
        SYS_ATSC
    } else {
        SYS_UNDEFINED
    }
}

/// The delivery system that a setting stands for.
pub fn parse_delivery(s: &str) -> (n: u32)
    ensures
        n == delivery_system(capitals(s@)),
{
    delivery_from_uppercase(to_capitals(s).as_str())
}

/// The modulation that a word in capitals stands for, by the number in it.
pub open spec fn modulation(word: Seq<char>) -> u32 {
    if has_part(word, "AUTO"@) {
        QAM_AUTO
    } else if has_part(word, "64"@) {
        QAM_64
    } else if has_part(word, "16"@) {
        QAM_16
    } else if has_part(word, "256"@) {
        QAM_256
    } else {
        QAM_AUTO
    }
}

/// The modulation that a word in capitals stands for.
pub fn modulation_from_uppercase(word: &str) -> (n: u32)
    ensures
        n == modulation(word@),
{
    let chars = chars_of(word);
    if find_part(&chars, &chars_of("AUTO")) {
        QAM_AUTO
    } else if find_part(&chars, &chars_of("64")) {
        QAM_64
    } else if find_part(&chars, &chars_of("16")) {
        QAM_16
    } else if find_part(&chars, &chars_of("256")) {
        QAM_256
    } else {
        QAM_AUTO
    }
}

/// The modulation that a setting stands for.
pub fn parse_modulation(s: &str) -> (n: u32)
    ensures
        n == modulation(capitals(s@)),
{
    modulation_from_uppercase(to_capitals(s).as_str())
}

/// The code rate that a setting stands for: the frontend finds it.
pub fn parse_fec(_s: &str) -> (n: u32)
    ensures
        n == FEC_AUTO,
{
    FEC_AUTO
}

// ---- Properties ------------------------------------------------------------

pub open spec fn property(cmd: u32, data: u32) -> DtvProperty {
    DtvProperty { cmd, data }
}

/// A bandwidth, or the usual one where it is 0.
pub open spec fn bandwidth_or_default(bandwidth_hz: u32) -> u32 {
    if bandwidth_hz > 0 {
        bandwidth_hz
    } else {
        DEFAULT_BANDWIDTH_HZ
    }
}

/// A bandwidth, or the usual one where it is 0.
pub fn usual_bandwidth(bandwidth_hz: u32) -> (n: u32)
    ensures
        n == bandwidth_or_default(bandwidth_hz),
{
    if bandwidth_hz > 0 {
        bandwidth_hz
    } else {
        DEFAULT_BANDWIDTH_HZ
    }
}

/// The property of a setting that is a number of eight bits, if it is there.
pub open spec fn number_property(m: Settings, key: Seq<char>, cmd: u32) -> Seq<DtvProperty> {
    match number(m, key, 255) {
        Some(n) => seq![property(cmd, n as u32)],
        None => Seq::empty(),
    }
}

/// The property of a setting that is a modulation, if it is there.
pub open spec fn modulation_property(m: Settings, key: Seq<char>, cmd: u32) -> Seq<DtvProperty> {
    if m.contains_key(key) {
        seq![property(cmd, modulation(capitals(m[key])))]
    } else {
        Seq::empty()
    }
}

/// The property of a setting that is a code rate, if it is there.
pub open spec fn fec_property(m: Settings, key: Seq<char>, cmd: u32) -> Seq<DtvProperty> {
    if m.contains_key(key) {
        seq![property(cmd, FEC_AUTO)]
    } else {
        Seq::empty()
    }
}

/// The properties of the settings of the transport as a whole.
pub open spec fn transport_properties(m: Settings) -> Seq<DtvProperty> {
    number_property(m, "ISDBT_LAYER_ENABLED"@, DTV_ISDBT_LAYER_ENABLED) + number_property(
        m,
        "ISDBT_PARTIAL_RECEPTION"@,
        DTV_ISDBT_PARTIAL_RECEPTION,
    ) + number_property(m, "ISDBT_SOUND_BROADCASTING"@, DTV_ISDBT_SOUND_BROADCASTING)
        + number_property(m, "ISDBT_SB_SUBCHANNEL_ID"@, DTV_ISDBT_SB_SUBCHANNEL_ID)
        + number_property(m, "ISDBT_SB_SEGMENT_IDX"@, DTV_ISDBT_SB_SEGMENT_IDX) + number_property(
        m,
        "ISDBT_SB_SEGMENT_COUNT"@,
        DTV_ISDBT_SB_SEGMENT_COUNT,
    )
}

/// The properties of the settings of layer A.
pub open spec fn layer_a_properties(m: Settings) -> Seq<DtvProperty> {
    fec_property(m, "ISDBT_LAYERA_FEC"@, DTV_ISDBT_LAYERA_FEC) + modulation_property(
        m,
        "ISDBT_LAYERA_MODULATION"@,
        DTV_ISDBT_LAYERA_MODULATION,
    ) + number_property(m, "ISDBT_LAYERA_SEGMENT_COUNT"@, DTV_ISDBT_LAYERA_SEGMENT_COUNT)
        + number_property(m, "ISDBT_LAYERA_TIME_INTERLEAVING"@, DTV_ISDBT_LAYERA_TIME_INTERLEAVING)
}

/// The properties of the settings of layer B.
pub open spec fn layer_b_properties(m: Settings) -> Seq<DtvProperty> {
    fec_property(m, "ISDBT_LAYERB_FEC"@, DTV_ISDBT_LAYERB_FEC) + modulation_property(
        m,
        "ISDBT_LAYERB_MODULATION"@,
        DTV_ISDBT_LAYERB_MODULATION,
    ) + number_property(m, "ISDBT_LAYERB_SEGMENT_COUNT"@, DTV_ISDBT_LAYERB_SEGMENT_COUNT)
        + number_property(m, "ISDBT_LAYERB_TIME_INTERLEAVING"@, DTV_ISDBT_LAYERB_TIME_INTERLEAVING)
}

/// The properties of the settings of layer C.
pub open spec fn layer_c_properties(m: Settings) -> Seq<DtvProperty> {
    fec_property(m, "ISDBT_LAYERC_FEC"@, DTV_ISDBT_LAYERC_FEC) + modulation_property(
        m,
        "ISDBT_LAYERC_MODULATION"@,
        DTV_ISDBT_LAYERC_MODULATION,
    ) + number_property(m, "ISDBT_LAYERC_SEGMENT_COUNT"@, DTV_ISDBT_LAYERC_SEGMENT_COUNT)
        + number_property(m, "ISDBT_LAYERC_TIME_INTERLEAVING"@, DTV_ISDBT_LAYERC_TIME_INTERLEAVING)
}

/// The inversion of the settings, left to the frontend where it is missing.
pub open spec fn inversion_setting(m: Settings) -> u32 {
    if m.contains_key("INVERSION"@) {
        inversion(capitals(m["INVERSION"@]))
    } else {
        INVERSION_AUTO
    }
}

/// The guard interval of the settings, left to the frontend where it is missing.
pub open spec fn guard_setting(m: Settings) -> u32 {
    if m.contains_key("GUARD_INTERVAL"@) {
        guard_interval(trimmed(m["GUARD_INTERVAL"@]))
    } else {
        GUARD_INTERVAL_AUTO
    }
}

/// The transmission mode of the settings, left to the frontend where it is
/// missing.
pub open spec fn transmission_setting(m: Settings) -> u32 {
    if m.contains_key("TRANSMISSION_MODE"@) {
        transmission_mode(capitals(m["TRANSMISSION_MODE"@]))
    } else {
        TRANSMISSION_MODE_AUTO
    }
}

/// The delivery system of the settings, ISDB-T where it is missing.
pub open spec fn delivery_setting(m: Settings) -> u32 {
    if m.contains_key("DELIVERY_SYSTEM"@) {
        delivery_system(capitals(m["DELIVERY_SYSTEM"@]))
    } else {
        SYS_ISDBT
    }
}

/// The bandwidth of an entry: of its settings, or else of its channel, or else
/// the usual one.
pub open spec fn entry_bandwidth(e: EntryView) -> u32 {
    bandwidth_or_default(
        match number(e.raw, "BANDWIDTH_HZ"@, 0xffff_ffff) {
            Some(n) => n as u32,
            None => e.channel.bandwidth_hz,
        },
    )
}

/// The properties that every transport is tuned with.
pub open spec fn basic_properties(
    delivery: u32,
    frequency: u32,
    bandwidth_hz: u32,
    inversion: u32,
    guard: u32,
    transmission: u32,
) -> Seq<DtvProperty> {
    seq![
        property(DTV_CLEAR, 0),
        property(DTV_DELIVERY_SYSTEM, delivery),
        property(DTV_FREQUENCY, frequency),
        property(DTV_BANDWIDTH_HZ, bandwidth_hz),
        property(DTV_INVERSION, inversion),
        property(DTV_GUARD_INTERVAL, guard),
        property(DTV_TRANSMISSION_MODE, transmission),
    ]
}

/// The properties that tune to an entry, or what is missing in it.
pub open spec fn entry_properties(e: EntryView) -> Result<Seq<DtvProperty>, ErrorView> {
    if delivery_setting(e.raw) == SYS_UNDEFINED {
        Err(ErrorView::Msg("unsupported or missing DELIVERY_SYSTEM"@))
    } else {
        match number(e.raw, "FREQUENCY"@, 0xffff_ffff) {
            None => Err(ErrorView::Parse("FREQUENCY"@)),
            Some(frequency) => Ok(
                basic_properties(
                    delivery_setting(e.raw),
                    frequency as u32,
                    entry_bandwidth(e),
                    inversion_setting(e.raw),
                    guard_setting(e.raw),
                    transmission_setting(e.raw),
                ) + transport_properties(e.raw) + layer_a_properties(e.raw) + layer_b_properties(
                    e.raw,
                ) + layer_c_properties(e.raw) + seq![property(DTV_TUNE, 0)],
            ),
        }
    }
}

fn push_number(props: &mut Vec<DtvProperty>, m: &TextMap, key: &str, cmd: u32)
    ensures
        final(props)@ == old(props)@ + number_property(m@, key@, cmd),
{
    match read_number(m, key, 255) {
        Some(data) => {
            props.push(DtvProperty { cmd, data });
            assert(props@ =~= old(props)@ + seq![property(cmd, data)]);
        },
        None => {
            assert(props@ =~= old(props)@ + Seq::<DtvProperty>::empty());
        },
    }
}

fn push_modulation(props: &mut Vec<DtvProperty>, m: &TextMap, key: &str, cmd: u32)
    ensures
        final(props)@ == old(props)@ + modulation_property(m@, key@, cmd),
{
    match m.get(key) {
        Some(s) => {
            let data = parse_modulation(s.as_str());
            props.push(DtvProperty { cmd, data });
            assert(props@ =~= old(props)@ + seq![property(cmd, data)]);
        },
        None => {
            assert(props@ =~= old(props)@ + Seq::<DtvProperty>::empty());
        },
    }
}

fn push_fec(props: &mut Vec<DtvProperty>, m: &TextMap, key: &str, cmd: u32)
    ensures
        final(props)@ == old(props)@ + fec_property(m@, key@, cmd),
{
    match m.get(key) {
        Some(s) => {
            let data = parse_fec(s.as_str());
            props.push(DtvProperty { cmd, data });
            assert(props@ =~= old(props)@ + seq![property(cmd, data)]);
        },
        None => {
            assert(props@ =~= old(props)@ + Seq::<DtvProperty>::empty());
        },
    }
}

fn push_transport(props: &mut Vec<DtvProperty>, m: &TextMap)
    ensures
        final(props)@ == old(props)@ + transport_properties(m@),
{
    push_number(props, m, "ISDBT_LAYER_ENABLED", DTV_ISDBT_LAYER_ENABLED);
    push_number(props, m, "ISDBT_PARTIAL_RECEPTION", DTV_ISDBT_PARTIAL_RECEPTION);
    push_number(props, m, "ISDBT_SOUND_BROADCASTING", DTV_ISDBT_SOUND_BROADCASTING);
    push_number(props, m, "ISDBT_SB_SUBCHANNEL_ID", DTV_ISDBT_SB_SUBCHANNEL_ID);
    push_number(props, m, "ISDBT_SB_SEGMENT_IDX", DTV_ISDBT_SB_SEGMENT_IDX);
    push_number(props, m, "ISDBT_SB_SEGMENT_COUNT", DTV_ISDBT_SB_SEGMENT_COUNT);
    assert(props@ =~= old(props)@ + transport_properties(m@));
}

fn push_layer_a(props: &mut Vec<DtvProperty>, m: &TextMap)
    ensures
        final(props)@ == old(props)@ + layer_a_properties(m@),
{
    push_fec(props, m, "ISDBT_LAYERA_FEC", DTV_ISDBT_LAYERA_FEC);
    push_modulation(props, m, "ISDBT_LAYERA_MODULATION", DTV_ISDBT_LAYERA_MODULATION);
    push_number(props, m, "ISDBT_LAYERA_SEGMENT_COUNT", DTV_ISDBT_LAYERA_SEGMENT_COUNT);
    push_number(props, m, "ISDBT_LAYERA_TIME_INTERLEAVING", DTV_ISDBT_LAYERA_TIME_INTERLEAVING);
    assert(props@ =~= old(props)@ + layer_a_properties(m@));
}

fn push_layer_b(props: &mut Vec<DtvProperty>, m: &TextMap)
    ensures
        final(props)@ == old(props)@ + layer_b_properties(m@),
{
    push_fec(props, m, "ISDBT_LAYERB_FEC", DTV_ISDBT_LAYERB_FEC);
    push_modulation(props, m, "ISDBT_LAYERB_MODULATION", DTV_ISDBT_LAYERB_MODULATION);
    push_number(props, m, "ISDBT_LAYERB_SEGMENT_COUNT", DTV_ISDBT_LAYERB_SEGMENT_COUNT);
    push_number(props, m, "ISDBT_LAYERB_TIME_INTERLEAVING", DTV_ISDBT_LAYERB_TIME_INTERLEAVING);
    assert(props@ =~= old(props)@ + layer_b_properties(m@));
}

fn push_layer_c(props: &mut Vec<DtvProperty>, m: &TextMap)
    ensures
        final(props)@ == old(props)@ + layer_c_properties(m@),
{
    push_fec(props, m, "ISDBT_LAYERC_FEC", DTV_ISDBT_LAYERC_FEC);
    push_modulation(props, m, "ISDBT_LAYERC_MODULATION", DTV_ISDBT_LAYERC_MODULATION);
    push_number(props, m, "ISDBT_LAYERC_SEGMENT_COUNT", DTV_ISDBT_LAYERC_SEGMENT_COUNT);
    push_number(props, m, "ISDBT_LAYERC_TIME_INTERLEAVING", DTV_ISDBT_LAYERC_TIME_INTERLEAVING);
    assert(props@ =~= old(props)@ + layer_c_properties(m@));
}

/// The properties that every transport is tuned with.
fn make_basic(
    delivery: u32,
    frequency: u32,
    bandwidth_hz: u32,
    inversion: u32,
    guard: u32,
    transmission: u32,
) -> (props: Vec<DtvProperty>)
    ensures
        props@ == basic_properties(
            delivery,
            frequency,
            bandwidth_hz,
            inversion,
            guard,
            transmission,
        ),
{
    let mut props: Vec<DtvProperty> = Vec::new();
    props.push(DtvProperty { cmd: DTV_CLEAR, data: 0 });
    props.push(DtvProperty { cmd: DTV_DELIVERY_SYSTEM, data: delivery });
    props.push(DtvProperty { cmd: DTV_FREQUENCY, data: frequency });
    props.push(DtvProperty { cmd: DTV_BANDWIDTH_HZ, data: bandwidth_hz });
    props.push(DtvProperty { cmd: DTV_INVERSION, data: inversion });
    props.push(DtvProperty { cmd: DTV_GUARD_INTERVAL, data: guard });
    props.push(DtvProperty { cmd: DTV_TRANSMISSION_MODE, data: transmission });
    assert(props@ =~= basic_properties(
        delivery,
        frequency,
        bandwidth_hz,
        inversion,
        guard,
        transmission,
    ));
    props
}

/// The properties that tune to an entry, the order to tune at their end.
pub fn build_props_from_dvbv5(entry: &DvbV5Entry) -> (out: Result<Vec<DtvProperty>, Error>)
    ensures
        outcome(out) == entry_properties(entry@),
{
    let m = &entry.raw;
    let delivery = match m.get("DELIVERY_SYSTEM") {
        Some(s) => parse_delivery(s.as_str()),
        None => SYS_ISDBT,
    };
    if delivery == SYS_UNDEFINED {
        return Err(Error::Msg("unsupported or missing DELIVERY_SYSTEM".to_owned()));
    }
    let frequency = match read_number(m, "FREQUENCY", 0xffff_ffff) {
        Some(n) => n,
        None => return Err(Error::Parse("FREQUENCY".to_owned())),
    };
    let bandwidth_hz = usual_bandwidth(
        match read_number(m, "BANDWIDTH_HZ", 0xffff_ffff) {
            Some(n) => n,
            None => entry.channel.bandwidth_hz,
        },
    );
    let inversion = match m.get("INVERSION") {
        Some(s) => parse_inversion(s.as_str()),
        None => INVERSION_AUTO,
    };
    let guard = match m.get("GUARD_INTERVAL") {
        Some(s) => parse_guard(s.as_str()),
        None => GUARD_INTERVAL_AUTO,
    };
    let transmission = match m.get("TRANSMISSION_MODE") {
        Some(s) => parse_transmission(s.as_str()),
        None => TRANSMISSION_MODE_AUTO,
    };
    let mut props = make_basic(delivery, frequency, bandwidth_hz, inversion, guard, transmission);
    push_transport(&mut props, m);
    push_layer_a(&mut props, m);
    push_layer_b(&mut props, m);
    push_layer_c(&mut props, m);
    let ghost before = props@;
    props.push(DtvProperty { cmd: DTV_TUNE, data: 0 });
    assert(props@ =~= before + seq![property(DTV_TUNE, 0)]);
    Ok(props)
}

/// The properties that tune to an ISDB-T transport of which nothing but its
/// frequency and its width is known.
pub open spec fn simple_isdbt_properties(frequency: u32, bandwidth_hz: u32) -> Seq<DtvProperty> {
    basic_properties(
        SYS_ISDBT,
        frequency,
        bandwidth_or_default(bandwidth_hz),
        INVERSION_AUTO,
        GUARD_INTERVAL_AUTO,
        TRANSMISSION_MODE_AUTO,
    ) + seq![property(DTV_TUNE, 0)]
}

/// The properties that tune to an ISDB-T transport of which nothing but its
/// frequency and its width is known. The service makes no difference.
pub fn build_props_simple_isdbt(frequency: u32, bandwidth_hz: u32, _service_id: u16) -> (props: Vec<
    DtvProperty,
>)
    ensures
        props@ == simple_isdbt_properties(frequency, bandwidth_hz),
{
    let mut props = make_basic(
        SYS_ISDBT,
        frequency,
        usual_bandwidth(bandwidth_hz),
        INVERSION_AUTO,
        GUARD_INTERVAL_AUTO,
        TRANSMISSION_MODE_AUTO,
    );
    let ghost before = props@;
    props.push(DtvProperty { cmd: DTV_TUNE, data: 0 });
    assert(props@ =~= before + seq![property(DTV_TUNE, 0)]);
    props
}

// ---- Lock ------------------------------------------------------------------

/// What is done behind a look at the frontend's status.
#[derive(Debug, Clone, Copy, PartialEq, Eq, Structural)]
pub enum LockStep {
    Locked,
    TimedOut,
    /// Wait a little and look again.
    Poll,
}

/// What is done behind a look at the frontend's status. A lock counts even when
/// time is up.
pub fn lock_step(status: u32, time_is_up: bool) -> (step: LockStep)
    ensures
        step == (if status & FE_HAS_LOCK != 0 {
            LockStep::Locked
        } else if time_is_up {
            LockStep::TimedOut
        } else {
            LockStep::Poll
        }),
{
    if status & FE_HAS_LOCK != 0 {
        LockStep::Locked
    } else if time_is_up {
        LockStep::TimedOut
    } else {
        LockStep::Poll
    }
}

// ---- Laws ------------------------------------------------------------------

/// The place of a command in the properties of an entry, where it has one.
pub open spec fn place(cmd: u32) -> int {
    if cmd == DTV_CLEAR {
        0
    } else if cmd == DTV_DELIVERY_SYSTEM {
        1
    } else if cmd == DTV_FREQUENCY {
        2
    } else if cmd == DTV_BANDWIDTH_HZ {
        3
    } else if cmd == DTV_INVERSION {
        4
    } else if cmd == DTV_GUARD_INTERVAL {
        5
    } else if cmd == DTV_TRANSMISSION_MODE {
        6
    } else if cmd == DTV_ISDBT_LAYER_ENABLED {
        7
    } else if DTV_ISDBT_PARTIAL_RECEPTION <= cmd <= DTV_ISDBT_LAYERC_TIME_INTERLEAVING {
        cmd - DTV_ISDBT_PARTIAL_RECEPTION + 8
    } else {
        25
    }
}

/// Whether properties have places from `from` on and before `to`, each behind the
/// one before it.
spec fn is_part(props: Seq<DtvProperty>, from: int, to: int) -> bool {
    &&& props.len() <= to - from
    &&& forall|i: int| 0 <= i < props.len() ==> from <= place((#[trigger] props[i]).cmd) < to
    &&& forall|i: int, j: int|
        0 <= i < j < props.len() ==> place((#[trigger] props[i]).cmd) < place(
            (#[trigger] props[j]).cmd,
        )
}

proof fn lemma_parts_join(a: Seq<DtvProperty>, b: Seq<DtvProperty>, from: int, mid: int, to: int)
    requires
        is_part(a, from, mid),
        is_part(b, mid, to),
        from <= mid <= to,
    ensures
        is_part(a + b, from, to),
{
    let all = a + b;
    assert forall|i: int| 0 <= i < all.len() implies from <= place((#[trigger] all[i]).cmd)
        < to by {
        if i < a.len() {
            assert(all[i] == a[i]);
        } else {
            assert(all[i] == b[i - a.len()]);
        }
    }
    assert forall|i: int, j: int| 0 <= i < j < all.len() implies place((#[trigger] all[i]).cmd)
        < place((#[trigger] all[j]).cmd) by {
        if j < a.len() {
            assert(all[i] == a[i] && all[j] == a[j]);
        } else if i < a.len() {
            assert(all[i] == a[i] && all[j] == b[j - a.len()]);
        } else {
            assert(all[i] == b[i - a.len()] && all[j] == b[j - a.len()]);
        }
    }
}

proof fn lemma_single_parts(m: Settings, key: Seq<char>, cmd: u32)
    ensures
        is_part(number_property(m, key, cmd), place(cmd), place(cmd) + 1),
        is_part(modulation_property(m, key, cmd), place(cmd), place(cmd) + 1),
        is_part(fec_property(m, key, cmd), place(cmd), place(cmd) + 1),
{
}

proof fn lemma_layer_part(
    m: Settings,
    fec: Seq<char>,
    modulation: Seq<char>,
    count: Seq<char>,
    time: Seq<char>,
    cmd: u32,
)
    requires
        DTV_ISDBT_LAYERA_FEC <= cmd <= DTV_ISDBT_LAYERC_FEC,
    ensures
        is_part(
            fec_property(m, fec, cmd) + modulation_property(m, modulation, (cmd + 1) as u32)
                + number_property(m, count, (cmd + 2) as u32) + number_property(
                m,
                time,
                (cmd + 3) as u32,
            ),
            place(cmd),
            place(cmd) + 4,
        ),
{
    lemma_single_parts(m, fec, cmd);
    lemma_single_parts(m, modulation, (cmd + 1) as u32);
    lemma_single_parts(m, count, (cmd + 2) as u32);
    lemma_single_parts(m, time, (cmd + 3) as u32);
    let a = fec_property(m, fec, cmd);
    let b = modulation_property(m, modulation, (cmd + 1) as u32);
    let c = number_property(m, count, (cmd + 2) as u32);
    let d = number_property(m, time, (cmd + 3) as u32);
    let from = place(cmd);
    lemma_parts_join(a, b, from, from + 1, from + 2);
    lemma_parts_join(a + b, c, from, from + 2, from + 3);
    lemma_parts_join(a + b + c, d, from, from + 3, from + 4);
}

proof fn lemma_transport_part(m: Settings)
    ensures
        is_part(transport_properties(m), 7, 13),
{
    let a = number_property(m, "ISDBT_LAYER_ENABLED"@, DTV_ISDBT_LAYER_ENABLED);
    let b = number_property(m, "ISDBT_PARTIAL_RECEPTION"@, DTV_ISDBT_PARTIAL_RECEPTION);
    let c = number_property(m, "ISDBT_SOUND_BROADCASTING"@, DTV_ISDBT_SOUND_BROADCASTING);
    let d = number_property(m, "ISDBT_SB_SUBCHANNEL_ID"@, DTV_ISDBT_SB_SUBCHANNEL_ID);
    let e = number_property(m, "ISDBT_SB_SEGMENT_IDX"@, DTV_ISDBT_SB_SEGMENT_IDX);
    let f = number_property(m, "ISDBT_SB_SEGMENT_COUNT"@, DTV_ISDBT_SB_SEGMENT_COUNT);
    lemma_single_parts(m, "ISDBT_LAYER_ENABLED"@, DTV_ISDBT_LAYER_ENABLED);
    lemma_single_parts(m, "ISDBT_PARTIAL_RECEPTION"@, DTV_ISDBT_PARTIAL_RECEPTION);
    lemma_single_parts(m, "ISDBT_SOUND_BROADCASTING"@, DTV_ISDBT_SOUND_BROADCASTING);
    lemma_single_parts(m, "ISDBT_SB_SUBCHANNEL_ID"@, DTV_ISDBT_SB_SUBCHANNEL_ID);
    lemma_single_parts(m, "ISDBT_SB_SEGMENT_IDX"@, DTV_ISDBT_SB_SEGMENT_IDX);
    lemma_single_parts(m, "ISDBT_SB_SEGMENT_COUNT"@, DTV_ISDBT_SB_SEGMENT_COUNT);
    lemma_parts_join(a, b, 7, 8, 9);
    lemma_parts_join(a + b, c, 7, 9, 10);
    lemma_parts_join(a + b + c, d, 7, 10, 11);
    lemma_parts_join(a + b + c + d, e, 7, 11, 12);
    lemma_parts_join(a + b + c + d + e, f, 7, 12, 13);
}

proof fn lemma_layer_parts(m: Settings)
    ensures
        is_part(layer_a_properties(m), 13, 17),
        is_part(layer_b_properties(m), 17, 21),
        is_part(layer_c_properties(m), 21, 25),
{
    lemma_layer_part(
        m,
        "ISDBT_LAYERA_FEC"@,
        "ISDBT_LAYERA_MODULATION"@,
        "ISDBT_LAYERA_SEGMENT_COUNT"@,
        "ISDBT_LAYERA_TIME_INTERLEAVING"@,
        DTV_ISDBT_LAYERA_FEC,
    );
    lemma_layer_part(
        m,
        "ISDBT_LAYERB_FEC"@,
        "ISDBT_LAYERB_MODULATION"@,
        "ISDBT_LAYERB_SEGMENT_COUNT"@,
        "ISDBT_LAYERB_TIME_INTERLEAVING"@,
        DTV_ISDBT_LAYERB_FEC,
    );
    lemma_layer_part(
        m,
        "ISDBT_LAYERC_FEC"@,
        "ISDBT_LAYERC_MODULATION"@,
        "ISDBT_LAYERC_SEGMENT_COUNT"@,
        "ISDBT_LAYERC_TIME_INTERLEAVING"@,
        DTV_ISDBT_LAYERC_FEC,
    );
}

/// The properties of an entry start with the order to forget what was set, end
/// with the order to tune, hold no command twice, and are never more than 26; one
/// call takes 64.
pub proof fn law_properties_are_framed(e: EntryView)
    requires
        entry_properties(e) is Ok,
    ensures
        ({
            let props = entry_properties(e)->Ok_0;
            &&& 8 <= props.len() <= 26
            &&& props[0] == property(DTV_CLEAR, 0)
            &&& props.last() == property(DTV_TUNE, 0)
            &&& forall|i: int, j: int|
                0 <= i < j < props.len() ==> (#[trigger] props[i]).cmd != (#[trigger] props[j]).cmd
        }),
{
    let m = e.raw;
    let basic = basic_properties(
        delivery_setting(m),
        number(m, "FREQUENCY"@, 0xffff_ffff)->0 as u32,
        entry_bandwidth(e),
        inversion_setting(m),
        guard_setting(m),
        transmission_setting(m),
    );
    let a = transport_properties(m);
    let b = layer_a_properties(m);
    let c = layer_b_properties(m);
    let d = layer_c_properties(m);
    let tune = seq![property(DTV_TUNE, 0)];
    lemma_transport_part(m);
    lemma_layer_parts(m);
    assert(is_part(basic, 0, 7));
    lemma_parts_join(basic, a, 0, 7, 13);
    lemma_parts_join(basic + a, b, 0, 13, 17);
    lemma_parts_join(basic + a + b, c, 0, 17, 21);
    lemma_parts_join(basic + a + b + c, d, 0, 21, 25);
    let front = basic + a + b + c + d;
    assert(is_part(tune, 25, 26));
    lemma_parts_join(front, tune, 0, 25, 26);
    let props = entry_properties(e)->Ok_0;
    assert(props == front + tune);
    assert(front[0] == basic[0]);
    assert(props[0] == front[0]);
}

/// The commands of the properties of an entry come at their places.
pub proof fn lemma_commands_in_order(e: EntryView)
    requires
        entry_properties(e) is Ok,
    ensures
        forall|i: int, j: int|
            0 <= i < j < entry_properties(e)->Ok_0.len() ==> place(
                (#[trigger] entry_properties(e)->Ok_0[i]).cmd,
            ) < place((#[trigger] entry_properties(e)->Ok_0[j]).cmd),
{
    let m = e.raw;
    let basic = basic_properties(
        delivery_setting(m),
        number(m, "FREQUENCY"@, 0xffff_ffff)->0 as u32,
        entry_bandwidth(e),
        inversion_setting(m),
        guard_setting(m),
        transmission_setting(m),
    );
    let a = transport_properties(m);
    let b = layer_a_properties(m);
    let c = layer_b_properties(m);
    let d = layer_c_properties(m);
    let tune = seq![property(DTV_TUNE, 0)];
    lemma_transport_part(m);
    lemma_layer_parts(m);
    assert(is_part(basic, 0, 7));
    lemma_parts_join(basic, a, 0, 7, 13);
    lemma_parts_join(basic + a, b, 0, 13, 17);
    lemma_parts_join(basic + a + b, c, 0, 17, 21);
    lemma_parts_join(basic + a + b + c, d, 0, 21, 25);
    let front = basic + a + b + c + d;
    assert(is_part(tune, 25, 26));
    lemma_parts_join(front, tune, 0, 25, 26);
    assert(entry_properties(e)->Ok_0 == front + tune);
}

/// An entry without settings but its frequency is tuned to like a transport of
/// which nothing but its frequency and its width is known.
pub proof fn law_silent_entry_is_simple(e: EntryView)
    requires
        forall|key: Seq<char>|
            #[trigger] e.raw.contains_key(key) ==> key == "FREQUENCY"@ || key == "SERVICE_ID"@,
        number(e.raw, "FREQUENCY"@, 0xffff_ffff) is Some,
    ensures
        entry_properties(e) == Ok::<Seq<DtvProperty>, ErrorView>(
            simple_isdbt_properties(
                number(e.raw, "FREQUENCY"@, 0xffff_ffff)->0 as u32,
                e.channel.bandwidth_hz,
            ),
        ),
{
    reveal_strlit("FREQUENCY");
    reveal_strlit("SERVICE_ID");
    reveal_strlit("DELIVERY_SYSTEM");
    reveal_strlit("BANDWIDTH_HZ");
    reveal_strlit("INVERSION");
    reveal_strlit("GUARD_INTERVAL");
    reveal_strlit("TRANSMISSION_MODE");
    reveal_strlit("ISDBT_LAYER_ENABLED");
    reveal_strlit("ISDBT_PARTIAL_RECEPTION");
    reveal_strlit("ISDBT_SOUND_BROADCASTING");
    reveal_strlit("ISDBT_SB_SUBCHANNEL_ID");
    reveal_strlit("ISDBT_SB_SEGMENT_IDX");
    reveal_strlit("ISDBT_SB_SEGMENT_COUNT");
    reveal_strlit("ISDBT_LAYERA_FEC");
    reveal_strlit("ISDBT_LAYERA_MODULATION");
    reveal_strlit("ISDBT_LAYERA_SEGMENT_COUNT");
    reveal_strlit("ISDBT_LAYERA_TIME_INTERLEAVING");
    reveal_strlit("ISDBT_LAYERB_FEC");
    reveal_strlit("ISDBT_LAYERB_MODULATION");
    reveal_strlit("ISDBT_LAYERB_SEGMENT_COUNT");
    reveal_strlit("ISDBT_LAYERB_TIME_INTERLEAVING");
    reveal_strlit("ISDBT_LAYERC_FEC");
    reveal_strlit("ISDBT_LAYERC_MODULATION");
    reveal_strlit("ISDBT_LAYERC_SEGMENT_COUNT");
    reveal_strlit("ISDBT_LAYERC_TIME_INTERLEAVING");
    assert forall|key: Seq<char>| key.len() > 0 && key[0] != 'F' && key[0] != 'S' implies
        !#[trigger] e.raw.contains_key(key) by {
        if e.raw.contains_key(key) {
            assert(key == "FREQUENCY"@ || key == "SERVICE_ID"@);
        }
    }
    let m = e.raw;
    assert(transport_properties(m) =~= Seq::<DtvProperty>::empty());
    assert(layer_a_properties(m) =~= Seq::<DtvProperty>::empty());
    assert(layer_b_properties(m) =~= Seq::<DtvProperty>::empty());
    assert(layer_c_properties(m) =~= Seq::<DtvProperty>::empty());
    assert(entry_properties(e)->Ok_0 =~= simple_isdbt_properties(
        number(m, "FREQUENCY"@, 0xffff_ffff)->0 as u32,
        e.channel.bandwidth_hz,
    ));
}

} // verus!
