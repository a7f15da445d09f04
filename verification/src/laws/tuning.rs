//! What a frontend is told to tune to an entry: which property carries which
//! setting.

use crate::channel::{number, Settings};
use crate::config::{DvbV5Entry, EntryView};
use crate::error::{Error, ErrorView};
use crate::laws::channels::lemma_written;
use crate::laws::texts::reads_as;
use crate::text::{has_part, stands_at, trimmed, uppercase};
use crate::tuner::{
    basic_properties, build_props_from_dvbv5, build_props_simple_isdbt, delivery_setting,
    delivery_system, entry_bandwidth, entry_properties, fec_property, guard_interval,
    guard_setting, inversion, inversion_setting, layer_a_properties, layer_b_properties,
    layer_c_properties, lock_step, modulation, modulation_property, number_property,
    parse_delivery, parse_guard, parse_inversion, parse_modulation, parse_transmission, property,
    transmission_mode, transmission_setting, transport_properties, DtvProperty, LockStep,
};
use vstd::prelude::*;

verus! {

// ---- Words -----------------------------------------------------------------

/// The words for the inversion, in capitals, and their numbers.
pub proof fn law_inversion_words(word: Seq<char>)
    ensures
        word == "ON"@ || word == "INVERTED"@ ==> inversion(word) == 1,
        word == "OFF"@ || word == "NOT_INVERTED"@ ==> inversion(word) == 0,
        word != "ON"@ && word != "INVERTED"@ && word != "OFF"@ && word != "NOT_INVERTED"@
            ==> inversion(word) == 2,
{
    reveal_strlit("ON");
    reveal_strlit("INVERTED");
    reveal_strlit("OFF");
    reveal_strlit("NOT_INVERTED");
    assert("ON"@.len() == 2 && "INVERTED"@.len() == 8 && "OFF"@.len() == 3 && "NOT_INVERTED"@.len()
        == 12);
}

/// The words for the guard interval and their numbers.
pub proof fn law_guard_words(word: Seq<char>)
    ensures
        word == "1/32"@ ==> guard_interval(word) == 0,
        word == "1/16"@ ==> guard_interval(word) == 1,
        word == "1/8"@ ==> guard_interval(word) == 2,
        word == "1/4"@ ==> guard_interval(word) == 3,
        word == "1/128"@ ==> guard_interval(word) == 5,
        word != "1/32"@ && word != "1/16"@ && word != "1/8"@ && word != "1/4"@ && word != "1/128"@
            ==> guard_interval(word) == 4,
{
    reveal_strlit("1/32");
    reveal_strlit("1/16");
    reveal_strlit("1/8");
    reveal_strlit("1/4");
    reveal_strlit("1/128");
    assert("1/32"@[2] == '3' && "1/16"@[2] == '1' && "1/8"@[2] == '8' && "1/4"@[2] == '4');
    assert("1/32"@.len() == 4 && "1/128"@.len() == 5 && "1/8"@.len() == 3);
}

/// The words for the transmission mode, in capitals, and their numbers.
pub proof fn law_transmission_words(word: Seq<char>)
    ensures
        word == "2K"@ ==> transmission_mode(word) == 0,
        word == "8K"@ ==> transmission_mode(word) == 1,
        word == "4K"@ ==> transmission_mode(word) == 3,
        word == "1K"@ ==> transmission_mode(word) == 4,
        word == "16K"@ ==> transmission_mode(word) == 5,
        word == "32K"@ ==> transmission_mode(word) == 6,
        word == "C1"@ ==> transmission_mode(word) == 7,
        word == "C3780"@ ==> transmission_mode(word) == 8,
        word != "2K"@ && word != "8K"@ && word != "4K"@ && word != "1K"@ && word != "16K"@ && word
            != "32K"@ && word != "C1"@ && word != "C3780"@ ==> transmission_mode(word) == 2,
{
    reveal_strlit("2K");
    reveal_strlit("8K");
    reveal_strlit("4K");
    reveal_strlit("1K");
    reveal_strlit("16K");
    reveal_strlit("32K");
    reveal_strlit("C1");
    reveal_strlit("C3780");
    assert("2K"@[0] == '2' && "8K"@[0] == '8' && "4K"@[0] == '4' && "1K"@[0] == '1' && "16K"@[0]
        == '1' && "32K"@[0] == '3' && "C1"@[0] == 'C' && "C3780"@[0] == 'C');
    assert("1K"@.len() == 2 && "16K"@.len() == 3 && "C1"@.len() == 2 && "C3780"@.len() == 5);
}

/// The words for the delivery system, in capitals, and their numbers.
pub proof fn law_delivery_words(word: Seq<char>)
    ensures
        word == "ISDBT"@ ==> delivery_system(word) == 8,
        word == "DVBT"@ || word == "DVB-T"@ ==> delivery_system(word) == 3,
        word == "DVBT2"@ || word == "DVB-T2"@ ==> delivery_system(word) == 16,
        word == "DVBC"@ || word == "DVBC_ANNEX_A"@ ==> delivery_system(word) == 1,
        word == "ATSC"@ ==> delivery_system(word) == 11,
        word != "ISDBT"@ && word != "DVBT"@ && word != "DVB-T"@ && word != "DVBT2"@ && word
            != "DVB-T2"@ && word != "DVBC"@ && word != "DVBC_ANNEX_A"@ && word != "ATSC"@
            ==> delivery_system(word) == 0,
{
    reveal_strlit("ISDBT");
    reveal_strlit("DVBT");
    reveal_strlit("DVB-T");
    reveal_strlit("DVBT2");
    reveal_strlit("DVB-T2");
    reveal_strlit("DVBC");
    reveal_strlit("DVBC_ANNEX_A");
    reveal_strlit("ATSC");
    assert("ISDBT"@[0] == 'I' && "DVBT"@[3] == 'T' && "DVB-T"@[3] == '-' && "DVBT2"@[3] == 'T'
        && "DVB-T2"@[3] == '-' && "DVBC"@[3] == 'C' && "DVBC_ANNEX_A"@[3] == 'C' && "ATSC"@[0]
        == 'A');
    assert("DVBT"@.len() == 4 && "DVB-T"@.len() == 5 && "DVBT2"@.len() == 5 && "DVB-T2"@.len() == 6
        && "DVBC"@.len() == 4 && "DVBC_ANNEX_A"@.len() == 12);
    assert("DVBT"@[0] == 'D' && "DVB-T"@[0] == 'D' && "DVBT2"@[0] == 'D' && "DVB-T2"@[0] == 'D'
        && "DVBC"@[0] == 'D' && "DVBC_ANNEX_A"@[0] == 'D');
}

/// Whether some part of a text is `part`.
pub open spec fn holds(s: Seq<char>, part: Seq<char>) -> bool {
    exists|before: Seq<char>, behind: Seq<char>| s == #[trigger] (before + part + behind)
}

pub proof fn lemma_holds(s: Seq<char>, part: Seq<char>)
    ensures
        holds(s, part) <==> has_part(s, part),
{
    if holds(s, part) {
        let (before, behind) = choose|before: Seq<char>, behind: Seq<char>|
            s == #[trigger] (before + part + behind);
        let at = before.len() as int;
        assert(s.subrange(at, at + part.len()) =~= part);
        assert(stands_at(s, part, at));
    }
    if has_part(s, part) {
        let at = choose|at: int| stands_at(s, part, at);
        assert(s =~= s.take(at) + part + s.skip(at + part.len()));
    }
}

/// The words for the modulation, in capitals: by the number that they hold.
pub proof fn law_modulation_words(word: Seq<char>)
    ensures
        holds(word, "AUTO"@) ==> modulation(word) == 6,
        !holds(word, "AUTO"@) && holds(word, "64"@) ==> modulation(word) == 3,
        !holds(word, "AUTO"@) && !holds(word, "64"@) && holds(word, "16"@) ==> modulation(word)
            == 1,
        !holds(word, "AUTO"@) && !holds(word, "64"@) && !holds(word, "16"@) && holds(word, "256"@)
            ==> modulation(word) == 5,
        !holds(word, "AUTO"@) && !holds(word, "64"@) && !holds(word, "16"@) && !holds(word, "256"@)
            ==> modulation(word) == 6,
{
    lemma_holds(word, "AUTO"@);
    lemma_holds(word, "64"@);
    lemma_holds(word, "16"@);
    lemma_holds(word, "256"@);
}

/// Settings that are words are read in any case and with white space around them;
/// the guard interval has no letters.
pub proof fn law_words_are_read(s: &str, a: u32, b: u32, c: u32, d: u32, e: u32)
    requires
        call_ensures(parse_inversion, (s,), a),
        call_ensures(parse_transmission, (s,), b),
        call_ensures(parse_delivery, (s,), c),
        call_ensures(parse_modulation, (s,), d),
        call_ensures(parse_guard, (s,), e),
    ensures
        a == inversion(uppercase(trimmed(s@))),
        b == transmission_mode(uppercase(trimmed(s@))),
        c == delivery_system(uppercase(trimmed(s@))),
        d == modulation(uppercase(trimmed(s@))),
        e == guard_interval(trimmed(s@)),
{
}

// ---- Properties ------------------------------------------------------------

/// The data of the properties with a command, in order.
pub open spec fn carried(props: Seq<DtvProperty>, cmd: u32) -> Seq<u32>
    decreases props.len(),
{
    if props.len() == 0 {
        Seq::empty()
    } else if props[0].cmd == cmd {
        seq![props[0].data] + carried(props.skip(1), cmd)
    } else {
        carried(props.skip(1), cmd)
    }
}

proof fn lemma_carried_add(a: Seq<DtvProperty>, b: Seq<DtvProperty>, cmd: u32)
    ensures
        carried(a + b, cmd) == carried(a, cmd) + carried(b, cmd),
    decreases a.len(),
{
    if a.len() == 0 {
        assert(a + b =~= b);
        assert(carried(a, cmd) + carried(b, cmd) =~= carried(b, cmd));
    } else {
        lemma_carried_add(a.skip(1), b, cmd);
        assert((a + b).skip(1) =~= a.skip(1) + b);
        assert((a + b)[0] == a[0]);
        assert(carried(a + b, cmd) =~= carried(a, cmd) + carried(b, cmd));
    }
}

proof fn lemma_carried_one(p: DtvProperty, cmd: u32)
    ensures
        carried(seq![p], cmd) == (if p.cmd == cmd {
            seq![p.data]
        } else {
            Seq::empty()
        }),
        carried(Seq::empty(), cmd) == Seq::<u32>::empty(),
{
    assert(seq![p].skip(1) =~= Seq::<DtvProperty>::empty());
    assert(carried(seq![p].skip(1), cmd) =~= Seq::<u32>::empty());
    assert(seq![p.data] + Seq::<u32>::empty() =~= seq![p.data]);
}

/// Data where a condition holds, none otherwise.
pub open spec fn only_if(there: bool, data: u32) -> Seq<u32> {
    if there {
        seq![data]
    } else {
        Seq::empty()
    }
}

/// The data of a setting that is a number of eight bits; none where it is not
/// there or no such number.
pub open spec fn byte_data(m: Settings, key: Seq<char>) -> Seq<u32> {
    match number(m, key, 255) {
        Some(n) => seq![n as u32],
        None => Seq::empty(),
    }
}

/// The data of a setting that is a modulation.
pub open spec fn modulation_data(m: Settings, key: Seq<char>) -> Seq<u32> {
    only_if(m.contains_key(key), modulation(uppercase(trimmed(m[key]))))
}

proof fn lemma_carried_settings(m: Settings, key: Seq<char>, own: u32, cmd: u32)
    ensures
        carried(number_property(m, key, own), cmd) == (if own == cmd {
            byte_data(m, key)
        } else {
            Seq::empty()
        }),
        carried(modulation_property(m, key, own), cmd) == (if own == cmd {
            modulation_data(m, key)
        } else {
            Seq::empty()
        }),
        carried(fec_property(m, key, own), cmd) == (if own == cmd {
            only_if(m.contains_key(key), 9)
        } else {
            Seq::empty()
        }),
{
    lemma_carried_one(property(own, 9), cmd);
    lemma_carried_one(property(own, modulation(uppercase(trimmed(m[key])))), cmd);
    if let Some(n) = number(m, key, 255) {
        lemma_carried_one(property(own, n as u32), cmd);
    }
}

/// A part of a chain that is there for one command only.
pub open spec fn if_cmd(own: u32, cmd: u32, data: Seq<u32>) -> Seq<u32> {
    if own == cmd {
        data
    } else {
        Seq::empty()
    }
}

proof fn lemma_layer(
    m: Settings,
    fec: Seq<char>,
    word: Seq<char>,
    count: Seq<char>,
    time: Seq<char>,
    first: u32,
    cmd: u32,
)
    requires
        first < 100,
    ensures
        carried(
            fec_property(m, fec, first) + modulation_property(m, word, (first + 1) as u32)
                + number_property(m, count, (first + 2) as u32) + number_property(
                m,
                time,
                (first + 3) as u32,
            ),
            cmd,
        ) == (if cmd == first {
            only_if(m.contains_key(fec), 9)
        } else if cmd == first + 1 {
            modulation_data(m, word)
        } else if cmd == first + 2 {
            byte_data(m, count)
        } else if cmd == first + 3 {
            byte_data(m, time)
        } else {
            Seq::empty()
        }),
{
    let a = fec_property(m, fec, first);
    let b = modulation_property(m, word, (first + 1) as u32);
    let c = number_property(m, count, (first + 2) as u32);
    let d = number_property(m, time, (first + 3) as u32);
    lemma_carried_settings(m, fec, first, cmd);
    lemma_carried_settings(m, word, (first + 1) as u32, cmd);
    lemma_carried_settings(m, count, (first + 2) as u32, cmd);
    lemma_carried_settings(m, time, (first + 3) as u32, cmd);
    lemma_carried_add(a + b + c, d, cmd);
    lemma_carried_add(a + b, c, cmd);
    lemma_carried_add(a, b, cmd);
    let sum = carried(a, cmd) + carried(b, cmd) + carried(c, cmd) + carried(d, cmd);
    if cmd == first {
        assert(sum =~= carried(a, cmd));
    } else if cmd == first + 1 {
        assert(sum =~= carried(b, cmd));
    } else if cmd == first + 2 {
        assert(sum =~= carried(c, cmd));
    } else if cmd == first + 3 {
        assert(sum =~= carried(d, cmd));
    } else {
        assert(sum =~= Seq::<u32>::empty());
    }
}

#[verifier::rlimit(60)]
proof fn lemma_transport(m: Settings, cmd: u32)
    ensures
        carried(transport_properties(m), cmd) == (if cmd == 41 {
            byte_data(m, "ISDBT_LAYER_ENABLED"@)
        } else if cmd == 18 {
            byte_data(m, "ISDBT_PARTIAL_RECEPTION"@)
        } else if cmd == 19 {
            byte_data(m, "ISDBT_SOUND_BROADCASTING"@)
        } else if cmd == 20 {
            byte_data(m, "ISDBT_SB_SUBCHANNEL_ID"@)
        } else if cmd == 21 {
            byte_data(m, "ISDBT_SB_SEGMENT_IDX"@)
        } else if cmd == 22 {
            byte_data(m, "ISDBT_SB_SEGMENT_COUNT"@)
        } else {
            Seq::empty()
        }),
{
    let a = number_property(m, "ISDBT_LAYER_ENABLED"@, 41);
    let b = number_property(m, "ISDBT_PARTIAL_RECEPTION"@, 18);
    let c = number_property(m, "ISDBT_SOUND_BROADCASTING"@, 19);
    let d = number_property(m, "ISDBT_SB_SUBCHANNEL_ID"@, 20);
    let e = number_property(m, "ISDBT_SB_SEGMENT_IDX"@, 21);
    let f = number_property(m, "ISDBT_SB_SEGMENT_COUNT"@, 22);
    lemma_carried_settings(m, "ISDBT_LAYER_ENABLED"@, 41, cmd);
    lemma_carried_settings(m, "ISDBT_PARTIAL_RECEPTION"@, 18, cmd);
    lemma_carried_settings(m, "ISDBT_SOUND_BROADCASTING"@, 19, cmd);
    lemma_carried_settings(m, "ISDBT_SB_SUBCHANNEL_ID"@, 20, cmd);
    lemma_carried_settings(m, "ISDBT_SB_SEGMENT_IDX"@, 21, cmd);
    lemma_carried_settings(m, "ISDBT_SB_SEGMENT_COUNT"@, 22, cmd);
    lemma_carried_add(a + b + c + d + e, f, cmd);
    lemma_carried_add(a + b + c + d, e, cmd);
    lemma_carried_add(a + b + c, d, cmd);
    lemma_carried_add(a + b, c, cmd);
    lemma_carried_add(a, b, cmd);
    let x = carried(a, cmd) + carried(b, cmd) + carried(c, cmd);
    let sum = x + carried(d, cmd) + carried(e, cmd) + carried(f, cmd);
    if cmd == 41 {
        assert(sum =~= carried(a, cmd));
    } else if cmd == 18 {
        assert(sum =~= carried(b, cmd));
    } else if cmd == 19 {
        assert(sum =~= carried(c, cmd));
    } else if cmd == 20 {
        assert(sum =~= carried(d, cmd));
    } else if cmd == 21 {
        assert(sum =~= carried(e, cmd));
    } else if cmd == 22 {
        assert(sum =~= carried(f, cmd));
    } else {
        assert(sum =~= Seq::<u32>::empty());
    }
}

#[verifier::rlimit(60)]
proof fn lemma_basic(
    delivery: u32,
    frequency: u32,
    bandwidth_hz: u32,
    inverted: u32,
    guard: u32,
    mode: u32,
    cmd: u32,
)
    ensures
        carried(
            basic_properties(delivery, frequency, bandwidth_hz, inverted, guard, mode),
            cmd,
        ) == (if cmd == 2 {
            seq![0u32]
        } else if cmd == 17 {
            seq![delivery]
        } else if cmd == 3 {
            seq![frequency]
        } else if cmd == 5 {
            seq![bandwidth_hz]
        } else if cmd == 6 {
            seq![inverted]
        } else if cmd == 38 {
            seq![guard]
        } else if cmd == 39 {
            seq![mode]
        } else {
            Seq::empty()
        }),
{
    let p = basic_properties(delivery, frequency, bandwidth_hz, inverted, guard, mode);
    assert(p.len() == 7);
    let q = p.skip(1);
    let r = q.skip(1);
    let s = r.skip(1);
    let t = s.skip(1);
    let u = t.skip(1);
    let v = u.skip(1);
    let w = v.skip(1);
    assert(w =~= Seq::<DtvProperty>::empty());
    assert(carried(w, cmd) =~= Seq::<u32>::empty());
    assert(v[0] == property(39, mode));
    assert(u[0] == property(38, guard));
    assert(t[0] == property(6, inverted));
    assert(s[0] == property(5, bandwidth_hz));
    assert(r[0] == property(3, frequency));
    assert(q[0] == property(17, delivery));
    assert(p[0] == property(2, 0));
    assert(carried(v, cmd) =~= if_cmd(39, cmd, seq![mode]));
    assert(carried(u, cmd) =~= if_cmd(38, cmd, seq![guard]) + carried(v, cmd));
    assert(carried(t, cmd) =~= if_cmd(6, cmd, seq![inverted]) + carried(u, cmd));
    assert(carried(s, cmd) =~= if_cmd(5, cmd, seq![bandwidth_hz]) + carried(t, cmd));
    assert(carried(r, cmd) =~= if_cmd(3, cmd, seq![frequency]) + carried(s, cmd));
    assert(carried(q, cmd) =~= if_cmd(17, cmd, seq![delivery]) + carried(r, cmd));
    assert(carried(p, cmd) =~= if_cmd(2, cmd, seq![0u32]) + carried(q, cmd));
}

proof fn lemma_layers(m: Settings, cmd: u32)
    ensures
        carried(layer_a_properties(m), cmd) == (if cmd == 23 {
            only_if(m.contains_key("ISDBT_LAYERA_FEC"@), 9)
        } else if cmd == 24 {
            modulation_data(m, "ISDBT_LAYERA_MODULATION"@)
        } else if cmd == 25 {
            byte_data(m, "ISDBT_LAYERA_SEGMENT_COUNT"@)
        } else if cmd == 26 {
            byte_data(m, "ISDBT_LAYERA_TIME_INTERLEAVING"@)
        } else {
            Seq::empty()
        }),
        carried(layer_b_properties(m), cmd) == (if cmd == 27 {
            only_if(m.contains_key("ISDBT_LAYERB_FEC"@), 9)
        } else if cmd == 28 {
            modulation_data(m, "ISDBT_LAYERB_MODULATION"@)
        } else if cmd == 29 {
            byte_data(m, "ISDBT_LAYERB_SEGMENT_COUNT"@)
        } else if cmd == 30 {
            byte_data(m, "ISDBT_LAYERB_TIME_INTERLEAVING"@)
        } else {
            Seq::empty()
        }),
        carried(layer_c_properties(m), cmd) == (if cmd == 31 {
            only_if(m.contains_key("ISDBT_LAYERC_FEC"@), 9)
        } else if cmd == 32 {
            modulation_data(m, "ISDBT_LAYERC_MODULATION"@)
        } else if cmd == 33 {
            byte_data(m, "ISDBT_LAYERC_SEGMENT_COUNT"@)
        } else if cmd == 34 {
            byte_data(m, "ISDBT_LAYERC_TIME_INTERLEAVING"@)
        } else {
            Seq::empty()
        }),
{
    lemma_layer(
        m,
        "ISDBT_LAYERA_FEC"@,
        "ISDBT_LAYERA_MODULATION"@,
        "ISDBT_LAYERA_SEGMENT_COUNT"@,
        "ISDBT_LAYERA_TIME_INTERLEAVING"@,
        23,
        cmd,
    );
    lemma_layer(
        m,
        "ISDBT_LAYERB_FEC"@,
        "ISDBT_LAYERB_MODULATION"@,
        "ISDBT_LAYERB_SEGMENT_COUNT"@,
        "ISDBT_LAYERB_TIME_INTERLEAVING"@,
        27,
        cmd,
    );
    lemma_layer(
        m,
        "ISDBT_LAYERC_FEC"@,
        "ISDBT_LAYERC_MODULATION"@,
        "ISDBT_LAYERC_SEGMENT_COUNT"@,
        "ISDBT_LAYERC_TIME_INTERLEAVING"@,
        31,
        cmd,
    );
}

#[verifier::rlimit(60)]
proof fn lemma_entry(e: EntryView, cmd: u32)
    requires
        entry_properties(e) is Ok,
    ensures
        carried(entry_properties(e)->Ok_0, cmd) == carried(
            basic_properties(
                delivery_setting(e.raw),
                number(e.raw, "FREQUENCY"@, 0xffff_ffff)->0 as u32,
                entry_bandwidth(e),
                inversion_setting(e.raw),
                guard_setting(e.raw),
                transmission_setting(e.raw),
            ),
            cmd,
        ) + carried(transport_properties(e.raw), cmd) + carried(layer_a_properties(e.raw), cmd)
            + carried(layer_b_properties(e.raw), cmd) + carried(layer_c_properties(e.raw), cmd)
            + only_if(cmd == 1, 0),
{
    let m = e.raw;
    let basic = basic_properties(
        delivery_setting(m),
        number(m, "FREQUENCY"@, 0xffff_ffff)->0 as u32,
        entry_bandwidth(e),
        inversion_setting(m),
        guard_setting(m),
        transmission_setting(m),
    );
    let a = transport_properties(m);
    let b = layer_a_properties(m);
    let c = layer_b_properties(m);
    let d = layer_c_properties(m);
    let tune = seq![property(1, 0)];
    assert(entry_properties(e)->Ok_0 == basic + a + b + c + d + tune);
    lemma_carried_add(basic + a + b + c + d, tune, cmd);
    lemma_carried_add(basic + a + b + c, d, cmd);
    lemma_carried_add(basic + a + b, c, cmd);
    lemma_carried_add(basic + a, b, cmd);
    lemma_carried_add(basic, a, cmd);
    lemma_carried_one(property(1, 0), cmd);
}

/// The delivery system of an entry by its word: ISDB-T where it has none.
pub open spec fn wanted_system(m: Settings) -> u32 {
    if m.contains_key("DELIVERY_SYSTEM"@) {
        delivery_system(uppercase(trimmed(m["DELIVERY_SYSTEM"@])))
    } else {
        8
    }
}

/// An entry can be tuned to exactly where its delivery system is known and its
/// frequency is a number; of the two errors that of the system comes first.
pub proof fn law_what_can_be_tuned_to(e: EntryView)
    ensures
        entry_properties(e) is Ok <==> wanted_system(e.raw) != 0 && e.raw.contains_key(
            "FREQUENCY"@,
        ) && exists|n: int| reads_as(e.raw["FREQUENCY"@], 0xffff_ffff, n),
        wanted_system(e.raw) == 0 ==> entry_properties(e) == Err::<Seq<DtvProperty>, ErrorView>(
            ErrorView::Msg("unsupported or missing DELIVERY_SYSTEM"@),
        ),
        wanted_system(e.raw) != 0 && !(e.raw.contains_key("FREQUENCY"@) && exists|n: int|
            reads_as(e.raw["FREQUENCY"@], 0xffff_ffff, n)) ==> entry_properties(e) == Err::<
            Seq<DtvProperty>,
            ErrorView,
        >(ErrorView::Parse("FREQUENCY"@)),
{
    lemma_written(e.raw["FREQUENCY"@], 0xffff_ffff, 0);
}

/// The frontend is told the frequency of the entry as the entry writes it, once,
/// whatever other settings it has.
pub proof fn law_tuned_frequency(e: EntryView, frequency: u32)
    requires
        entry_properties(e) is Ok,
        reads_as(e.raw["FREQUENCY"@], 0xffff_ffff, frequency as int),
    ensures
        carried(entry_properties(e)->Ok_0, 3) == seq![frequency],
{
    lemma_written(e.raw["FREQUENCY"@], 0xffff_ffff, frequency as nat);
    lemma_main_commands(e, 3);
}

#[verifier::rlimit(60)]
proof fn lemma_main_commands(e: EntryView, cmd: u32)
    requires
        entry_properties(e) is Ok,
        cmd == 2 || cmd == 17 || cmd == 3 || cmd == 5 || cmd == 6 || cmd == 38 || cmd == 39 || cmd
            == 1,
    ensures
        carried(entry_properties(e)->Ok_0, cmd) == (if cmd == 2 || cmd == 1 {
            seq![0u32]
        } else if cmd == 17 {
            seq![delivery_setting(e.raw)]
        } else if cmd == 3 {
            seq![number(e.raw, "FREQUENCY"@, 0xffff_ffff)->0 as u32]
        } else if cmd == 5 {
            seq![entry_bandwidth(e)]
        } else if cmd == 6 {
            seq![inversion_setting(e.raw)]
        } else if cmd == 38 {
            seq![guard_setting(e.raw)]
        } else {
            seq![transmission_setting(e.raw)]
        }),
{
    lemma_entry(e, cmd);
    lemma_basic(
        delivery_setting(e.raw),
        number(e.raw, "FREQUENCY"@, 0xffff_ffff)->0 as u32,
        entry_bandwidth(e),
        inversion_setting(e.raw),
        guard_setting(e.raw),
        transmission_setting(e.raw),
        cmd,
    );
    lemma_transport(e.raw, cmd);
    lemma_layers(e.raw, cmd);
    let none = Seq::<u32>::empty();
    let first = carried(
        basic_properties(
            delivery_setting(e.raw),
            number(e.raw, "FREQUENCY"@, 0xffff_ffff)->0 as u32,
            entry_bandwidth(e),
            inversion_setting(e.raw),
            guard_setting(e.raw),
            transmission_setting(e.raw),
        ),
        cmd,
    );
    assert(first + none + none + none + none + none =~= first);
    assert(none + none + none + none + none + seq![0u32] =~= seq![0u32]);
}

/// The frontend is told once to forget what was set and once to tune, and once
/// each the delivery system, the width, the inversion, the guard interval and the
/// transmission mode: what the settings say, or else what is usual.
pub proof fn law_tuned_basics(e: EntryView)
    requires
        entry_properties(e) is Ok,
    ensures
        ({
            let props = entry_properties(e)->Ok_0;
            let m = e.raw;
            &&& carried(props, 2) == seq![0u32]
            &&& carried(props, 1) == seq![0u32]
            &&& carried(props, 17) == seq![wanted_system(m)]
            &&& carried(props, 6) == seq![
                if m.contains_key("INVERSION"@) {
                    inversion(uppercase(trimmed(m["INVERSION"@])))
                } else {
                    2
                },
            ]
            &&& carried(props, 38) == seq![
                if m.contains_key("GUARD_INTERVAL"@) {
                    guard_interval(trimmed(m["GUARD_INTERVAL"@]))
                } else {
                    4
                },
            ]
            &&& carried(props, 39) == seq![
                if m.contains_key("TRANSMISSION_MODE"@) {
                    transmission_mode(uppercase(trimmed(m["TRANSMISSION_MODE"@])))
                } else {
                    2
                },
            ]
        }),
{
    lemma_main_commands(e, 2);
    lemma_main_commands(e, 1);
    lemma_main_commands(e, 17);
    lemma_main_commands(e, 6);
    lemma_main_commands(e, 38);
    lemma_main_commands(e, 39);
}

/// The frontend is told the width that the settings give, or else that of the
/// channel; and 6 MHz where that is 0.
pub proof fn law_tuned_bandwidth(e: EntryView, n: u32)
    requires
        entry_properties(e) is Ok,
    ensures
        ({
            let data = carried(entry_properties(e)->Ok_0, 5);
            let m = e.raw;
            let given = m.contains_key("BANDWIDTH_HZ"@) && exists|k: int|
                reads_as(m["BANDWIDTH_HZ"@], 0xffff_ffff, k);
            &&& m.contains_key("BANDWIDTH_HZ"@) && reads_as(
                m["BANDWIDTH_HZ"@],
                0xffff_ffff,
                n as int,
            ) && n > 0 ==> data == seq![n]
            &&& m.contains_key("BANDWIDTH_HZ"@) && reads_as(m["BANDWIDTH_HZ"@], 0xffff_ffff, 0)
                ==> data == seq![6_000_000u32]
            &&& !given && e.channel.bandwidth_hz > 0 ==> data == seq![e.channel.bandwidth_hz]
            &&& !given && e.channel.bandwidth_hz == 0 ==> data == seq![6_000_000u32]
        }),
{
    lemma_main_commands(e, 5);
    lemma_written(e.raw["BANDWIDTH_HZ"@], 0xffff_ffff, n as nat);
    lemma_written(e.raw["BANDWIDTH_HZ"@], 0xffff_ffff, 0);
}

/// Settings that are numbers of eight bits, and their commands.
pub open spec fn is_byte_setting(key: Seq<char>, cmd: u32) -> bool {
    ||| key == "ISDBT_LAYER_ENABLED"@ && cmd == 41
    ||| key == "ISDBT_PARTIAL_RECEPTION"@ && cmd == 18
    ||| key == "ISDBT_SOUND_BROADCASTING"@ && cmd == 19
    ||| key == "ISDBT_SB_SUBCHANNEL_ID"@ && cmd == 20
    ||| key == "ISDBT_SB_SEGMENT_IDX"@ && cmd == 21
    ||| key == "ISDBT_SB_SEGMENT_COUNT"@ && cmd == 22
    ||| key == "ISDBT_LAYERA_SEGMENT_COUNT"@ && cmd == 25
    ||| key == "ISDBT_LAYERA_TIME_INTERLEAVING"@ && cmd == 26
    ||| key == "ISDBT_LAYERB_SEGMENT_COUNT"@ && cmd == 29
    ||| key == "ISDBT_LAYERB_TIME_INTERLEAVING"@ && cmd == 30
    ||| key == "ISDBT_LAYERC_SEGMENT_COUNT"@ && cmd == 33
    ||| key == "ISDBT_LAYERC_TIME_INTERLEAVING"@ && cmd == 34
}

/// Settings that are modulations, and their commands.
pub open spec fn is_modulation_setting(key: Seq<char>, cmd: u32) -> bool {
    ||| key == "ISDBT_LAYERA_MODULATION"@ && cmd == 24
    ||| key == "ISDBT_LAYERB_MODULATION"@ && cmd == 28
    ||| key == "ISDBT_LAYERC_MODULATION"@ && cmd == 32
}

/// Settings that are code rates, and their commands.
pub open spec fn is_rate_setting(key: Seq<char>, cmd: u32) -> bool {
    ||| key == "ISDBT_LAYERA_FEC"@ && cmd == 23
    ||| key == "ISDBT_LAYERB_FEC"@ && cmd == 27
    ||| key == "ISDBT_LAYERC_FEC"@ && cmd == 31
}

proof fn lemma_other_commands(e: EntryView, cmd: u32)
    requires
        entry_properties(e) is Ok,
        18 <= cmd <= 34 || cmd == 41,
    ensures
        carried(entry_properties(e)->Ok_0, cmd) == carried(transport_properties(e.raw), cmd)
            + carried(layer_a_properties(e.raw), cmd) + carried(layer_b_properties(e.raw), cmd)
            + carried(layer_c_properties(e.raw), cmd),
{
    lemma_entry(e, cmd);
    lemma_basic(
        delivery_setting(e.raw),
        number(e.raw, "FREQUENCY"@, 0xffff_ffff)->0 as u32,
        entry_bandwidth(e),
        inversion_setting(e.raw),
        guard_setting(e.raw),
        transmission_setting(e.raw),
        cmd,
    );
    let none = Seq::<u32>::empty();
    let a = carried(transport_properties(e.raw), cmd);
    let b = carried(layer_a_properties(e.raw), cmd);
    let c = carried(layer_b_properties(e.raw), cmd);
    let d = carried(layer_c_properties(e.raw), cmd);
    assert(none + a + b + c + d + none =~= a + b + c + d);
}

/// The frontend is told every further setting of the entry under the command that
/// belongs to it, once, with the number that it writes or the number of its word;
/// and nothing under the commands of settings that the entry does not have or that
/// are no numbers.
#[verifier::rlimit(60)]
pub proof fn law_tuned_settings(e: EntryView, key: Seq<char>, cmd: u32, n: u32)
    requires
        entry_properties(e) is Ok,
    ensures
        ({
            let data = carried(entry_properties(e)->Ok_0, cmd);
            let m = e.raw;
            &&& is_byte_setting(key, cmd) && m.contains_key(key) && reads_as(m[key], 255, n as int)
                ==> data == seq![n]
            &&& is_byte_setting(key, cmd) && !(m.contains_key(key) && exists|k: int|
                reads_as(m[key], 255, k)) ==> data.len() == 0
            &&& is_modulation_setting(key, cmd) && m.contains_key(key) ==> data == seq![
                modulation(uppercase(trimmed(m[key]))),
            ]
            &&& is_modulation_setting(key, cmd) && !m.contains_key(key) ==> data.len() == 0
            &&& is_rate_setting(key, cmd) && m.contains_key(key) ==> data == seq![9u32]
            &&& is_rate_setting(key, cmd) && !m.contains_key(key) ==> data.len() == 0
        }),
{
    let m = e.raw;
    if is_byte_setting(key, cmd) || is_modulation_setting(key, cmd) || is_rate_setting(key, cmd) {
        lemma_written(m[key], 255, n as nat);
        lemma_other_commands(e, cmd);
        lemma_transport(m, cmd);
        lemma_layers(m, cmd);
        let none = Seq::<u32>::empty();
        let a = carried(transport_properties(m), cmd);
        let b = carried(layer_a_properties(m), cmd);
        let c = carried(layer_b_properties(m), cmd);
        let d = carried(layer_c_properties(m), cmd);
        assert(a + none + none + none =~= a);
        assert(none + b + none + none =~= b);
        assert(none + none + c + none =~= c);
        assert(none + none + none + d =~= d);
    }
}

/// The place of a command in what a frontend is told.
pub open spec fn command_place(cmd: u32) -> int {
    if cmd == 2 {
        0
    } else if cmd == 17 {
        1
    } else if cmd == 3 {
        2
    } else if cmd == 5 {
        3
    } else if cmd == 6 {
        4
    } else if cmd == 38 {
        5
    } else if cmd == 39 {
        6
    } else if cmd == 41 {
        7
    } else if 18 <= cmd <= 34 {
        cmd - 10
    } else {
        25
    }
}

/// What is told is the properties that are built, and every command comes at its
/// place.
pub proof fn law_built_properties(entry: &DvbV5Entry, out: Result<Vec<DtvProperty>, Error>)
    requires
        call_ensures(build_props_from_dvbv5, (entry,), out),
    ensures
        match entry_properties(entry@) {
            Ok(props) => {
                &&& out matches Ok(v) && v@ == props
                &&& forall|i: int, j: int|
                    0 <= i < j < props.len() ==> command_place((#[trigger] props[i]).cmd)
                        < command_place((#[trigger] props[j]).cmd)
            },
            Err(e) => out matches Err(error) && error@ == e,
        },
{
    if entry_properties(entry@) is Ok {
        crate::tuner::lemma_commands_in_order(entry@);
    }
}

/// A transport of which nothing but its frequency and its width is known is tuned
/// to as ISDB-T with everything else left to the frontend.
pub proof fn law_simple_tuning(
    frequency: u32,
    bandwidth_hz: u32,
    service: u16,
    props: Vec<DtvProperty>,
)
    requires
        call_ensures(build_props_simple_isdbt, (frequency, bandwidth_hz, service), props),
    ensures
        props@ == seq![
            DtvProperty { cmd: 2, data: 0 },
            DtvProperty { cmd: 17, data: 8 },
            DtvProperty { cmd: 3, data: frequency },
            DtvProperty {
                cmd: 5,
                data: if bandwidth_hz == 0 {
                    6_000_000
                } else {
                    bandwidth_hz
                },
            },
            DtvProperty { cmd: 6, data: 2 },
            DtvProperty { cmd: 38, data: 4 },
            DtvProperty { cmd: 39, data: 2 },
            DtvProperty { cmd: 1, data: 0 },
        ],
{
}

/// A frontend is locked exactly where bit 4 of its status is set; until then it is
/// looked at again, until time is up.
pub proof fn law_locking(status: u32, time_is_up: bool, step: LockStep)
    requires
        call_ensures(lock_step, (status, time_is_up), step),
    ensures
        step is Locked <==> status / 16 % 2 == 1,
        step is TimedOut <==> status / 16 % 2 == 0 && time_is_up,
        step is Poll <==> status / 16 % 2 == 0 && !time_is_up,
{
    assert(status & 16 != 0 <==> status / 16 % 2 == 1) by (bit_vector);
}

} // verus!
