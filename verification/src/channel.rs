//! A channel and the settings that tune to it.

use crate::text::{
    chars_of, copy_range, int_error_text, is_white_space, parse_unsigned, unsigned, white_space,
};
use crate::text_map::TextMap;
use crate::views::views;
use vstd::prelude::*;
use vstd::slice::slice_to_vec;

verus! {

/// A channel.
#[derive(Debug)]
pub struct Channel {
    pub name: String,
    /// The delivery system, such as `ISDBT`.
    pub delivery: String,
    /// In Hz.
    pub frequency: u32,
    /// In Hz; 0 where it is not known.
    pub bandwidth_hz: u32,
    pub service_id: u16,
    pub video_pids: Vec<u16>,
    pub audio_pids: Vec<u16>,
}

/// A list of channels.
#[derive(Debug)]
pub struct ChannelsFile {
    pub channels: Vec<Channel>,
}

/// A channel, with its text as characters.
#[verifier::ext_equal]
pub struct ChannelView {
    pub name: Seq<char>,
    pub delivery: Seq<char>,
    pub frequency: u32,
    pub bandwidth_hz: u32,
    pub service_id: u16,
    pub video_pids: Seq<u16>,
    pub audio_pids: Seq<u16>,
}

impl View for Channel {
    type V = ChannelView;

    open spec fn view(&self) -> ChannelView {
        ChannelView {
            name: self.name@,
            delivery: self.delivery@,
            frequency: self.frequency,
            bandwidth_hz: self.bandwidth_hz,
            service_id: self.service_id,
            video_pids: self.video_pids@,
            audio_pids: self.audio_pids@,
        }
    }
}

impl View for ChannelsFile {
    type V = Seq<ChannelView>;

    open spec fn view(&self) -> Seq<ChannelView> {
        views(self.channels@)
    }
}

impl Clone for Channel {
    fn clone(&self) -> (out: Self)
        ensures
            out@ == self@,
    {
        Channel {
            name: self.name.clone(),
            delivery: self.delivery.clone(),
            frequency: self.frequency,
            bandwidth_hz: self.bandwidth_hz,
            service_id: self.service_id,
            video_pids: slice_to_vec(self.video_pids.as_slice()),
            audio_pids: slice_to_vec(self.audio_pids.as_slice()),
        }
    }
}

// ---- Settings --------------------------------------------------------------

/// The settings of a channel, as text.
pub type Settings = Map<Seq<char>, Seq<char>>;

/// How many characters come before the first white space.
pub open spec fn word_len(s: Seq<char>) -> nat
    decreases s.len(),
{
    if s.len() == 0 || is_white_space(s[0]) {
        0
    } else {
        1 + word_len(s.skip(1))
    }
}

pub proof fn lemma_word_len(s: Seq<char>)
    ensures
        word_len(s) <= s.len(),
    decreases s.len(),
{
    if s.len() > 0 && !is_white_space(s[0]) {
        lemma_word_len(s.skip(1));
    }
}

/// The identifiers among the words of `s`: words that are no number of 16 bits
/// are passed over.
pub open spec fn pids(s: Seq<char>) -> Seq<u16>
    decreases s.len(),
{
    if s.len() == 0 {
        Seq::empty()
    } else if is_white_space(s[0]) {
        pids(s.skip(1))
    } else {
        proof {
            lemma_word_len(s);
        }
        let n = word_len(s);
        let rest = pids(s.skip(n as int));
        match unsigned(s.take(n as int), 0xffff) {
            Ok(pid) => seq![pid as u16] + rest,
            Err(_) => rest,
        }
    }
}

/// The identifiers of a setting, none where it is missing.
pub open spec fn setting_pids(m: Settings, key: Seq<char>) -> Seq<u16> {
    if m.contains_key(key) {
        pids(m[key])
    } else {
        Seq::empty()
    }
}

/// The number of a setting that has to be there, or what is wrong with it.
pub open spec fn required_number(m: Settings, key: Seq<char>, max: nat) -> Result<nat, Seq<char>> {
    if !m.contains_key(key) {
        Err("missing "@ + key)
    } else {
        match unsigned(m[key], max) {
            Ok(n) => Ok(n),
            Err(e) => Err(key + ": "@ + int_error_text(e)),
        }
    }
}

/// The number of a setting, if it is there and is one.
pub open spec fn number(m: Settings, key: Seq<char>, max: nat) -> Option<nat> {
    if !m.contains_key(key) {
        None
    } else {
        match unsigned(m[key], max) {
            Ok(n) => Some(n),
            Err(_) => None,
        }
    }
}

/// The text of a setting, or `otherwise` where it is missing.
pub open spec fn text_or(m: Settings, key: Seq<char>, otherwise: Seq<char>) -> Seq<char> {
    if m.contains_key(key) {
        m[key]
    } else {
        otherwise
    }
}

/// The channel of a name and settings. It has to have a frequency and a service;
/// the frequency is looked at first.
pub open spec fn channel_of(name: Seq<char>, m: Settings) -> Result<ChannelView, Seq<char>> {
    match required_number(m, "FREQUENCY"@, 0xffff_ffff) {
        Err(e) => Err(e),
        Ok(frequency) => match required_number(m, "SERVICE_ID"@, 0xffff) {
            Err(e) => Err(e),
            Ok(service_id) => Ok(
                ChannelView {
                    name,
                    delivery: text_or(m, "DELIVERY_SYSTEM"@, "ISDBT"@),
                    frequency: frequency as u32,
                    bandwidth_hz: match number(m, "BANDWIDTH_HZ"@, 0xffff_ffff) {
                        Some(n) => n as u32,
                        None => 0,
                    },
                    service_id: service_id as u16,
                    video_pids: setting_pids(m, "VIDEO_PID"@),
                    audio_pids: setting_pids(m, "AUDIO_PID"@),
                },
            ),
        },
    }
}

/// The identifiers among the words of `s`.
fn read_pids(s: &str) -> (out: Vec<u16>)
    ensures
        out@ == pids(s@),
{
    let chars = chars_of(s);
    let mut out: Vec<u16> = Vec::new();
    let mut i: usize = 0;
    assert(s@.skip(0) =~= s@);
    assert(out@ + pids(s@) =~= pids(s@));
    while i < chars.len()
        invariant
            chars@ == s@,
            i <= chars@.len(),
            out@ + pids(s@.skip(i as int)) == pids(s@),
        decreases chars@.len() - i,
    {
        let ghost rest = s@.skip(i as int);
        if white_space(chars[i]) {
            assert(rest.skip(1) =~= s@.skip(i + 1));
            i += 1;
        } else {
            let end = word_end(&chars, i);
            let word = copy_range(&chars, i, end);
            assert(word@ =~= rest.take(end - i));
            assert(rest.skip(end - i) =~= s@.skip(end as int));
            let ghost before = out@;
            let ghost behind = pids(s@.skip(end as int));
            match parse_unsigned(&word, 0xffff) {
                Ok(pid) => {
                    out.push(pid as u16);
                    assert(before + (seq![pid as u16] + behind) =~= out@ + behind);
                },
                Err(_) => {},
            }
            i = end;
        }
    }
    assert(out@ + Seq::<u16>::empty() =~= out@);
    out
}

/// Where the word that starts at `from` ends.
fn word_end(chars: &Vec<char>, from: usize) -> (end: usize)
    requires
        from < chars@.len(),
        !is_white_space(chars@[from as int]),
    ensures
        from < end <= chars@.len(),
        end - from == word_len(chars@.skip(from as int)),
{
    let mut end: usize = from;
    while end < chars.len() && !white_space(chars[end])
        invariant
            from <= end <= chars@.len(),
            end - from + word_len(chars@.skip(end as int)) == word_len(chars@.skip(from as int)),
            from < chars@.len(),
            !is_white_space(chars@[from as int]),
        decreases chars@.len() - end,
    {
        assert(chars@.skip(end as int).skip(1) =~= chars@.skip(end + 1));
        end += 1;
    }
    end
}

/// The number of a setting, if it is there and is one.
pub fn read_number(m: &TextMap, key: &str, max: u32) -> (out: Option<u32>)
    ensures
        match out {
            Some(n) => number(m@, key@, max as nat) == Some(n as nat) && n <= max,
            None => number(m@, key@, max as nat) is None,
        },
{
    match m.get(key) {
        None => None,
        Some(s) => match parse_unsigned(&chars_of(s.as_str()), max) {
            Ok(n) => Some(n),
            Err(_) => None,
        },
    }
}

/// The number of a setting that has to be there, or what is wrong with it.
fn read_required_number(m: &TextMap, key: &str, max: u32) -> (out: Result<u32, String>)
    ensures
        match out {
            Ok(n) => required_number(m@, key@, max as nat) == Ok::<nat, Seq<char>>(n as nat) && n
                <= max,
            Err(e) => required_number(m@, key@, max as nat) == Err::<nat, Seq<char>>(e@),
        },
{
    match m.get(key) {
        None => {
            let mut text = "missing ".to_owned();
            text.append(key);
            Err(text)
        },
        Some(s) => match parse_unsigned(&chars_of(s.as_str()), max) {
            Ok(n) => Ok(n),
            Err(e) => {
                let mut text = key.to_owned();
                text.append(": ");
                text.append(e.message());
                Err(text)
            },
        },
    }
}

/// The identifiers of a setting, none where it is missing.
fn read_setting_pids(m: &TextMap, key: &str) -> (out: Vec<u16>)
    ensures
        out@ == setting_pids(m@, key@),
{
    match m.get(key) {
        Some(s) => read_pids(s.as_str()),
        None => Vec::new(),
    }
}

impl Channel {
    /// The channel of a section of a `.conf` file.
    pub fn from_dvbv5_section(name: &str, kv: &TextMap) -> (out: Result<Self, String>)
        ensures
            match out {
                Ok(c) => channel_of(name@, kv@) == Ok::<ChannelView, Seq<char>>(c@),
                Err(e) => channel_of(name@, kv@) == Err::<ChannelView, Seq<char>>(e@),
            },
    {
        let delivery = match kv.get("DELIVERY_SYSTEM") {
            Some(s) => s.clone(),
            None => "ISDBT".to_owned(),
        };
        let frequency = match read_required_number(kv, "FREQUENCY", 0xffff_ffff) {
            Ok(n) => n,
            Err(e) => return Err(e),
        };
        let bandwidth_hz = match read_number(kv, "BANDWIDTH_HZ", 0xffff_ffff) {
            Some(n) => n,
            None => 0,
        };
        let service_id = match read_required_number(kv, "SERVICE_ID", 0xffff) {
            Ok(n) => n as u16,
            Err(e) => return Err(e),
        };
        let video_pids = read_setting_pids(kv, "VIDEO_PID");
        let audio_pids = read_setting_pids(kv, "AUDIO_PID");
        Ok(
            Channel {
                name: name.to_owned(),
                delivery,
                frequency,
                bandwidth_hz,
                service_id,
                video_pids,
                audio_pids,
            },
        )
    }

    /// The channel of a record of a channel list: the same settings under the name
    /// of the record.
    pub fn from_named_tuning(name: &str, kv: &TextMap) -> (out: Result<Self, String>)
        ensures
            match out {
                Ok(c) => channel_of(name@, kv@) == Ok::<ChannelView, Seq<char>>(c@),
                Err(e) => channel_of(name@, kv@) == Err::<ChannelView, Seq<char>>(e@),
            },
    {
        Channel::from_dvbv5_section(name, kv)
    }
}

} // verus!
