//! What is read of settings and of `.conf` files, how channels are looked up, and
//! what becomes of a `.conf` file that is turned into a document.

use crate::channel::{channel_of, pids, word_len, ChannelView, Settings};
use crate::config::{
    alias_list, alias_separators, answers, conf_records, document_from_conf_entries, find_entry,
    non_ascii, record_entries, record_entry, record_names, section_entry, tidy, ChannelsDocument,
    DvbV5Entry, EntryView, RecordView,
};
use crate::error::{Error, ErrorView};
use crate::laws::texts::{
    free_of, is_blank, law_numbers_are_read, law_splitting, reads_as, with_between,
};
use crate::names::{free_name, law_first_free_name};
use crate::text::{decimal, int_error_text, trimmed, unsigned, IntError};
use crate::views::views;
use vstd::prelude::*;

verus! {

// ---- Settings --------------------------------------------------------------

pub proof fn lemma_written(s: Seq<char>, max: nat, n: nat)
    ensures
        reads_as(s, max, n as int) <==> unsigned(s, max) == Ok::<nat, IntError>(n),
        (exists|k: int| reads_as(s, max, k)) <==> unsigned(s, max) is Ok,
{
    law_numbers_are_read(s, max, n);
}

/// Settings make a channel exactly where they give a frequency and a service that
/// are numbers; the channel has these, the name, the delivery system or ISDB-T
/// where there is none, and the bandwidth or 0 where there is no number.
pub proof fn law_channels_are_read(name: Seq<char>, m: Settings, frequency: u32, service: u16)
    ensures
        m.contains_key("FREQUENCY"@) && reads_as(m["FREQUENCY"@], 0xffff_ffff, frequency as int)
            && m.contains_key("SERVICE_ID"@) && reads_as(m["SERVICE_ID"@], 0xffff, service as int)
            <==> (channel_of(name, m) matches Ok(c) && c.frequency == frequency && c.service_id
            == service),
        channel_of(name, m) matches Ok(c) ==> {
            &&& c.name == name
            &&& c.delivery == (if m.contains_key("DELIVERY_SYSTEM"@) {
                m["DELIVERY_SYSTEM"@]
            } else {
                "ISDBT"@
            })
            &&& m.contains_key("BANDWIDTH_HZ"@) && (exists|n: int|
                reads_as(m["BANDWIDTH_HZ"@], 0xffff_ffff, n)) ==> reads_as(
                m["BANDWIDTH_HZ"@],
                0xffff_ffff,
                c.bandwidth_hz as int,
            )
            &&& !(m.contains_key("BANDWIDTH_HZ"@) && (exists|n: int|
                reads_as(m["BANDWIDTH_HZ"@], 0xffff_ffff, n))) ==> c.bandwidth_hz == 0
            &&& m.contains_key("VIDEO_PID"@) ==> c.video_pids == pids(m["VIDEO_PID"@])
            &&& !m.contains_key("VIDEO_PID"@) ==> c.video_pids.len() == 0
            &&& m.contains_key("AUDIO_PID"@) ==> c.audio_pids == pids(m["AUDIO_PID"@])
            &&& !m.contains_key("AUDIO_PID"@) ==> c.audio_pids.len() == 0
        },
{
    lemma_written(m["FREQUENCY"@], 0xffff_ffff, frequency as nat);
    lemma_written(m["SERVICE_ID"@], 0xffff, service as nat);
    if let Ok(c) = channel_of(name, m) {
        lemma_written(m["FREQUENCY"@], 0xffff_ffff, c.frequency as nat);
        lemma_written(m["SERVICE_ID"@], 0xffff, c.service_id as nat);
        lemma_written(m["BANDWIDTH_HZ"@], 0xffff_ffff, c.bandwidth_hz as nat);
        let f = unsigned(m["FREQUENCY"@], 0xffff_ffff)->Ok_0;
        let s = unsigned(m["SERVICE_ID"@], 0xffff)->Ok_0;
        lemma_written(m["FREQUENCY"@], 0xffff_ffff, f);
        lemma_written(m["SERVICE_ID"@], 0xffff, s);
        if unsigned(m["BANDWIDTH_HZ"@], 0xffff_ffff) is Ok {
            let b = unsigned(m["BANDWIDTH_HZ"@], 0xffff_ffff)->Ok_0;
            lemma_written(m["BANDWIDTH_HZ"@], 0xffff_ffff, b);
        }
    }
}

/// What is said of settings that make no channel: the frequency comes first, and
/// that it is missing is told from that it is no number.
pub proof fn law_channel_errors(name: Seq<char>, m: Settings)
    ensures
        !m.contains_key("FREQUENCY"@) ==> channel_of(name, m) == Err::<ChannelView, Seq<char>>(
            "missing "@ + "FREQUENCY"@,
        ),
        m.contains_key("FREQUENCY"@) ==> (unsigned(m["FREQUENCY"@], 0xffff_ffff) matches Err(e)
            ==> channel_of(name, m) == Err::<ChannelView, Seq<char>>(
            "FREQUENCY"@ + ": "@ + int_error_text(e),
        )),
        m.contains_key("FREQUENCY"@) && unsigned(m["FREQUENCY"@], 0xffff_ffff) is Ok
            && !m.contains_key("SERVICE_ID"@) ==> channel_of(name, m) == Err::<
            ChannelView,
            Seq<char>,
        >("missing "@ + "SERVICE_ID"@),
        m.contains_key("FREQUENCY"@) && unsigned(m["FREQUENCY"@], 0xffff_ffff) is Ok
            && m.contains_key("SERVICE_ID"@) ==> (unsigned(m["SERVICE_ID"@], 0xffff) matches Err(e)
            ==> channel_of(name, m) == Err::<ChannelView, Seq<char>>(
            "SERVICE_ID"@ + ": "@ + int_error_text(e),
        )),
{
}

/// Whether a text is a word: not empty and without white space.
pub open spec fn is_word(s: Seq<char>) -> bool {
    s.len() > 0 && forall|i: int| 0 <= i < s.len() ==> !is_blank(#[trigger] s[i])
}

proof fn lemma_word(word: Seq<char>, rest: Seq<char>)
    requires
        forall|i: int| 0 <= i < word.len() ==> !is_blank(#[trigger] word[i]),
        rest.len() > 0 ==> is_blank(rest[0]),
    ensures
        word_len(word + rest) == word.len(),
    decreases word.len(),
{
    let all = word + rest;
    if word.len() > 0 {
        assert(all[0] == word[0]);
        assert(all.skip(1) =~= word.skip(1) + rest);
        assert(forall|i: int| 0 <= i < word.skip(1).len() ==> #[trigger] word.skip(1)[i] == word[i
            + 1]);
        lemma_word(word.skip(1), rest);
    } else {
        assert(all =~= rest);
    }
}

/// The identifiers of a setting are the numbers of 16 bits among its words, in
/// order; other words are passed over.
pub proof fn law_identifiers_are_read(word: Seq<char>, blank: char, rest: Seq<char>, n: u16)
    requires
        is_word(word),
        is_blank(blank),
    ensures
        pids(Seq::empty()) == Seq::<u16>::empty(),
        pids(seq![blank] + rest) == pids(rest),
        reads_as(word, 0xffff, n as int) ==> pids(word + (seq![blank] + rest)) == seq![n] + pids(
            rest,
        ),
        reads_as(word, 0xffff, n as int) ==> pids(word) == seq![n],
        !(exists|k: int| reads_as(word, 0xffff, k)) ==> pids(word + (seq![blank] + rest)) == pids(
            rest,
        ),
        !(exists|k: int| reads_as(word, 0xffff, k)) ==> pids(word) == Seq::<u16>::empty(),
{
    let gap = seq![blank] + rest;
    assert(gap.skip(1) =~= rest);
    assert(pids(gap) == pids(rest));
    let all = word + gap;
    assert(all[0] == word[0]);
    lemma_word(word, gap);
    lemma_word(word, Seq::empty());
    assert(word + Seq::<char>::empty() =~= word);
    let len = word.len() as int;
    assert(all.take(len) =~= word);
    assert(all.skip(len) =~= gap);
    assert(word.take(len) =~= word);
    assert(word.skip(len) =~= Seq::<char>::empty());
    lemma_written(word, 0xffff, n as nat);
    assert(pids(word.skip(len)) =~= Seq::<u16>::empty());
    assert(seq![n] + Seq::<u16>::empty() =~= seq![n]);
}

// ---- Aliases ---------------------------------------------------------------

/// Whether a character stands between aliases.
pub open spec fn parts_aliases(c: char) -> bool {
    c == ',' || c == ';' || c == '|' || c == '｜'
}

proof fn lemma_tidy(parts: Seq<Seq<char>>)
    ensures
        tidy(parts) == parts.map_values(|p: Seq<char>| trimmed(p)).filter(
            |p: Seq<char>| p.len() > 0,
        ),
    decreases parts.len(),
{
    reveal(Seq::filter);
    let all = parts.map_values(|p: Seq<char>| trimmed(p));
    if parts.len() > 0 {
        lemma_tidy(parts.drop_last());
        assert(all.drop_last() =~= parts.drop_last().map_values(|p: Seq<char>| trimmed(p)));
        assert(all.last() == trimmed(parts.last()));
    } else {
        assert(all.filter(|p: Seq<char>| p.len() > 0) =~= Seq::<Seq<char>>::empty());
    }
}

/// The aliases that a setting lists are what stands between the separators, in
/// order, without white space around it; what is nothing but white space is none.
pub proof fn law_aliases_are_read(parts: Seq<Seq<char>>, between: Seq<char>)
    requires
        parts.len() == between.len() + 1,
        forall|i: int, k: int|
            0 <= i < parts.len() && 0 <= k < parts[i].len() ==> !parts_aliases(
                #[trigger] parts[i][k],
            ),
        forall|i: int| 0 <= i < between.len() ==> parts_aliases(#[trigger] between[i]),
    ensures
        alias_list(with_between(parts, between)) == parts.map_values(
            |p: Seq<char>| trimmed(p),
        ).filter(|p: Seq<char>| p.len() > 0),
{
    let seps = alias_separators();
    assert(seps[0] == ',' && seps[1] == ';' && seps[2] == '|' && seps[3] == '｜');
    assert forall|c: char| seps.contains(c) <==> parts_aliases(c) by {
        if parts_aliases(c) {
            assert(seps.contains(c));
        }
    }
    assert forall|i: int| 0 <= i < parts.len() implies free_of(#[trigger] parts[i], seps) by {
        assert(forall|k: int| 0 <= k < parts[i].len() ==> !parts_aliases(#[trigger] parts[i][k]));
    }
    law_splitting(parts, between, seps);
    lemma_tidy(parts);
}

// ---- Entries ---------------------------------------------------------------

/// The entry of a section has the title, the settings, and the channel of the
/// settings under the label that they give or else the title; its aliases are
/// those that the settings list. Where the settings make no channel, the error
/// tells why.
pub proof fn law_section_entries(title: Seq<char>, m: Settings)
    ensures
        ({
            let labelled = m.contains_key("DVBR_NAME"@) && m["DVBR_NAME"@].len() > 0;
            let name = if labelled {
                m["DVBR_NAME"@]
            } else {
                title
            };
            match channel_of(name, m) {
                Ok(c) => section_entry(title, m) matches Ok(e) && {
                    &&& e.section_title == title
                    &&& e.channel == c
                    &&& e.raw == m
                    &&& m.contains_key("DVBR_ALIASES"@) ==> e.aliases == alias_list(
                        m["DVBR_ALIASES"@],
                    )
                    &&& !m.contains_key("DVBR_ALIASES"@) ==> e.aliases.len() == 0
                },
                Err(text) => section_entry(title, m) == Err::<EntryView, ErrorView>(
                    ErrorView::Parse(text),
                ),
            }
        }),
{
}

/// The entry of a record has the record's name for its title and its channel's
/// name, the record's settings, and the record's aliases; the section that the
/// record comes from is one more alias, unless it is the name or among them.
pub proof fn law_record_entries(r: RecordView)
    ensures
        match channel_of(r.name, r.tuning) {
            Ok(c) => record_entry(r) matches Ok(e) && {
                &&& e.section_title == r.name
                &&& e.channel == c
                &&& e.raw == r.tuning
                &&& r.legacy_zap_section is None ==> e.aliases == r.aliases
                &&& r.legacy_zap_section matches Some(z) ==> e.aliases == (if z == r.name
                    || r.aliases.contains(z) {
                    r.aliases
                } else {
                    r.aliases + seq![z]
                })
            },
            Err(text) => record_entry(r) == Err::<EntryView, ErrorView>(ErrorView::Parse(text)),
        },
{
    if let Some(z) = r.legacy_zap_section {
        assert(r.aliases.push(z) =~= r.aliases + seq![z]);
    }
}

/// Records become entries one for one, in order, unless one of them is wrong: then
/// the first that is decides.
pub proof fn law_documents_become_entries(records: Seq<RecordView>)
    ensures
        match record_entries(records) {
            Ok(entries) => entries.len() == records.len() && forall|i: int|
                0 <= i < records.len() ==> record_entry(#[trigger] records[i]) == Ok::<
                    EntryView,
                    ErrorView,
                >(entries[i]),
            Err(e) => exists|i: int|
                {
                    &&& 0 <= i < records.len()
                    &&& record_entry(#[trigger] records[i]) == Err::<EntryView, ErrorView>(e)
                    &&& forall|k: int| 0 <= k < i ==> record_entry(#[trigger] records[k]) is Ok
                },
        },
    decreases records.len(),
{
    if records.len() > 0 {
        let front = records.drop_last();
        law_documents_become_entries(front);
        match record_entries(front) {
            Err(e) => {
                let i = choose|i: int|
                    {
                        &&& 0 <= i < front.len()
                        &&& record_entry(#[trigger] front[i]) == Err::<EntryView, ErrorView>(e)
                        &&& forall|k: int| 0 <= k < i ==> record_entry(#[trigger] front[k]) is Ok
                    };
                assert(front[i] == records[i]);
                assert forall|k: int| 0 <= k < i implies record_entry(
                    #[trigger] records[k],
                ) is Ok by {
                    assert(front[k] == records[k]);
                }
            },
            Ok(before) => {
                let last = records.len() - 1;
                assert forall|k: int| 0 <= k < last implies record_entry(#[trigger] records[k])
                    == Ok::<EntryView, ErrorView>(before[k]) by {
                    assert(front[k] == records[k]);
                }
                assert(records[last] == records.last());
            },
        }
    }
}

/// Looking up a name finds the first entry with that name, that title or that
/// alias; where there is none, the error tells the name.
#[verifier::rlimit(60)]
pub proof fn law_lookup(
    entries: &[DvbV5Entry],
    name: &str,
    out: Result<&DvbV5Entry, Error>,
    i: int,
)
    requires
        call_ensures(find_entry, (entries, name), out),
        0 <= i < entries@.len(),
        entries@[i].channel.name@ == name@ || entries@[i].section_title@ == name@ || exists|k: int|
            0 <= k < entries@[i].aliases@.len() && (#[trigger] entries@[i].aliases@[k])@ == name@,
        forall|j: int|
            0 <= j < i ==> (#[trigger] entries@[j]).channel.name@ != name@
                && entries@[j].section_title@ != name@ && forall|k: int|
                0 <= k < entries@[j].aliases@.len() ==> (#[trigger] entries@[j].aliases@[k])@
                    != name@,
    ensures
        out == Ok::<&DvbV5Entry, Error>(&entries@[i]),
{
    let e = entries@[i]@;
    if !(e.channel.name == name@ || e.section_title == name@) {
        let k = choose|k: int|
            0 <= k < entries@[i].aliases@.len() && (#[trigger] entries@[i].aliases@[k])@ == name@;
        assert(e.aliases[k] == name@);
    }
    assert(answers(e, name@));
    assert forall|j: int| 0 <= j < i implies !answers((#[trigger] entries@[j])@, name@) by {
        let x = entries@[j];
        if x@.aliases.contains(name@) {
            let k = choose|k: int| 0 <= k < x@.aliases.len() && x@.aliases[k] == name@;
            assert(x.aliases@[k]@ == name@);
        }
    }
    match out {
        Ok(found) => {
            let p = choose|p: int|
                {
                    &&& 0 <= p < entries@.len()
                    &&& *found == #[trigger] entries@[p]
                    &&& answers(entries@[p]@, name@)
                    &&& forall|j: int| 0 <= j < p ==> !answers((#[trigger] entries@[j])@, name@)
                };
            assert(p == i);
        },
        Err(e) => {
            assert(crate::config::none_answers(entries@, name@));
            assert(!answers(entries@[i]@, name@));
        },
    }
}

/// Looking up a name that no entry has is an error that tells the name.
pub proof fn law_failed_lookup(
    entries: &[DvbV5Entry],
    name: &str,
    out: Result<&DvbV5Entry, Error>,
)
    requires
        call_ensures(find_entry, (entries, name), out),
        forall|j: int|
            0 <= j < entries@.len() ==> (#[trigger] entries@[j]).channel.name@ != name@
                && entries@[j].section_title@ != name@ && forall|k: int|
                0 <= k < entries@[j].aliases@.len() ==> (#[trigger] entries@[j].aliases@[k])@
                    != name@,
    ensures
        out matches Err(e) && e@ == ErrorView::ChannelNotFound(name@),
{
    assert forall|j: int| 0 <= j < entries@.len() implies !answers(
        (#[trigger] entries@[j])@,
        name@,
    ) by {
        let x = entries@[j];
        if x@.aliases.contains(name@) {
            let k = choose|k: int| 0 <= k < x@.aliases.len() && x@.aliases[k] == name@;
            assert(x.aliases@[k]@ == name@);
        }
    }
}

// ---- Documents from `.conf` files ------------------------------------------

/// Whether a name is a plain label: letters and digits of ASCII, underscores and
/// hyphens.
pub open spec fn is_plain_label(s: Seq<char>) -> bool {
    s.len() > 0 && forall|i: int|
        0 <= i < s.len() ==> {
            let c = #[trigger] s[i];
            '0' <= c <= '9' || 'A' <= c <= 'Z' || 'a' <= c <= 'z' || c == '_' || c == '-'
        }
}

/// The characters of a text that are not ASCII.
pub open spec fn foreign(s: Seq<char>) -> Seq<char> {
    s.filter(|c: char| c as u32 >= 128)
}

/// Whether the name of an entry is kept: where it is a plain label of its own, or
/// where the title holds none of `|`, `!` and `%` and the name is either a label of
/// its own or has at most two characters that are not ASCII.
pub open spec fn keeps_name(e: EntryView) -> bool {
    ||| e.channel.name != e.section_title && is_plain_label(e.channel.name)
    ||| {
        &&& !e.section_title.contains('|')
        &&& !e.section_title.contains('!')
        &&& !e.section_title.contains('%')
        &&& e.channel.name != e.section_title || foreign(e.channel.name).len() <= 2
    }
}

pub proof fn lemma_foreign(s: Seq<char>)
    ensures
        non_ascii(s) == foreign(s).len(),
    decreases s.len(),
{
    reveal(Seq::filter);
    if s.len() > 0 {
        lemma_foreign(s.drop_last());
    }
}

/// Whether a name is `base`, or else `base` with the first number behind it that
/// gives a name that is not among `earlier`.
pub open spec fn is_first_free_name(
    name: Seq<char>,
    base: Seq<char>,
    earlier: spec_fn(Seq<char>) -> bool,
) -> bool {
    &&& !earlier(base) ==> name == base
    &&& earlier(base) ==> exists|n: nat|
        {
            &&& n >= 2
            &&& name == base + seq!['_'] + #[trigger] decimal(n)
            &&& !earlier(name)
            &&& forall|k: nat| 2 <= k < n ==> earlier(base + seq!['_'] + #[trigger] decimal(k))
        }
}

/// Whether one of the first `n` records has a name.
pub open spec fn named_before(records: Seq<RecordView>, n: int, s: Seq<char>) -> bool {
    exists|k: int| 0 <= k < n && (#[trigger] records[k]).name == s
}

pub proof fn lemma_free_name(
    name: Seq<char>,
    base: Seq<char>,
    taken: Seq<Seq<char>>,
    earlier: spec_fn(Seq<char>) -> bool,
)
    requires
        name == free_name(base, taken),
        forall|s: Seq<char>| #[trigger] taken.contains(s) <==> earlier(s),
    ensures
        is_first_free_name(name, base, earlier),
{
    law_first_free_name(base, taken);
    if taken.contains(base) {
        let n = choose|n: nat|
            {
                &&& n >= 2
                &&& free_name(base, taken) == base + seq!['_'] + #[trigger] decimal(n)
                &&& !taken.contains(base + seq!['_'] + decimal(n))
                &&& forall|k: nat|
                    2 <= k < n ==> taken.contains(base + seq!['_'] + #[trigger] decimal(k))
            };
        assert forall|k: nat| 2 <= k < n implies earlier(
            base + seq!['_'] + #[trigger] decimal(k),
        ) by {
            assert(taken.contains(base + seq!['_'] + decimal(k)));
        }
        assert(name == base + seq!['_'] + decimal(n));
    }
}

/// Every entry of a `.conf` file becomes one record of its document, in order. The
/// record has the name of the channel where that is kept, or else `u`, the number
/// of the service, an underscore and the frequency; with a number behind it where
/// an earlier record has the name.
#[verifier::rlimit(60)]
pub proof fn law_migrated_names(entries: Seq<EntryView>, i: int)
    requires
        0 <= i < entries.len(),
    ensures
        conf_records(entries).len() == entries.len(),
        keeps_name(entries[i]) ==> is_first_free_name(
            conf_records(entries)[i].name,
            entries[i].channel.name,
            |s: Seq<char>| named_before(conf_records(entries), i, s),
        ),
        !keeps_name(entries[i]) ==> is_first_free_name(
            conf_records(entries)[i].name,
            seq!['u'] + decimal(entries[i].channel.service_id as nat) + seq!['_'] + decimal(
                entries[i].channel.frequency as nat,
            ),
            |s: Seq<char>| named_before(conf_records(entries), i, s),
        ),
    decreases entries.len(),
{
    let front = entries.drop_last();
    let before = conf_records(front);
    let all = conf_records(entries);
    if front.len() > 0 {
        law_migrated_names(front, 0);
    } else {
        assert(before.len() == 0);
    }
    if i < front.len() {
        law_migrated_names(front, i);
        let a = |s: Seq<char>| named_before(before, i, s);
        let b = |s: Seq<char>| named_before(all, i, s);
        assert forall|s: Seq<char>| #[trigger] a(s) == b(s) by {
            if a(s) {
                let k = choose|k: int| 0 <= k < i && (#[trigger] before[k]).name == s;
                assert(all[k].name == s);
            }
            if b(s) {
                let k = choose|k: int| 0 <= k < i && (#[trigger] all[k]).name == s;
                assert(before[k].name == s);
            }
        }
        assert(a =~= b);
        assert(front[i] == entries[i]);
    } else {
        let e = entries.last();
        lemma_foreign(e.channel.name);
        let taken = record_names(before);
        let earlier = |s: Seq<char>| named_before(all, i, s);
        assert forall|s: Seq<char>| #[trigger] taken.contains(s) <==> earlier(s) by {
            if taken.contains(s) {
                let k = choose|k: int| 0 <= k < taken.len() && taken[k] == s;
                assert(all[k].name == s);
            }
            if earlier(s) {
                let k = choose|k: int| 0 <= k < i && (#[trigger] all[k]).name == s;
                assert(taken[k] == s);
            }
        }
        assert(is_plain_label(e.channel.name) <==> crate::config::is_identifier(e.channel.name));
        lemma_free_name(all[i].name, crate::config::wanted_name(e), taken, earlier);
    }
}

/// The record of an entry keeps its settings but for those that name the channel,
/// and its aliases. Where the record has another name than the section had, it
/// tells the section's title, which is an alias too.
pub proof fn law_migrated_records(entries: Seq<EntryView>, i: int)
    requires
        0 <= i < entries.len(),
    ensures
        conf_records(entries).len() == entries.len(),
        ({
            let r = conf_records(entries)[i];
            let e = entries[i];
            &&& r.name == e.section_title ==> r.legacy_zap_section is None && r.aliases
                == e.aliases
            &&& r.name != e.section_title ==> {
                &&& r.legacy_zap_section == Some(e.section_title)
                &&& e.aliases.contains(e.section_title) ==> r.aliases == e.aliases
                &&& !e.aliases.contains(e.section_title) ==> r.aliases == e.aliases + seq![
                    e.section_title,
                ]
            }
            &&& forall|key: Seq<char>| #[trigger]
                r.tuning.contains_key(key) <==> e.raw.contains_key(key) && key != "DVBR_NAME"@
                    && key != "DVBR_ALIASES"@ && key != "CHANNEL_LABEL"@
            &&& forall|key: Seq<char>| #[trigger]
                r.tuning.contains_key(key) ==> r.tuning[key] == e.raw[key]
        }),
    decreases entries.len(),
{
    let front = entries.drop_last();
    if front.len() > 0 {
        law_migrated_records(front, 0);
    } else {
        assert(conf_records(front).len() == 0);
    }
    if i < front.len() {
        law_migrated_records(front, i);
        assert(front[i] == entries[i]);
    } else {
        let e = entries.last();
        assert(e.aliases.push(e.section_title) =~= e.aliases + seq![e.section_title]);
    }
}

/// The document of a `.conf` file has the records of its entries, and version 1.
pub proof fn law_documents_of_entries(entries: Vec<DvbV5Entry>, doc: ChannelsDocument)
    requires
        call_ensures(document_from_conf_entries, (entries,), doc),
    ensures
        doc.version == 1,
        doc@.channels == conf_records(views(entries@)),
{
}

} // verus!
