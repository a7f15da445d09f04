//! Channel lists: `.conf` files of sections with settings, and documents of
//! records with names, aliases and settings.

use crate::channel::{channel_of, Channel, ChannelView, ChannelsFile, Settings};
use crate::error::{outcome_list, Error, ErrorView};
use crate::names::{free_name, law_free_name_is_not_taken, unique_name};
use crate::text::{
    chars_of, contains_char, contains_text, copy_range, copy_texts, decimal, decimal_text, find_char,
    lemma_texts_push, lowercase, pieces, same_text, split, split_on, split_once, text_of, texts, trim, trimmed,
};
use crate::text_map::TextMap;
use crate::views::{lemma_views_push, option_view, views};
use vstd::prelude::*;

verus! {

// ---- Data ------------------------------------------------------------------

/// A channel with all settings of its section.
#[derive(Debug)]
pub struct DvbV5Entry {
    /// What stands between the brackets; the channel can be looked up by it.
    pub section_title: String,
    pub channel: Channel,
    /// Further names.
    pub aliases: Vec<String>,
    pub raw: TextMap,
}

/// A channel list as a document.
#[derive(Debug)]
pub struct ChannelsDocument {
    pub version: u32,
    pub channels: Vec<ChannelRecord>,
}

/// A channel of a document.
#[derive(Debug)]
pub struct ChannelRecord {
    pub name: String,
    pub aliases: Vec<String>,
    /// The title of the section of the `.conf` file that the record comes from.
    pub legacy_zap_section: Option<String>,
    pub tuning: TextMap,
}

#[verifier::ext_equal]
pub struct EntryView {
    pub section_title: Seq<char>,
    pub channel: ChannelView,
    pub aliases: Seq<Seq<char>>,
    pub raw: Settings,
}

#[verifier::ext_equal]
pub struct RecordView {
    pub name: Seq<char>,
    pub aliases: Seq<Seq<char>>,
    pub legacy_zap_section: Option<Seq<char>>,
    pub tuning: Settings,
}

#[verifier::ext_equal]
pub struct DocumentView {
    pub version: u32,
    pub channels: Seq<RecordView>,
}

impl View for DvbV5Entry {
    type V = EntryView;

    open spec fn view(&self) -> EntryView {
        EntryView {
            section_title: self.section_title@,
            channel: self.channel@,
            aliases: texts(self.aliases@),
            raw: self.raw@,
        }
    }
}

impl View for ChannelRecord {
    type V = RecordView;

    open spec fn view(&self) -> RecordView {
        RecordView {
            name: self.name@,
            aliases: texts(self.aliases@),
            legacy_zap_section: option_view(self.legacy_zap_section),
            tuning: self.tuning@,
        }
    }
}

impl View for ChannelsDocument {
    type V = DocumentView;

    open spec fn view(&self) -> DocumentView {
        DocumentView { version: self.version, channels: views(self.channels@) }
    }
}

impl Clone for DvbV5Entry {
    fn clone(&self) -> (out: Self)
        ensures
            out@ == self@,
    {
        DvbV5Entry {
            section_title: self.section_title.clone(),
            channel: self.channel.clone(),
            aliases: copy_texts(&self.aliases),
            raw: self.raw.clone(),
        }
    }
}

impl Clone for ChannelRecord {
    fn clone(&self) -> (out: Self)
        ensures
            out@ == self@,
    {
        ChannelRecord {
            name: self.name.clone(),
            aliases: copy_texts(&self.aliases),
            legacy_zap_section: match &self.legacy_zap_section {
                Some(s) => Some(s.clone()),
                None => None,
            },
            tuning: self.tuning.clone(),
        }
    }
}

/// The version of documents that do not give one.
pub fn channels_doc_version() -> (version: u32)
    ensures
        version == 1,
{
    1
}

// ---- Lookup ----------------------------------------------------------------

/// Whether an entry answers to `q`: by its name, its section's title or an alias.
pub open spec fn answers(e: EntryView, q: Seq<char>) -> bool {
    e.channel.name == q || e.section_title == q || e.aliases.contains(q)
}

impl DvbV5Entry {
    /// Whether the entry answers to `q`.
    pub fn matches_lookup(&self, q: &str) -> (yes: bool)
        ensures
            yes == answers(self@, q@),
    {
        same_text(self.channel.name.as_str(), q) || same_text(self.section_title.as_str(), q)
            || contains_text(&self.aliases, q)
    }
}

/// Whether no entry answers to `q`.
pub open spec fn none_answers(entries: Seq<DvbV5Entry>, q: Seq<char>) -> bool {
    forall|j: int| 0 <= j < entries.len() ==> !answers((#[trigger] entries[j])@, q)
}

/// The first entry that answers to `name`, or an error that tells the name.
pub fn find_entry<'a>(entries: &'a [DvbV5Entry], name: &str) -> (out: Result<&'a DvbV5Entry, Error>)
    ensures
        match out {
            Ok(e) => exists|i: int|
                {
                    &&& 0 <= i < entries@.len()
                    &&& *e == #[trigger] entries@[i]
                    &&& answers(entries@[i]@, name@)
                    &&& forall|j: int| 0 <= j < i ==> !answers((#[trigger] entries@[j])@, name@)
                },
            Err(e) => {
                &&& e@ == ErrorView::ChannelNotFound(name@)
                &&& none_answers(entries@, name@)
            },
        },
{
    let mut i: usize = 0;
    while i < entries.len()
        invariant
            i <= entries@.len(),
            forall|j: int| 0 <= j < i ==> !answers((#[trigger] entries@[j])@, name@),
        decreases entries@.len() - i,
    {
        if entries[i].matches_lookup(name) {
            return Ok(&entries[i]);
        }
        i += 1;
    }
    Err(Error::ChannelNotFound(name.to_owned()))
}

// ---- Sections --------------------------------------------------------------

/// The characters between aliases.
pub open spec fn alias_separators() -> Seq<char> {
    seq![',', ';', '|', '｜']
}

/// The parts that are more than white space, without the white space around them.
pub open spec fn tidy(parts: Seq<Seq<char>>) -> Seq<Seq<char>>
    decreases parts.len(),
{
    if parts.len() == 0 {
        Seq::empty()
    } else {
        let before = tidy(parts.drop_last());
        let part = trimmed(parts.last());
        if part.len() > 0 {
            before.push(part)
        } else {
            before
        }
    }
}

/// The aliases that a setting lists.
pub open spec fn alias_list(s: Seq<char>) -> Seq<Seq<char>> {
    tidy(split(s, alias_separators()))
}

/// The aliases that `s` lists: separated by `,`, `;`, `|` or `｜`.
pub fn parse_dvbr_aliases(s: &str) -> (out: Vec<String>)
    ensures
        texts(out@) == alias_list(s@),
{
    let seps: [char; 4] = [',', ';', '|', '｜'];
    assert(seps@ =~= alias_separators());
    let parts = split_on(&chars_of(s), &seps);
    let ghost all = split(s@, alias_separators());
    let mut out: Vec<String> = Vec::new();
    let mut i: usize = 0;
    assert(all.take(0) =~= Seq::<Seq<char>>::empty());
    assert(texts(out@) =~= tidy(all.take(0)));
    while i < parts.len()
        invariant
            all == pieces(parts@),
            i <= parts@.len(),
            texts(out@) == tidy(all.take(i as int)),
        decreases parts@.len() - i,
    {
        assert(all.take(i + 1).drop_last() =~= all.take(i as int));
        assert(all.take(i + 1).last() == parts@[i as int]@);
        let part = trim(&parts[i]);
        if part.len() > 0 {
            let text = text_of(&part);
            proof {
                lemma_texts_push(out@, text);
            }
            out.push(text);
        }
        i += 1;
    }
    assert(all.take(i as int) =~= all);
    out
}

/// The name of the channel of a section: the label that its settings give, or
/// else its title.
pub open spec fn section_label(title: Seq<char>, m: Settings) -> Seq<char> {
    if m.contains_key("DVBR_NAME"@) && m["DVBR_NAME"@].len() > 0 {
        m["DVBR_NAME"@]
    } else {
        title
    }
}

/// The entry of a section.
pub open spec fn section_entry(title: Seq<char>, m: Settings) -> Result<EntryView, ErrorView> {
    match channel_of(section_label(title, m), m) {
        Ok(channel) => Ok(
            EntryView {
                section_title: title,
                channel,
                aliases: if m.contains_key("DVBR_ALIASES"@) {
                    alias_list(m["DVBR_ALIASES"@])
                } else {
                    Seq::empty()
                },
                raw: m,
            },
        ),
        Err(e) => Err(ErrorView::Parse(e)),
    }
}

/// What is known of a `.conf` file at some line of it.
#[verifier::ext_equal]
pub struct ConfView {
    pub entries: Seq<EntryView>,
    /// The title of the section that the line is in.
    pub section: Option<Seq<char>>,
    /// The settings of that section so far.
    pub settings: Settings,
}

/// The entries when the section that was open is closed. A section without
/// settings is none.
pub open spec fn closed_section(st: ConfView) -> Result<Seq<EntryView>, ErrorView> {
    match st.section {
        Some(title) if st.settings != Map::<Seq<char>, Seq<char>>::empty() => match section_entry(
            title,
            st.settings,
        ) {
            Ok(e) => Ok(st.entries.push(e)),
            Err(e) => Err(e),
        },
        _ => Ok(st.entries),
    }
}

/// Whether a line is empty or a comment.
pub open spec fn is_skipped(line: Seq<char>) -> bool {
    line.len() == 0 || line[0] == '#'
}

/// Whether a line is the title of a section.
pub open spec fn is_title(line: Seq<char>) -> bool {
    line.len() > 0 && line[0] == '[' && line.last() == ']'
}

/// What is known behind one more line: a title closes a section and opens the
/// next, a setting is added to its section. A line that is neither is passed
/// over.
pub open spec fn after_line(st: ConfView, raw_line: Seq<char>) -> Result<ConfView, ErrorView> {
    let line = trimmed(raw_line);
    if is_skipped(line) {
        Ok(st)
    } else if is_title(line) {
        match closed_section(st) {
            Ok(entries) => Ok(
                ConfView {
                    entries,
                    section: Some(line.subrange(1, line.len() - 1)),
                    settings: Map::empty(),
                },
            ),
            Err(e) => Err(e),
        }
    } else {
        match split_once(line, '=') {
            None => Ok(st),
            Some((key, value)) => if st.section is None {
                Err(ErrorView::Parse("key=value before first [section]"@))
            } else {
                Ok(
                    ConfView {
                        settings: st.settings.insert(trimmed(key), trimmed(value)),
                        ..st
                    },
                )
            },
        }
    }
}

/// What is known behind a list of lines; the first that is wrong decides.
pub open spec fn after_lines(lines: Seq<Seq<char>>) -> Result<ConfView, ErrorView>
    decreases lines.len(),
{
    if lines.len() == 0 {
        Ok(ConfView { entries: Seq::empty(), section: None, settings: Map::empty() })
    } else {
        match after_lines(lines.drop_last()) {
            Ok(st) => after_line(st, lines.last()),
            Err(e) => Err(e),
        }
    }
}

/// The entries of a `.conf` file.
pub open spec fn conf_entries(text: Seq<char>) -> Result<Seq<EntryView>, ErrorView> {
    match after_lines(split(text, seq!['\n'])) {
        Ok(st) => closed_section(st),
        Err(e) => Err(e),
    }
}

/// A `.conf` file while it is read.
struct Conf {
    entries: Vec<DvbV5Entry>,
    section: Option<String>,
    settings: TextMap,
}

impl View for Conf {
    type V = ConfView;

    closed spec fn view(&self) -> ConfView {
        ConfView {
            entries: views(self.entries@),
            section: option_view(self.section),
            settings: self.settings@,
        }
    }
}

/// The entry of a section.
fn read_section_entry(title: String, settings: TextMap) -> (out: Result<DvbV5Entry, Error>)
    ensures
        match out {
            Ok(e) => section_entry(title@, settings@) == Ok::<EntryView, ErrorView>(e@),
            Err(e) => section_entry(title@, settings@) == Err::<EntryView, ErrorView>(e@),
        },
{
    let aliases = match settings.get("DVBR_ALIASES") {
        Some(s) => parse_dvbr_aliases(s.as_str()),
        None => {
            let none: Vec<String> = Vec::new();
            assert(texts(none@) =~= Seq::<Seq<char>>::empty());
            none
        },
    };
    let name = match settings.get("DVBR_NAME") {
        Some(s) if !s.as_str().is_empty() => s.clone(),
        _ => title.clone(),
    };
    match Channel::from_dvbv5_section(name.as_str(), &settings) {
        Ok(channel) => Ok(DvbV5Entry { section_title: title, channel, aliases, raw: settings }),
        Err(e) => Err(Error::Parse(e)),
    }
}

impl Conf {
    /// Whether settings belong to a section.
    spec fn wf(self) -> bool {
        self.section is None ==> self.settings@ == Map::<Seq<char>, Seq<char>>::empty()
    }

    /// Closes the section that is open.
    fn flush_section(&mut self) -> (out: Result<(), Error>)
        requires
            old(self).wf(),
        ensures
            match out {
                Ok(_) => {
                    &&& closed_section(old(self)@) == Ok::<Seq<EntryView>, ErrorView>(
                        final(self)@.entries,
                    )
                    &&& final(self)@.section is None
                    &&& final(self)@.settings == Map::<Seq<char>, Seq<char>>::empty()
                },
                Err(e) => closed_section(old(self)@) == Err::<Seq<EntryView>, ErrorView>(e@),
            },
    {
        let mut section: Option<String> = None;
        std::mem::swap(&mut section, &mut self.section);
        if let Some(title) = section {
            if self.settings.len() > 0 {
                let mut settings = TextMap::new();
                std::mem::swap(&mut settings, &mut self.settings);
                let entry = match read_section_entry(title, settings) {
                    Ok(e) => e,
                    Err(e) => return Err(e),
                };
                proof {
                    lemma_views_push(self.entries@, entry);
                }
                self.entries.push(entry);
            }
        }
        Ok(())
    }

    /// Takes one line.
    fn take_line(&mut self, raw_line: &[char]) -> (out: Result<(), Error>)
        requires
            old(self).wf(),
        ensures
            match out {
                Ok(_) => final(self).wf() && after_line(old(self)@, raw_line@) == Ok::<
                    ConfView,
                    ErrorView,
                >(final(self)@),
                Err(e) => after_line(old(self)@, raw_line@) == Err::<ConfView, ErrorView>(e@),
            },
    {
        let line = trim(raw_line);
        if line.len() == 0 || line[0] == '#' {
            return Ok(());
        }
        if line[0] == '[' && line[line.len() - 1] == ']' {
            match self.flush_section() {
                Ok(_) => {},
                Err(e) => return Err(e),
            }
            self.section = Some(text_of(&copy_range(&line, 1, line.len() - 1)));
            return Ok(());
        }
        let at = find_char(&line, '=');
        if at == line.len() {
            return Ok(());
        }
        if self.section.is_none() {
            return Err(Error::Parse("key=value before first [section]".to_owned()));
        }
        let key = trim(&copy_range(&line, 0, at));
        let value = trim(&copy_range(&line, at + 1, line.len()));
        assert(line@.subrange(0, at as int) =~= line@.take(at as int));
        assert(line@.subrange(at + 1, line@.len() as int) =~= line@.skip(at + 1));
        self.settings.insert(text_of(&key), text_of(&value));
        Ok(())
    }
}

/// The entries of a `.conf` file, from its text.
pub fn parse_dvbv5_conf(text: &str) -> (out: Result<Vec<DvbV5Entry>, Error>)
    ensures
        outcome_list(out) == conf_entries(text@),
{
    let newline: [char; 1] = ['\n'];
    assert(newline@ =~= seq!['\n']);
    let lines = split_on(&chars_of(text), &newline);
    let ghost all = split(text@, seq!['\n']);
    let mut conf = Conf { entries: Vec::new(), section: None, settings: TextMap::new() };
    let mut i: usize = 0;
    assert(all.take(0) =~= Seq::<Seq<char>>::empty());
    assert(conf@ =~= (ConfView { entries: Seq::empty(), section: None, settings: Map::empty() }));
    while i < lines.len()
        invariant
            all == pieces(lines@),
            all == split(text@, seq!['\n']),
            i <= lines@.len(),
            conf.wf(),
            after_lines(all.take(i as int)) == Ok::<ConfView, ErrorView>(conf@),
        decreases lines@.len() - i,
    {
        assert(all.take(i + 1).drop_last() =~= all.take(i as int));
        assert(all.take(i + 1).last() == lines@[i as int]@);
        match conf.take_line(&lines[i]) {
            Ok(_) => {},
            Err(e) => {
                proof {
                    lemma_error_stays(all, i + 1);
                }
                return Err(e);
            },
        }
        i += 1;
    }
    assert(all.take(i as int) =~= all);
    match conf.flush_section() {
        Ok(_) => Ok(conf.entries),
        Err(e) => Err(e),
    }
}

/// An error at some line is the error of the file.
proof fn lemma_error_stays(lines: Seq<Seq<char>>, n: int)
    requires
        0 <= n <= lines.len(),
        after_lines(lines.take(n)) is Err,
    ensures
        after_lines(lines) == after_lines(lines.take(n)),
    decreases lines.len() - n,
{
    if n < lines.len() {
        assert(lines.take(n + 1).drop_last() =~= lines.take(n));
        lemma_error_stays(lines, n + 1);
    } else {
        assert(lines.take(n) =~= lines);
    }
}

/// The channels of entries.
pub open spec fn entry_channels(entries: Seq<EntryView>) -> Seq<ChannelView> {
    entries.map_values(|e: EntryView| e.channel)
}

/// The channels of entries, without their other settings.
pub fn channels_from_entries(entries: Vec<DvbV5Entry>) -> (file: ChannelsFile)
    ensures
        file@ == entry_channels(views(entries@)),
{
    let ghost all = entry_channels(views(entries@));
    let mut channels: Vec<Channel> = Vec::new();
    let mut i: usize = 0;
    while i < entries.len()
        invariant
            all == entry_channels(views(entries@)),
            i <= entries@.len(),
            views(channels@) == all.take(i as int),
        decreases entries@.len() - i,
    {
        let c = entries[i].channel.clone();
        proof {
            lemma_views_push(channels@, c);
        }
        channels.push(c);
        i += 1;
        assert(all.take(i as int) =~= all.take(i - 1).push(all[i - 1]));
    }
    assert(all.take(i as int) =~= all);
    ChannelsFile { channels }
}

// ---- Records ---------------------------------------------------------------

/// A list with `s` behind it, unless it is there already.
pub open spec fn with_text(list: Seq<Seq<char>>, s: Seq<char>) -> Seq<Seq<char>> {
    if list.contains(s) {
        list
    } else {
        list.push(s)
    }
}

/// Puts `s` behind a list, unless it is there already.
pub fn add_text(list: &mut Vec<String>, s: &str)
    ensures
        texts(final(list)@) == with_text(texts(old(list)@), s@),
{
    if !contains_text(list, s) {
        let text = s.to_owned();
        proof {
            lemma_texts_push(list@, text);
        }
        list.push(text);
    }
}

/// The entry of a record: its section is another name for it.
pub open spec fn record_entry(r: RecordView) -> Result<EntryView, ErrorView> {
    match channel_of(r.name, r.tuning) {
        Ok(channel) => Ok(
            EntryView {
                section_title: r.name,
                channel,
                aliases: match r.legacy_zap_section {
                    Some(z) if z != r.name => with_text(r.aliases, z),
                    _ => r.aliases,
                },
                raw: r.tuning,
            },
        ),
        Err(e) => Err(ErrorView::Parse(e)),
    }
}

/// The entries of records; the first that is wrong decides.
pub open spec fn record_entries(records: Seq<RecordView>) -> Result<Seq<EntryView>, ErrorView>
    decreases records.len(),
{
    if records.len() == 0 {
        Ok(Seq::empty())
    } else {
        match record_entries(records.drop_last()) {
            Err(e) => Err(e),
            Ok(before) => match record_entry(records.last()) {
                Err(e) => Err(e),
                Ok(e) => Ok(before.push(e)),
            },
        }
    }
}

/// The entry of a record.
pub fn channel_record_to_entry(r: ChannelRecord) -> (out: Result<DvbV5Entry, Error>)
    ensures
        match out {
            Ok(e) => record_entry(r@) == Ok::<EntryView, ErrorView>(e@),
            Err(e) => record_entry(r@) == Err::<EntryView, ErrorView>(e@),
        },
{
    let mut aliases = r.aliases;
    if let Some(z) = &r.legacy_zap_section {
        if !same_text(z.as_str(), r.name.as_str()) {
            add_text(&mut aliases, z.as_str());
        }
    }
    match Channel::from_named_tuning(r.name.as_str(), &r.tuning) {
        Ok(channel) => Ok(DvbV5Entry { section_title: r.name, channel, aliases, raw: r.tuning }),
        Err(e) => Err(Error::Parse(e)),
    }
}

/// The entries of a document.
pub fn entries_from_document(doc: ChannelsDocument) -> (out: Result<Vec<DvbV5Entry>, Error>)
    ensures
        outcome_list(out) == record_entries(doc@.channels),
{
    let mut queue = doc.channels;
    let ghost all = views(queue@);
    let mut out: Vec<DvbV5Entry> = Vec::new();
    assert(all.take(0) =~= Seq::<RecordView>::empty());
    assert(views(out@) =~= Seq::<EntryView>::empty());
    assert(views(queue@) =~= all.skip(0));
    let ghost mut i: int = 0;
    while queue.len() > 0
        invariant
            0 <= i <= all.len(),
            views(queue@) == all.skip(i),
            all == doc@.channels,
            record_entries(all.take(i)) == Ok::<Seq<EntryView>, ErrorView>(views(out@)),
        decreases queue@.len(),
    {
        let ghost rest = views(queue@);
        let r = queue.remove(0);
        proof {
            assert(rest[0] == r@);
            assert(views(queue@) =~= rest.skip(1));
            assert(rest.skip(1) =~= all.skip(i + 1));
            assert(all.take(i + 1).drop_last() =~= all.take(i));
            assert(all.take(i + 1).last() == r@);
        }
        match channel_record_to_entry(r) {
            Ok(e) => {
                proof {
                    lemma_views_push(out@, e);
                }
                out.push(e);
            },
            Err(e) => {
                proof {
                    lemma_record_error_stays(all, i + 1);
                }
                return Err(e);
            },
        }
        proof {
            i = i + 1;
        }
    }
    assert(all.take(i) =~= all) by {
        assert(all.skip(i).len() == 0);
    }
    Ok(out)
}

proof fn lemma_record_error_stays(records: Seq<RecordView>, n: int)
    requires
        0 <= n <= records.len(),
        record_entries(records.take(n)) is Err,
    ensures
        record_entries(records) == record_entries(records.take(n)),
    decreases records.len() - n,
{
    if n < records.len() {
        assert(records.take(n + 1).drop_last() =~= records.take(n));
        lemma_record_error_stays(records, n + 1);
    } else {
        assert(records.take(n) =~= records);
    }
}

// ---- Kinds of files --------------------------------------------------------

/// The kinds of files that hold a channel list.
#[derive(Debug, Clone, Copy, PartialEq, Eq, Structural)]
pub enum ChannelsFormat {
    Conf,
    Json,
    Toml,
}

/// The kind of a file by the small letters of its extension.
pub open spec fn format_of(extension: Seq<char>) -> Option<ChannelsFormat> {
    if extension == "conf"@ {
        Some(ChannelsFormat::Conf)
    } else if extension == "json"@ {
        Some(ChannelsFormat::Json)
    } else if extension == "toml"@ {
        Some(ChannelsFormat::Toml)
    } else {
        None
    }
}

/// The kind of a file by the small letters of its extension.
pub fn format_from_lowercase(extension: &str) -> (out: Option<ChannelsFormat>)
    ensures
        out == format_of(extension@),
{
    if same_text(extension, "conf") {
        Some(ChannelsFormat::Conf)
    } else if same_text(extension, "json") {
        Some(ChannelsFormat::Json)
    } else if same_text(extension, "toml") {
        Some(ChannelsFormat::Toml)
    } else {
        None
    }
}

/// The kind of a file by its extension in letters of any case; an error that
/// tells the path where there is none.
pub fn channels_format(path: &str, extension: &str) -> (out: Result<ChannelsFormat, Error>)
    ensures
        match out {
            Ok(format) => format_of(lowercase(extension@)) == Some(format),
            Err(e) => {
                &&& format_of(lowercase(extension@)) is None
                &&& e@ == ErrorView::Msg(
                    "unsupported channels path (use .conf / .json / .toml): "@ + path@,
                )
            },
        },
{
    match format_from_lowercase(extension.to_lowercase().as_str()) {
        Some(format) => Ok(format),
        None => {
            let mut text = "unsupported channels path (use .conf / .json / .toml): ".to_owned();
            text.append(path);
            Err(Error::Msg(text))
        },
    }
}

// ---- Documents from `.conf` files ------------------------------------------

/// Settings without those that name the channel.
pub open spec fn without_labels(m: Settings) -> Settings {
    m.remove("DVBR_NAME"@).remove("DVBR_ALIASES"@).remove("CHANNEL_LABEL"@)
}

/// Removes the settings that name the channel.
pub fn strip_dvbr_meta(map: &mut TextMap)
    ensures
        final(map)@ == without_labels(old(map)@),
{
    map.remove("DVBR_NAME");
    map.remove("DVBR_ALIASES");
    map.remove("CHANNEL_LABEL");
}

/// How many characters of `s` are not ASCII.
pub open spec fn non_ascii(s: Seq<char>) -> nat
    decreases s.len(),
{
    if s.len() == 0 {
        0
    } else {
        non_ascii(s.drop_last()) + if (s.last() as u32) < 128 {
            0nat
        } else {
            1
        }
    }
}

/// Whether a title looks garbled, so that it is no name to keep.
pub open spec fn looks_garbled(title: Seq<char>, name: Seq<char>) -> bool {
    ||| title.contains('|') || title.contains('!') || title.contains('%')
    ||| name == title && non_ascii(name) > 2
}

/// Whether a title looks garbled.
pub fn needs_generated_id(section_title: &str, channel_display: &str) -> (yes: bool)
    ensures
        yes == looks_garbled(section_title@, channel_display@),
{
    let title = chars_of(section_title);
    if contains_char(&title, '|') || contains_char(&title, '!') || contains_char(&title, '%') {
        return true;
    }
    if !same_text(channel_display, section_title) {
        return false;
    }
    let name = chars_of(channel_display);
    let mut count: usize = 0;
    let mut i: usize = 0;
    assert(name@.take(0) =~= Seq::<char>::empty());
    while i < name.len()
        invariant
            i <= name@.len(),
            count <= i,
            count == non_ascii(name@.take(i as int)),
        decreases name@.len() - i,
    {
        assert(name@.take(i + 1).drop_last() =~= name@.take(i as int));
        if name[i] as u32 >= 128 {
            count += 1;
        }
        i += 1;
    }
    assert(name@.take(i as int) =~= name@);
    count > 2
}

/// Whether `c` may stand in an identifier.
pub open spec fn is_id_char(c: char) -> bool {
    ||| '0' <= c <= '9'
    ||| 'a' <= c <= 'z'
    ||| 'A' <= c <= 'Z'
    ||| c == '_' || c == '-'
}

/// Whether `s` is an identifier.
pub open spec fn is_identifier(s: Seq<char>) -> bool {
    s.len() > 0 && forall|i: int| 0 <= i < s.len() ==> is_id_char(#[trigger] s[i])
}

fn identifier(s: &str) -> (yes: bool)
    ensures
        yes == is_identifier(s@),
{
    let chars = chars_of(s);
    let mut i: usize = 0;
    while i < chars.len()
        invariant
            chars@ == s@,
            i <= chars@.len(),
            forall|j: int| 0 <= j < i ==> is_id_char(#[trigger] chars@[j]),
        decreases chars@.len() - i,
    {
        let c = chars[i];
        if !('0' <= c && c <= '9' || 'a' <= c && c <= 'z' || 'A' <= c && c <= 'Z' || c == '_' || c
            == '-') {
            assert(!is_id_char(chars@[i as int]));
            return false;
        }
        i += 1;
    }
    chars.len() > 0
}

/// `u1065_539142857`: a name made of the service and the frequency.
pub open spec fn generated_name(service_id: u16, frequency: u32) -> Seq<char> {
    seq!['u'] + decimal(service_id as nat) + seq!['_'] + decimal(frequency as nat)
}

fn make_generated_name(service_id: u16, frequency: u32) -> (out: String)
    ensures
        out@ == generated_name(service_id, frequency),
{
    let mut out = String::new();
    out.push('u');
    out.append(&decimal_text(service_id as u128));
    out.push('_');
    out.append(&decimal_text(frequency as u128));
    assert(out@ =~= generated_name(service_id, frequency));
    out
}

/// The name that an entry would have if nothing else had it.
pub open spec fn wanted_name(e: EntryView) -> Seq<char> {
    if e.channel.name != e.section_title && is_identifier(e.channel.name) {
        e.channel.name
    } else if looks_garbled(e.section_title, e.channel.name) {
        generated_name(e.channel.service_id, e.channel.frequency)
    } else {
        e.channel.name
    }
}

/// The names of records.
pub open spec fn record_names(records: Seq<RecordView>) -> Seq<Seq<char>> {
    records.map_values(|r: RecordView| r.name)
}

/// The record of an entry behind others. A title that is not its name becomes an
/// alias.
pub open spec fn conf_record(e: EntryView, before: Seq<RecordView>) -> RecordView {
    let name = free_name(wanted_name(e), record_names(before));
    RecordView {
        name,
        aliases: if name != e.section_title {
            with_text(e.aliases, e.section_title)
        } else {
            e.aliases
        },
        legacy_zap_section: if name != e.section_title {
            Some(e.section_title)
        } else {
            None
        },
        tuning: without_labels(e.raw),
    }
}

/// The records of entries.
pub open spec fn conf_records(entries: Seq<EntryView>) -> Seq<RecordView>
    decreases entries.len(),
{
    if entries.len() == 0 {
        Seq::empty()
    } else {
        let before = conf_records(entries.drop_last());
        before.push(conf_record(entries.last(), before))
    }
}

/// The record of an entry, where `used` are the names of those before it.
fn make_conf_record(e: DvbV5Entry, used: &Vec<String>) -> (r: ChannelRecord)
    ensures
        forall|before: Seq<RecordView>|
            texts(used@) == #[trigger] record_names(before) ==> r@ == conf_record(e@, before),
{
    let wanted = if !same_text(e.channel.name.as_str(), e.section_title.as_str()) && identifier(
        e.channel.name.as_str(),
    ) {
        e.channel.name.clone()
    } else if needs_generated_id(e.section_title.as_str(), e.channel.name.as_str()) {
        make_generated_name(e.channel.service_id, e.channel.frequency)
    } else {
        e.channel.name.clone()
    };
    let name = unique_name(wanted.as_str(), used);
    let mut tuning = e.raw.clone();
    strip_dvbr_meta(&mut tuning);
    let mut aliases = e.aliases;
    let legacy_zap_section = if !same_text(name.as_str(), e.section_title.as_str()) {
        add_text(&mut aliases, e.section_title.as_str());
        Some(e.section_title)
    } else {
        None
    };
    ChannelRecord { name, aliases, legacy_zap_section, tuning }
}

/// The document of the entries of a `.conf` file. No two records have one name.
pub fn document_from_conf_entries(entries: Vec<DvbV5Entry>) -> (doc: ChannelsDocument)
    ensures
        doc@ == (DocumentView { version: 1, channels: conf_records(views(entries@)) }),
{
    let ghost all = views(entries@);
    let mut queue = entries;
    let mut used: Vec<String> = Vec::new();
    let mut channels: Vec<ChannelRecord> = Vec::new();
    let ghost mut i: int = 0;
    assert(all.take(0) =~= Seq::<EntryView>::empty());
    assert(views(channels@) =~= Seq::<RecordView>::empty());
    assert(texts(used@) =~= record_names(Seq::<RecordView>::empty()));
    assert(views(queue@) =~= all.skip(0));
    while queue.len() > 0
        invariant
            0 <= i <= all.len(),
            views(queue@) == all.skip(i),
            views(channels@) == conf_records(all.take(i)),
            texts(used@) == record_names(views(channels@)),
        decreases queue@.len(),
    {
        let ghost rest = views(queue@);
        let e = queue.remove(0);
        let ghost before = views(channels@);
        proof {
            assert(rest[0] == e@);
            assert(views(queue@) =~= rest.skip(1));
            assert(rest.skip(1) =~= all.skip(i + 1));
            assert(all.take(i + 1).drop_last() =~= all.take(i));
            assert(all.take(i + 1).last() == e@);
        }
        let r = make_conf_record(e, &used);
        let name = r.name.clone();
        proof {
            lemma_views_push(channels@, r);
            lemma_texts_push(used@, name);
            assert(record_names(before.push(r@)) =~= record_names(before).push(r@.name));
        }
        used.push(name);
        channels.push(r);
        proof {
            i = i + 1;
        }
    }
    assert(all.take(i) =~= all) by {
        assert(all.skip(i).len() == 0);
    }
    ChannelsDocument { version: 1, channels }
}

// ---- Laws ------------------------------------------------------------------

/// In the document of a `.conf` file, no two records have one name.
pub proof fn law_names_are_distinct(entries: Seq<EntryView>)
    ensures
        conf_records(entries).len() == entries.len(),
        forall|i: int, j: int|
            0 <= i < j < entries.len() ==> (#[trigger] conf_records(entries)[i]).name != (
            #[trigger] conf_records(entries)[j]).name,
    decreases entries.len(),
{
    if entries.len() > 0 {
        let front = entries.drop_last();
        law_names_are_distinct(front);
        let before = conf_records(front);
        let all = conf_records(entries);
        law_free_name_is_not_taken(wanted_name(entries.last()), record_names(before));
        assert forall|i: int, j: int| 0 <= i < j < entries.len() implies (#[trigger] all[i]).name
            != (#[trigger] all[j]).name by {
            assert(all[i] == before[i]);
            if j < front.len() {
                assert(all[j] == before[j]);
            } else {
                assert(record_names(before)[i] == all[i].name);
            }
        }
    }
}

/// The record that an entry becomes keeps its aliases and its settings, and
/// still answers to the title of its section.
pub proof fn law_title_still_answers(entries: Seq<EntryView>, i: int)
    requires
        0 <= i < entries.len(),
    ensures
        ({
            let r = conf_records(entries)[i];
            let e = entries[i];
            &&& r.name == e.section_title || r.aliases.contains(e.section_title)
            &&& forall|a: Seq<char>| e.aliases.contains(a) ==> r.aliases.contains(a)
            &&& r.tuning == without_labels(e.raw)
        }),
    decreases entries.len(),
{
    let front = entries.drop_last();
    law_names_are_distinct(front);
    if i < front.len() {
        law_title_still_answers(front, i);
    } else {
        let before = conf_records(front);
        let e = entries.last();
        let r = conf_record(e, before);
        if !e.aliases.contains(e.section_title) {
            let longer = e.aliases.push(e.section_title);
            assert(longer[e.aliases.len() as int] == e.section_title);
            assert forall|a: Seq<char>| e.aliases.contains(a) implies longer.contains(a) by {
                let k = choose|k: int| 0 <= k < e.aliases.len() && e.aliases[k] == a;
                assert(longer[k] == a);
            }
        }
    }
}

proof fn lemma_labels_are_no_tuning(m: Settings)
    ensures
        forall|name: Seq<char>| channel_of(name, without_labels(m)) == channel_of(name, m),
{
    reveal_strlit("DVBR_NAME");
    reveal_strlit("DVBR_ALIASES");
    reveal_strlit("CHANNEL_LABEL");
    reveal_strlit("FREQUENCY");
    reveal_strlit("SERVICE_ID");
    reveal_strlit("DELIVERY_SYSTEM");
    reveal_strlit("BANDWIDTH_HZ");
    reveal_strlit("VIDEO_PID");
    reveal_strlit("AUDIO_PID");
    let labels = seq!["DVBR_NAME"@, "DVBR_ALIASES"@, "CHANNEL_LABEL"@];
    assert forall|k: int| 0 <= k < 3 implies {
        let label = #[trigger] labels[k];
        &&& label != "FREQUENCY"@
        &&& label != "SERVICE_ID"@
        &&& label != "DELIVERY_SYSTEM"@
        &&& label != "BANDWIDTH_HZ"@
        &&& label != "VIDEO_PID"@
        &&& label != "AUDIO_PID"@
    } by {
        assert(labels[k][0] == 'D' || labels[k][0] == 'C');
        assert(labels[k][0] == 'D' ==> labels[k][1] == 'V');
        assert("DELIVERY_SYSTEM"@[1] == 'E');
    }
    assert(labels[0] == "DVBR_NAME"@ && labels[1] == "DVBR_ALIASES"@ && labels[2]
        == "CHANNEL_LABEL"@);
}

/// The record of a section of a `.conf` file tunes to the same channel as the
/// section did, and its entry answers to the title of the section.
pub proof fn law_migrated_record_tunes_the_same(
    title: Seq<char>,
    m: Settings,
    before: Seq<RecordView>,
)
    requires
        section_entry(title, m) is Ok,
    ensures
        ({
            let e = section_entry(title, m)->Ok_0;
            let r = conf_record(e, before);
            &&& record_entry(r) is Ok
            &&& record_entry(r)->Ok_0.channel == (ChannelView { name: r.name, ..e.channel })
            &&& answers(record_entry(r)->Ok_0, title)
            &&& answers(record_entry(r)->Ok_0, r.name)
        }),
{
    lemma_labels_are_no_tuning(m);
    let e = section_entry(title, m)->Ok_0;
    let r = conf_record(e, before);
    let aliases = with_text(e.aliases, title);
    if !e.aliases.contains(title) {
        assert(aliases[e.aliases.len() as int] == title);
    }
}

/// The entry of a section of a `.conf` file answers to the section's title, to the
/// label that its settings give, and to every alias that they list.
pub proof fn law_section_answers_to_all_its_names(title: Seq<char>, m: Settings)
    requires
        section_entry(title, m) is Ok,
    ensures
        answers(section_entry(title, m)->Ok_0, title),
        m.contains_key("DVBR_NAME"@) && m["DVBR_NAME"@].len() > 0 ==> answers(
            section_entry(title, m)->Ok_0,
            m["DVBR_NAME"@],
        ),
        m.contains_key("DVBR_ALIASES"@) ==> forall|a: Seq<char>|
            alias_list(m["DVBR_ALIASES"@]).contains(a) ==> #[trigger] answers(
                section_entry(title, m)->Ok_0,
                a,
            ),
{
}

/// The entry of a record answers to the record's name, to each of its aliases and
/// to the title of its section.
pub proof fn law_record_answers_to_all_its_names(r: RecordView)
    requires
        record_entry(r) is Ok,
    ensures
        answers(record_entry(r)->Ok_0, r.name),
        forall|a: Seq<char>|
            r.aliases.contains(a) ==> #[trigger] answers(record_entry(r)->Ok_0, a),
        r.legacy_zap_section matches Some(z) ==> answers(record_entry(r)->Ok_0, z),
{
    let e = record_entry(r)->Ok_0;
    if let Some(z) = r.legacy_zap_section {
        if z != r.name && !r.aliases.contains(z) {
            assert(e.aliases[r.aliases.len() as int] == z);
            assert forall|a: Seq<char>| r.aliases.contains(a) implies #[trigger] answers(
                e,
                a,
            ) by {
                let k = choose|k: int| 0 <= k < r.aliases.len() && r.aliases[k] == a;
                assert(e.aliases[k] == a);
            }
        }
    }
}

} // verus!
