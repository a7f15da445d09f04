//! What is read of a `.conf` file that was written line by line.

use crate::channel::Settings;
use crate::config::{
    after_line, after_lines, closed_section, conf_entries, is_skipped, section_entry, ConfView,
    EntryView,
};
use crate::error::ErrorView;
use crate::laws::texts::{
    all_blank, free_of, is_blank, is_tight, law_splitting, law_splitting_once, law_trimming,
    with_between,
};
use crate::text::{split, trimmed};
use vstd::prelude::*;

verus! {

// ---- Lines -----------------------------------------------------------------

/// A line of a section: a setting, with white space wherever it may stand, or one
/// that says nothing.
pub enum WrittenLine {
    Setting {
        before: Seq<char>,
        key: Seq<char>,
        left: Seq<char>,
        right: Seq<char>,
        value: Seq<char>,
        behind: Seq<char>,
    },
    /// Empty, a comment, or neither a title nor a setting.
    Idle { before: Seq<char>, text: Seq<char>, behind: Seq<char> },
}

/// A title and the lines up to the next.
pub struct WrittenSection {
    pub before: Seq<char>,
    pub title: Seq<char>,
    pub behind: Seq<char>,
    pub lines: Seq<WrittenLine>,
}

/// A text in one line.
pub open spec fn is_one_line(s: Seq<char>) -> bool {
    free_of(s, seq!['\n'])
}

/// Whether a text without white space at its ends says nothing.
pub open spec fn says_nothing(s: Seq<char>) -> bool {
    ||| s.len() == 0
    ||| s[0] == '#'
    ||| !(s[0] == '[' && s.last() == ']') && !s.contains('=')
}

pub open spec fn is_written_line(l: WrittenLine) -> bool {
    &&& is_one_line(line_text(l))
    &&& match l {
        WrittenLine::Setting { before, key, left, right, value, behind } => {
            &&& all_blank(before) && all_blank(left) && all_blank(right) && all_blank(behind)
            &&& is_tight(key) && is_tight(value) && !key.contains('=')
            &&& key.len() == 0 ==> left.len() == 0
            &&& key.len() > 0 ==> key[0] != '#'
            &&& key.len() > 0 && key[0] == '[' && value.len() > 0 ==> value.last() != ']'
        },
        WrittenLine::Idle { before, text, behind } => {
            all_blank(before) && all_blank(behind) && is_tight(text) && says_nothing(text)
        },
    }
}

/// The characters of a line.
pub open spec fn line_text(l: WrittenLine) -> Seq<char> {
    match l {
        WrittenLine::Setting { before, key, left, right, value, behind } => before + key + left
            + seq!['='] + right + value + behind,
        WrittenLine::Idle { before, text, behind } => before + text + behind,
    }
}

/// The characters of the line of a title.
pub open spec fn title_text(s: WrittenSection) -> Seq<char> {
    s.before + seq!['['] + s.title + seq![']'] + s.behind
}

pub open spec fn is_written_section(s: WrittenSection) -> bool {
    &&& all_blank(s.before) && all_blank(s.behind)
    &&& is_one_line(title_text(s))
    &&& forall|i: int| 0 <= i < s.lines.len() ==> is_written_line(#[trigger] s.lines[i])
}

/// The settings that lines give, behind others. Of two with one key the later
/// counts.
pub open spec fn given(m: Settings, lines: Seq<WrittenLine>) -> Settings
    decreases lines.len(),
{
    if lines.len() == 0 {
        m
    } else {
        match lines.last() {
            WrittenLine::Setting { before, key, left, right, value, behind } => given(
                m,
                lines.drop_last(),
            ).insert(key, value),
            WrittenLine::Idle { before, text, behind } => given(m, lines.drop_last()),
        }
    }
}

pub open spec fn has_setting(lines: Seq<WrittenLine>) -> bool {
    exists|i: int| 0 <= i < lines.len() && #[trigger] lines[i] is Setting
}

/// The entries of sections: one for each that has a setting, in order; the first
/// that is wrong decides.
pub open spec fn entries_of(sections: Seq<WrittenSection>) -> Result<Seq<EntryView>, ErrorView>
    decreases sections.len(),
{
    if sections.len() == 0 {
        Ok(Seq::empty())
    } else {
        let s = sections.last();
        match entries_of(sections.drop_last()) {
            Err(e) => Err(e),
            Ok(before) => if !has_setting(s.lines) {
                Ok(before)
            } else {
                match section_entry(s.title, given(Map::empty(), s.lines)) {
                    Ok(e) => Ok(before + seq![e]),
                    Err(e) => Err(e),
                }
            },
        }
    }
}

/// The lines of lines.
pub open spec fn texts_of(lines: Seq<WrittenLine>) -> Seq<Seq<char>> {
    lines.map_values(|l: WrittenLine| line_text(l))
}

/// The lines of sections.
pub open spec fn all_lines(sections: Seq<WrittenSection>) -> Seq<Seq<char>>
    decreases sections.len(),
{
    if sections.len() == 0 {
        Seq::empty()
    } else {
        all_lines(sections.drop_last()) + seq![title_text(sections.last())] + texts_of(
            sections.last().lines,
        )
    }
}

// ---- Single lines ----------------------------------------------------------

#[verifier::rlimit(60)]
proof fn lemma_setting_line(st: ConfView, l: WrittenLine)
    requires
        is_written_line(l),
        l is Setting,
    ensures
        st.section is Some ==> after_line(st, line_text(l)) == Ok::<ConfView, ErrorView>(
            ConfView { settings: given(st.settings, seq![l]), ..st },
        ),
        st.section is None ==> after_line(st, line_text(l)) == Err::<ConfView, ErrorView>(
            ErrorView::Parse("key=value before first [section]"@),
        ),
{
    match l {
        WrittenLine::Setting { before, key, left, right, value, behind } => {
            let none = Seq::<char>::empty();
            let front = key + left;
            let back = if value.len() > 0 {
                right + value
            } else {
                none
            };
            let core = front + seq!['='] + back;
            let tail = if value.len() > 0 {
                behind
            } else {
                right + behind
            };
            assert(line_text(l) =~= before + core + tail);
            assert forall|i: int| 0 <= i < tail.len() implies is_blank(#[trigger] tail[i]) by {
                if value.len() == 0 {
                    if i < right.len() {
                        assert(tail[i] == right[i]);
                    } else {
                        assert(tail[i] == behind[i - right.len()]);
                    }
                }
            }
            assert(core[0] == (if key.len() > 0 {
                key[0]
            } else {
                '='
            }));
            assert(value.len() > 0 ==> core.last() == value.last());
            assert(value.len() == 0 ==> core.last() == '=');
            law_trimming(before, core, tail);
            assert(trimmed(line_text(l)) == core);
            assert forall|i: int| 0 <= i < front.len() implies !seq!['='].contains(
                #[trigger] front[i],
            ) by {
                if i < key.len() {
                    assert(front[i] == key[i]);
                    assert(key.contains(key[i]));
                } else {
                    assert(front[i] == left[i - key.len()]);
                    assert(is_blank(left[i - key.len()]));
                }
            }
            law_splitting_once(front, back, '=');
            law_trimming(none, key, left);
            assert(none + key + left =~= front);
            law_trimming(right, value, none);
            assert(right + value + none =~= right + value);
            law_trimming(none, none, none);
            assert(none + none + none =~= none);
            assert(value.len() == 0 ==> value =~= none);
            assert(trimmed(back) == value);
            assert(trimmed(front) == key);
            assert(seq![l].drop_last() =~= Seq::<WrittenLine>::empty());
            assert(given(st.settings, seq![l].drop_last()) == st.settings);
            assert(given(st.settings, seq![l]) == st.settings.insert(key, value));
        },
        _ => {},
    }
}

proof fn lemma_idle_line(st: ConfView, l: WrittenLine)
    requires
        is_written_line(l),
        l is Idle,
    ensures
        after_line(st, line_text(l)) == Ok::<ConfView, ErrorView>(st),
{
    match l {
        WrittenLine::Idle { before, text, behind } => {
            law_trimming(before, text, behind);
            if !is_skipped(text) {
                assert(free_of(text, seq!['='])) by {
                    assert forall|i: int| 0 <= i < text.len() implies !seq!['='].contains(
                        #[trigger] text[i],
                    ) by {
                        assert(text.contains(text[i]));
                    }
                }
                law_splitting_once(text, Seq::empty(), '=');
            }
        },
        _ => {},
    }
}

proof fn lemma_title_line(st: ConfView, s: WrittenSection)
    requires
        is_written_section(s),
    ensures
        after_line(st, title_text(s)) == (match closed_section(st) {
            Ok(entries) => Ok::<ConfView, ErrorView>(
                ConfView { entries, section: Some(s.title), settings: Map::empty() },
            ),
            Err(e) => Err(e),
        }),
{
    let core = seq!['['] + s.title + seq![']'];
    assert(title_text(s) =~= s.before + core + s.behind);
    law_trimming(s.before, core, s.behind);
    assert(core.subrange(1, core.len() - 1) =~= s.title);
}

// ---- Files -----------------------------------------------------------------

proof fn lemma_after_lines_push(lines: Seq<Seq<char>>, line: Seq<char>)
    ensures
        after_lines(lines.push(line)) == (match after_lines(lines) {
            Ok(st) => after_line(st, line),
            Err(e) => Err(e),
        }),
{
    assert(lines.push(line).drop_last() =~= lines);
}

proof fn lemma_body(head: Seq<Seq<char>>, st: ConfView, lines: Seq<WrittenLine>)
    requires
        after_lines(head) == Ok::<ConfView, ErrorView>(st),
        st.section is Some,
        forall|i: int| 0 <= i < lines.len() ==> is_written_line(#[trigger] lines[i]),
    ensures
        after_lines(head + texts_of(lines)) == Ok::<ConfView, ErrorView>(
            ConfView { settings: given(st.settings, lines), ..st },
        ),
    decreases lines.len(),
{
    if lines.len() == 0 {
        assert(head + texts_of(lines) =~= head);
        assert(st =~= (ConfView { settings: given(st.settings, lines), ..st }));
    } else {
        let front = lines.drop_last();
        let l = lines.last();
        assert forall|i: int| 0 <= i < front.len() implies is_written_line(#[trigger] front[i]) by {
            assert(front[i] == lines[i]);
        }
        assert(is_written_line(lines[lines.len() - 1]));
        lemma_body(head, st, front);
        assert(head + texts_of(lines) =~= (head + texts_of(front)).push(line_text(l)));
        lemma_after_lines_push(head + texts_of(front), line_text(l));
        let mid = ConfView { settings: given(st.settings, front), ..st };
        if l is Setting {
            lemma_setting_line(mid, l);
            assert(seq![l].drop_last() =~= Seq::<WrittenLine>::empty());
            assert(given(mid.settings, seq![l].drop_last()) == mid.settings);
            assert(given(mid.settings, seq![l]) == given(st.settings, lines));
        } else {
            lemma_idle_line(mid, l);
        }
    }
}

proof fn lemma_given_empty(lines: Seq<WrittenLine>)
    ensures
        has_setting(lines) <==> given(Map::empty(), lines) != Map::<Seq<char>, Seq<char>>::empty(),
    decreases lines.len(),
{
    if lines.len() > 0 {
        let front = lines.drop_last();
        lemma_given_empty(front);
        match lines.last() {
            WrittenLine::Setting { before, key, left, right, value, behind } => {
                assert(lines[lines.len() - 1] is Setting);
                assert(given(Map::empty(), lines).contains_key(key));
            },
            _ => {
                if has_setting(lines) {
                    let i = choose|i: int| 0 <= i < lines.len() && #[trigger] lines[i] is Setting;
                    assert(front[i] is Setting);
                }
                if has_setting(front) {
                    let i = choose|i: int| 0 <= i < front.len() && #[trigger] front[i] is Setting;
                    assert(lines[i] is Setting);
                }
            },
        }
    }
}

/// How a reading stands behind sections.
spec fn stands_behind(
    found: Result<ConfView, ErrorView>,
    sections: Seq<WrittenSection>,
) -> bool {
    match found {
        Ok(st) => closed_section(st) == entries_of(sections),
        Err(e) => entries_of(sections) == Err::<Seq<EntryView>, ErrorView>(e),
    }
}

#[verifier::rlimit(60)]
proof fn lemma_sections(head: Seq<Seq<char>>, sections: Seq<WrittenSection>)
    requires
        after_lines(head) == Ok::<ConfView, ErrorView>(
            ConfView { entries: Seq::empty(), section: None, settings: Map::empty() },
        ),
        forall|i: int| 0 <= i < sections.len() ==> is_written_section(#[trigger] sections[i]),
    ensures
        stands_behind(after_lines(head + all_lines(sections)), sections),
    decreases sections.len(),
{
    if sections.len() == 0 {
        assert(head + all_lines(sections) =~= head);
    } else {
        let front = sections.drop_last();
        let s = sections.last();
        assert forall|i: int| 0 <= i < front.len() implies is_written_section(
            #[trigger] front[i],
        ) by {
            assert(front[i] == sections[i]);
        }
        assert(is_written_section(sections[sections.len() - 1]));
        lemma_sections(head, front);
        let before = head + all_lines(front);
        let titled = before.push(title_text(s));
        assert(head + all_lines(sections) =~= titled + texts_of(s.lines));
        lemma_after_lines_push(before, title_text(s));
        match after_lines(before) {
            Err(e) => {
                lemma_error_remains(titled, s.lines);
            },
            Ok(st) => {
                lemma_title_line(st, s);
                match closed_section(st) {
                    Err(e) => {
                        lemma_error_remains(titled, s.lines);
                    },
                    Ok(entries) => {
                        let open = ConfView {
                            entries,
                            section: Some(s.title),
                            settings: Map::empty(),
                        };
                        lemma_body(titled, open, s.lines);
                        lemma_given_empty(s.lines);
                        if has_setting(s.lines) {
                            if let Ok(e) = section_entry(s.title, given(Map::empty(), s.lines)) {
                                assert(entries.push(e) =~= entries + seq![e]);
                            }
                        }
                    },
                }
            },
        }
    }
}

proof fn lemma_error_remains(head: Seq<Seq<char>>, lines: Seq<WrittenLine>)
    requires
        after_lines(head) is Err,
    ensures
        after_lines(head + texts_of(lines)) == after_lines(head),
    decreases lines.len(),
{
    if lines.len() == 0 {
        assert(head + texts_of(lines) =~= head);
    } else {
        let front = lines.drop_last();
        lemma_error_remains(head, front);
        assert(head + texts_of(lines) =~= (head + texts_of(front)).push(line_text(lines.last())));
        lemma_after_lines_push(head + texts_of(front), line_text(lines.last()));
    }
}

proof fn lemma_idle_head(lines: Seq<WrittenLine>)
    requires
        forall|i: int|
            0 <= i < lines.len() ==> is_written_line(#[trigger] lines[i]) && lines[i] is Idle,
    ensures
        after_lines(texts_of(lines)) == Ok::<ConfView, ErrorView>(
            ConfView { entries: Seq::empty(), section: None, settings: Map::empty() },
        ),
    decreases lines.len(),
{
    if lines.len() > 0 {
        let front = lines.drop_last();
        assert forall|i: int| 0 <= i < front.len() implies is_written_line(#[trigger] front[i])
            && front[i] is Idle by {
            assert(front[i] == lines[i]);
        }
        assert(lines[lines.len() - 1] is Idle && is_written_line(lines[lines.len() - 1]));
        lemma_idle_head(front);
        assert(texts_of(lines) =~= texts_of(front).push(line_text(lines.last())));
        lemma_after_lines_push(texts_of(front), line_text(lines.last()));
        lemma_idle_line(
            ConfView { entries: Seq::empty(), section: None, settings: Map::empty() },
            lines.last(),
        );
    }
}

/// Lines with a line feed between each two of them.
pub open spec fn file_text(lines: Seq<Seq<char>>) -> Seq<char> {
    with_between(lines, Seq::new((lines.len() - 1) as nat, |i: int| '\n'))
}

proof fn lemma_file(lines: Seq<Seq<char>>)
    requires
        lines.len() > 0,
        forall|i: int| 0 <= i < lines.len() ==> is_one_line(#[trigger] lines[i]),
    ensures
        split(file_text(lines), seq!['\n']) == lines,
{
    let between = Seq::new((lines.len() - 1) as nat, |i: int| '\n');
    assert(seq!['\n'][0] == '\n');
    assert forall|i: int| 0 <= i < lines.len() implies free_of(#[trigger] lines[i], seq!['\n']) by {
        assert(is_one_line(lines[i]));
    }
    assert forall|i: int| 0 <= i < between.len() implies seq!['\n'].contains(
        #[trigger] between[i],
    ) by {}
    law_splitting(lines, between, seq!['\n']);
}

proof fn lemma_all_one_line(head: Seq<WrittenLine>, sections: Seq<WrittenSection>, i: int)
    requires
        forall|k: int| 0 <= k < head.len() ==> is_written_line(#[trigger] head[k]),
        forall|k: int| 0 <= k < sections.len() ==> is_written_section(#[trigger] sections[k]),
        0 <= i < (texts_of(head) + all_lines(sections)).len(),
    ensures
        is_one_line((texts_of(head) + all_lines(sections))[i]),
    decreases sections.len(),
{
    let all = texts_of(head) + all_lines(sections);
    if i < head.len() {
        assert(is_written_line(head[i]));
    } else if sections.len() > 0 {
        let front = sections.drop_last();
        let before = texts_of(head) + all_lines(front);
        assert forall|k: int| 0 <= k < front.len() implies is_written_section(
            #[trigger] front[k],
        ) by {
            assert(front[k] == sections[k]);
        }
        let s = sections[sections.len() - 1];
        assert(is_written_section(s));
        if i < before.len() {
            assert(all[i] == before[i]);
            lemma_all_one_line(head, front, i);
        } else if i == before.len() {
            assert(all[i] == title_text(s));
        } else {
            let k = i - before.len() - 1;
            assert(all[i] == line_text(s.lines[k]));
            assert(is_written_line(s.lines[k]));
        }
    }
}

/// A file of sections is read as it was written: every section that has a setting
/// is an entry, in order, with its title and with all its settings; lines that say
/// nothing and white space around titles, keys and values make no difference.
pub proof fn law_written_files_are_read(head: Seq<WrittenLine>, sections: Seq<WrittenSection>)
    requires
        forall|i: int|
            0 <= i < head.len() ==> is_written_line(#[trigger] head[i]) && head[i] is Idle,
        forall|i: int| 0 <= i < sections.len() ==> is_written_section(#[trigger] sections[i]),
        head.len() + sections.len() > 0,
    ensures
        conf_entries(file_text(texts_of(head) + all_lines(sections))) == entries_of(sections),
{
    let lines = texts_of(head) + all_lines(sections);
    if sections.len() > 0 {
        assert(all_lines(sections).len() > 0);
    }
    assert forall|i: int| 0 <= i < lines.len() implies is_one_line(#[trigger] lines[i]) by {
        lemma_all_one_line(head, sections, i);
    }
    lemma_file(lines);
    lemma_idle_head(head);
    lemma_sections(texts_of(head), sections);
}

/// A setting before the first title is an error, whatever lines follow.
pub proof fn law_settings_need_a_section(
    head: Seq<WrittenLine>,
    setting: WrittenLine,
    rest: Seq<WrittenLine>,
)
    requires
        forall|i: int|
            0 <= i < head.len() ==> is_written_line(#[trigger] head[i]) && head[i] is Idle,
        is_written_line(setting) && setting is Setting,
        forall|i: int| 0 <= i < rest.len() ==> is_written_line(#[trigger] rest[i]),
    ensures
        conf_entries(file_text(texts_of(head.push(setting)) + texts_of(rest))) == Err::<
            Seq<EntryView>,
            ErrorView,
        >(ErrorView::Parse("key=value before first [section]"@)),
{
    let first = texts_of(head.push(setting));
    let lines = first + texts_of(rest);
    assert forall|i: int| 0 <= i < lines.len() implies is_one_line(#[trigger] lines[i]) by {
        if i < head.len() {
            assert(is_written_line(head[i]));
            assert(lines[i] == line_text(head[i]));
        } else if i == head.len() {
            assert(lines[i] == line_text(setting));
        } else {
            assert(is_written_line(rest[i - head.len() - 1]));
            assert(lines[i] == line_text(rest[i - head.len() - 1]));
        }
    }
    lemma_file(lines);
    lemma_idle_head(head);
    assert(first =~= texts_of(head).push(line_text(setting)));
    lemma_after_lines_push(texts_of(head), line_text(setting));
    lemma_setting_line(
        ConfView { entries: Seq::empty(), section: None, settings: Map::empty() },
        setting,
    );
    lemma_error_remains(first, rest);
}

} // verus!
