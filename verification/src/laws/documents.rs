//! What is read of channel lists in TOML, and by what a kind of file is known.

use crate::channel::Settings;
use crate::config::{
    channels_format, record_entry, ChannelsFormat, DvbV5Entry, EntryView, RecordView,
};
use crate::error::{outcome_list, Error, ErrorView};
use crate::text::lowercase;
use crate::toml_doc::{
    channel_settings, load_channel_entries_toml, member, only_texts, plain_text, toml_document,
    toml_entries, toml_record, with_settings, TomlTree,
};
use vstd::prelude::*;

verus! {

/// A table of TOML.
pub type Pairs = Seq<(Seq<char>, TomlTree)>;

/// Whether a table gives a key a value: at its first place.
pub open spec fn gives(pairs: Pairs, key: Seq<char>, value: TomlTree) -> bool {
    exists|i: int|
        {
            &&& 0 <= i < pairs.len()
            &&& (#[trigger] pairs[i]).0 == key
            &&& pairs[i].1 == value
            &&& forall|k: int| 0 <= k < i ==> (#[trigger] pairs[k]).0 != key
        }
}

pub open spec fn lacks(pairs: Pairs, key: Seq<char>) -> bool {
    forall|i: int| 0 <= i < pairs.len() ==> (#[trigger] pairs[i]).0 != key
}

/// The value of a key is that of the first pair with it.
pub proof fn law_members(pairs: Pairs, key: Seq<char>)
    ensures
        member(pairs, key) is None <==> lacks(pairs, key),
        member(pairs, key) matches Some(v) ==> gives(pairs, key, v),
    decreases pairs.len(),
{
    if pairs.len() > 0 {
        let rest = pairs.skip(1);
        law_members(rest, key);
        if pairs[0].0 == key {
            assert(gives(pairs, key, pairs[0].1));
        } else {
            if lacks(rest, key) {
                assert forall|i: int| 0 <= i < pairs.len() implies (#[trigger] pairs[i]).0
                    != key by {
                    if i > 0 {
                        assert(rest[i - 1] == pairs[i]);
                    }
                }
            }
            if lacks(pairs, key) {
                assert forall|i: int| 0 <= i < rest.len() implies (#[trigger] rest[i]).0 != key by {
                    assert(rest[i] == pairs[i + 1]);
                }
            }
            if let Some(v) = member(rest, key) {
                let i = choose|i: int|
                    {
                        &&& 0 <= i < rest.len()
                        &&& (#[trigger] rest[i]).0 == key
                        &&& rest[i].1 == v
                        &&& forall|k: int| 0 <= k < i ==> (#[trigger] rest[k]).0 != key
                    };
                assert(pairs[i + 1] == rest[i]);
                assert forall|k: int| 0 <= k < i + 1 implies (#[trigger] pairs[k]).0 != key by {
                    if k > 0 {
                        assert(rest[k - 1] == pairs[k]);
                    }
                }
            }
        }
    }
}

/// The texts of a list are those of its items that are texts, in order.
pub proof fn law_texts_of_lists(items: Seq<TomlTree>)
    ensures
        only_texts(items) == items.filter(|t: TomlTree| t is Text).map_values(
            |t: TomlTree| t->Text_0,
        ),
    decreases items.len(),
{
    reveal(Seq::filter);
    let is_text = |t: TomlTree| t is Text;
    let text = |t: TomlTree| t->Text_0;
    if items.len() > 0 {
        law_texts_of_lists(items.drop_last());
        let front = items.drop_last().filter(is_text);
        assert(front.push(items.last()).map_values(text) =~= front.map_values(text).push(
            text(items.last()),
        ));
    }
    assert(only_texts(items) =~= items.filter(is_text).map_values(text));
}

/// Whether a key of a channel is none of its settings.
pub open spec fn is_no_setting(key: Seq<char>) -> bool {
    key == "name"@ || key == "aliases"@ || key == "legacy_zap_section"@ || key == "tuning"@ || key
        == "version"@
}

/// Whether the last pair with a key has a value that is written as `text`.
pub open spec fn last_says(pairs: Pairs, key: Seq<char>, text: Seq<char>) -> bool {
    exists|i: int|
        {
            &&& 0 <= i < pairs.len()
            &&& (#[trigger] pairs[i]).0 == key
            &&& plain_text(pairs[i].1) == text
            &&& forall|k: int| i < k < pairs.len() ==> (#[trigger] pairs[k]).0 != key
        }
}

proof fn lemma_settings(m: Settings, pairs: Pairs, but_reserved: bool, key: Seq<char>)
    ensures
        ({
            let all = with_settings(m, pairs, but_reserved);
            if lacks(pairs, key) || but_reserved && is_no_setting(key) {
                &&& all.contains_key(key) <==> m.contains_key(key)
                &&& m.contains_key(key) ==> all[key] == m[key]
            } else {
                all.contains_key(key) && last_says(pairs, key, all[key])
            }
        }),
    decreases pairs.len(),
{
    if pairs.len() > 0 {
        let front = pairs.drop_last();
        let last = pairs.len() - 1;
        lemma_settings(m, front, but_reserved, key);
        let all = with_settings(m, pairs, but_reserved);
        assert(pairs[last] == pairs.last());
        if lacks(pairs, key) {
            assert forall|i: int| 0 <= i < front.len() implies (#[trigger] front[i]).0 != key by {
                assert(front[i] == pairs[i]);
            }
        } else if pairs.last().0 == key {
            if !(but_reserved && is_no_setting(key)) {
                assert(plain_text(pairs[last].1) == all[key]);
                assert(last_says(pairs, key, all[key]));
            }
        } else {
            if lacks(front, key) {
                assert forall|i: int| 0 <= i < pairs.len() implies (#[trigger] pairs[i]).0
                    != key by {
                    if i < last {
                        assert(front[i] == pairs[i]);
                    }
                }
            }
            if !(but_reserved && is_no_setting(key)) {
                let text = all[key];
                let i = choose|i: int|
                    {
                        &&& 0 <= i < front.len()
                        &&& (#[trigger] front[i]).0 == key
                        &&& plain_text(front[i].1) == text
                        &&& forall|k: int| i < k < front.len() ==> (#[trigger] front[k]).0 != key
                    };
                assert(pairs[i] == front[i]);
                assert forall|k: int| i < k < pairs.len() implies (#[trigger] pairs[k]).0
                    != key by {
                    if k < last {
                        assert(front[k] == pairs[k]);
                    }
                }
            }
        }
    }
}

/// The settings of a channel are the pairs of the channel itself, but for the keys
/// that are none, and those of its table `tuning` under other keys.
pub proof fn law_channel_settings(pairs: Pairs, key: Seq<char>)
    ensures
        ({
            let m = channel_settings(pairs);
            let flat = !lacks(pairs, key) && !is_no_setting(key);
            &&& flat ==> m.contains_key(key) && last_says(pairs, key, m[key])
            &&& !flat ==> match member(pairs, "tuning"@) {
                Some(TomlTree::Table(sub, _)) => {
                    &&& m.contains_key(key) <==> !lacks(sub, key)
                    &&& m.contains_key(key) ==> last_says(sub, key, m[key])
                },
                _ => !m.contains_key(key),
            }
        }),
{
    let nested = match member(pairs, "tuning"@) {
        Some(TomlTree::Table(sub, _)) => with_settings(Map::empty(), sub, false),
        _ => Map::empty(),
    };
    lemma_settings(nested, pairs, true, key);
    if let Some(TomlTree::Table(sub, _)) = member(pairs, "tuning"@) {
        lemma_settings(Map::empty(), sub, false, key);
    }
}

/// A value is written as a setting by its text.
pub proof fn law_values_as_settings(t: TomlTree)
    ensures
        t matches TomlTree::Text(s) ==> plain_text(t) == s,
        t matches TomlTree::Scalar(s) ==> plain_text(t) == s,
        t matches TomlTree::List(_, s) ==> plain_text(t) == s,
        t matches TomlTree::Table(_, s) ==> plain_text(t) == s,
{
}

/// A channel is a table with a name that is a text; its aliases are the texts of a
/// list, and its section is a text, each of them none where it is something else.
pub proof fn law_channel_tables(item: TomlTree)
    ensures
        !(item is Table) ==> toml_record(item) == Err::<RecordView, ErrorView>(
            ErrorView::Parse("toml: each channel must be a table"@),
        ),
        item matches TomlTree::Table(pairs, _) ==> {
            &&& !(member(pairs, "name"@) matches Some(TomlTree::Text(_))) ==> toml_record(item)
                == Err::<RecordView, ErrorView>(ErrorView::Parse("toml: channel.name required"@))
            &&& member(pairs, "name"@) matches Some(TomlTree::Text(name)) ==> (toml_record(
                item,
            ) matches Ok(r) && {
                &&& r.name == name
                &&& r.tuning == channel_settings(pairs)
                &&& member(pairs, "aliases"@) matches Some(TomlTree::List(items, _)) ==> r.aliases
                    == only_texts(items)
                &&& !(member(pairs, "aliases"@) matches Some(TomlTree::List(_, _)))
                    ==> r.aliases.len() == 0
                &&& member(pairs, "legacy_zap_section"@) matches Some(TomlTree::Text(s))
                    ==> r.legacy_zap_section == Some(s)
                &&& !(member(pairs, "legacy_zap_section"@) matches Some(TomlTree::Text(_)))
                    ==> r.legacy_zap_section is None
            })
        },
{
}

/// The entry of one channel of a document.
pub open spec fn entry_of(item: TomlTree) -> Result<EntryView, ErrorView> {
    match toml_record(item) {
        Ok(r) => record_entry(r),
        Err(e) => Err(e),
    }
}

/// Channels become entries one for one, in order, unless one of them is wrong: then
/// the first that is decides.
pub proof fn law_toml_entries(items: Seq<TomlTree>)
    ensures
        match toml_entries(items) {
            Ok(entries) => entries.len() == items.len() && forall|i: int|
                0 <= i < items.len() ==> entry_of(#[trigger] items[i]) == Ok::<
                    EntryView,
                    ErrorView,
                >(entries[i]),
            Err(e) => exists|i: int|
                {
                    &&& 0 <= i < items.len()
                    &&& entry_of(#[trigger] items[i]) == Err::<EntryView, ErrorView>(e)
                    &&& forall|k: int| 0 <= k < i ==> entry_of(#[trigger] items[k]) is Ok
                },
        },
    decreases items.len(),
{
    if items.len() > 0 {
        let front = items.drop_last();
        let last = items.len() - 1;
        law_toml_entries(front);
        assert(items[last] == items.last());
        match toml_entries(front) {
            Err(e) => {
                let i = choose|i: int|
                    {
                        &&& 0 <= i < front.len()
                        &&& entry_of(#[trigger] front[i]) == Err::<EntryView, ErrorView>(e)
                        &&& forall|k: int| 0 <= k < i ==> entry_of(#[trigger] front[k]) is Ok
                    };
                assert(front[i] == items[i]);
                assert forall|k: int| 0 <= k < i implies entry_of(#[trigger] items[k]) is Ok by {
                    assert(front[k] == items[k]);
                }
            },
            Ok(before) => {
                assert forall|k: int| 0 <= k < last implies entry_of(#[trigger] items[k]) == Ok::<
                    EntryView,
                    ErrorView,
                >(before[k]) by {
                    assert(front[k] == items[k]);
                }
            },
        }
    }
}

/// The entries of a document are those of its list `channels`; a document without
/// such a list is an error, and so is one that is no TOML.
pub proof fn law_toml_documents(text: &str, out: Result<Vec<DvbV5Entry>, Error>)
    requires
        call_ensures(load_channel_entries_toml, (text,), out),
    ensures
        match toml_document(text@) {
            Err(e) => out matches Err(error) && error@ == ErrorView::Parse(e),
            Ok(TomlTree::Table(pairs, _)) => match member(pairs, "channels"@) {
                Some(TomlTree::List(items, _)) => outcome_list(out) == toml_entries(items),
                _ => out matches Err(error) && error@ == ErrorView::Parse(
                    "toml: top-level `channels` array required"@,
                ),
            },
            Ok(_) => out matches Err(error) && error@ == ErrorView::Parse(
                "toml: top-level `channels` array required"@,
            ),
        },
{
}

/// The kind of a file is known by its extension in letters of any case; another
/// extension is an error that tells the path.
pub proof fn law_kinds_of_files(
    path: &str,
    extension: &str,
    out: Result<ChannelsFormat, Error>,
)
    requires
        call_ensures(channels_format, (path, extension), out),
    ensures
        lowercase(extension@) == "conf"@ ==> out == Ok::<ChannelsFormat, Error>(
            ChannelsFormat::Conf,
        ),
        lowercase(extension@) == "json"@ ==> out == Ok::<ChannelsFormat, Error>(
            ChannelsFormat::Json,
        ),
        lowercase(extension@) == "toml"@ ==> out == Ok::<ChannelsFormat, Error>(
            ChannelsFormat::Toml,
        ),
        lowercase(extension@) != "conf"@ && lowercase(extension@) != "json"@ && lowercase(
            extension@,
        ) != "toml"@ ==> (out matches Err(e) && e@ == ErrorView::Msg(
            "unsupported channels path (use .conf / .json / .toml): "@ + path@,
        )),
{
    reveal_strlit("conf");
    reveal_strlit("json");
    reveal_strlit("toml");
    assert("conf"@[0] == 'c' && "json"@[0] == 'j' && "toml"@[0] == 't');
}

} // verus!
