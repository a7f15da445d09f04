use dvb_rs::channel::Channel;
use dvb_rs::config::{
    channel_record_to_entry, channels_doc_version, channels_format, channels_from_entries,
    document_from_conf_entries, entries_from_document, find_entry, format_from_lowercase,
    needs_generated_id, parse_dvbr_aliases, parse_dvbv5_conf, strip_dvbr_meta, ChannelRecord,
    ChannelsDocument, ChannelsFormat,
};
use dvb_rs::error::Error;
use dvb_rs::text_map::TextMap;
use dvb_rs::toml_doc::{entries_from_toml, load_channel_entries_toml, TomlNode};

fn map(pairs: &[(&str, &str)]) -> TextMap {
    let mut m = TextMap::new();
    for (k, v) in pairs {
        m.insert(k.to_string(), v.to_string());
    }
    m
}

#[test]
fn a_map_holds_each_key_once() {
    let mut m = map(&[("A", "1"), ("B", "2"), ("A", "3")]);
    assert_eq!(m.len(), 2);
    assert_eq!(m.get("A").map(String::as_str), Some("3"));
    assert_eq!(m.pair(1).0, "B");
    let copy = m.clone();
    m.remove("A");
    m.remove("C");
    assert_eq!((m.len(), copy.len()), (1, 2));
    assert_eq!(m.get("A"), None);
    assert_eq!(copy.get("B").map(String::as_str), Some("2"));
    assert_eq!(TextMap::default().len(), 0);
}

#[test]
fn channels_from_settings() {
    let m = map(&[
        ("FREQUENCY", "+539142857"),
        ("SERVICE_ID", "1064"),
        ("BANDWIDTH_HZ", "x"),
        ("VIDEO_PID", " 256 \t 70000 ten 257"),
        ("AUDIO_PID", ""),
    ]);
    let c = Channel::from_dvbv5_section("asahi", &m).unwrap();
    assert_eq!(c.name, "asahi");
    assert_eq!(c.delivery, "ISDBT");
    assert_eq!((c.frequency, c.bandwidth_hz, c.service_id), (539142857, 0, 1064));
    assert_eq!(c.video_pids, vec![256, 257]);
    assert!(c.audio_pids.is_empty());
}

#[test]
fn settings_that_are_missing_or_wrong() {
    let error = |pairs: &[(&str, &str)]| Channel::from_named_tuning("x", &map(pairs)).unwrap_err();
    assert_eq!(error(&[]), "missing FREQUENCY");
    assert_eq!(error(&[("FREQUENCY", "1")]), "missing SERVICE_ID");
    assert_eq!(
        error(&[("FREQUENCY", "")]),
        "FREQUENCY: cannot parse integer from empty string"
    );
    assert_eq!(error(&[("FREQUENCY", "-1")]), "FREQUENCY: invalid digit found in string");
    assert_eq!(error(&[("FREQUENCY", "+")]), "FREQUENCY: invalid digit found in string");
    assert_eq!(
        error(&[("FREQUENCY", "4294967296")]),
        "FREQUENCY: number too large to fit in target type"
    );
    assert_eq!(
        error(&[("FREQUENCY", "1"), ("SERVICE_ID", "65536")]),
        "SERVICE_ID: number too large to fit in target type"
    );
}

#[test]
fn numbers_read_as_std_reads_them() {
    for s in ["0", "00012", "+7", "4294967295", "4294967296", "12a", "a", "", "+", "-", "-1", "1 "] {
        let m = map(&[("FREQUENCY", s), ("SERVICE_ID", "1")]);
        let got = Channel::from_dvbv5_section("x", &m).map(|c| c.frequency);
        let want = s.parse::<u32>().map_err(|e| format!("FREQUENCY: {e}"));
        assert_eq!(got, want, "{s:?}");
    }
}

const CONF: &str = "# comment\r\n\
    [|NHK|]\r\n\
    \tFREQUENCY = 557142857\r\n\
    SERVICE_ID=1024\n\
    DVBR_ALIASES = nhk, NHK総合;|；｜g \n\
    no setting\n\
    [empty]\n\
    [ asahi ]\n\
    FREQUENCY = 539142857\n\
    SERVICE_ID = 1064\n\
    SERVICE_ID = 1065\n\
    DVBR_NAME = tv-asahi\n";

#[test]
fn sections_of_a_conf_file() {
    let entries = parse_dvbv5_conf(CONF).unwrap();
    assert_eq!(entries.len(), 2);
    assert_eq!(entries[0].section_title, "|NHK|");
    assert_eq!(entries[0].channel.name, "|NHK|");
    assert_eq!(entries[0].aliases, vec!["nhk", "NHK総合", "；", "g"]);
    assert_eq!(entries[0].raw.len(), 3);
    assert_eq!(entries[1].section_title, " asahi ");
    assert_eq!(entries[1].channel.name, "tv-asahi");
    assert_eq!(entries[1].channel.service_id, 1065);
}

#[test]
fn entries_are_found_by_all_their_names() {
    let entries = parse_dvbv5_conf(CONF).unwrap();
    assert_eq!(find_entry(&entries, "|NHK|").unwrap().channel.service_id, 1024);
    assert_eq!(find_entry(&entries, "g").unwrap().channel.service_id, 1024);
    assert_eq!(find_entry(&entries, "tv-asahi").unwrap().channel.service_id, 1065);
    assert_eq!(find_entry(&entries, " asahi ").unwrap().channel.service_id, 1065);
    assert!(entries[0].matches_lookup("nhk"));
    match find_entry(&entries, "asahi") {
        Err(Error::ChannelNotFound(n)) => assert_eq!(n, "asahi"),
        other => panic!("{other:?}"),
    }
}

#[test]
fn the_first_entry_answers() {
    let text = "[a]\nFREQUENCY=1\nSERVICE_ID=1\nDVBR_ALIASES=b\n[b]\nFREQUENCY=2\nSERVICE_ID=2\n";
    let entries = parse_dvbv5_conf(text).unwrap();
    assert_eq!(find_entry(&entries, "b").unwrap().channel.service_id, 1);
}

#[test]
fn conf_errors() {
    let text = |s: &str| match parse_dvbv5_conf(s).unwrap_err() {
        Error::Parse(t) => t,
        other => panic!("{other:?}"),
    };
    assert_eq!(text("A = 1\n[x]"), "key=value before first [section]");
    assert_eq!(text("[x]\nSERVICE_ID = 1\n[y]\n"), "missing FREQUENCY");
    assert_eq!(text("[x]\nFREQUENCY = 1"), "missing SERVICE_ID");
    assert!(parse_dvbv5_conf("nothing here\n\n#x").unwrap().is_empty());
}

#[test]
fn aliases_are_split_and_trimmed() {
    assert_eq!(parse_dvbr_aliases(" a ,b;; c|d｜ e "), vec!["a", "b", "c", "d", "e"]);
    assert!(parse_dvbr_aliases(" , ").is_empty());
}

#[test]
fn a_conf_file_becomes_a_document() {
    let doc = document_from_conf_entries(parse_dvbv5_conf(CONF).unwrap());
    assert_eq!(doc.version, 1);
    let r = &doc.channels[0];
    assert_eq!(r.name, "u1024_557142857");
    assert_eq!(r.legacy_zap_section.as_deref(), Some("|NHK|"));
    assert_eq!(r.aliases, vec!["nhk", "NHK総合", "；", "g", "|NHK|"]);
    assert_eq!(r.tuning.get("DVBR_ALIASES"), None);
    let r = &doc.channels[1];
    assert_eq!(r.name, "tv-asahi");
    assert_eq!(r.aliases, vec![" asahi "]);
    assert_eq!(r.tuning.get("DVBR_NAME"), None);

    let entries = entries_from_document(doc).unwrap();
    for title in ["|NHK|", " asahi ", "u1024_557142857", "tv-asahi"] {
        assert!(find_entry(&entries, title).is_ok(), "{title}");
    }
    assert_eq!(find_entry(&entries, "|NHK|").unwrap().channel.frequency, 557142857);
}

#[test]
fn names_of_a_document_are_distinct() {
    let one = "[x]\nFREQUENCY=1\nSERVICE_ID=1\n";
    let doc = document_from_conf_entries(parse_dvbv5_conf(&one.repeat(4)).unwrap());
    let names: Vec<&str> = doc.channels.iter().map(|r| r.name.as_str()).collect();
    assert_eq!(names, vec!["x", "x_2", "x_3", "x_4"]);
    assert_eq!(doc.channels[0].legacy_zap_section, None);
    assert_eq!(doc.channels[3].legacy_zap_section.as_deref(), Some("x"));
}

#[test]
fn garbled_titles() {
    assert!(needs_generated_id("a|b", "x"));
    assert!(needs_generated_id("a!", "x"));
    assert!(needs_generated_id("5%", "x"));
    assert!(!needs_generated_id("a", "テレビ朝日"));
    assert!(needs_generated_id("テレビ", "テレビ"));
    assert!(!needs_generated_id("テレx", "テレx"));
}

#[test]
fn labels_are_stripped() {
    let mut m = map(&[("DVBR_NAME", "a"), ("CHANNEL_LABEL", "b"), ("X", "c"), ("DVBR_ALIASES", "")]);
    strip_dvbr_meta(&mut m);
    assert_eq!(m.len(), 1);
    assert_eq!(m.get("X").map(String::as_str), Some("c"));
}

fn record(name: &str, section: Option<&str>, freq: &str) -> ChannelRecord {
    ChannelRecord {
        name: name.to_string(),
        aliases: vec!["a".to_string()],
        legacy_zap_section: section.map(String::from),
        tuning: map(&[("FREQUENCY", freq), ("SERVICE_ID", "1")]),
    }
}

#[test]
fn the_section_of_a_record_is_an_alias() {
    let aliases = |r: ChannelRecord| channel_record_to_entry(r).unwrap().aliases;
    assert_eq!(aliases(record("x", Some("z"), "1")), vec!["a", "z"]);
    assert_eq!(aliases(record("x", Some("a"), "1")), vec!["a"]);
    assert_eq!(aliases(record("x", Some("x"), "1")), vec!["a"]);
    assert_eq!(aliases(record("x", None, "1")), vec!["a"]);
}

#[test]
fn the_first_bad_record_decides() {
    let doc = ChannelsDocument {
        version: channels_doc_version(),
        channels: vec![record("x", None, "1"), record("y", None, "?"), record("z", None, "")],
    };
    match entries_from_document(doc) {
        Err(Error::Parse(s)) => assert_eq!(s, "FREQUENCY: invalid digit found in string"),
        other => panic!("{other:?}"),
    }
}

#[test]
fn kinds_of_files() {
    assert_eq!(channels_format("c.CONF", "CONF").unwrap(), ChannelsFormat::Conf);
    assert_eq!(channels_format("c.Json", "Json").unwrap(), ChannelsFormat::Json);
    assert_eq!(channels_format("c.toml", "toml").unwrap(), ChannelsFormat::Toml);
    assert_eq!(format_from_lowercase("JSON"), None);
    match channels_format("c.yaml", "yaml") {
        Err(Error::Msg(s)) => assert_eq!(
            s,
            "unsupported channels path (use .conf / .json / .toml): c.yaml"
        ),
        other => panic!("{other:?}"),
    }
}

#[test]
fn channels_of_entries() {
    let file = channels_from_entries(parse_dvbv5_conf(CONF).unwrap());
    let names: Vec<&str> = file.channels.iter().map(|c| c.name.as_str()).collect();
    assert_eq!(names, vec!["|NHK|", "tv-asahi"]);
}

const TOML: &str = r#"
[[channels]]
name = "asahi"
aliases = ["テレビ朝日", 5, "ten"]
legacy_zap_section = "old"
FREQUENCY = 539142857
LOCKED = true
[channels.tuning]
SERVICE_ID = 1064
FREQUENCY = "1"
RATE = 1.5
SINCE = 2003-12-01
LIST = [1, 2]

[[channels]]
name = "nhk"
FREQUENCY = "557142857"
SERVICE_ID = "1024"
OFFSET = -3
"#;

#[test]
fn channels_of_a_toml_document() {
    let entries = load_channel_entries_toml(TOML).unwrap();
    assert_eq!(entries.len(), 2);
    let e = &entries[0];
    assert_eq!(e.channel.name, "asahi");
    assert_eq!(e.aliases, vec!["テレビ朝日", "ten", "old"]);
    assert_eq!((e.channel.frequency, e.channel.service_id), (539142857, 1064));
    let text = |k: &str| e.raw.get(k).map(String::as_str);
    assert_eq!(text("LOCKED"), Some("true"));
    assert_eq!(text("RATE"), Some("1.5"));
    assert_eq!(text("SINCE"), Some("2003-12-01"));
    assert_eq!(text("LIST"), Some("[1, 2]"));
    assert_eq!(text("name"), None);
    assert_eq!(entries[1].raw.get("OFFSET").map(String::as_str), Some("-3"));
    assert_eq!(entries[1].channel.service_id, 1024);
}

#[test]
fn toml_errors() {
    let text = |s: &str| match load_channel_entries_toml(s).unwrap_err() {
        Error::Parse(t) => t,
        other => panic!("{other:?}"),
    };
    assert!(text("= 1").starts_with("TOML parse error"));
    assert_eq!(text("x = 1"), "toml: top-level `channels` array required");
    assert_eq!(text("channels = 1"), "toml: top-level `channels` array required");
    assert_eq!(text("channels = [1]"), "toml: each channel must be a table");
    assert_eq!(text("[[channels]]\nx = 1"), "toml: channel.name required");
    assert_eq!(text("[[channels]]\nname = 1"), "toml: channel.name required");
    assert_eq!(text("[[channels]]\nname = \"a\""), "missing FREQUENCY");
}

fn leaf(s: &str) -> TomlNode {
    TomlNode::Text(s.to_string())
}

#[test]
fn settings_nested_or_flat() {
    let settings = || {
        vec![
            ("FREQUENCY".to_string(), TomlNode::Scalar("7".into())),
            ("SERVICE_ID".to_string(), leaf("9")),
        ]
    };
    let root = |pairs: Vec<(String, TomlNode)>| {
        let item = TomlNode::Table(pairs, String::new());
        TomlNode::Table(
            vec![("channels".into(), TomlNode::List(vec![item], String::new()))],
            String::new(),
        )
    };
    let mut flat = vec![("name".to_string(), leaf("x"))];
    flat.extend(settings());
    let nested = vec![
        ("name".to_string(), leaf("x")),
        ("tuning".to_string(), TomlNode::Table(settings(), "{}".into())),
    ];
    for pairs in [flat, nested] {
        let entries = entries_from_toml(&root(pairs)).unwrap();
        assert_eq!(entries[0].channel.frequency, 7);
        assert_eq!(entries[0].raw.len(), 2);
    }
}
