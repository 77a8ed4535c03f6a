use orgize::props::{parse_properties_drawer, PropertiesMap};
use orgize::tags::is_tag_line;
use orgize::text::Text;
use orgize::title::{ParseConfig, Title};

fn config(open: &[&str], closed: &[&str]) -> ParseConfig {
    ParseConfig {
        todo_keywords: (
            open.iter().map(|s| s.to_string()).collect(),
            closed.iter().map(|s| s.to_string()).collect(),
        ),
    }
}

fn texts(v: &[Text]) -> Vec<Vec<u8>> {
    v.iter().map(|t| t.as_bytes().to_vec()).collect()
}

fn check(
    input: &str,
    config: &ParseConfig,
    level: usize,
    keyword: Option<&str>,
    priority: Option<char>,
    raw: &str,
    tags: &[&str],
) {
    let (rest, (title, raw_out)) = Title::parse(input, config).unwrap();
    assert_eq!(rest, b"");
    assert_eq!(title.level, level);
    assert_eq!(title.keyword.as_ref().map(|k| k.as_bytes().to_vec()), keyword.map(|k| k.as_bytes().to_vec()));
    assert_eq!(title.priority, priority);
    assert_eq!(title.raw.as_bytes(), raw.as_bytes());
    assert_eq!(raw_out, raw.as_bytes());
    let want: Vec<Vec<u8>> = tags.iter().map(|t| t.as_bytes().to_vec()).collect();
    assert_eq!(texts(&title.tags), want);
    assert!(title.planning.is_none());
    assert!(title.properties.is_empty());
    assert_eq!(title.post_blank, 0);
}

#[test]
fn parse_title_() {
    let default = ParseConfig::default_config();
    check("**** DONE [#A] COMMENT Title :tag:a2%:", &default, 4, Some("DONE"), Some('A'), "COMMENT Title", &["tag", "a2%"]);
    check("**** ToDO [#A] COMMENT Title", &default, 4, None, None, "ToDO [#A] COMMENT Title", &[]);
    check("**** T0DO [#A] COMMENT Title", &default, 4, None, None, "T0DO [#A] COMMENT Title", &[]);
    check("**** DONE [#1] COMMENT Title", &default, 4, Some("DONE"), None, "[#1] COMMENT Title", &[]);
    check("**** DONE [#a] COMMENT Title", &default, 4, Some("DONE"), None, "[#a] COMMENT Title", &[]);
    check("** DONE [#B]::", &default, 2, Some("DONE"), None, "[#B]::", &[]);
    check("**** Title :tag:a2%", &default, 4, None, None, "Title :tag:a2%", &[]);
    check("**** Title tag:a2%:", &default, 4, None, None, "Title tag:a2%:", &[]);
    check("**** DONE Title", &config(&[], &[]), 4, None, None, "DONE Title", &[]);
    check("**** TASK [#A] Title", &config(&["TASK"], &[]), 4, Some("TASK"), Some('A'), "Title", &[]);
}

#[test]
fn parse_properties_drawer_() {
    let (rest, map) = parse_properties_drawer(b"   :PROPERTIES:\n   :CUSTOM_ID: id\n   :END:").unwrap();
    assert_eq!(rest, b"");
    let mut want = PropertiesMap::new();
    want.push(Text::Borrowed(b"CUSTOM_ID"), Text::Borrowed(b"id"));
    assert_eq!(map.iter(), want.iter());
}

#[test]
fn preserve_properties_drawer_order() {
    let mut vec = Vec::new();
    for i in 0..20 {
        let j = (i + 7) % 20;
        vec.push((
            format!(
                "{}{}",
                if i % 3 == 0 {
                    "FOO"
                } else if i % 3 == 1 {
                    "QUX"
                } else {
                    "BAR"
                },
                j
            ),
            i.to_string(),
        ));
    }
    let mut s = String::new();
    for (k, v) in &vec {
        s += &format!("   :{}: {}\n", k, v);
    }
    let drawer = format!("   :PROPERTIES:\n{}:END:\n", &s);
    let map = parse_properties_drawer(drawer.as_bytes()).unwrap().1.into_index_map();
    assert_eq!(map.len(), vec.len());
    for (left, right) in vec.iter().zip(map) {
        assert_eq!(left.0.as_bytes(), &right.0[..]);
        assert_eq!(left.1.as_bytes(), &right.1[..]);
    }
}

#[test]
fn pairs_keep_written_order() {
    let (_, map) = parse_properties_drawer(b":PROPERTIES:\n:Z: 1\n:A: 2\n:M: 3\n:A: 4\n:END:").unwrap();
    let pairs: Vec<Vec<u8>> = map.iter().iter().map(|(k, _)| k.as_bytes().to_vec()).collect();
    assert_eq!(pairs, vec![b"Z".to_vec(), b"A".to_vec(), b"M".to_vec(), b"A".to_vec()]);
    let keyed: Vec<(Vec<u8>, Vec<u8>)> = map.into_index_map().into_iter().collect();
    assert_eq!(
        keyed,
        vec![(b"Z".to_vec(), b"1".to_vec()), (b"A".to_vec(), b"4".to_vec()), (b"M".to_vec(), b"3".to_vec())]
    );
}

#[test]
fn unknown_word_stays_in_title() {
    let (_, (title, _)) = Title::parse("** Meeting notes :work:", &ParseConfig::default_config()).unwrap();
    assert!(title.keyword.is_none());
    assert!(title.raw.as_bytes().starts_with(b"Meeting"));
    assert_eq!(title.raw.as_bytes(), b"Meeting notes");
    assert_eq!(texts(&title.tags), vec![b"work".to_vec()]);
}

#[test]
fn malformed_priority_stays_in_title() {
    let (_, (title, _)) = Title::parse("* TODO [#1] Fix", &ParseConfig::default_config()).unwrap();
    assert_eq!(title.priority, None);
    assert_eq!(title.raw.as_bytes(), b"[#1] Fix");
}

#[test]
fn tags_after_tab() {
    let (_, (title, _)) = Title::parse("* Title\t:a::b:", &ParseConfig::default_config()).unwrap();
    assert_eq!(title.raw.as_bytes(), b"Title");
    assert_eq!(texts(&title.tags), vec![b"a".to_vec(), b"b".to_vec()]);
}

#[test]
fn tag_group_rejoined_splits_alike() {
    let (_, (title, _)) = Title::parse("* T :x:y@z:", &ParseConfig::default_config()).unwrap();
    let tags = texts(&title.tags);
    let joined = format!(
        ":{}:",
        tags.iter().map(|t| String::from_utf8(t.clone()).unwrap()).collect::<Vec<_>>().join(":")
    );
    let line = format!("* T {}", joined);
    let (_, (again, _)) = Title::parse(&line, &ParseConfig::default_config()).unwrap();
    assert_eq!(texts(&again.tags), tags);
}

#[test]
fn tag_line_shapes() {
    assert!(is_tag_line(":a:"));
    assert!(is_tag_line(":tag:a2%:"));
    assert!(!is_tag_line("::"));
    assert!(!is_tag_line(":a"));
    assert!(!is_tag_line(":a b:"));
}

#[test]
fn non_properties_drawer_is_no_match() {
    assert!(parse_properties_drawer(b":LOGBOOK:\n:A: b\n:END:\n").is_none());
    let input = "* Title\n:LOGBOOK:\n:A: b\n:END:\n";
    let (rest, (title, _)) = Title::parse(input, &ParseConfig::default_config()).unwrap();
    assert!(title.properties.is_empty());
    assert_eq!(rest, b":LOGBOOK:\n:A: b\n:END:\n");
}

#[test]
fn planning_properties_and_blank_lines() {
    let input = "** TODO Task\nSCHEDULED: <2020-01-01 Wed> DEADLINE: <2020-01-02>\n:PROPERTIES:\n:ID: 7\n:ITEM+: more\n:END:\n\n  \nNext";
    let (rest, (title, _)) = Title::parse(input, &ParseConfig::default_config()).unwrap();
    assert_eq!(rest, b"Next");
    assert_eq!(title.post_blank, 2);
    assert_eq!(title.scheduled().unwrap().raw.as_bytes(), b"2020-01-01 Wed");
    assert_eq!(title.deadline().unwrap().raw.as_bytes(), b"2020-01-02");
    assert!(title.closed().is_none());
    let pairs: Vec<(Vec<u8>, Vec<u8>)> = title
        .properties
        .iter()
        .iter()
        .map(|(k, v)| (k.as_bytes().to_vec(), v.as_bytes().to_vec()))
        .collect();
    assert_eq!(pairs, vec![(b"ID".to_vec(), b"7".to_vec()), (b"ITEM".to_vec(), b"more".to_vec())]);
}

#[test]
fn not_a_headline() {
    assert!(Title::parse("Title", &ParseConfig::default_config()).is_none());
    assert!(Title::parse("", &ParseConfig::default_config()).is_none());
}

#[test]
fn commented_and_archived() {
    let c = ParseConfig::default_config();
    let (_, (t, _)) = Title::parse("* COMMENT x :ARCHIVE:", &c).unwrap();
    assert!(t.is_commented());
    assert!(t.is_archived());
    let (_, (t, _)) = Title::parse("* COMMENTS", &c).unwrap();
    assert!(!t.is_commented());
    assert!(!t.is_archived());
    let (_, (t, _)) = Title::parse("* COMMENT", &c).unwrap();
    assert!(t.is_commented());
}

#[test]
fn owned_copy_keeps_fields() {
    let (_, (t, _)) = Title::parse("*** DONE [#C] Work :a:b:", &ParseConfig::default_config()).unwrap();
    let o = t.into_owned();
    assert_eq!(o.level, 3);
    assert_eq!(o.priority, Some('C'));
    assert!(matches!(o.raw, Text::Owned(_)));
    assert_eq!(o.raw.as_bytes(), b"Work");
    assert_eq!(texts(&o.tags), vec![b"a".to_vec(), b"b".to_vec()]);
}

#[test]
fn hash_map_keeps_last_value() {
    let (_, map) = parse_properties_drawer(b":PROPERTIES:\n:A: 1\n:B: 2\n:A: 3\n:END:").unwrap();
    let h = map.into_hash_map();
    assert_eq!(h.len(), 2);
    assert_eq!(h.get(&b"A".to_vec()), Some(&b"3".to_vec()));
}

#[test]
fn default_title_is_empty() {
    let t = Title::default();
    assert_eq!(t.level, 1);
    assert!(t.keyword.is_none());
    assert_eq!(t.raw.as_bytes(), b"");
    assert!(t.tags.is_empty());
    assert!(t.properties.is_empty());
    assert_eq!(t.post_blank, 0);
}

#[test]
fn title_pieces_rebuild_the_line() {
    let line = "*** DONE [#B] Write report   :work:q3:";
    let (_, (t, _)) = Title::parse(line, &ParseConfig::default_config()).unwrap();
    let raw = std::str::from_utf8(t.raw.as_bytes()).unwrap();
    let tags: Vec<String> = t.tags.iter().map(|x| String::from_utf8(x.as_bytes().to_vec()).unwrap()).collect();
    let rebuilt = format!("*** DONE [#B] {}   :{}:", raw, tags.join(":"));
    assert_eq!(rebuilt, line);
    assert!(!raw.contains("DONE"));
    assert!(!raw.contains("[#B]"));
    assert!(!raw.contains(":work:"));
}

#[test]
fn planning_line_kinds() {
    let c = ParseConfig::default_config();
    let (rest, (t, _)) = Title::parse("* A\n  CLOSED: [2021-05-01 Sat 10:00]\nbody", &c).unwrap();
    assert_eq!(rest, b"body");
    assert_eq!(t.closed().unwrap().raw.as_bytes(), b"2021-05-01 Sat 10:00");
    assert!(t.scheduled().is_none());
    let (rest, (t, _)) = Title::parse("* A\nSCHEDULED: soon\nbody", &c).unwrap();
    assert!(t.planning.is_none());
    assert_eq!(rest, b"SCHEDULED: soon\nbody");
}

#[test]
fn properties_owned_copy() {
    let (_, map) = parse_properties_drawer(b"  :PROPERTIES:\n  :A+: x y \n:END:").unwrap();
    let owned = map.into_owned();
    let pairs = owned.iter();
    assert_eq!(pairs.len(), 1);
    assert_eq!(pairs[0].0.as_bytes(), b"A");
    assert_eq!(pairs[0].1.as_bytes(), b"x y");
    assert!(matches!(pairs[0].0, Text::Owned(_)));
}

#[test]
fn cookie_at_line_end_keeps_next_line() {
    let (rest, (t, raw)) = Title::parse("* [#A]\nBody", &ParseConfig::default_config()).unwrap();
    assert_eq!(t.priority, Some('A'));
    assert_eq!(raw, b"");
    assert_eq!(rest, b"Body");
}

#[test]
fn values_changed_in_place() {
    let (_, mut map) = parse_properties_drawer(b":PROPERTIES:\n:A: 1\n:END:").unwrap();
    map.iter_mut()[0].1 = Text::Owned(b"2".to_vec());
    assert_eq!(map.iter()[0].1.as_bytes(), b"2");
    assert_eq!(map.iter().len(), 1);
}

#[test]
fn unicode_tags_and_comment() {
    assert!(!is_tag_line(":\u{2192}:"));
    assert!(is_tag_line(":caf\u{e9}:"));
    let c = ParseConfig::default_config();
    let (_, (t, _)) = Title::parse("* COMMENT\u{a0}x", &c).unwrap();
    assert!(t.is_commented());
    let (_, (t, _)) = Title::parse("* COMMENT\u{e9}", &c).unwrap();
    assert!(!t.is_commented());
}
