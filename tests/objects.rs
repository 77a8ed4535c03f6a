use orgize::objects::Object;
use orgize::text::Text;

#[test]
fn next_2() {
    assert_eq!(Object::next_2("*bold*"), (Object::Bold { end: 5 }, 1, None));
    assert_eq!(
        Object::next_2("Normal =verbatim="),
        (
            Object::Text(b"Normal "),
            "Normal ".len(),
            Some((Object::Verbatim(b"verbatim"), "=verbatim=".len()))
        )
    );
}

#[test]
fn short_spans_are_text() {
    assert_eq!(Object::next_2(""), (Object::Text(b""), 0, None));
    assert_eq!(Object::next_2("*a"), (Object::Text(b"*a"), 2, None));
    assert_eq!(Object::next_2("=="), (Object::Text(b"=="), 2, None));
}

#[test]
fn plain_text_and_unclosed_markers() {
    assert_eq!(Object::next_2("just words"), (Object::Text(b"just words"), 10, None));
    assert_eq!(Object::next_2("a *b c"), (Object::Text(b"a *b c"), 6, None));
    assert_eq!(Object::next_2("a * b*"), (Object::Text(b"a * b*"), 6, None));
}

#[test]
fn leading_border_byte_is_dropped() {
    assert_eq!(Object::next_2(" *bold*"), (Object::Bold { end: 5 }, 1, None));
}

#[test]
fn emphasis_kinds() {
    assert_eq!(Object::next_2("x /it/"), (Object::Text(b"x "), 2, Some((Object::Italic { end: 3 }, 1))));
    assert_eq!(Object::next_2("x _u_."), (Object::Text(b"x "), 2, Some((Object::Underline { end: 2 }, 1))));
    assert_eq!(Object::next_2("x +s+"), (Object::Text(b"x "), 2, Some((Object::Strike { end: 2 }, 1))));
    assert_eq!(Object::next_2("(~c d~)"), (Object::Code(b"c d"), 5, None));
}

#[test]
fn links_and_cookies() {
    let (a, n, b) = Object::next_2("see [[https://x.org][site]] now");
    assert_eq!(a, Object::Text(b"see "));
    assert_eq!(n, 4);
    let (link, len) = b.unwrap();
    match link {
        Object::Link(l) => {
            assert_eq!(l.path.as_bytes(), b"https://x.org");
            assert_eq!(l.desc.unwrap().as_bytes(), b"site");
        }
        other => panic!("not a link: {:?}", other),
    }
    assert_eq!(len, 23);
    let (c, n, rest) = Object::next_2("[1/3] done");
    match c {
        Object::Cookie(c) => assert_eq!(c.value.as_bytes(), b"[1/3]"),
        other => panic!("not a cookie: {:?}", other),
    }
    assert_eq!(n, 5);
    assert!(rest.is_none());
    assert_eq!(Object::next_2("[x] y z"), (Object::Text(b"[x] y z"), 7, None));
}

#[test]
fn other_constructs() {
    match Object::next_2("[fn:1:note] x").0 {
        Object::FnRef(f) => {
            assert_eq!(f.label.as_bytes(), b"1");
            assert_eq!(f.definition.unwrap().as_bytes(), b"note");
        }
        other => panic!("{:?}", other),
    }
    match Object::next_2("{{{title(a,b)}}}").0 {
        Object::Macros(m) => {
            assert_eq!(m.name.as_bytes(), b"title");
            assert_eq!(m.arguments.unwrap().as_bytes(), b"a,b");
        }
        other => panic!("{:?}", other),
    }
    match Object::next_2("@@html:<b>@@").0 {
        Object::Snippet(s) => {
            assert_eq!(s.name.as_bytes(), b"html");
            assert_eq!(s.value.as_bytes(), b"<b>");
        }
        other => panic!("{:?}", other),
    }
    match Object::next_2("<<<radio>>>").0 {
        Object::RadioTarget(t) => assert_eq!(t.target, Text::Borrowed(b"radio")),
        other => panic!("{:?}", other),
    }
    match Object::next_2("<<tgt>>").0 {
        Object::Target(t) => assert_eq!(t.target, Text::Borrowed(b"tgt")),
        other => panic!("{:?}", other),
    }
    match Object::next_2("call_f[:h](x=1)[:e] z").0 {
        Object::InlineCall(c) => {
            assert_eq!(c.name.as_bytes(), b"f");
            assert_eq!(c.inside_header.unwrap().as_bytes(), b":h");
            assert_eq!(c.arguments.as_bytes(), b"x=1");
            assert_eq!(c.end_header.unwrap().as_bytes(), b":e");
        }
        other => panic!("{:?}", other),
    }
    let (o, n, _) = Object::next_2("src_py{1+1} z");
    match o {
        Object::InlineSrc(s) => {
            assert_eq!(s.lang.as_bytes(), b"py");
            assert!(s.options.is_none());
            assert_eq!(s.body.as_bytes(), b"1+1");
        }
        other => panic!("{:?}", other),
    }
    assert_eq!(n, 11);
}
