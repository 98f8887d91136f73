use funcfmt::{
    Error, FormatMap, FormatPiece, FormatPieces, Formatter, FormatterCallback, Render,
    ToFormatPieces,
};
use std::sync::atomic::{AtomicUsize, Ordering};
use std::sync::Arc;

fn callback(f: fn(&String) -> Option<String>) -> FormatterCallback<String> {
    Arc::new(Box::new(f))
}

fn formatters() -> FormatMap<String> {
    let mut map = FormatMap::new();
    map.insert("foo".into(), callback(|e| Some(format!("{e} foo {e}"))));
    map.insert("bar".into(), callback(|e| Some(format!("{e} bar {e}"))));
    map.insert("nodata".into(), callback(|_| None));
    map
}

#[test]
fn no_data() {
    let inp = String::from("bar");
    let fp = formatters().to_format_pieces("一{foo}二{nodata}").unwrap();
    assert_eq!(fp.render(&inp), Err(Error::NoData("nodata".into())));
}

#[test]
fn no_data_at_any_position() {
    let inp = String::from("d");
    let map = formatters();
    for tmpl in ["{nodata}", "{nodata}{foo}", "a{foo}b{nodata}c{bar}", "{foo}{bar}{nodata}"] {
        let fp = map.to_format_pieces(tmpl).unwrap();
        assert_eq!(fp.render(&inp), Err(Error::NoData("nodata".into())));
    }
}

#[test]
fn first_placeholder_without_data_decides() {
    let mut map = formatters();
    map.insert("void".into(), callback(|_| None));
    let inp = String::from("d");
    let fp = map.to_format_pieces("{foo}{void}{nodata}").unwrap();
    assert_eq!(fp.render(&inp), Err(Error::NoData("void".into())));
    let fp = map.to_format_pieces("{nodata}{void}").unwrap();
    assert_eq!(fp.render(&inp), Err(Error::NoData("nodata".into())));
}

#[test]
fn no_callback_is_called_behind_a_failure() {
    let calls = Arc::new(AtomicUsize::new(0));
    let seen = calls.clone();
    let counting: FormatterCallback<String> = Arc::new(Box::new(move |e: &String| {
        seen.fetch_add(1, Ordering::SeqCst);
        Some(e.clone())
    }));
    let mut map = formatters();
    map.insert("count".into(), counting);
    let fp = map.to_format_pieces("{count}{nodata}{count}{count}").unwrap();
    assert_eq!(fp.render(&String::from("d")), Err(Error::NoData("nodata".into())));
    assert_eq!(calls.load(Ordering::SeqCst), 1);
}

#[test]
fn no_data_depends_on_the_data() {
    let mut map: FormatMap<String> = FormatMap::new();
    map.insert(
        "some".into(),
        callback(|e| if e.is_empty() { None } else { Some(e.to_uppercase()) }),
    );
    let fp = map.to_format_pieces("<{some}>").unwrap();
    assert_eq!(fp.render(&String::from("abc")), Ok("<ABC>".to_owned()));
    assert_eq!(fp.render(&String::new()), Err(Error::NoData("some".into())));
    assert_eq!(fp.render(&String::from("x")), Ok("<X>".to_owned()));
}

#[test]
fn multi_byte_safety() {
    let mut map: FormatMap<String> = FormatMap::new();
    map.insert("foo".into(), callback(|_| Some(String::from("X"))));
    let fp = map.to_format_pieces("一{foo}二").unwrap();
    assert_eq!(fp.render(&String::new()), Ok("一X二".to_owned()));
}

#[test]
fn end_to_end() {
    let mut map: FormatMap<String> = FormatMap::new();
    map.insert("foo".into(), callback(|d| Some(format!("foo:{d}"))));
    map.insert("bar".into(), callback(|d| Some(format!("bar:{d}"))));
    let fp = map.to_format_pieces("{foo}, {bar}").unwrap();
    assert_eq!(fp.render(&String::from("A")), Ok("foo:A, bar:A".to_owned()));
    assert_eq!(fp.render(&String::from("B")), Ok("foo:B, bar:B".to_owned()));
}

#[test]
fn reuse_equivalence() {
    let map = formatters();
    let tmpl = "<{foo}|{{{bar}}}>";
    let once = map.to_format_pieces(tmpl).unwrap();
    let one = String::from("D1");
    let two = String::from("D2");
    let reused_one = once.render(&one);
    let reused_two = once.render(&two);
    let fresh_one = map.to_format_pieces(tmpl).unwrap().render(&one);
    let fresh_two = map.to_format_pieces(tmpl).unwrap().render(&two);
    assert_eq!(reused_one, fresh_one);
    assert_eq!(reused_two, fresh_two);
    assert_eq!(reused_one, Ok("<D1 foo D1|{D1 bar D1}>".to_owned()));
    assert_eq!(reused_two, Ok("<D2 foo D2|{D2 bar D2}>".to_owned()));
    assert_eq!(once.render(&one), reused_one);
}

#[test]
fn render_starts_from_an_empty_output() {
    let none: FormatPieces<String> = Vec::new();
    assert_eq!(none.render(&String::from("d")), Ok(String::new()));
    let one: FormatPieces<String> = vec![FormatPiece::Verbatim("".into())];
    assert_eq!(one.render(&String::from("d")), Ok(String::new()));
}

#[test]
fn render_pieces_built_by_hand() {
    let pieces: FormatPieces<u32> = vec![
        FormatPiece::Verbatim("n=".into()),
        FormatPiece::Formatter(Formatter {
            key: "n".into(),
            cb: Arc::new(Box::new(|n: &u32| Some(n.to_string()))),
        }),
        FormatPiece::Verbatim(";".into()),
        FormatPiece::Formatter(Formatter {
            key: "even".into(),
            cb: Arc::new(Box::new(|n: &u32| if n % 2 == 0 { Some(String::from("even")) } else { None })),
        }),
    ];
    assert_eq!(pieces.render(&4), Ok("n=4;even".to_owned()));
    assert_eq!(pieces.render(&7), Err(Error::NoData("even".into())));
}

#[test]
fn render_many_pieces() {
    let mut map: FormatMap<usize> = FormatMap::new();
    let mut tmpl = String::new();
    let mut expected = String::new();
    for i in 0..300 {
        let name = format!("k{i}");
        map.insert(
            name.as_str().into(),
            Arc::new(Box::new(move |d: &usize| Some(format!("{}", d + i)))),
        );
        tmpl.push_str(&format!("[{{{name}}}]"));
        expected.push_str(&format!("[{}]", 10 + i));
    }
    let fp = map.to_format_pieces(&tmpl).unwrap();
    assert_eq!(fp.len(), 601);
    assert_eq!(fp.render(&10), Ok(expected));
}

#[test]
fn or_no_data_keeps_the_string_or_names_the_key() {
    let formatter: Formatter<String> = Formatter {
        key: "who".into(),
        cb: callback(|_| None),
    };
    assert_eq!(formatter.or_no_data(Some(String::from("text"))), Ok("text".to_owned()));
    assert_eq!(formatter.or_no_data(Some(String::new())), Ok(String::new()));
    assert_eq!(formatter.or_no_data(None), Err(Error::NoData("who".into())));
}

#[test]
fn formatter_eq_based_on_key_only() {
    let c1: FormatterCallback<String> = Arc::new(Box::new(|e: &String| Some(e.to_string())));
    let c2: FormatterCallback<String> = Arc::new(Box::new(|e: &String| Some(e.to_string())));

    let f1 = Formatter {
        key: "foo".into(),
        cb: c1.clone(),
    };
    let f2 = Formatter {
        key: "foo".into(),
        cb: c2,
    };
    let b1 = Formatter {
        key: "bar".into(),
        cb: c1,
    };

    assert!(f1 == f2);
    assert!(f1 != b1);
}

#[test]
fn formatter_debug() {
    let c1: FormatterCallback<String> = Arc::new(Box::new(|e: &String| Some(e.to_string())));
    let f1 = Formatter {
        key: "foo".into(),
        cb: c1,
    };
    assert_eq!(f1.to_debug_string(), "Formatter(key: foo)");
}

#[test]
fn pieces_compare_by_text_and_key() {
    let a: FormatPiece<String> = FormatPiece::Verbatim("x".into());
    let b: FormatPiece<String> = FormatPiece::Verbatim("x".into());
    let c: FormatPiece<String> = FormatPiece::Verbatim("y".into());
    let f: FormatPiece<String> = FormatPiece::Formatter(Formatter {
        key: "x".into(),
        cb: callback(|_| None),
    });
    assert!(a == b);
    assert!(a != c);
    assert!(a != f);
}

fn shareable<X: Send + Sync>(_: &X) {}

#[test]
fn pieces_and_registry_can_be_shared() {
    let map = formatters();
    let fp = map.to_format_pieces("{foo}").unwrap();
    shareable(&map);
    shareable(&fp);
    let copy = Arc::new(fp);
    let other = copy.clone();
    assert_eq!(copy.render(&String::from("a")), Ok("a foo a".to_owned()));
    assert_eq!(other.render(&String::from("b")), Ok("b foo b".to_owned()));
}
