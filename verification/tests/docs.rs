use localdesktop::docs::assets::{
    cargo_version, cover_logo, font_families, fonts, parse_color, recolour,
};
use localdesktop::docs::callgraph::{
    build_graph, display, resolve, walk, Graph, MAX_NODES,
};
use localdesktop::docs::clean::{
    admonition, clean_line, clean_markdown, split_frontmatter, strip_emoji, title_case, with_first,
};
use localdesktop::docs::escape::{esc_markup, esc_string};
use localdesktop::docs::images::{Embed, ImageCache};
use localdesktop::docs::index::{
    build_index, calls, owner_from_header, read_defs, select_calls, Def,
};
use localdesktop::docs::items::{decl_pos, expand_back, is_word};
use localdesktop::docs::manual::{
    assemble_developer, assemble_user, cover_and_toc, docs_dirs, heading_shift, page, part,
    preamble, PageError, Place,
};
use localdesktop::docs::markdown::{convert, convert_events, MdEvent, MdToTypst};
use localdesktop::docs::options::{all_variants, select, wants_all, Manual, Opts, Size};
use localdesktop::docs::report::{callgraph_typst, seed_at};
use localdesktop::docs::snippets::{
    expand_spine, extract, get_attr, lang_for, parse_directive, snippet_file, spine_directives,
    SnippetError,
};
use localdesktop::docs::source::{blank_noncode, match_body};

fn names(v: &[&str]) -> Vec<String> {
    v.iter().map(|s| s.to_string()).collect()
}

fn opts(manual: Manual, callgraph: bool, size: Size, dark: bool) -> Opts {
    Opts { manual, callgraph, size, dark }
}

// -- escaping ----------------------------------------------------------------

#[test]
fn markup_is_escaped() {
    assert_eq!(esc_markup("a*b_[c]#1 <x>@y~$z`\\"), "a\\*b\\_\\[c\\]\\#1 \\<x\\>\\@y\\~\\$z\\`\\\\");
    assert_eq!(esc_markup("plain é"), "plain é");
}

#[test]
fn literals_are_escaped() {
    assert_eq!(esc_string("a\"b\\c\nd\te\rf"), "a\\\"b\\\\c\\nd\\tef");
}

#[test]
fn escaping_goes_piece_by_piece() {
    let (a, b) = ("a_\\", "\"#\n");
    let both = format!("{a}{b}");
    assert_eq!(esc_markup(&both), esc_markup(a) + &esc_markup(b));
    assert_eq!(esc_string(&both), esc_string(a) + &esc_string(b));
}

// -- sources -----------------------------------------------------------------

#[test]
fn bodies_are_matched_past_strings_and_comments() {
    let src = b"fn f() { let s = \"}\"; /* } */ // }\n let r = r#\"}\"#; let c = '}'; { } } tail";
    let end = match_body(src, 0).unwrap();
    assert_eq!(&src[end..], b" tail");
    assert_eq!(match_body(b"{ {", 0), None);
    // A brace that closes nothing is passed over.
    assert_eq!(match_body(b"} {{}} {}", 0), Some(6));
    // An escaped tick does not end its literal.
    assert_eq!(match_body(b"{ '\\''|'{' }", 0), Some(12));
    assert_eq!(match_body(b"", 5), None);
    assert_eq!(match_body(b"fn f<'a>(x: &'a str) {}", 0), Some(23));
}

#[test]
fn noncode_is_blanked_in_place() {
    let src = "let s = \"{é\n}\"; // fn x\nfn y() {}";
    let out = blank_noncode(src.as_bytes());
    assert_eq!(out.len(), src.len());
    let text = String::from_utf8(out).unwrap();
    assert_eq!(text, "let s =     \n  ;        \nfn y() {}");
}

#[test]
fn blanking_twice_is_blanking_once() {
    let src = "/// doc\nlet r = br##\"a\"# \"##; /* x */ let c = '\"'; 'a: loop { b\"\\\"\" / 2 }";
    let once = blank_noncode(src.as_bytes());
    assert!(!once.contains(&b'"'));
    assert!(!once.windows(2).any(|w| w == b"//" || w == b"/*"));
    assert_eq!(blank_noncode(&once), once);
}

#[test]
fn a_body_depends_on_itself_alone() {
    let src = b"'{' \"{\" fn f() { r#\"}\"#; '}' } }";
    let end = match_body(src, 7).unwrap();
    assert_eq!(&src[end..], b" }");
    assert_eq!(match_body(&src[7..], 0), Some(end - 7));
    assert_eq!(match_body(&src[..end], 7), Some(end));
    assert_eq!(match_body(&src[..end - 1], 7), None);
}

#[test]
fn declarations_are_found_as_words() {
    let src = "fn foobar() {}\nfn foo() {}\n#[x]\n/// doc\nfn foo(a: u8) {}\n";
    assert!(is_word(b'_') && !is_word(b'-'));
    assert_eq!(decl_pos(src, "fn", "foo", 1), Some(15));
    let second = decl_pos(src, "fn", "foo", 2).unwrap();
    assert_eq!(&src[second..second + 6], "fn foo");
    assert_eq!(expand_back(src, second), 27);
    assert_eq!(expand_back(src, 27), 27);
    assert!(decl_pos(src, "fn", "foo", 1).unwrap() + "fn foo".len() <= second);
    assert_eq!(decl_pos(src, "fn", "foo", 3), None);
    assert_eq!(decl_pos(src, "fn", "foo", 0), None);
    assert_eq!(decl_pos(src, "struct", "foo", 1), None);
}

// -- snippets ----------------------------------------------------------------

#[test]
fn directives_are_parsed() {
    let attrs = parse_directive("<!-- snippet file=a.rs fn=x fn=y flag -->").unwrap();
    assert_eq!(attrs.len(), 3);
    assert_eq!(get_attr(&attrs, "fn"), Some("y".to_string()));
    assert_eq!(get_attr(&attrs, "flag"), None);
    assert!(parse_directive("<!-- note -->").is_none());
    assert!(parse_directive("<!-- -->").is_none());
    assert!(parse_directive("<!-- snippet").is_none());
    assert_eq!(snippet_file(&attrs).ok(), Some("a.rs".to_string()));
}

#[test]
fn languages_go_by_extension() {
    let got: Vec<&str> = ["a.rs", "b/c.sh", "x.toml", "y.yml", "z.yaml", "j.json", "m.xml", "J.java"]
        .iter()
        .map(|p| lang_for(p))
        .collect();
    assert_eq!(got, ["rust", "bash", "toml", "yaml", "yaml", "json", "xml", "java"]);
    assert_eq!((lang_for("Makefile"), lang_for(".rs"), lang_for("a.md")), ("text", "text", "text"));
}

fn attrs(v: &[(&str, &str)]) -> Vec<(String, String)> {
    v.iter().map(|(k, x)| (k.to_string(), x.to_string())).collect()
}

#[test]
fn snippets_are_cut_out() {
    let src = "use a;\n/// Doc.\npub fn f() {\n    1\n}\nfn g();\n\n";
    let body = |v: &[(&str, &str)]| extract(&attrs(v), src).ok().unwrap();
    assert_eq!(
        body(&[("file", "s.rs"), ("fn", "f")]),
        ("rust".to_string(), "/// Doc.\npub fn f() {\n    1\n}".to_string())
    );
    assert_eq!(
        body(&[("file", "s.rs"), ("lines", "2-3"), ("lang", "x")]),
        ("x".to_string(), "/// Doc.\npub fn f() {".to_string())
    );
    assert_eq!(body(&[("file", "s.rs"), ("lines", "6-99")]).1, "fn g();\n");
    assert_eq!(body(&[("file", "s")]).1, "use a;\n/// Doc.\npub fn f() {\n    1\n}\nfn g();");
    assert_eq!(body(&[("file", "s"), ("fn", "f"), ("nth", "x")]).1.len(), 29);
}

#[test]
fn snippets_can_fail() {
    let src = "fn g();\nstruct S {";
    let error = |v: &[(&str, &str)]| extract(&attrs(v), src).err().unwrap();
    assert!(matches!(error(&[("fn", "g")]), SnippetError::MissingFile));
    assert!(matches!(error(&[("file", "s"), ("fn", "g")]), SnippetError::Unbalanced));
    match error(&[("file", "s"), ("lines", "x-2")]) {
        SnippetError::BadNumber(t) => assert_eq!(t, "x"),
        _ => panic!("expected a bad number"),
    }
    match error(&[("file", "s"), ("lines", "1-")]) {
        SnippetError::BadNumber(t) => assert_eq!(t, ""),
        _ => panic!("expected a bad number"),
    }
    match error(&[("file", "s"), ("struct", "T"), ("nth", "2")]) {
        SnippetError::NotFound { keyword, name, nth, path } => {
            assert_eq!((keyword.as_str(), name.as_str(), nth, path.as_str()), ("struct", "T", 2, "s"))
        }
        _ => panic!("expected not found"),
    }
}

#[test]
fn a_spine_is_expanded() {
    let text = "# T\n<!-- snippet file=a.rs -->\n<!-- long\n<!-- snippet file=b.rs -->\ntext\n<!-- one -->\n";
    let d = spine_directives(text);
    assert_eq!(d.len(), 1);
    assert_eq!(get_attr(&d[0], "file"), Some("a.rs".to_string()));
    let got = expand_spine(text, &vec![("rust".to_string(), "fn a() {}\n\n".to_string())]);
    assert_eq!(got, "# T\n\n~~~~~rust\nfn a() {}\n~~~~~\ntext\n<!-- one -->\n");
}

// -- call graph --------------------------------------------------------------

#[test]
fn owners_are_read_from_headers() {
    let owner = |h: &str| owner_from_header(h).unwrap();
    assert_eq!(owner("impl Foo "), Some("Foo".to_string()));
    assert_eq!(owner("impl<T: Clone> Bar for Vec<T> "), Some("Vec".to_string()));
    assert_eq!(owner("trait Walk: Sized "), Some("Walk".to_string()));
    assert_eq!(owner("impl "), None);
}

#[test]
fn calls_are_listed_once() {
    let got = calls("{ a(); b::c(1); if (x) { a() } Self::d::<u8>(); // e()\n \"f()\" }").unwrap();
    let want = vec![
        ("a".to_string(), None),
        ("c".to_string(), Some("b".to_string())),
        ("d".to_string(), Some("Self".to_string())),
    ];
    assert_eq!(got, want);
    let groups = vec![
        (None, Some("match".to_string())),
        (None, Some("go".to_string())),
        (Some("A".to_string()), Some("go".to_string())),
        (None, Some("go".to_string())),
        (None, None),
    ];
    assert_eq!(select_calls(&groups).len(), 2);
}

const LIB: &str = "pub struct A;\nimpl A {\n    /// Runs.\n    fn run(&self) {\n        Self::helper();\n        free();\n    }\n    fn helper() { free() }\n    fn later();\n}\nfn free() { other::run(1) }\nfn run(n: u8) {}\n";

fn file(path: &str, src: &str) -> (String, String) {
    (path.to_string(), src.to_string())
}

#[test]
fn functions_are_indexed() {
    let defs = build_index(&vec![file("lib.rs", LIB)]).unwrap();
    let got: Vec<String> = defs.iter().map(display).collect();
    assert_eq!(got, ["A::run", "A::helper", "free", "run"]);
    assert_eq!(defs[1].body, "{ free() }");
    assert!(defs[0].text.starts_with("    /// Runs.\n    fn run"));
    assert!(defs[0].text.ends_with("}"));
    assert_eq!(defs[3].file, "lib.rs");
}

#[test]
fn matches_that_cannot_be_cut_are_refused() {
    let src = "fn\u{3000}x() {}";
    assert!(read_defs("a.rs", src, &Vec::new(), &vec![(0, 6)]).is_none());
    assert_eq!(read_defs("a.rs", "fn x() {}", &Vec::new(), &vec![(0, 4)]).unwrap().len(), 1);
    assert_eq!(read_defs("a.rs", "fn x(); {}", &Vec::new(), &vec![(0, 4)]).unwrap().len(), 0);
}

fn graph() -> Graph {
    let defs = build_index(&vec![
        file("lib.rs", LIB),
        file("other.rs", "fn free() { free() }\nfn run() { missing() }\n"),
    ])
    .unwrap();
    build_graph(defs).unwrap()
}

#[test]
fn calls_are_resolved() {
    let g = graph();
    let find = |name: &str, recv: Option<&str>, caller: usize| {
        resolve(&g.defs, name, &recv.map(|r| r.to_string()), &g.defs[caller])
    };
    // By owner, with Self standing for the caller's.
    assert_eq!(find("helper", Some("Self"), 0), Some(1));
    assert_eq!(find("run", Some("A"), 2), Some(0));
    // By file.
    assert_eq!(find("free", None, 5), Some(4));
    assert_eq!(find("free", Some("Nope"), 0), Some(2));
    // By name alone.
    assert_eq!(find("helper", None, 4), Some(1));
    assert_eq!(find("missing", None, 0), None);
}

#[test]
fn a_walk_begins_at_its_root() {
    let g = graph();
    let w = walk(&g, 0, 3);
    let got: Vec<(usize, usize, Option<usize>)> =
        w.order.iter().map(|v| (v.def, v.depth, v.caller)).collect();
    assert_eq!(got, [(0, 0, None), (1, 1, Some(0)), (2, 2, Some(1))]);
    assert!(!w.truncated);
    assert_eq!(walk(&g, 0, 0).order.len(), 1);
}

#[test]
fn a_walk_is_capped() {
    let mut src = String::new();
    for i in 0..100 {
        src.push_str(&format!("fn f{i}() {{ f{}() }}\n", i + 1));
    }
    let g = build_graph(build_index(&vec![file("a.rs", &src)]).unwrap()).unwrap();
    let w = walk(&g, 0, 1000);
    assert_eq!(w.order.len(), MAX_NODES);
    assert!(w.truncated);
    let w = walk(&g, 0, 59);
    assert_eq!(w.order.len(), 60);
    assert!(!w.truncated);
}

#[test]
fn the_call_graph_is_written() {
    let seed = seed_at(0);
    assert_eq!((seed.func, seed.max_depth), ("android_main", 4));
    let main = "fn android_main() { go() }\nfn go() { \"x\" }\n";
    let files = vec![vec![file("src/android/main.rs", main)], Vec::new(), Vec::new()];
    let got = callgraph_typst(&files).unwrap();
    assert!(got.starts_with(
        "#pagebreak(weak: true)\n= \\`android\\_main\\` — the one entry point\n\n#emph[Auto-generated by walking the call graph from #raw(\"android_main\") to depth 4 over src/android, src/core. Lexical"
    ));
    assert!(got.contains("omitted. 2 functions reached.]\n\n"));
    assert!(got.contains("#emph[depth 1, called by android\\_main] · #raw(\"src/android/main.rs\")\n\n"));
    assert!(got.ends_with("#raw(\"fn go() { \\\"x\\\" }\", block: true, lang: \"rust\")\n\n"));
    assert_eq!(callgraph_typst(&vec![Vec::new(), Vec::new(), Vec::new()]), Some(String::new()));
}

// -- cleaning ----------------------------------------------------------------

#[test]
fn emoji_are_stripped() {
    assert_eq!(strip_emoji("a🚀b⚠️c⌘⭐d"), "abcd");
    assert_eq!(strip_emoji("é — ok"), "é — ok");
}

#[test]
fn front_matter_is_split_off() {
    assert_eq!(
        split_frontmatter("---\nid: x\ntitle: \"My 'page'\"\n---\n\nBody"),
        (Some("My 'page".to_string()), "Body".to_string())
    );
    assert_eq!(split_frontmatter("---\nopen"), (None, "---\nopen".to_string()));
    assert_eq!(split_frontmatter("x"), (None, "x".to_string()));
}

#[test]
fn titles_are_cased() {
    assert_eq!(title_case("  the quick\tßrown fox "), "The Quick SSrown Fox");
    assert_eq!(with_first("Ü", "über"), "Über");
}

#[test]
fn lines_are_cleaned() {
    let clean = |l: &str| clean_line(&None, l).0;
    assert_eq!(clean("import X from 'y';"), "");
    assert_eq!(clean("  <TabItem value=\"a\">"), "");
    assert_eq!(clean(":::tip [Read me]"), "**TIP — Read me**\n\n");
    assert_eq!(clean(":::note"), "**NOTE**\n\n");
    assert_eq!(clean(":::"), "\n");
    assert_eq!(clean("hi 🚀"), "hi \n");
    assert_eq!(admonition("TIP", ""), "**TIP**\n\n");
    let (text, fence) = clean_line(&None, "  ```");
    assert_eq!((text.as_str(), fence.as_deref()), ("  ```text\n", Some("```")));
    let (text, fence) = clean_line(&fence, "import 🚀");
    assert_eq!((text.as_str(), fence.as_deref()), ("import 🚀\n", Some("```")));
    let (_, fence) = clean_line(&fence, "```  ");
    assert_eq!(fence, None);
    assert_eq!(clean_line(&None, "~~~~js").0, "~~~~js\n");
}

#[test]
fn pages_are_cleaned() {
    let raw = "---\ntitle: Hello 🚀\n---\nA {/* note */}b\n{/* hide-in-pdf */}x{/* /hide-in-pdf */}c\n";
    assert_eq!(clean_markdown("d/1-a.md", raw).unwrap(), "# Hello\n\nA b\nc\n");
    assert_eq!(clean_markdown("d/12-getting_started.md", "text").unwrap(), "# Getting Started\n\ntext\n");
    assert_eq!(clean_markdown("d/x.md", "  # Own\n").unwrap(), "  # Own\n");
}

// -- images and markdown -----------------------------------------------------

#[test]
fn images_are_resolved() {
    let mut c = ImageCache::new("/repo");
    assert!(matches!(c.embed("/repo/d", "https://x/y.png"), Embed::Refused));
    assert!(matches!(c.embed("/repo/d", "data:image/png"), Embed::Refused));
    match c.embed("/repo/d", "/img/a.webp?x#y") {
        Embed::Prepare(job) => {
            assert_eq!(job.key, "/repo/d|/img/a.webp?x#y");
            assert_eq!(job.source, "/repo/gh-pages/static/img/a.webp");
            assert_eq!(
                c.prepare(&job.source),
                Some((
                    "/repo/build/docs/img/a.png".to_string(),
                    "build/docs/img/a.png".to_string()
                ))
            );
            c.record(job.key, Some("build/docs/img/a.png".to_string()));
        }
        _ => panic!("expected a job"),
    }
    match c.embed("/repo/d", "/img/a.webp?x#y") {
        Embed::Known(r) => assert_eq!(r, Some("build/docs/img/a.png".to_string())),
        _ => panic!("expected to know it"),
    }
    match c.embed("/repo/d", "b.png") {
        Embed::Prepare(job) => assert_eq!(job.source, "/repo/d/b.png"),
        _ => panic!("expected a job"),
    }
    assert_eq!(c.prepare("/"), None);
}

#[test]
fn markdown_becomes_typst() {
    let c = ImageCache::new("/repo");
    let typst = |md: &str, shift: usize| convert("/repo", shift, md, &c).ok().unwrap();
    assert_eq!(typst("# A *b*", 1), "\n== A #emph[b]\n\n");
    assert_eq!(typst("###### x", 3), "\n====== x\n\n");
    assert_eq!(
        typst("a **b** ~~c~~ `d\"` [e](http://f)", 0),
        "a #strong[b] #strike[c] #raw(\"d\\\"\") #link(\"http://f\")[e]\n\n"
    );
    assert_eq!(typst("- a\n  1. b\n- c", 0), "- a  + b\n\n- c\n\n");
    assert_eq!(
        typst("```rust\nfn x() {}\n```", 0),
        "\n#raw(\"fn x() {}\", block: true, lang: \"rust\")\n\n"
    );
    assert_eq!(typst("    a*b", 0), "\n#raw(\"a*b\", block: true)\n\n");
    assert_eq!(typst("> q\n\n---\n", 0), "#quote(block: true)[q\n\n]\n\n\n#line(length: 100%, stroke: 0.5pt + gray)\n\n");
    assert_eq!(typst("a\nb  \nc<br>", 0), "a b \\ c\n\n");
    assert_eq!(typst("![al t](http://x/y.png)", 0), "#emph[(figure: al t)]\n\n");
}

#[test]
fn an_image_is_prepared_before_its_page() {
    let mut c = ImageCache::new("/repo");
    let md = "![a_b](/img/x.png)";
    let job = convert("/repo", 0, md, &c).err().unwrap();
    assert_eq!(job.source, "/repo/gh-pages/static/img/x.png");
    c.record(job.key, Some("build/docs/img/x.png".to_string()));
    assert_eq!(
        convert("/repo", 0, md, &c).ok().unwrap(),
        "\n#figure(image(\"/build/docs/img/x.png\", width: 80%), caption: [a\\_b])\n\n\n\n"
    );
    let mut c = ImageCache::new("/repo");
    let job = convert("/repo", 0, md, &c).err().unwrap();
    c.record(job.key, None);
    assert_eq!(convert("/repo", 0, md, &c).ok().unwrap(), "#emph[(figure: a\\_b)]\n\n");
}

#[test]
fn events_are_taken_one_by_one() {
    let c = ImageCache::new("/repo");
    let events = vec![
        MdEvent::CodeBlock(None),
        MdEvent::Text("a*\n\n".to_string()),
        MdEvent::EndCodeBlock,
        MdEvent::EndImage,
        MdEvent::EndList,
        MdEvent::Other,
        MdEvent::Text("*".to_string()),
    ];
    assert_eq!(
        convert_events("", 0, &events, &c).ok().unwrap(),
        "\n#raw(\"a*\", block: true)\n\n\n\\*"
    );
    let mut m = MdToTypst::new("", 9);
    m.push("x");
    m.start(&MdEvent::Heading(usize::MAX));
    assert_eq!(m.out, "x\n====== ");
    assert!(m.end(&MdEvent::EndLink, &c).is_ok());
    assert_eq!(m.out, "x\n====== ]");
}

// -- options and assembly ----------------------------------------------------

#[test]
fn manuals_have_their_own_files() {
    let o = opts(Manual::User, false, Size::Phone, true);
    assert_eq!(o.out_path(), "manuals/Local Desktop - User Manual (Phone, Dark).pdf");
    let o = opts(Manual::Developer, true, Size::Desktop, false);
    assert_eq!(o.out_path(), "manuals/Local Desktop - Developer Manual (Call Graph).pdf");
    let all = all_variants();
    assert_eq!(all.len(), 10);
    let mut paths: Vec<String> = all.iter().map(|o| o.out_path()).collect();
    paths.sort();
    paths.dedup();
    assert_eq!(paths.len(), 10);
    assert_eq!(Size::Fold.label(), Some("Fold"));
    assert_eq!(Size::Desktop.label(), None);
}

#[test]
fn themes_follow_the_manual() {
    assert_eq!(opts(Manual::Developer, false, Size::Desktop, true).theme().font, "Cardo");
    let dark = opts(Manual::User, false, Size::Desktop, true).theme();
    assert_eq!((dark.page_bg, dark.accent), (Some("071018"), "2DD4BF"));
    assert_eq!(opts(Manual::User, false, Size::Desktop, false).theme().page_bg, None);
}

#[test]
fn arguments_are_read() {
    let (o, notes) = select(&names(&["user", "fold", "dark", "mobile", "what"]));
    assert!(o == opts(Manual::User, false, Size::Phone, true));
    assert_eq!(notes, ["Ignoring unknown argument 'what'."]);
    let (o, notes) = select(&names(&["dark", "callgraph"]));
    assert!(o == opts(Manual::Developer, true, Size::Desktop, false));
    assert_eq!(notes, ["Note: 'dark' only styles the user manual; ignoring."]);
    assert!(wants_all(&names(&["user", "all"])));
    assert!(!wants_all(&names(&["alls"])));
}

#[test]
fn documents_are_assembled() {
    let o = opts(Manual::User, false, Size::Desktop, true);
    assert!(preamble(&o).starts_with(
        "#set page(paper: \"a4\", margin: 2.4cm)\n#set page(fill: rgb(\"#071018\"))\n#set text(font: \"Lato\", size: 11pt, fill: rgb(\"#E8EDF5\"))\n#set par"
    ));
    assert!(preamble(&o).ends_with("#show raw: set text(fill: rgb(\"#E8EDF5\"))\n"));
    let cover = cover_and_toc(&o, "1.2.3", "build/docs/l.png");
    assert!(cover.contains("image(\"/build/docs/l.png\", width: 40%)"));
    assert!(cover.contains("[Running Linux on Android · v1.2.3]"));
    assert_eq!(part("A_b"), "#pagebreak(weak: true)\n= A\\_b\n\n");
    let doc = assemble_user(&o, "1", "l", &names(&["D1", "D2"]), &names(&["B1", "B2"]));
    assert!(doc.ends_with(
        "#pagebreak()\n\nD1#pagebreak(weak: true)\nD2#pagebreak()\n= Blog\n\n#pagebreak(weak: true)\nB2#pagebreak(weak: true)\nB1"
    ));
    let o = opts(Manual::Developer, false, Size::Fold, false);
    let doc = assemble_developer(&o, "1", "R", &names(&["D"]), &names(&["B1", "B2"]), "A");
    assert!(doc.starts_with("#set page(width: 130mm, height: 150mm, margin: 6mm)\n"));
    assert!(doc.ends_with(
        "= Local Desktop\n\nR#pagebreak(weak: true)\n= Documentation\n\n#pagebreak(weak: true)\nD#pagebreak(weak: true)\n= Blog\n\n#pagebreak(weak: true)\nB1#pagebreak(weak: true)\nB2#pagebreak(weak: true)\n= Architecture — A Guided Call Stack\n\nA"
    ));
    assert_eq!(docs_dirs(Manual::User).len(), 2);
    assert_eq!(docs_dirs(Manual::Developer)[3], "gh-pages/docs/developer/bug-cheat-sheet");
    assert_eq!(heading_shift(Manual::User, Place::Docs), 0);
    assert_eq!(heading_shift(Manual::User, Place::Blog), 1);
    assert_eq!(heading_shift(Manual::Developer, Place::Docs), 1);
    assert_eq!(heading_shift(Manual::Developer, Place::Architecture), 1);
}

#[test]
fn the_developer_manual_has_no_dark_theme() {
    for size in [Size::Desktop, Size::Fold, Size::Phone] {
        let light = opts(Manual::Developer, false, size, false);
        let dark = opts(Manual::Developer, false, size, true);
        assert_eq!(preamble(&light), preamble(&dark));
        assert!(preamble(&dark).ends_with("#show raw: set text(font: \"IBM Plex Mono\")\n"));
        assert_eq!(light.out_path(), dark.out_path());
        let (docs, blog) = (names(&["D"]), names(&["B"]));
        assert_eq!(
            assemble_developer(&light, "1", "R", &docs, &blog, "A"),
            assemble_developer(&dark, "1", "R", &docs, &blog, "A")
        );
    }
}

#[test]
fn a_page_is_cleaned_and_converted() {
    let c = ImageCache::new("/repo");
    let got = page("/repo/2-a_b.md", "/repo", 0, ":::tip\nx", &c).ok().unwrap();
    assert_eq!(got, "\n= A B\n\n#strong[TIP]\n\nx\n\n");
    assert!(matches!(
        page("/repo/a.md", "/repo", 0, "![x](y.png)", &c),
        Err(PageError::Image(_))
    ));
}

// -- assets ------------------------------------------------------------------

#[test]
fn the_version_is_read() {
    assert_eq!(cargo_version("[package]\nname = \"x\"\nversion = \"1.2.3\" # v\n"), "1.2.3");
    assert_eq!(cargo_version("version = 1\nversion = \"2"), "2");
    assert_eq!(cargo_version(""), "0.0.0");
}

#[test]
fn fonts_are_named() {
    let v = fonts("Lato", "lato");
    assert_eq!(v[2].0, "Lato-Italic.ttf");
    assert_eq!(
        v[0].1,
        "https://raw.githubusercontent.com/google/fonts/main/ofl/lato/Lato-Regular.ttf"
    );
    for o in all_variants() {
        let f = font_families(&o);
        assert_eq!(f[0].name, o.theme().font);
        assert!(f[0].needed && !f[1].needed && !f[2].needed);
        for family in &f {
            assert_eq!(family.subdir, family.name.to_lowercase());
        }
    }
}

#[test]
fn the_logo_is_recoloured() {
    assert_eq!(cover_logo("0F172A"), "build/docs/cover-logo-0F172A.png");
    assert_eq!(parse_color("0F172a"), Some((15, 23, 42)));
    assert_eq!(parse_color("+F0000"), Some((15, 0, 0)));
    assert_eq!(parse_color("GG0000"), None);
    assert_eq!(parse_color("0F172A80"), Some((15, 23, 42)));
    assert_eq!(parse_color("zz"), None);
    assert_eq!(parse_color("é0F17"), None);
    assert_eq!(parse_color(""), None);
    let px = vec![(255, 255, 255, 200), (0, 0, 0, 255), (100, 150, 200, 128)];
    // 29900 + 88050 + 22800 = 140750: brightness 140, alpha 140 * 128 / 255 = 70.
    assert_eq!(
        recolour(&px, (1, 2, 3)),
        vec![(1, 2, 3, 200), (1, 2, 3, 0), (1, 2, 3, 70)]
    );
}

#[test]
fn definitions_are_shown_with_their_owner() {
    let d = |owner: Option<&str>| Def {
        name: "f".to_string(),
        owner: owner.map(|o| o.to_string()),
        file: String::new(),
        text: String::new(),
        body: String::new(),
    };
    assert_eq!((display(&d(None)), display(&d(Some("T")))), ("f".to_string(), "T::f".to_string()));
}
