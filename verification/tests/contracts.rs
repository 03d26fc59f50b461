//! Concrete instances of the library's stated contracts: whole-document
//! laws, the preparation pass, and the exact results of the span, line and
//! HTML helpers.

use rostdown::ast::{Align, Block, BlockKind, LinkDef, Span};
use rostdown::block::{
    block_all_pipe, is_item_line, item_shape_ok, parse_document, parse_heading,
};
use rostdown::html_block::{push_escaped_attr, push_escaped_text};
use rostdown::ial::Attr;
use rostdown::inline::{lookup_def, normalize_ref_id, parse_image, parse_link, underscore_intraword};
use rostdown::lines::{collect_link_defs, extract_header_id, parse_def_title, sep_align_cells};
use rostdown::prepare::{highlight_code, highlight_request, prepare, render_document, render_with};
use rostdown::render::TocEntry;
use rostdown::slug::IdCounter;
use rostdown::{to_html, CodeHighlighter, Error, NoHighlight, Options};

fn c(s: &str) -> Vec<char> {
    s.chars().collect()
}

fn st(v: &[char]) -> String {
    v.iter().collect()
}

fn lines(src: &[&str]) -> Vec<Vec<char>> {
    src.iter().map(|l| c(l)).collect()
}

fn render(src: &str, opts: &Options) -> Result<String, Error> {
    to_html(src, opts, &mut NoHighlight)
}

#[test]
fn empty_document_renders_nothing() {
    assert_eq!(render("", &Options::jekyll()).unwrap(), "");
    assert_eq!(render("", &Options::kramdown_core()).unwrap(), "");
}

#[test]
fn a_line_of_words_is_one_paragraph() {
    for opts in [Options::jekyll(), Options::kramdown_core()] {
        assert_eq!(render("hello world 42", &opts).unwrap(), "<p>hello world 42</p>\n");
        assert_eq!(render("x", &opts).unwrap(), "<p>x</p>\n");
        assert_eq!(render("Ab  9", &opts).unwrap(), "<p>Ab  9</p>\n");
    }
}

#[test]
fn parsed_word_line_is_a_single_text_paragraph() {
    let bs = parse_document(&c("two words"), Options::jekyll()).unwrap();
    assert_eq!(bs.len(), 1);
    assert!(bs[0].ial.is_empty());
    match &bs[0].kind {
        BlockKind::Para(sp) => {
            assert_eq!(sp.len(), 1);
            match &sp[0] {
                Span::Text(t) => assert_eq!(st(t), "two words"),
                _ => panic!("expected a text span"),
            }
        },
        _ => panic!("expected a paragraph"),
    }
    assert!(parse_document(&c(""), Options::jekyll()).unwrap().is_empty());
}

fn heading(level: u8, text: &str, ial: Vec<Attr>) -> Block {
    Block {
        kind: BlockKind::Heading {
            level,
            raw: c(text),
            span_text: c(text),
            spans: vec![Span::Text(c(text))],
            id: None,
        },
        ial,
    }
}

#[test]
fn preparing_keeps_the_shape_and_assigns_ids() {
    let mut blocks = vec![
        heading(1, "Hello World", Vec::new()),
        Block { kind: BlockKind::Hr, ial: Vec::new() },
        heading(2, "Hello World", Vec::new()),
        heading(2, "Other", vec![Attr { key: c("id"), val: c("mine") }]),
    ];
    let mut used = IdCounter::new();
    let mut toc: Vec<TocEntry> = Vec::new();
    let r = prepare(
        &mut blocks,
        Options::jekyll(),
        &mut used,
        &mut toc,
        false,
        &None,
        &None,
        &mut NoHighlight,
    );
    assert!(r.is_ok());
    assert_eq!(blocks.len(), 4);
    let ids: Vec<Option<String>> = blocks
        .iter()
        .map(|b| match &b.kind {
            BlockKind::Heading { id, .. } => id.as_deref().map(st),
            _ => None,
        })
        .collect();
    assert_eq!(
        ids,
        vec![Some("hello-world".to_string()), None, Some("hello-world-1".to_string()), Some(
            "mine".to_string(),
        )]
    );
    assert!(matches!(blocks[1].kind, BlockKind::Hr));
    assert_eq!(toc.len(), 3);
}

#[test]
fn headings_without_auto_ids_get_none() {
    let mut blocks = vec![heading(1, "Hello", Vec::new())];
    let mut used = IdCounter::new();
    let mut toc: Vec<TocEntry> = Vec::new();
    let r = prepare(
        &mut blocks,
        Options::kramdown_core(),
        &mut used,
        &mut toc,
        false,
        &None,
        &None,
        &mut NoHighlight,
    );
    assert!(r.is_ok());
    match &blocks[0].kind {
        BlockKind::Heading { id, .. } => assert!(id.is_none()),
        _ => panic!("expected a heading"),
    }
}

#[test]
fn a_toc_rules_out_a_classed_heading() {
    let mut blocks = vec![heading(1, "Hello", vec![Attr { key: c("class"), val: c("x") }])];
    let mut used = IdCounter::new();
    let mut toc: Vec<TocEntry> = Vec::new();
    let r = prepare(
        &mut blocks,
        Options::jekyll(),
        &mut used,
        &mut toc,
        true,
        &None,
        &None,
        &mut NoHighlight,
    );
    assert!(matches!(r, Err(Error::Declined("toc-heading-class"))));
    let doc = "* a\n{:toc}\n\n# Hi\n{: .x}\n";
    assert!(render(doc, &Options::jekyll()).is_err());
}

#[test]
fn render_document_of_nothing_is_empty() {
    let out = render_document(Vec::new(), Options::jekyll(), &mut NoHighlight).unwrap();
    assert!(out.is_empty());
}

#[test]
fn text_node_escape_keeps_entities() {
    let mut out = Vec::new();
    push_escaped_text(&mut out, &c("a<b &amp; & c>"));
    assert_eq!(st(&out), "a&lt;b &amp; &amp; c&gt;");
    let mut out = Vec::new();
    push_escaped_attr(&mut out, &c("say \"hi\" &#65; &x"));
    assert_eq!(st(&out), "say &quot;hi&quot; &#65; &amp;x");
}

#[test]
fn reference_ids_are_lowercased_and_collapsed() {
    assert_eq!(st(&normalize_ref_id(&c("  Foo \t BAR  "))), "foo bar");
    assert_eq!(st(&normalize_ref_id(&c("x"))), "x");
    assert!(normalize_ref_id(&c(" \t ")).is_empty());
}

fn defs() -> Vec<LinkDef> {
    vec![
        LinkDef { id: c("img"), url: c("/a.png"), title: Some(c("T")) },
        LinkDef { id: c("img"), url: c("/b.png"), title: None },
    ]
}

#[test]
fn first_definition_wins_in_lookup() {
    let (u, t) = lookup_def(&defs(), &c("img")).unwrap();
    assert_eq!(st(&u), "/a.png");
    assert_eq!(t.as_deref().map(st), Some("T".to_string()));
    assert!(lookup_def(&defs(), &c("none")).is_none());
}

#[test]
fn image_forms() {
    let d = defs();
    let img = |s: &str| {
        parse_image(&d, &c(s)).map(|o| {
            o.map(|(src, alt, title, n)| (st(&src), st(&alt), title.as_deref().map(st), n))
        })
    };
    assert_eq!(
        img("![Alt](/x.png \"Ti\") rest").unwrap(),
        Some(("/x.png".to_string(), "Alt".to_string(), Some("Ti".to_string()), 19))
    );
    assert_eq!(
        img("![Img][]").unwrap(),
        Some(("/a.png".to_string(), "Img".to_string(), Some("T".to_string()), 8))
    );
    assert_eq!(
        img("![x][IMG]").unwrap(),
        Some(("/a.png".to_string(), "x".to_string(), Some("T".to_string()), 9))
    );
    assert_eq!(img("![nope]").unwrap(), None);
    assert_eq!(img("![open").unwrap(), None);
    assert!(img("![a\\b](c)").is_err());
    assert!(img("![a[b]](c)").is_err());
    assert!(img("![a](<c>)").is_err());
    assert!(img("![img] [x]").is_err());
}

#[test]
fn link_forms() {
    let d = vec![LinkDef { id: c("r"), url: c("/r"), title: None }];
    match parse_link(&d, &c("[t](/u \"T\") x"), false, false).unwrap() {
        Some((_, href, title, n)) => {
            assert_eq!(st(&href), "/u");
            assert_eq!(title.as_deref().map(st), Some("T".to_string()));
            assert_eq!(n, 11);
        },
        None => panic!("expected a link"),
    }
    match parse_link(&d, &c("[R] y"), false, false).unwrap() {
        Some((_, href, title, n)) => {
            assert_eq!(st(&href), "/r");
            assert!(title.is_none());
            assert_eq!(n, 3);
        },
        None => panic!("expected a reference link"),
    }
    assert!(parse_link(&d, &c("[q]"), false, false).unwrap().is_none());
    assert!(parse_link(&d, &c("[t](<u>)"), false, false).is_err());
}

#[test]
fn intraword_underscore_rule() {
    assert!(underscore_intraword(&c("ab_"), None));
    assert!(underscore_intraword(&c("a-b"), None));
    assert!(underscore_intraword(&c("a-"), None));
    assert!(!underscore_intraword(&c("1"), None));
    assert!(!underscore_intraword(&c("a "), None));
    assert!(underscore_intraword(&c(""), Some('x')));
    assert!(!underscore_intraword(&c(""), Some(' ')));
    assert!(!underscore_intraword(&c(""), None));
}

#[test]
fn separator_alignments() {
    assert_eq!(
        sep_align_cells(&c("|:-|-:|:-:|---|")),
        vec![Align::Left, Align::Right, Align::Center, Align::Unset]
    );
    assert_eq!(sep_align_cells(&c(" :--- ")), vec![Align::Left]);
}

#[test]
fn header_id_shorthand() {
    let h = |s: &str| extract_header_id(&c(s)).map(|(b, id)| (st(&b), st(&id)));
    assert_eq!(h("Hello {#my-id}"), Some(("Hello".to_string(), "my-id".to_string())));
    assert_eq!(h("A {#x} {#y}  "), Some(("A {#x}".to_string(), "y".to_string())));
    assert_eq!(h("Hello{#x}"), None);
    assert_eq!(h("Hello {#a b}"), None);
    assert_eq!(h(" {#x}"), None);
}

#[test]
fn definition_titles() {
    assert_eq!(parse_def_title(&c("\"t\"  ")).as_deref().map(st), Some("t".to_string()));
    assert_eq!(parse_def_title(&c("'a'b' ")).as_deref().map(st), Some("a'b".to_string()));
    assert_eq!(parse_def_title(&c("\"\"")), None);
    assert_eq!(parse_def_title(&c("\"t\" x")), None);
    assert_eq!(parse_def_title(&c("t")), None);
}

#[test]
fn link_definitions_keep_the_first_of_an_id() {
    let ls = lines(&["[a]: /one", "[A]: /two", "", "text"]);
    let (defs, mask) = collect_link_defs(&ls).unwrap();
    assert_eq!(mask, vec![true, true, false, false]);
    assert_eq!(defs.len(), 1);
    assert_eq!(st(&defs[0].url), "/one");
    assert!(collect_link_defs(&lines(&["[a]: <", "x"])).is_err());
}

#[test]
fn heading_parts() {
    let d: Vec<LinkDef> = Vec::new();
    let (k, explicit) = parse_heading(&d, &c("## Hi there ##  "), Options::jekyll()).unwrap();
    match k {
        BlockKind::Heading { level, raw, span_text, .. } => {
            assert_eq!(level, 2);
            assert_eq!(st(&raw), "Hi there");
            assert_eq!(st(&span_text), "Hi there");
        },
        _ => panic!("expected a heading"),
    }
    assert!(explicit.is_none());
    let (_, explicit) = parse_heading(&d, &c("# T {#tid}"), Options::jekyll()).unwrap();
    assert_eq!(explicit.as_deref().map(st), Some("tid".to_string()));
    assert!(parse_heading(&d, &c("####### seven"), Options::jekyll()).is_err());
    assert!(parse_heading(&d, &c("#nospace"), Options::jekyll()).is_err());
}

#[test]
fn list_line_and_item_shapes() {
    assert!(is_item_line(&c("* a"), 0, false));
    assert!(is_item_line(&c("  1. a"), 2, true));
    assert!(!is_item_line(&c("* * *"), 0, false));
    assert!(!is_item_line(&c("1. a"), 0, false));
    let para = || Block { kind: BlockKind::Para(vec![Span::Text(c("p"))]), ial: Vec::new() };
    let blank = || Block { kind: BlockKind::Blank, ial: Vec::new() };
    assert!(item_shape_ok(&vec![para(), blank(), para()], true));
    assert!(!item_shape_ok(&vec![para(), para()], true));
    assert!(item_shape_ok(&vec![para()], false));
    assert!(!item_shape_ok(&vec![blank(), para()], false));
}

#[test]
fn table_runs_need_a_pipe_on_every_line() {
    let ls = lines(&["a | b", "c | d", "", "no pipe"]);
    assert!(block_all_pipe(&ls, 0, Options::jekyll()));
    let ls = lines(&["a | b", "c d"]);
    assert!(!block_all_pipe(&ls, 0, Options::jekyll()));
    let ls = lines(&["a | b", "# h"]);
    assert!(block_all_pipe(&ls, 0, Options::jekyll()));
    assert!(!block_all_pipe(&ls, 0, Options::kramdown_core()));
}

#[test]
fn readme_example_renders() {
    let html = to_html("## Hi\n\nSome *text*.\n", &Options::jekyll(), &mut NoHighlight).unwrap();
    assert_eq!(html, "<h2 id=\"hi\">Hi</h2>\n\n<p>Some <em>text</em>.</p>\n");
}

#[test]
fn plain_prose_renders_as_paragraphs() {
    let src = "a b\nc\n\n\nd\n";
    assert_eq!(render(src, &Options::jekyll()).unwrap(), "<p>a b\nc</p>\n\n<p>d</p>\n");
    assert_eq!(render("one\ntwo", &Options::kramdown_core()).unwrap(), "<p>one\ntwo</p>\n");
    let bs = parse_document(&c("x y\n\nz"), Options::jekyll()).unwrap();
    assert_eq!(bs.len(), 3);
    assert!(matches!(bs[1].kind, BlockKind::Blank));
}

#[test]
fn prose_punctuation_passes_through() {
    let src = "Hello, world: a/b (c) d@e 5% x; y? z";
    assert_eq!(render(src, &Options::jekyll()).unwrap(), format!("<p>{}</p>\n", src));
}

#[test]
fn loose_list_with_an_abutting_pair_declines() {
    assert!(render("- a\n\n- b\n- c\n\n- d\n", &Options::jekyll()).is_err());
    assert!(render("- a\n\n- b\n\n- c\n", &Options::jekyll()).is_ok());
}

#[test]
fn mixed_prose_list_declines_as_mixed() {
    let r = parse_document(&c("- a\n- b\n\n- c\n"), Options::jekyll());
    assert!(matches!(r, Err(Error::Declined("mixed-loose-tight-list"))));
    let r = parse_document(&c("- a\n\n- b\n- c\n\n- d\n"), Options::jekyll());
    assert!(matches!(r, Err(Error::Declined("mixed-loose-tight-list"))));
}

#[test]
fn list_items_hold_their_parsed_lines() {
    let bs = parse_document(&c("- a\n- b\n"), Options::jekyll()).unwrap();
    assert_eq!(bs.len(), 1);
    match &bs[0].kind {
        BlockKind::List { items, loose, .. } => {
            assert!(!loose);
            assert_eq!(items.len(), 2);
            for (item, want) in items.iter().zip(["a", "b"]) {
                assert_eq!(item.blocks.len(), 1);
                match &item.blocks[0].kind {
                    BlockKind::Para(sp) => {
                        assert_eq!(sp.len(), 1);
                        assert!(matches!(&sp[0], Span::Text(t) if st(t) == want));
                    },
                    _ => panic!("item is not a paragraph"),
                }
            }
        },
        _ => panic!("not a list"),
    }
}

#[test]
fn normalizing_a_reference_id_twice_changes_nothing() {
    for s in ["  Foo \t BAR  ", "x", "A  b\tC", " \t ", "ÄÖ  ü"] {
        let once = normalize_ref_id(&c(s));
        assert_eq!(normalize_ref_id(&once), once);
    }
}

#[test]
fn render_with_uses_the_given_settings() {
    let bs = parse_document(&c("Some `code` here.\n"), Options::jekyll()).unwrap();
    let out = render_with(
        bs,
        Options::jekyll(),
        Some(c("language-plaintext highlighter-rouge")),
        c("rouge"),
        None,
        &mut NoHighlight,
    )
    .unwrap();
    assert_eq!(
        st(&out),
        "<p>Some <code class=\"language-plaintext highlighter-rouge\">code</code> here.</p>\n"
    );
    let bs = parse_document(&c("Some `code` here.\n"), Options::jekyll()).unwrap();
    let out = render_with(bs, Options::jekyll(), None, c("rouge"), None, &mut NoHighlight).unwrap();
    assert_eq!(st(&out), "<p>Some <code>code</code> here.</p>\n");
}

#[test]
fn a_setext_underline_declines_in_the_block_parser() {
    let r = parse_document(&c("para\n====\n"), Options::jekyll());
    assert!(matches!(r, Err(Error::Declined("setext-heading"))));
}

#[test]
fn an_ial_line_splits_a_list() {
    let bs = parse_document(&c("- a\n{:.x}\n- b\n"), Options::jekyll()).unwrap();
    assert_eq!(bs.len(), 2);
    assert!(matches!(bs[0].kind, BlockKind::List { .. }));
    assert!(matches!(bs[1].kind, BlockKind::List { .. }));
    assert_eq!(bs[0].ial.len(), 1);
    assert_eq!(st(&bs[0].ial[0].key), "class");
    assert_eq!(st(&bs[0].ial[0].val), "x");
    assert!(bs[1].ial.is_empty());
}

#[test]
fn heading_declines_name_their_reason() {
    let d: Vec<LinkDef> = Vec::new();
    for line in ["####### seven", "#nospace"] {
        let r = parse_heading(&d, &c(line), Options::jekyll());
        assert!(matches!(r, Err(Error::Declined("atx-heading-shape"))));
    }
}

#[test]
fn a_backtick_in_a_fence_info_string_declines() {
    let r = parse_document(&c("```a`b\nx\n```\n"), Options::jekyll());
    assert!(matches!(r, Err(Error::Declined("fence-info"))));
}

#[test]
fn a_declining_table_cell_gives_its_reason() {
    let r = parse_document(&c("a | b\n---|---\nc << d | e\n"), Options::jekyll());
    assert!(matches!(r, Err(Error::Declined("guillemets"))));
    let r = parse_document(&c("a << b | c\n---|---\nd | e\n"), Options::jekyll());
    assert!(matches!(r, Err(Error::Declined("guillemets"))));
}

#[test]
fn a_tight_pair_before_a_loose_item_declines_as_mixed() {
    let r = parse_document(&c("- a\n- b\n\n- c\n"), Options::jekyll());
    assert!(matches!(r, Err(Error::Declined("mixed-loose-tight-list"))));
}

#[test]
fn highlight_requests_carry_the_resolved_language_and_text() {
    let text = c("x = 1\n");
    let (l, t) = highlight_request(&Some(c("python")), &text, &Some(c("plaintext"))).unwrap();
    assert_eq!((st(&l), st(&t)), ("python".to_string(), "x = 1\n".to_string()));
    let (l, t) = highlight_request(&None, &text, &Some(c("plaintext"))).unwrap();
    assert_eq!((st(&l), st(&t)), ("plaintext".to_string(), "x = 1\n".to_string()));
    assert!(highlight_request(&None, &text, &None).is_none());
}

struct Echo;

impl CodeHighlighter for Echo {
    fn highlight(&mut self, lang: &str, code: &str) -> Option<String> {
        Some(format!("[{lang}|{code}]"))
    }
}

#[test]
fn highlight_code_hands_the_request_to_the_highlighter() {
    let text = c("x\n");
    let (l, h) = highlight_code(&None, &text, &Some(c("plaintext")), &mut Echo).unwrap();
    assert_eq!(st(&l), "plaintext");
    assert_eq!(st(&h), "[plaintext|x\n]");
    assert!(highlight_code(&None, &text, &None, &mut Echo).is_none());
}
