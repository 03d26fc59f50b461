//! Unit coverage of the line classifiers, the HTML block serializer, the
//! link/IAL/entity helpers and smart-quote classification, on the edge
//! cases the document-level tests may not reach.

use rostdown::block::{is_fence_close, parse_document};
use rostdown::escape::{escape_attr, escape_text};
use rostdown::html_block::{
    is_block_start, is_decline_raw, is_escaped_raw, is_raw_text, is_void, serialize,
    starts_html_block,
};
use rostdown::ial::parse_ial;
use rostdown::inline::{normalize_ref_id, parse_image, split_href_title};
use rostdown::lines::{
    decline_block_scan, has_table_pipe, is_hr, is_table_sep_line, looks_like_link_def,
    parse_link_def, split_lines, split_table_cells,
};
use rostdown::typography::{smart_quote, LDQUO, LSQUO, RDQUO, RSQUO};
use rostdown::{Error, Options};

fn c(s: &str) -> Vec<char> {
    s.chars().collect()
}

fn st(v: &[char]) -> String {
    v.iter().collect()
}

fn reason(line: &str) -> Option<&'static str> {
    match decline_block_scan(&c(line)) {
        Ok(()) => None,
        Err(Error::Declined(r)) => Some(r),
    }
}

fn pipe(s: &str) -> bool {
    has_table_pipe(&c(s))
}

fn def(line: &str) -> Option<(String, String, Option<String>)> {
    parse_link_def(&c(line)).map(|d| (st(&d.id), st(&d.url), d.title.as_deref().map(st)))
}

fn owned(id: &str, url: &str, title: Option<&str>) -> Option<(String, String, Option<String>)> {
    Some((id.to_string(), url.to_string(), title.map(|t| t.to_string())))
}

#[test]
fn table_pipe_escape_and_multibyte() {
    assert!(!pipe("plain prose, nothing special"));
    assert!(pipe("a | b"));
    assert!(!pipe(r"a \| b"));
    assert!(pipe(r"a \\| b"));
    assert!(pipe("café | x"));
    assert!(!pipe(r"café \| x"));
    assert!(!pipe("naïve prose"));
    assert!(!pipe("prose `arr.each { |x| x }` here"));
    assert!(!pipe("`|`"));
    assert!(pipe("`code` | real"));
    assert_eq!(reason("a | b"), None);
}

#[test]
fn decline_indented_code_and_prefixes() {
    assert_eq!(reason("    four spaces"), Some("indented-code"));
    assert_eq!(reason("\ttab"), Some("indented-code"));
    assert_eq!(reason("   three spaces ok"), None);
    assert_eq!(reason("{:.css}"), Some("ald-ial-extension"));
    assert_eq!(reason("[^1]: footnote"), Some("footnote"));
    assert_eq!(reason("$$ math $$"), Some("math"));
    assert_eq!(reason("<div>"), Some("html-block"));
    assert_eq!(reason("[id]: http://x"), None);
}

#[test]
fn link_def_shape_detection() {
    assert!(looks_like_link_def(&c("[id]: http://x")));
    assert!(looks_like_link_def(&c("   [id]: http://x")));
    assert!(looks_like_link_def(&c("[1349]: {{ site.repository }}/issues/1349")));
    assert_eq!(
        def("[1349]: {{ site.repository }}/issues/1349"),
        owned("1349", "{{ site.repository }}/issues/1349", None)
    );
    assert_eq!(def("[a]: dest \"t\""), owned("a", "dest", Some("t")));
    assert_eq!(def("[a]: dest (x)"), owned("a", "dest (x)", None));
    assert_eq!(def("[a]: a b \"t\" extra"), None);
    assert!(!looks_like_link_def(&c("[^first]: note")));
    assert_eq!(def("[^first]: note"), None);
    assert!(!looks_like_link_def(&c("[text](url)")));
    assert!(!looks_like_link_def(&c("see [id]: later")));
    assert!(!looks_like_link_def(&c("[]: http://x")));
    assert!(!looks_like_link_def(&c("    [id]: http://x")));
}

#[test]
fn is_hr_true_cases() {
    for s in ["---", "***", "___", "----", "- - -", "*  *  *", "  ---  ", "-\t-\t-"] {
        assert!(is_hr(&c(s)), "{s:?} should be HR");
    }
}

#[test]
fn is_hr_false_cases() {
    for s in ["--", "**", "hello", "-*-", "- - x", "", "- -", "-x-", "a---", "---x"] {
        assert!(!is_hr(&c(s)), "{s:?} should NOT be HR");
    }
}

#[test]
fn split_lines_matches_std_split() {
    for s in [
        "", "a", "a\n", "a\nb", "a\nb\n", "\n", "\n\n", "a\n\nb", "café\nx\n",
        "trailing\nnewline\n", "no newline at all",
    ] {
        let std: Vec<String> = s.split('\n').map(|l| l.to_string()).collect();
        let ours: Vec<String> = split_lines(&c(s)).iter().map(|l| st(l)).collect();
        assert_eq!(ours, std, "split mismatch for {s:?}");
    }
}

fn href_title(s: &str) -> Option<(String, Option<String>)> {
    split_href_title(&c(s)).map(|(h, t)| (st(&h), t.as_deref().map(st)))
}

fn ht(h: &str, t: Option<&str>) -> Option<(String, Option<String>)> {
    Some((h.to_string(), t.map(|t| t.to_string())))
}

#[test]
fn split_href_title_cases() {
    assert_eq!(href_title("url"), ht("url", None));
    assert_eq!(href_title(r#"http://x.com "title""#), ht("http://x.com", Some("title")));
    assert_eq!(href_title("http://x.com 'sgl'"), ht("http://x.com", Some("sgl")));
    assert_eq!(href_title("url with space"), ht("url with space", None));
    assert_eq!(href_title(r#" "t""#), ht("", Some("t")));
    assert_eq!(href_title("  spaces.html  "), ht("spaces.html", None));
    assert_eq!(href_title(r#"url "t" extra"#), None);
}

fn image(s: &str) -> Option<(String, String, Option<String>)> {
    parse_image(&Vec::new(), &c(s))
        .unwrap()
        .map(|(src, alt, title, _)| (st(&src), st(&alt), title.as_deref().map(st)))
}

#[test]
fn parse_image_cases() {
    assert_eq!(image("![alt](/i.png)"), Some(("/i.png".into(), "alt".into(), None)));
    assert_eq!(
        image(r#"![a](/i.png "t")"#),
        Some(("/i.png".into(), "a".into(), Some("t".into())))
    );
    assert_eq!(image("![](u)"), Some(("u".into(), "".into(), None)));
    assert_eq!(image("![a *b* c](u)").map(|x| x.1), Some("a *b* c".into()));
    assert!(image("![a][r]").is_none());
}

fn pairs(s: &str) -> Option<Vec<(String, String)>> {
    parse_ial(&c(s)).map(|v| v.iter().map(|a| (st(&a.key), st(&a.val))).collect())
}

fn p(kv: &[(&str, &str)]) -> Option<Vec<(String, String)>> {
    Some(kv.iter().map(|(k, v)| (k.to_string(), v.to_string())).collect())
}

#[test]
fn parse_ial_cases() {
    assert_eq!(pairs(".note"), p(&[("class", "note")]));
    assert_eq!(pairs(".a.b.c"), p(&[("class", "a b c")]));
    assert_eq!(pairs(".a .b #i"), p(&[("class", "a b"), ("id", "i")]));
    assert_eq!(pairs("#i .c"), p(&[("id", "i"), ("class", "c")]));
    assert_eq!(pairs(r#"title="x" .c #i"#), p(&[("title", "x"), ("class", "c"), ("id", "i")]));
    assert_eq!(pairs(r#"rel="noopener""#), p(&[("rel", "noopener")]));
    assert_eq!(pairs("toc"), None);
    assert_eq!(pairs(""), None);
}

#[test]
fn link_def_and_ref_id() {
    assert_eq!(st(&normalize_ref_id(&c("  A  B  "))), "a b");
    assert_eq!(def("[id]: /url"), owned("id", "/url", None));
    assert_eq!(def(r#"[A B]: /u "t""#), owned("a b", "/u", Some("t")));
    assert_eq!(def("[a]: <http://x.com>"), owned("a", "http://x.com", None));
    assert_eq!(def("  [a]: /u"), owned("a", "/u", None));
    assert_eq!(def("    [a]: /u"), None);
    assert_eq!(def("not a def"), None);
}

fn cells(s: &str) -> Option<Vec<String>> {
    split_table_cells(&c(s)).map(|v| v.iter().map(|x| st(x)).collect())
}

fn cv(v: &[&str]) -> Option<Vec<String>> {
    Some(v.iter().map(|s| s.to_string()).collect())
}

#[test]
fn table_cell_split_cases() {
    assert_eq!(cells("a | b"), cv(&["a", "b"]));
    assert_eq!(cells("| a | b |"), cv(&["a", "b"]));
    assert_eq!(cells("| a |  | c |"), cv(&["a", "", "c"]));
    assert_eq!(cells(r"x | y \| z | w"), cv(&["x", r"y \| z", "w"]));
    assert_eq!(cells("`a|b` | c"), cv(&["`a|b`", "c"]));
    assert_eq!(cells("just prose"), None);
    assert_eq!(cells("`a | b"), None);
}

#[test]
fn table_sep_line_cases() {
    assert!(is_table_sep_line(&c("---|---")));
    assert!(is_table_sep_line(&c("|:--|--:|")));
    assert!(is_table_sep_line(&c(" :-: | -: ")));
    assert!(is_table_sep_line(&c("|-----")));
    assert!(!is_table_sep_line(&c("a | b")));
    assert!(!is_table_sep_line(&c("::|::")));
    assert!(!is_table_sep_line(&c("")));
}

#[test]
fn classification() {
    let v = |s: &str| is_void(&c(s));
    let er = |s: &str| is_escaped_raw(&c(s));
    let rt = |s: &str| is_raw_text(&c(s));
    let dr = |s: &str| is_decline_raw(&c(s));
    let bs = |s: &str| is_block_start(&c(s));
    assert!(v("img") && v("br") && v("hr"));
    assert!(!v("div") && !v("span"));
    assert!(er("code") && !er("div"));
    assert!(rt("script") && rt("style") && !rt("div"));
    assert!(dr("pre") && dr("math") && !dr("table"));
    assert!(!dr("script") && !dr("style"));
    assert!(bs("script") && bs("style"));
    assert!(bs("div") && bs("figure") && bs("p"));
    assert!(bs("table") && bs("td") && bs("tr"));
    assert!(!bs("span") && !bs("a") && !bs("code"));
}

#[test]
fn starts_detection() {
    let s = |x: &str| starts_html_block(&c(x));
    assert!(s("<div class=\"x\">"));
    assert!(s("<figure>"));
    assert!(s("<DIV>"));
    assert!(s("<table>"));
    assert!(!s("<span>x</span>"));
    assert!(!s("<code>x</code>"));
    assert!(s("<!-- c -->"));
    assert!(!s("not a tag"));
    assert!(!s("<"));
    assert!(!s(" <div>"));
}

fn ser(s: &str) -> Option<String> {
    serialize(&c(s)).map(|(h, _)| st(&h))
}

#[test]
fn serialize_cases() {
    assert_eq!(ser("<div>x</div>\n").as_deref(), Some("<div>x</div>"));
    assert_eq!(
        ser("<DIV A=B c hidden>x</DIV>").as_deref(),
        Some("<div a=\"B\" c=\"\" hidden=\"\">x</div>")
    );
    assert_eq!(
        ser("<div>a < b & <br> <b>x</b> &copy;</div>").as_deref(),
        Some("<div>a &lt; b &amp; <br /> <b>x</b> &copy;</div>")
    );
    assert_eq!(
        ser("<div title='a\"b<c&d'>x</div>").as_deref(),
        Some("<div title=\"a&quot;b&lt;c&amp;d\">x</div>")
    );
    assert_eq!(
        ser("<TABLE>\n<TR><TD CLASS=x>**a**<BR></TD></TR>\n</TABLE>\n").as_deref(),
        Some("<table>\n<tr><td class=\"x\">**a**<br /></td></tr>\n</table>")
    );
    assert_eq!(
        ser("<div><code><a href=\"u\">y</a></code></div>").as_deref(),
        Some("<div><code><a href=\"u\">y</a></code></div>")
    );
    assert_eq!(
        ser("<script>if (a < b && c > d) {}</script>").as_deref(),
        Some("<script>if (a < b && c > d) {}</script>\n")
    );
    assert_eq!(
        ser("<style>\n.x { color: red }\n</style>").as_deref(),
        Some("<style>\n.x { color: red }\n</style>\n")
    );
    assert_eq!(
        ser("<script type=\"text/javascript\">var x=1;</script>").as_deref(),
        Some("<script type=\"text/javascript\">var x=1;</script>\n")
    );
}

#[test]
fn serialize_comments() {
    assert_eq!(ser("<!-- c -->").as_deref(), Some("<!-- c -->"));
    assert_eq!(ser("<!--\nmulti\nline\n-->").as_deref(), Some("<!--\nmulti\nline\n-->"));
    assert_eq!(ser("<!---\n## x\n-->").as_deref(), Some("<!---\n## x\n-->"));
    assert_eq!(ser("<!-- unterminated"), None);
    assert_eq!(ser("<!-- c --> trailing"), None);
}

#[test]
fn serialize_declines() {
    assert_eq!(ser("<div markdown=\"1\">x</div>"), None);
    assert_eq!(ser("<div>unclosed"), None);
    assert_eq!(ser("<div>a</div> trailing"), None);
    assert_eq!(ser("<div>a</span>"), None);
    assert_eq!(ser("<script>x"), None);
    assert_eq!(ser("<pre>x</pre>"), None);
}

fn q(prev: Option<char>, single: bool, rest: &str) -> char {
    smart_quote(prev, single, &c(rest)).expect("should classify")
}

#[test]
fn smart_quote_rules() {
    assert_eq!(q(Some('t'), true, "s"), RSQUO);
    assert_eq!(q(Some('o'), true, ""), RSQUO);
    assert_eq!(q(Some('`'), true, "s API"), RSQUO);
    assert_eq!(q(Some('#'), false, "x"), RDQUO);
    assert_eq!(q(Some('§'), false, "Multi"), RDQUO);
    assert_eq!(q(None, true, "foo"), LSQUO);
    assert_eq!(q(None, false, "foo"), LDQUO);
    assert_eq!(q(Some(' '), true, " b"), LSQUO);
    assert_eq!(q(Some(' '), false, "hi"), LDQUO);
    assert_eq!(q(None, true, " foo"), RSQUO);
    assert_eq!(q(None, true, "s "), RSQUO);
    assert_eq!(q(None, true, "80s"), RSQUO);
    assert_eq!(q(Some(' '), true, "90s"), RSQUO);
    assert_eq!(q(None, true, "*em*"), LSQUO);
    assert_eq!(q(None, true, ")."), RSQUO);
}

#[test]
fn nested_quote_pairs_decline() {
    assert!(smart_quote(None, false, &c("'inner")).is_err());
    assert!(smart_quote(None, true, &c("\"inner")).is_err());
}

fn ref_escape(text: &str, attr: bool) -> String {
    let mut s = String::new();
    for ch in text.chars() {
        match ch {
            '&' => s.push_str("&amp;"),
            '<' => s.push_str("&lt;"),
            '>' => s.push_str("&gt;"),
            '"' if attr => s.push_str("&quot;"),
            c => s.push(c),
        }
    }
    s
}

fn run_escape(text: &str) {
    let mut t = Vec::new();
    escape_text(&mut t, &c(text));
    assert_eq!(st(&t), ref_escape(text, false), "escape_text {text:?}");
    let mut a = Vec::new();
    escape_attr(&mut a, &c(text));
    assert_eq!(st(&a), ref_escape(text, true), "escape_attr {text:?}");
}

#[test]
fn escaping_matches_reference() {
    for t in [
        "",
        "no specials here",
        "a & b < c > d",
        "&<>",
        "<lead",
        "trail>",
        "a&&b",
        "quote \" and & < >",
        "café & <naïve>",
        "&amp; already",
        &"x".repeat(100),
    ] {
        run_escape(t);
    }
}

#[test]
fn fence_close_needs_a_long_enough_run() {
    assert!(is_fence_close(&c("```"), '`', 3, true));
    assert!(is_fence_close(&c("   ````  "), '`', 3, true));
    assert!(!is_fence_close(&c("``"), '`', 3, true));
    assert!(!is_fence_close(&c("```x"), '`', 3, true));
    assert!(!is_fence_close(&c("   ```"), '`', 3, false));
}

#[test]
fn document_parse_declines_orphan_ial() {
    assert!(parse_document(&c("{:.x}\n"), Options::jekyll()).is_err());
    assert!(parse_document(&c("text\n{:.x}\n"), Options::jekyll()).is_ok());
}
