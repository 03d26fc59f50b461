//! rostdown — a kramdown-compatible Markdown renderer.
//!
//! Produces byte-identical HTML to Ruby kramdown (GFM input flavor,
//! Jekyll's default options) for an explicitly-bounded subset of the
//! language. Constructs outside the subset return [`Error::Declined`]
//! instead of approximated output — embedders fall back to Ruby kramdown
//! for that document, so rendering is never silently wrong.
use vstd::prelude::*;

pub mod text;
pub mod unicode;
pub mod typography;
pub mod entities;
pub mod escape;
pub mod slug;
pub mod html_block;
pub mod ial;
pub mod ast;
pub mod span_model;
pub mod inline;
pub mod lines;
pub mod block;
pub mod block_model;
pub mod render;
pub mod prepare;
pub mod laws;


use crate::ast::Block;
use crate::block::blocks_wf;
use crate::prepare::{prep_seq, toc_bad, tree_toc, no_ids};
use crate::render::{RenderCx, blocks_html};
use crate::text::word_line;
use crate::block::{doc_lines, prose_chunks, prose_lines};
use crate::prepare::{chunks_html, toc_of, toc_view};

verus! {

/// Rendering options. [`Options::jekyll`] mirrors Jekyll's kramdown
/// defaults (`input: GFM`, `auto_ids`, `entity_output: as_char`,
/// `smart_quotes: lsquo,rsquo,ldquo,rdquo`, `hard_wrap: false`).
#[derive(Debug, Clone, Copy)]
pub struct Options {
    /// GFM input flavor: backtick code fences (kramdown core only has
    /// `~~~`).
    pub gfm: bool,
    /// Generate `id` attributes on headings with kramdown's slug rules.
    pub auto_ids: bool,
}

impl Options {
    /// Jekyll's kramdown defaults.
    pub fn jekyll() -> (r: Self)
        ensures
            r.gfm,
            r.auto_ids,
    {
        Options { gfm: true, auto_ids: true }
    }

    /// kramdown core defaults (the vendored test corpus flavor).
    pub fn kramdown_core() -> (r: Self)
        ensures
            !r.gfm,
            !r.auto_ids,
    {
        Options { gfm: false, auto_ids: false }
    }
}

/// Pluggable code-block highlighter — the seam where a rouge-compatible
/// engine slots in. Return `None` to decline a language; the block then
/// renders as plain `<pre><code class="language-…">`.
pub trait CodeHighlighter {
    /// Which answers the highlighter gives for `lang` and `code` (`None`
    /// for a decline). An implementation that says nothing here may give
    /// any answer; the library's contracts speak of this relation, so
    /// what they state of a highlighted block is the highlighter's answer
    /// to that block's language and text.
    open spec fn answers(&self, lang: Seq<char>, code: Seq<char>, out: Option<Seq<char>>) -> bool {
        true
    }

    /// Produce the highlighter's inner HTML for `code` (kramdown wraps it in
    /// `<div class="language-… highlighter-…">`).
    fn highlight(&mut self, lang: &str, code: &str) -> (r: Option<String>)
        ensures
            old(self).answers(lang@, code@, opt_string(r)),
    ;

    /// The highlighter's name for the wrapper class (rouge → "rouge").
    fn name(&self) -> (r: &str)
        default_ensures
            r@ == "rouge"@,
    {
        "rouge"
    }

    /// `class` attribute for inline code spans; `None` renders a bare
    /// `<code>`.
    fn codespan_class(&self) -> (r: Option<&str>)
        default_ensures
            r is None,
    {
        None
    }

    /// Language used for fenced blocks without an info string; `None` keeps
    /// them on the `<pre><code>` path.
    fn default_lang(&self) -> (r: Option<&str>)
        default_ensures
            r is None,
    {
        None
    }
}

/// The characters of an optional string.
pub open spec fn opt_string(r: Option<String>) -> Option<Seq<char>> {
    match r {
        Some(s) => Some(s@),
        None => None,
    }
}

/// No highlighting: every block renders as plain `<pre><code>`.
pub struct NoHighlight;

impl CodeHighlighter for NoHighlight {
    fn highlight(&mut self, lang: &str, code: &str) -> (r: Option<String>)
        ensures
            r is None,
    {
        None
    }
}

/// Why rostdown refused to render a document.
#[derive(Debug)]
pub enum Error {
    /// The input uses a construct outside the implemented subset; the
    /// payload names it (for diagnostics / coverage dashboards).
    Declined(&'static str),
}


/// The empty document and a single line of words are prose, with no
/// lines and one paragraph respectively.
proof fn lemma_prose_cases(src: Seq<char>)
    ensures
        src.len() == 0 ==> prose_lines(doc_lines(src)) && chunks_html(
            prose_chunks(doc_lines(src), 0),
        ).len() == 0,
        word_line(src) ==> prose_lines(doc_lines(src)) && chunks_html(
            prose_chunks(doc_lines(src), 0),
        ) == "<p>"@ + src + "</p>\n"@,
{
    if src.len() == 0 {
        assert(lines::split_spec(src) =~= seq![Seq::<char>::empty()]);
        assert(doc_lines(src) =~= Seq::<Seq<char>>::empty());
    }
    if word_line(src) {
        assert forall|k: int| 0 <= k < src.len() implies #[trigger] src[k] != '\n' by {
            assert(crate::text::word_char(src[k]));
        }
        lines::lemma_split_one_line(src);
        let dl = doc_lines(src);
        assert(dl =~= seq![src]);
        assert(block::word_run_end(dl, 1) == 1);
        assert(block::word_run_end(dl, 0) == 1);
        assert(dl.subrange(0, 1) =~= seq![src]);
        let c = prose_chunks(dl, 0);
        assert(prose_chunks(dl, 1) =~= Seq::<Option<Seq<char>>>::empty());
        assert(c =~= seq![Some(src)]);
        assert(c.drop_last() =~= Seq::<Option<Seq<char>>>::empty());
        assert(chunks_html(c.drop_last()) =~= Seq::<char>::empty());
        assert(c.last() == Some(src));
        assert(chunks_html(c) == chunks_html(c.drop_last()) + ("<p>"@ + src + "</p>\n"@));
        assert(chunks_html(c) =~= "<p>"@ + src + "</p>\n"@);
    }
}

/// Render `src` to kramdown-compatible HTML, or decline when it uses a
/// construct outside the supported subset.
///
/// The whole document is parsed first (the block relation of
/// `block_model`); a decline there is the answer. Otherwise a table of
/// contents that rules out one of its headings declines, and else the
/// answer is the rendering of the parsed tree, prepared (heading ids,
/// highlighting) without changing its shape.
pub fn to_html(src: &str, opts: &Options, highlighter: &mut dyn CodeHighlighter) -> (r: Result<
    String,
    Error,
>)
    ensures
        exists|pr: Result<Seq<Block>, Error>|
            #[trigger] block_model::document_rel(src@, *opts, pr) && match pr {
                Err(e) => r == Err::<String, Error>(e),
                Ok(bs) => blocks_wf(bs) && if tree_toc(bs) && toc_bad(bs, *opts) {
                    r is Err
                } else {
                    r matches Ok(s) && exists|ps: Seq<Block>, cx: RenderCx, d: Option<Vec<char>>|
                        #![trigger prep_seq(bs, ps, *opts, d, no_ids(), prepare::hl_answers::<dyn CodeHighlighter>()), blocks_html(ps, 0, cx)]
                        prep_seq(bs, ps, *opts, d, no_ids(), prepare::hl_answers::<dyn CodeHighlighter>()) && toc_view(cx.toc@) == toc_of(
                            ps,
                            render::opt_vec(cx.cls),
                        ) && blocks_html(ps, 0, cx) == s@
                },
            },
        prose_lines(doc_lines(src@)) ==> (r matches Ok(s) && s@ == chunks_html(
            prose_chunks(doc_lines(src@), 0),
        )),
        src@.len() == 0 ==> (r matches Ok(s) && s@.len() == 0),
        word_line(src@) ==> (r matches Ok(s) && s@ == "<p>"@ + src@ + "</p>\n"@),
{
    let chars = text::chars_of(src);
    proof {
        lemma_prose_cases(src@);
    }
    let pd = block::parse_document(chars.as_slice(), *opts);
    let ghost pr = block_model::res_seq(pd);
    proof {
        assert(block_model::document_rel(src@, *opts, pr));
    }
    let blocks = match pd {
        Ok(b) => b,
        Err(e) => {
            return Err(e);
        },
    };
    let ghost parsed = blocks@;
    proof {
        if prose_lines(doc_lines(src@)) {
            let cx0 = vstd::pervasive::arbitrary::<RenderCx>();
            prepare::lemma_prose_rendered(parsed, parsed, *opts, None, cx0, no_ids(), prepare::hl_answers::<dyn CodeHighlighter>());
        }
    }
    match prepare::render_document(blocks, *opts, highlighter) {
        Ok(html) => {
            let s = render::collect_string(html.as_slice());
            proof {
                let (ps, cx, d) = choose|ps: Seq<Block>, cx: RenderCx, d: Option<Vec<char>>|
                    #![trigger prep_seq(parsed, ps, *opts, d, no_ids(), prepare::hl_answers::<dyn CodeHighlighter>()), blocks_html(ps, 0, cx)]
                    prep_seq(parsed, ps, *opts, d, no_ids(), prepare::hl_answers::<dyn CodeHighlighter>()) && toc_view(cx.toc@) == toc_of(
                        ps,
                        render::opt_vec(cx.cls),
                    ) && blocks_html(ps, 0, cx) == html@;
                assert(blocks_wf(parsed) && prep_seq(parsed, ps, *opts, d, no_ids(), prepare::hl_answers::<dyn CodeHighlighter>()) && toc_view(cx.toc@)
                    == toc_of(ps, render::opt_vec(cx.cls)) && blocks_html(ps, 0, cx) == s@);
                if prose_lines(doc_lines(src@)) {
                    prepare::lemma_prose_rendered(parsed, ps, *opts, d, cx, no_ids(), prepare::hl_answers::<dyn CodeHighlighter>());
                }
            }
            Ok(s)
        },
        Err(e) => Err(e),
    }
}

} // verus!
