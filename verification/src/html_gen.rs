//! The page pipeline: render Markdown to an HTML fragment, wrap its
//! heading sections in nested `<div>` containers, and embed the result in
//! a complete HTML document with an inline stylesheet.
use crate::rewrite::{evs_view, rewrite, spec_wrap, Ev};
use crate::scan::{
    scan_headings, scan_spec, slug_of, with_slugs, MalformedInputError, RawEv, ScanState,
};
use crate::text::append_range;
use vstd::prelude::*;

verus! {

/// The HTML fragment that `comrak::markdown_to_html` renders from the
/// given Markdown bytes, under this library's fixed set of options; the
/// result depends on the Markdown text alone.
pub uninterp spec fn rendered_of(md: Seq<u8>) -> Seq<u8>;

/// Relies on comrak::markdown_to_html: renders GitHub-flavoured Markdown
/// to an HTML fragment, deterministically in the input and the (fixed)
/// options.
#[verifier::external_body]
fn render_markdown(md: &Vec<u8>) -> (r: Vec<u8>)
    ensures
        r@ == rendered_of(md@),
{
    let mut options = comrak::Options::default();
    options.extension.table = true;
    options.extension.strikethrough = true;
    options.extension.tasklist = true;
    options.extension.superscript = true;
    options.extension.footnotes = true;
    options.extension.description_lists = true;
    options.render.unsafe_ = true;
    options.render.hardbreaks = false;
    options.render.github_pre_lang = true;
    comrak::markdown_to_html(&String::from_utf8_lossy(md), &options).into_bytes()
}

/// Wraps each heading section of an HTML fragment in a `<div>` whose class
/// is the slug of the heading's text, nested by heading level. Returns the
/// rewritten fragment exactly as the scan and rewrite specifications
/// describe it, and an error if and only if the scan rejects the input.
pub fn add_section_wrappers_to_html(html: &Vec<u8>) -> (r: Result<Vec<u8>, MalformedInputError>)
    ensures
        scan_spec(html@) matches Some(raw) ==> r matches Ok(out) && out@ == spec_wrap(
            html@,
            with_slugs(raw),
        ),
        scan_spec(html@) is None ==> r is Err,
{
    match scan_headings(html) {
        Ok(events) => {
            proof {
                crate::scan::lemma_scan_bounds(html@, 0, ScanState::Outside);
                match scan_spec(html@) {
                    Some(raw) => {
                        let evs = with_slugs(raw);
                        assert(evs.len() == raw.len());
                        assert forall|k: int|
                            0 <= k < evs.len() implies 0 <= #[trigger] evs[k].off
                            <= html@.len() by {
                            assert(evs[k] == Ev {
                                off: raw[k].off,
                                level: raw[k].level,
                                slug: slug_of(raw[k].text),
                            });
                            assert(0 <= raw[k].off < html@.len());
                        }
                        assert forall|k: int|
                            0 <= k && k + 1 < evs.len() implies #[trigger] evs[k].off <= evs[k
                            + 1].off by {
                            assert(evs[k] == Ev {
                                off: raw[k].off,
                                level: raw[k].level,
                                slug: slug_of(raw[k].text),
                            });
                            assert(evs[k + 1] == Ev {
                                off: raw[k + 1].off,
                                level: raw[k + 1].level,
                                slug: slug_of(raw[k + 1].text),
                            });
                            assert(raw[k].off < raw[k + 1].off);
                        }
                        assert(crate::rewrite::evs_ok(html@.len() as int, evs_view(events@)));
                    },
                    None => {},
                }
            }
            Ok(rewrite(html, &events))
        },
        Err(e) => Err(e),
    }
}

/// An input in which the scan finds no heading at all passes through the
/// whole wrap unchanged: the rewritten fragment is the input itself.
pub proof fn lemma_wrap_identity_without_headings(html: Seq<u8>)
    requires
        scan_spec(html) == Some(Seq::<RawEv>::empty()),
    ensures
        spec_wrap(html, with_slugs(Seq::<RawEv>::empty())) == html,
{
    assert(with_slugs(Seq::<RawEv>::empty()) =~= Seq::<Ev>::empty());
    crate::rewrite::lemma_wrap_no_headings(html);
}

/// The document prologue up to and including `<style>`.
pub open spec fn doc_head() -> Seq<u8> {
    seq![
        60u8, 33u8, 68u8, 79u8, 67u8, 84u8, 89u8, 80u8, 69u8, 32u8, 104u8, 116u8, 109u8, 108u8,
        62u8, 10u8, 60u8, 104u8, 116u8, 109u8, 108u8, 62u8, 10u8, 60u8, 104u8, 101u8, 97u8, 100u8,
        62u8, 10u8, 32u8, 32u8, 32u8, 32u8, 60u8, 109u8, 101u8, 116u8, 97u8, 32u8, 99u8, 104u8,
        97u8, 114u8, 115u8, 101u8, 116u8, 61u8, 34u8, 85u8, 84u8, 70u8, 45u8, 56u8, 34u8, 62u8,
        10u8, 32u8, 32u8, 32u8, 32u8, 60u8, 115u8, 116u8, 121u8, 108u8, 101u8, 62u8,
    ]
}

/// From `</style>` up to and including the newline after `<body>`.
pub open spec fn doc_mid() -> Seq<u8> {
    seq![
        60u8, 47u8, 115u8, 116u8, 121u8, 108u8, 101u8, 62u8, 10u8, 60u8, 47u8, 104u8, 101u8, 97u8,
        100u8, 62u8, 10u8, 60u8, 98u8, 111u8, 100u8, 121u8, 62u8, 10u8,
    ]
}

/// The document epilogue after the body.
pub open spec fn doc_tail() -> Seq<u8> {
    seq![
        10u8, 60u8, 47u8, 98u8, 111u8, 100u8, 121u8, 62u8, 10u8, 60u8, 47u8, 104u8, 116u8, 109u8,
        108u8, 62u8,
    ]
}

/// A complete HTML document with `css` inlined in the head and `body` as
/// the page content.
pub open spec fn doc_of(css: Seq<u8>, body: Seq<u8>) -> Seq<u8> {
    doc_head() + css + doc_mid() + body + doc_tail()
}

#[verifier::rlimit(100)]
fn push_doc_head(out: &mut Vec<u8>)
    ensures
        final(out)@ == old(out)@ + doc_head(),
{
    out.push(60u8);
    out.push(33u8);
    out.push(68u8);
    out.push(79u8);
    out.push(67u8);
    out.push(84u8);
    out.push(89u8);
    out.push(80u8);
    out.push(69u8);
    out.push(32u8);
    out.push(104u8);
    out.push(116u8);
    out.push(109u8);
    out.push(108u8);
    out.push(62u8);
    out.push(10u8);
    out.push(60u8);
    out.push(104u8);
    out.push(116u8);
    out.push(109u8);
    out.push(108u8);
    out.push(62u8);
    out.push(10u8);
    out.push(60u8);
    out.push(104u8);
    out.push(101u8);
    out.push(97u8);
    out.push(100u8);
    out.push(62u8);
    out.push(10u8);
    out.push(32u8);
    out.push(32u8);
    out.push(32u8);
    out.push(32u8);
    out.push(60u8);
    out.push(109u8);
    out.push(101u8);
    out.push(116u8);
    out.push(97u8);
    out.push(32u8);
    out.push(99u8);
    out.push(104u8);
    out.push(97u8);
    out.push(114u8);
    out.push(115u8);
    out.push(101u8);
    out.push(116u8);
    out.push(61u8);
    out.push(34u8);
    out.push(85u8);
    out.push(84u8);
    out.push(70u8);
    out.push(45u8);
    out.push(56u8);
    out.push(34u8);
    out.push(62u8);
    out.push(10u8);
    out.push(32u8);
    out.push(32u8);
    out.push(32u8);
    out.push(32u8);
    out.push(60u8);
    out.push(115u8);
    out.push(116u8);
    out.push(121u8);
    out.push(108u8);
    out.push(101u8);
    out.push(62u8);
    proof {
        assert(out@ =~= old(out)@ + doc_head());
    }
}

fn push_doc_mid(out: &mut Vec<u8>)
    ensures
        final(out)@ == old(out)@ + doc_mid(),
{
    out.push(60u8);
    out.push(47u8);
    out.push(115u8);
    out.push(116u8);
    out.push(121u8);
    out.push(108u8);
    out.push(101u8);
    out.push(62u8);
    out.push(10u8);
    out.push(60u8);
    out.push(47u8);
    out.push(104u8);
    out.push(101u8);
    out.push(97u8);
    out.push(100u8);
    out.push(62u8);
    out.push(10u8);
    out.push(60u8);
    out.push(98u8);
    out.push(111u8);
    out.push(100u8);
    out.push(121u8);
    out.push(62u8);
    out.push(10u8);
    proof {
        assert(out@ =~= old(out)@ + doc_mid());
    }
}

fn push_doc_tail(out: &mut Vec<u8>)
    ensures
        final(out)@ == old(out)@ + doc_tail(),
{
    out.push(10u8);
    out.push(60u8);
    out.push(47u8);
    out.push(98u8);
    out.push(111u8);
    out.push(100u8);
    out.push(121u8);
    out.push(62u8);
    out.push(10u8);
    out.push(60u8);
    out.push(47u8);
    out.push(104u8);
    out.push(116u8);
    out.push(109u8);
    out.push(108u8);
    out.push(62u8);
    proof {
        assert(out@ =~= old(out)@ + doc_tail());
    }
}

/// Renders one page: Markdown in, a complete HTML document out, with the
/// rendered fragment's heading sections wrapped and `css` inlined. Fails
/// if and only if the scan rejects the rendered fragment.
pub fn generate_html(markdown: &Vec<u8>, css: &Vec<u8>) -> (r: Result<Vec<u8>, MalformedInputError>)
    ensures
        scan_spec(rendered_of(markdown@)) matches Some(raw) ==> r matches Ok(doc) && doc@
            == doc_of(css@, spec_wrap(rendered_of(markdown@), with_slugs(raw))),
        scan_spec(rendered_of(markdown@)) is None ==> r is Err,
{
    let rendered = render_markdown(markdown);
    match add_section_wrappers_to_html(&rendered) {
        Ok(body) => {
            let mut out: Vec<u8> = Vec::new();
            push_doc_head(&mut out);
            append_range(&mut out, css, 0, css.len());
            push_doc_mid(&mut out);
            append_range(&mut out, &body, 0, body.len());
            push_doc_tail(&mut out);
            proof {
                assert(css@.subrange(0, css@.len() as int) =~= css@);
                assert(body@.subrange(0, body@.len() as int) =~= body@);
                assert(out@ =~= doc_of(css@, body@));
            }
            Ok(out)
        },
        Err(e) => Err(e),
    }
}

} // verus!
