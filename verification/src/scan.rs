//! Phase one of the section wrapper: scan an HTML fragment for heading
//! elements `h1`..`h6` and collect one event per heading, in document
//! order: the byte offset immediately before the opening tag, the heading
//! level, and the slug of the text content between the tags (markup inside
//! the heading is skipped, entities are taken as written).
//!
//! The grammar is the one a Markdown renderer produces: well-formed,
//! non-nested heading elements, with tag names in either case and with
//! quoted attribute values honored inside tags. The scan is specified as
//! a byte-level state machine; an input on which it gets stuck inside a
//! heading (an unterminated tag, a nested heading, a heading still open
//! at the end) is malformed and rejected as a whole.
use crate::rewrite::Ev;
use vstd::prelude::*;

verus! {

/// The input could not be processed as an HTML fragment with well-formed
/// heading elements.
#[derive(Clone, Copy, Debug, PartialEq, Eq, Structural)]
pub struct MalformedInputError;

/// Mathematical model of one scanned heading: offset, level, raw text.
pub struct RawEv {
    pub off: int,
    pub level: u8,
    pub text: Seq<u8>,
}

/// The slug that `slug::slugify` derives from the given UTF-8 bytes: a
/// deterministic, URL-safe, lowercase ASCII transliteration.
pub uninterp spec fn slug_of(text: Seq<u8>) -> Seq<u8>;

/// Relies on slug::slugify: converts any unicode string to an ascii slug
/// of `a-z`, `0-9` and `-`; the result depends on the text alone.
#[verifier::external_body]
fn slugify_bytes(text: &Vec<u8>) -> (r: Vec<u8>)
    ensures
        r@ == slug_of(text@),
{
    slug::slugify(String::from_utf8_lossy(text)).into_bytes()
}

/// A byte that may end the tag name of an opening heading tag.
pub open spec fn is_name_end(b: u8) -> bool {
    b == 62 || b == 32 || b == 9 || b == 10 || b == 13 || b == 47
}

/// A byte that may end the tag name of a closing heading tag.
pub open spec fn is_close_end(b: u8) -> bool {
    b == 62 || b == 32 || b == 9 || b == 10 || b == 13
}

/// An opening heading tag `<h1`..`<h6` (either letter case) starts at `i`.
pub open spec fn is_open_at(html: Seq<u8>, i: int) -> bool {
    &&& 0 <= i
    &&& i + 3 < html.len()
    &&& html[i] == 60
    &&& (html[i + 1] == 104 || html[i + 1] == 72)
    &&& 49 <= html[i + 2] <= 54
    &&& is_name_end(html[i + 3])
}

/// The level of the heading tag starting at `i`.
pub open spec fn level_at(html: Seq<u8>, i: int) -> u8 {
    (html[i + 2] - 48) as u8
}

/// The matching closing tag `</hN` (either letter case) starts at `i`.
pub open spec fn is_close_at(html: Seq<u8>, i: int, level: u8) -> bool {
    &&& 0 <= i
    &&& i + 4 < html.len()
    &&& html[i] == 60
    &&& html[i + 1] == 47
    &&& (html[i + 2] == 104 || html[i + 2] == 72)
    &&& html[i + 3] == 48 + level
    &&& is_close_end(html[i + 4])
}

/// Where the scanner stands: outside any heading, inside an opening
/// heading tag, in heading content, in a tag nested in the heading, or in
/// the heading's closing tag. Inside an opening or nested tag, `quote`
/// holds the delimiter of a quoted attribute value being skipped, so that
/// a `>` inside it does not end the tag.
pub enum ScanState {
    Outside,
    OpenTag { off: int, level: u8, quote: Option<u8> },
    InHeading { off: int, level: u8, text: Seq<u8> },
    InnerTag { off: int, level: u8, text: Seq<u8>, quote: Option<u8> },
    CloseTag { off: int, level: u8, text: Seq<u8> },
}

/// The heading events of `html` from position `i` on, in state `st`;
/// `None` when the input is malformed (the scan ends inside a heading, or
/// a heading element is nested in another).
pub open spec fn scan_from(html: Seq<u8>, i: int, st: ScanState) -> Option<Seq<RawEv>>
    decreases html.len() - i,
{
    if i < 0 || i >= html.len() {
        match st {
            ScanState::Outside => Some(Seq::<RawEv>::empty()),
            _ => None,
        }
    } else {
        let b = html[i];
        match st {
            ScanState::Outside => {
                if is_open_at(html, i) {
                    scan_from(
                        html,
                        i + 1,
                        ScanState::OpenTag { off: i, level: level_at(html, i), quote: None },
                    )
                } else {
                    scan_from(html, i + 1, ScanState::Outside)
                }
            },
            ScanState::OpenTag { off, level, quote } => {
                match quote {
                    Some(c) => {
                        if b == c {
                            scan_from(html, i + 1, ScanState::OpenTag { off, level, quote: None })
                        } else {
                            scan_from(
                                html,
                                i + 1,
                                ScanState::OpenTag { off, level, quote: Some(c) },
                            )
                        }
                    },
                    None => {
                        if b == 62 {
                            scan_from(
                                html,
                                i + 1,
                                ScanState::InHeading { off, level, text: Seq::<u8>::empty() },
                            )
                        } else if b == 34 || b == 39 {
                            scan_from(
                                html,
                                i + 1,
                                ScanState::OpenTag { off, level, quote: Some(b) },
                            )
                        } else {
                            scan_from(html, i + 1, ScanState::OpenTag { off, level, quote: None })
                        }
                    },
                }
            },
            ScanState::InHeading { off, level, text } => {
                if is_close_at(html, i, level) {
                    scan_from(html, i + 1, ScanState::CloseTag { off, level, text })
                } else if is_open_at(html, i) {
                    None
                } else if b == 60 {
                    scan_from(html, i + 1, ScanState::InnerTag { off, level, text, quote: None })
                } else {
                    scan_from(html, i + 1, ScanState::InHeading { off, level, text: text.push(b) })
                }
            },
            ScanState::InnerTag { off, level, text, quote } => {
                match quote {
                    Some(c) => {
                        if b == c {
                            scan_from(
                                html,
                                i + 1,
                                ScanState::InnerTag { off, level, text, quote: None },
                            )
                        } else {
                            scan_from(
                                html,
                                i + 1,
                                ScanState::InnerTag { off, level, text, quote: Some(c) },
                            )
                        }
                    },
                    None => {
                        if b == 62 {
                            scan_from(html, i + 1, ScanState::InHeading { off, level, text })
                        } else if b == 34 || b == 39 {
                            scan_from(
                                html,
                                i + 1,
                                ScanState::InnerTag { off, level, text, quote: Some(b) },
                            )
                        } else {
                            scan_from(
                                html,
                                i + 1,
                                ScanState::InnerTag { off, level, text, quote: None },
                            )
                        }
                    },
                }
            },
            ScanState::CloseTag { off, level, text } => {
                if b == 62 {
                    match scan_from(html, i + 1, ScanState::Outside) {
                        None => None,
                        Some(rest) => Some(seq![RawEv { off, level, text }] + rest),
                    }
                } else {
                    scan_from(html, i + 1, ScanState::CloseTag { off, level, text })
                }
            },
        }
    }
}

/// The heading events of a whole fragment.
pub open spec fn scan_spec(html: Seq<u8>) -> Option<Seq<RawEv>> {
    scan_from(html, 0, ScanState::Outside)
}

/// The scanned events with each text replaced by its slug, as the rewrite
/// phase consumes them.
pub open spec fn with_slugs(raws: Seq<RawEv>) -> Seq<Ev> {
    raws.map_values(|e: RawEv| Ev { off: e.off, level: e.level, slug: slug_of(e.text) })
}

/// The least offset an event produced from state `st` at position `i` can
/// have.
pub open spec fn state_off_lb(st: ScanState, i: int) -> int {
    match st {
        ScanState::Outside => i,
        ScanState::OpenTag { off, level, quote } => off,
        ScanState::InHeading { off, level, text } => off,
        ScanState::InnerTag { off, level, text, quote } => off,
        ScanState::CloseTag { off, level, text } => off,
    }
}

/// A successful scan yields events with offsets inside the input and
/// strictly increasing in document order.
pub proof fn lemma_scan_bounds(html: Seq<u8>, i: int, st: ScanState)
    requires
        0 <= i,
        0 <= state_off_lb(st, i) <= i,
    ensures
        scan_from(html, i, st) matches Some(evs) ==> {
            &&& forall|k: int| 0 <= k < evs.len() ==> 0 <= #[trigger] evs[k].off < html.len()
            &&& forall|k: int|
                0 <= k && k + 1 < evs.len() ==> #[trigger] evs[k].off < evs[k + 1].off
            &&& forall|k: int| 0 <= k < evs.len() ==> #[trigger] evs[k].off >= state_off_lb(st, i)
        },
    decreases html.len() - i,
{
    if i >= html.len() {
    } else {
        let b = html[i];
        match st {
            ScanState::Outside => {
                if is_open_at(html, i) {
                    lemma_scan_bounds(
                        html,
                        i + 1,
                        ScanState::OpenTag { off: i, level: level_at(html, i), quote: None },
                    );
                } else {
                    lemma_scan_bounds(html, i + 1, ScanState::Outside);
                }
            },
            ScanState::OpenTag { off, level, quote } => {
                match quote {
                    Some(c) => {
                        if b == c {
                            lemma_scan_bounds(
                                html,
                                i + 1,
                                ScanState::OpenTag { off, level, quote: None },
                            );
                        } else {
                            lemma_scan_bounds(
                                html,
                                i + 1,
                                ScanState::OpenTag { off, level, quote: Some(c) },
                            );
                        }
                    },
                    None => {
                        if b == 62 {
                            lemma_scan_bounds(
                                html,
                                i + 1,
                                ScanState::InHeading { off, level, text: Seq::<u8>::empty() },
                            );
                        } else if b == 34 || b == 39 {
                            lemma_scan_bounds(
                                html,
                                i + 1,
                                ScanState::OpenTag { off, level, quote: Some(b) },
                            );
                        } else {
                            lemma_scan_bounds(
                                html,
                                i + 1,
                                ScanState::OpenTag { off, level, quote: None },
                            );
                        }
                    },
                }
            },
            ScanState::InHeading { off, level, text } => {
                if is_close_at(html, i, level) {
                    lemma_scan_bounds(html, i + 1, ScanState::CloseTag { off, level, text });
                } else if is_open_at(html, i) {
                } else if b == 60 {
                    lemma_scan_bounds(
                        html,
                        i + 1,
                        ScanState::InnerTag { off, level, text, quote: None },
                    );
                } else {
                    lemma_scan_bounds(
                        html,
                        i + 1,
                        ScanState::InHeading { off, level, text: text.push(b) },
                    );
                }
            },
            ScanState::InnerTag { off, level, text, quote } => {
                match quote {
                    Some(c) => {
                        if b == c {
                            lemma_scan_bounds(
                                html,
                                i + 1,
                                ScanState::InnerTag { off, level, text, quote: None },
                            );
                        } else {
                            lemma_scan_bounds(
                                html,
                                i + 1,
                                ScanState::InnerTag { off, level, text, quote: Some(c) },
                            );
                        }
                    },
                    None => {
                        if b == 62 {
                            lemma_scan_bounds(
                                html,
                                i + 1,
                                ScanState::InHeading { off, level, text },
                            );
                        } else if b == 34 || b == 39 {
                            lemma_scan_bounds(
                                html,
                                i + 1,
                                ScanState::InnerTag { off, level, text, quote: Some(b) },
                            );
                        } else {
                            lemma_scan_bounds(
                                html,
                                i + 1,
                                ScanState::InnerTag { off, level, text, quote: None },
                            );
                        }
                    },
                }
            },
            ScanState::CloseTag { off, level, text } => {
                if b == 62 {
                    lemma_scan_bounds(html, i + 1, ScanState::Outside);
                    match scan_from(html, i + 1, ScanState::Outside) {
                        Some(rest) => {
                            let ev = RawEv { off, level, text };
                            let evs = seq![ev] + rest;
                            assert forall|k: int| 0 <= k < evs.len() implies 0 <= #[trigger] evs[k].off
                                < html.len() && evs[k].off >= state_off_lb(st, i) by {
                                if k > 0 {
                                    assert(evs[k] == rest[k - 1]);
                                }
                            }
                            assert forall|k: int| 0 <= k && k + 1 < evs.len() implies #[trigger] evs[k].off
                                < evs[k + 1].off by {
                                if k > 0 {
                                    assert(evs[k] == rest[k - 1]);
                                }
                                assert(evs[k + 1] == rest[k]);
                            }
                        },
                        None => {},
                    }
                } else {
                    lemma_scan_bounds(html, i + 1, ScanState::CloseTag { off, level, text });
                }
            },
        }
    }
}

fn is_name_end_exec(b: u8) -> (r: bool)
    ensures
        r == is_name_end(b),
{
    b == 62 || b == 32 || b == 9 || b == 10 || b == 13 || b == 47
}

fn is_close_end_exec(b: u8) -> (r: bool)
    ensures
        r == is_close_end(b),
{
    b == 62 || b == 32 || b == 9 || b == 10 || b == 13
}

fn is_open_at_exec(html: &Vec<u8>, i: usize) -> (r: bool)
    requires
        i < html@.len(),
    ensures
        r == is_open_at(html@, i as int),
{
    if html.len() - i > 3 {
        html[i] == 60 && (html[i + 1] == 104 || html[i + 1] == 72) && 49 <= html[i + 2] && html[i
            + 2] <= 54 && is_name_end_exec(html[i + 3])
    } else {
        false
    }
}

fn is_close_at_exec(html: &Vec<u8>, i: usize, level: u8) -> (r: bool)
    requires
        i < html@.len(),
        level <= 6,
    ensures
        r == is_close_at(html@, i as int, level),
{
    if html.len() - i > 4 {
        html[i] == 60 && html[i + 1] == 47 && (html[i + 2] == 104 || html[i + 2] == 72) && html[i
            + 3] == 48 + level && is_close_end_exec(html[i + 4])
    } else {
        false
    }
}

/// Which part of a heading the executable scanner is in.
enum Mode {
    Outside,
    OpenTag,
    InHeading,
    InnerTag,
    CloseTag,
}

/// The scanner state that the executable variables stand for; a `quote`
/// of zero stands for "not inside a quoted attribute value".
spec fn cur_state(mode: Mode, off: usize, level: u8, text: Seq<u8>, quote: u8) -> ScanState {
    match mode {
        Mode::Outside => ScanState::Outside,
        Mode::OpenTag => ScanState::OpenTag {
            off: off as int,
            level,
            quote: if quote == 0 {
                None
            } else {
                Some(quote)
            },
        },
        Mode::InHeading => ScanState::InHeading { off: off as int, level, text },
        Mode::InnerTag => ScanState::InnerTag {
            off: off as int,
            level,
            text,
            quote: if quote == 0 {
                None
            } else {
                Some(quote)
            },
        },
        Mode::CloseTag => ScanState::CloseTag { off: off as int, level, text },
    }
}

/// Scans `html` and returns its heading events, each with the slug of its
/// text, exactly as the scan specification lists them; fails if and only
/// if the specification rejects the input as malformed.
pub fn scan_headings(html: &Vec<u8>) -> (r: Result<Vec<crate::rewrite::HeadingEvent>, MalformedInputError>)
    ensures
        r matches Ok(evs) ==> scan_spec(html@) matches Some(raw) && crate::rewrite::evs_view(
            evs@,
        ) == with_slugs(raw),
        r is Err ==> scan_spec(html@) is None,
{
    let mut events: Vec<crate::rewrite::HeadingEvent> = Vec::new();
    let ghost mut raws: Seq<RawEv> = Seq::<RawEv>::empty();
    let mut mode = Mode::Outside;
    let mut off: usize = 0;
    let mut level: u8 = 0;
    let mut text: Vec<u8> = Vec::new();
    let mut quote: u8 = 0;
    let mut i: usize = 0;
    while i < html.len()
        invariant
            i <= html@.len(),
            (match mode {
                Mode::Outside => true,
                _ => 1 <= level <= 6,
            }),
            quote == 0 || quote == 34 || quote == 39,
            scan_spec(html@) == (match scan_from(
                html@,
                i as int,
                cur_state(mode, off, level, text@, quote),
            ) {
                None => None::<Seq<RawEv>>,
                Some(rest) => Some(raws + rest),
            }),
            crate::rewrite::evs_view(events@) == with_slugs(raws),
        decreases html@.len() - i,
    {
        let ghost i0 = i as int;
        let ghost st0 = cur_state(mode, off, level, text@, quote);
        let b = html[i];
        match mode {
            Mode::Outside => {
                if is_open_at_exec(html, i) {
                    level = html[i + 2] - 48;
                    off = i;
                    quote = 0;
                    mode = Mode::OpenTag;
                }
            },
            Mode::OpenTag => {
                if quote != 0 {
                    if b == quote {
                        quote = 0;
                    }
                } else if b == 62 {
                    text.clear();
                    mode = Mode::InHeading;
                } else if b == 34 || b == 39 {
                    quote = b;
                }
            },
            Mode::InHeading => {
                if is_close_at_exec(html, i, level) {
                    mode = Mode::CloseTag;
                } else if is_open_at_exec(html, i) {
                    proof {
                        assert(scan_from(html@, i0, st0) is None);
                    }
                    return Err(MalformedInputError);
                } else if b == 60 {
                    quote = 0;
                    mode = Mode::InnerTag;
                } else {
                    text.push(b);
                }
            },
            Mode::InnerTag => {
                if quote != 0 {
                    if b == quote {
                        quote = 0;
                    }
                } else if b == 62 {
                    mode = Mode::InHeading;
                } else if b == 34 || b == 39 {
                    quote = b;
                }
            },
            Mode::CloseTag => {
                if b == 62 {
                    let slug = slugify_bytes(&text);
                    let ghost ev = RawEv { off: off as int, level, text: text@ };
                    let ghost hev = Ev { off: off as int, level, slug: slug@ };
                    let ghost events0 = events@;
                    let ghost raws0 = raws;
                    events.push(crate::rewrite::HeadingEvent { offset: off, level, slug });
                    proof {
                        raws = raws0.push(ev);
                        assert(crate::rewrite::evs_view(events0).len() == events0.len());
                        assert(with_slugs(raws0).len() == raws0.len());
                        assert(events0.len() == raws0.len());
                        assert(crate::rewrite::evs_view(events@).len() == events@.len());
                        assert(with_slugs(raws).len() == raws.len());
                        assert forall|k: int|
                            0 <= k < events@.len() implies crate::rewrite::evs_view(events@)[k]
                            == with_slugs(raws)[k] by {
                            assert(crate::rewrite::evs_view(events@)[k] == events@[k]@);
                            assert(with_slugs(raws)[k] == Ev {
                                off: raws[k].off,
                                level: raws[k].level,
                                slug: slug_of(raws[k].text),
                            });
                            if k < events0.len() {
                                assert(events@[k] == events0[k]);
                                assert(raws[k] == raws0[k]);
                                assert(crate::rewrite::evs_view(events0)[k] == events0[k]@);
                                assert(with_slugs(raws0)[k] == Ev {
                                    off: raws0[k].off,
                                    level: raws0[k].level,
                                    slug: slug_of(raws0[k].text),
                                });
                            } else {
                                assert(events@[k]@ == hev);
                                assert(raws[k] == ev);
                            }
                        }
                        assert(crate::rewrite::evs_view(events@) =~= with_slugs(raws));
                    }
                    mode = Mode::Outside;
                }
            },
        }
        i = i + 1;
        proof {
            let st1 = cur_state(mode, off, level, text@, quote);
            match st0 {
                ScanState::CloseTag { off: o, level: l, text: t } => {
                    if html@[i0] == 62 {
                        let ev = RawEv { off: o, level: l, text: t };
                        assert(scan_from(html@, i0, st0) == (match scan_from(html@, i0 + 1, st1) {
                            None => None::<Seq<RawEv>>,
                            Some(rest) => Some(seq![ev] + rest),
                        }));
                        match scan_from(html@, i0 + 1, st1) {
                            Some(rest) => {
                                assert(raws.drop_last() + (seq![ev] + rest) =~= raws + rest);
                            },
                            None => {},
                        }
                    } else {
                        assert(scan_from(html@, i0, st0) == scan_from(html@, i0 + 1, st1));
                    }
                },
                _ => {
                    assert(scan_from(html@, i0, st0) == scan_from(html@, i0 + 1, st1));
                },
            }
        }
    }
    match mode {
        Mode::Outside => {
            proof {
                assert(scan_from(html@, i as int, cur_state(mode, off, level, text@, quote)) == Some(
                    Seq::<RawEv>::empty(),
                ));
                assert(raws + Seq::<RawEv>::empty() =~= raws);
            }
            Ok(events)
        },
        _ => {
            proof {
                assert(scan_from(html@, i as int, cur_state(mode, off, level, text@, quote)) is None);
            }
            Err(MalformedInputError)
        },
    }
}

} // verus!
