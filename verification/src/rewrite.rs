//! Phase two of the section wrapper: given the ordered heading events of an
//! HTML fragment, insert `<div class="...">` wrappers so that each heading
//! and its following content sit in a container nested by heading level.
//!
//! The output is specified as a flat list of pieces, alternating between
//! pieces kept verbatim from the input and inserted wrapper pieces; the
//! executable rewriter is proved to produce exactly the rendering of that
//! list, and the structural laws (no-op on heading-free input, balanced
//! wrapper tags, content preservation, stack nesting) are proved over it.
use crate::text::{
    append_range, close_tag, closes_final, closes_mid, open_tag, push_close_tag, push_open_tag,
};
use vstd::prelude::*;

verus! {

/// Mathematical model of one heading event: the byte offset immediately
/// before its opening tag, its level (1 to 6), and the slug of its text.
pub struct Ev {
    pub off: int,
    pub level: u8,
    pub slug: Seq<u8>,
}

/// One heading event as the rewriter consumes it.
pub struct HeadingEvent {
    pub offset: usize,
    pub level: u8,
    pub slug: Vec<u8>,
}

impl View for HeadingEvent {
    type V = Ev;

    open spec fn view(&self) -> Ev {
        Ev { off: self.offset as int, level: self.level, slug: self.slug@ }
    }
}

/// The events of a vector of heading events, as their models.
pub open spec fn evs_view(evs: Seq<HeadingEvent>) -> Seq<Ev> {
    evs.map_values(|e: HeadingEvent| e@)
}

/// The heading events a rewrite accepts: offsets within the input and
/// nondecreasing in document order.
pub open spec fn evs_ok(n: int, evs: Seq<Ev>) -> bool {
    &&& forall|k: int| 0 <= k < evs.len() ==> 0 <= #[trigger] evs[k].off <= n
    &&& forall|k: int| 0 <= k && k + 1 < evs.len() ==> #[trigger] evs[k].off <= evs[k + 1].off
}

/// One piece of the output: either a verbatim span of the input, or an
/// inserted wrapper piece (some closing tags, then at most one opening tag).
pub enum Piece {
    Kept { s: Seq<u8> },
    Ins { closes: nat, opened: Option<Seq<u8>> },
}

/// The bytes a piece contributes to the output. An inserted piece with a
/// slug renders its closing tags followed by the opening wrapper; the final
/// piece (no slug) renders the trailing closing tags, newline-separated.
pub open spec fn render_piece(p: Piece) -> Seq<u8> {
    match p {
        Piece::Kept { s } => s,
        Piece::Ins { closes, opened: Some(slug) } => closes_mid(closes) + open_tag(slug),
        Piece::Ins { closes, opened: None } => closes_final(closes),
    }
}

/// Concatenation of the renderings of all pieces.
pub open spec fn flatten(ps: Seq<Piece>) -> Seq<u8>
    decreases ps.len(),
{
    if ps.len() == 0 {
        Seq::<u8>::empty()
    } else {
        render_piece(ps[0]) + flatten(ps.subrange(1, ps.len() as int))
    }
}

/// How many entries a heading of level `l` pops from the section stack:
/// every topmost entry whose level is greater than or equal to `l`.
pub open spec fn pops(st: Seq<u8>, l: u8) -> nat
    decreases st.len(),
{
    if st.len() == 0 {
        0
    } else if st.last() >= l {
        1 + pops(st.drop_last(), l)
    } else {
        0
    }
}

/// The section stack after a heading of level `l`: the popped entries are
/// removed and `l` is pushed.
pub open spec fn stack_step(st: Seq<u8>, l: u8) -> Seq<u8> {
    st.take(st.len() - pops(st, l)).push(l)
}

/// The pieces of the output from event `i` on, with `last` the current cut
/// point in the input and `st` the levels of the currently open sections.
pub open spec fn pieces_from(html: Seq<u8>, evs: Seq<Ev>, i: int, last: int, st: Seq<u8>) -> Seq<
    Piece,
>
    decreases evs.len() - i,
{
    if i < 0 || i >= evs.len() {
        seq![
            Piece::Kept { s: html.subrange(last, html.len() as int) },
            Piece::Ins { closes: st.len(), opened: None },
        ]
    } else {
        seq![
            Piece::Kept { s: html.subrange(last, evs[i].off) },
            Piece::Ins { closes: pops(st, evs[i].level), opened: Some(evs[i].slug) },
        ] + pieces_from(html, evs, i + 1, evs[i].off, stack_step(st, evs[i].level))
    }
}

/// The entire wrapped output for `html` and its heading events.
pub open spec fn spec_wrap(html: Seq<u8>, evs: Seq<Ev>) -> Seq<u8> {
    flatten(pieces_from(html, evs, 0, 0, Seq::<u8>::empty()))
}

pub proof fn lemma_pops_le_len(st: Seq<u8>, l: u8)
    ensures
        pops(st, l) <= st.len(),
    decreases st.len(),
{
    if st.len() > 0 && st.last() >= l {
        lemma_pops_le_len(st.drop_last(), l);
    }
}

pub proof fn lemma_flatten_append(a: Seq<Piece>, b: Seq<Piece>)
    ensures
        flatten(a + b) == flatten(a) + flatten(b),
    decreases a.len(),
{
    if a.len() == 0 {
        assert(a + b =~= b);
        assert(flatten(a) + flatten(b) =~= flatten(b));
    } else {
        assert((a + b).subrange(1, (a + b).len() as int) =~= a.subrange(1, a.len() as int) + b);
        lemma_flatten_append(a.subrange(1, a.len() as int), b);
        assert((a + b)[0] == a[0]);
        assert(render_piece(a[0]) + (flatten(a.subrange(1, a.len() as int)) + flatten(b)) =~= (
        render_piece(a[0]) + flatten(a.subrange(1, a.len() as int))) + flatten(b));
    }
}

pub proof fn lemma_flatten_two(a: Piece, b: Piece, rest: Seq<Piece>)
    ensures
        flatten(seq![a, b] + rest) == render_piece(a) + render_piece(b) + flatten(rest),
{
    lemma_flatten_append(seq![a, b], rest);
    let two = seq![a, b];
    assert(two.subrange(1, 2) =~= seq![b]);
    assert(seq![b].subrange(1, 1) =~= Seq::<Piece>::empty());
    assert(flatten(seq![b]) == render_piece(b) + flatten(Seq::<Piece>::empty()));
    assert(render_piece(b) + Seq::<u8>::empty() =~= render_piece(b));
    assert(render_piece(a) + render_piece(b) + flatten(rest) =~= render_piece(a) + (render_piece(b)
            + flatten(rest)));
}

/// Number of inserted opening wrapper tags in a piece list.
pub open spec fn opens_count(ps: Seq<Piece>) -> nat
    decreases ps.len(),
{
    if ps.len() == 0 {
        0
    } else {
        (match ps[0] {
            Piece::Kept { s } => 0nat,
            Piece::Ins { closes, opened } => if opened is Some {
                1nat
            } else {
                0nat
            },
        }) + opens_count(ps.subrange(1, ps.len() as int))
    }
}

/// Number of inserted closing wrapper tags in a piece list.
pub open spec fn closes_count(ps: Seq<Piece>) -> nat
    decreases ps.len(),
{
    if ps.len() == 0 {
        0
    } else {
        (match ps[0] {
            Piece::Kept { s } => 0nat,
            Piece::Ins { closes, opened } => closes,
        }) + closes_count(ps.subrange(1, ps.len() as int))
    }
}

/// Concatenation of the verbatim input pieces only.
pub open spec fn kept_concat(ps: Seq<Piece>) -> Seq<u8>
    decreases ps.len(),
{
    if ps.len() == 0 {
        Seq::<u8>::empty()
    } else {
        (match ps[0] {
            Piece::Kept { s } => s,
            Piece::Ins { closes, opened } => Seq::<u8>::empty(),
        }) + kept_concat(ps.subrange(1, ps.len() as int))
    }
}

pub proof fn lemma_counts_append(a: Seq<Piece>, b: Seq<Piece>)
    ensures
        opens_count(a + b) == opens_count(a) + opens_count(b),
        closes_count(a + b) == closes_count(a) + closes_count(b),
        kept_concat(a + b) == kept_concat(a) + kept_concat(b),
    decreases a.len(),
{
    if a.len() == 0 {
        assert(a + b =~= b);
        assert(kept_concat(a) + kept_concat(b) =~= kept_concat(b));
    } else {
        assert((a + b).subrange(1, (a + b).len() as int) =~= a.subrange(1, a.len() as int) + b);
        lemma_counts_append(a.subrange(1, a.len() as int), b);
        assert((a + b)[0] == a[0]);
        let h = match a[0] {
            Piece::Kept { s } => s,
            _ => Seq::<u8>::empty(),
        };
        assert(h + (kept_concat(a.subrange(1, a.len() as int)) + kept_concat(b)) =~= (h
            + kept_concat(a.subrange(1, a.len() as int))) + kept_concat(b));
    }
}

proof fn lemma_counts_from(html: Seq<u8>, evs: Seq<Ev>, i: int, last: int, st: Seq<u8>)
    requires
        0 <= i <= evs.len(),
    ensures
        opens_count(pieces_from(html, evs, i, last, st)) == evs.len() - i,
        closes_count(pieces_from(html, evs, i, last, st)) == st.len() + evs.len() - i,
    decreases evs.len() - i,
{
    if i >= evs.len() {
        let ps = pieces_from(html, evs, i, last, st);
        assert(ps.subrange(1, 2) =~= seq![ps[1]]);
        assert(seq![ps[1]].subrange(1, 1) =~= Seq::<Piece>::empty());
        assert(opens_count(Seq::<Piece>::empty()) == 0);
        assert(closes_count(Seq::<Piece>::empty()) == 0);
        assert(opens_count(seq![ps[1]]) == 0);
        assert(closes_count(seq![ps[1]]) == st.len());
        assert(opens_count(ps) == 0);
        assert(closes_count(ps) == st.len());
    } else {
        let ev = evs[i];
        let st1 = stack_step(st, ev.level);
        lemma_pops_le_len(st, ev.level);
        assert(st1.len() == st.len() - pops(st, ev.level) + 1);
        lemma_counts_from(html, evs, i + 1, ev.off, st1);
        let p0 = Piece::Kept { s: html.subrange(last, ev.off) };
        let p1 = Piece::Ins { closes: pops(st, ev.level), opened: Some(ev.slug) };
        let rest = pieces_from(html, evs, i + 1, ev.off, st1);
        let two = seq![p0, p1];
        lemma_counts_append(two, rest);
        assert(two.subrange(1, 2) =~= seq![p1]);
        assert(seq![p1].subrange(1, 1) =~= Seq::<Piece>::empty());
        assert(opens_count(Seq::<Piece>::empty()) == 0);
        assert(closes_count(Seq::<Piece>::empty()) == 0);
        assert(opens_count(seq![p1]) == 1);
        assert(closes_count(seq![p1]) == pops(st, ev.level));
        assert(opens_count(two) == 1);
        assert(closes_count(two) == pops(st, ev.level));
        assert(pieces_from(html, evs, i, last, st) =~= two + rest);
        assert(opens_count(two + rest) == opens_count(two) + opens_count(rest));
        assert(closes_count(two + rest) == closes_count(two) + closes_count(rest));
    }
}

/// Balanced tags: over the decomposition of the output, the number of
/// inserted `<div>` openings equals the number of inserted `</div>`
/// closings — one opening per heading event, and as many closings in all.
pub proof fn lemma_wrap_balanced(html: Seq<u8>, evs: Seq<Ev>)
    ensures
        opens_count(pieces_from(html, evs, 0, 0, Seq::<u8>::empty())) == evs.len(),
        closes_count(pieces_from(html, evs, 0, 0, Seq::<u8>::empty())) == evs.len(),
{
    lemma_counts_from(html, evs, 0, 0, Seq::<u8>::empty());
}

proof fn lemma_kept_from(html: Seq<u8>, evs: Seq<Ev>, i: int, last: int, st: Seq<u8>)
    requires
        0 <= i <= evs.len(),
        0 <= last <= html.len(),
        evs_ok(html.len() as int, evs),
        i < evs.len() ==> last <= evs[i].off,
    ensures
        kept_concat(pieces_from(html, evs, i, last, st)) == html.subrange(
            last,
            html.len() as int,
        ),
    decreases evs.len() - i,
{
    if i >= evs.len() {
        let ps = pieces_from(html, evs, i, last, st);
        assert(ps.subrange(1, 2) =~= seq![ps[1]]);
        assert(seq![ps[1]].subrange(1, 1) =~= Seq::<Piece>::empty());
        assert(kept_concat(Seq::<Piece>::empty()) == Seq::<u8>::empty());
        assert(kept_concat(seq![ps[1]]) =~= Seq::<u8>::empty());
        assert(kept_concat(ps) =~= html.subrange(last, html.len() as int));
    } else {
        let ev = evs[i];
        let st1 = stack_step(st, ev.level);
        lemma_kept_from(html, evs, i + 1, ev.off, st1);
        let p0 = Piece::Kept { s: html.subrange(last, ev.off) };
        let p1 = Piece::Ins { closes: pops(st, ev.level), opened: Some(ev.slug) };
        let rest = pieces_from(html, evs, i + 1, ev.off, st1);
        let two = seq![p0, p1];
        lemma_counts_append(two, rest);
        assert(two.subrange(1, 2) =~= seq![p1]);
        assert(seq![p1].subrange(1, 1) =~= Seq::<Piece>::empty());
        assert(kept_concat(Seq::<Piece>::empty()) == Seq::<u8>::empty());
        assert(kept_concat(seq![p1]) =~= Seq::<u8>::empty());
        assert(kept_concat(two) =~= html.subrange(last, ev.off) + Seq::<u8>::empty());
        assert(kept_concat(two) =~= html.subrange(last, ev.off));
        assert(pieces_from(html, evs, i, last, st) =~= two + rest);
        assert(kept_concat(two + rest) == kept_concat(two) + kept_concat(rest));
        assert(html.subrange(last, ev.off) + html.subrange(ev.off, html.len() as int)
            =~= html.subrange(last, html.len() as int));
    }
}

/// Order preservation: the output is purely additive. Concatenating the
/// verbatim pieces of the output decomposition — that is, removing every
/// inserted wrapper piece — gives back the input, byte for byte.
pub proof fn lemma_wrap_preserves_content(html: Seq<u8>, evs: Seq<Ev>)
    requires
        evs_ok(html.len() as int, evs),
    ensures
        kept_concat(pieces_from(html, evs, 0, 0, Seq::<u8>::empty())) == html,
{
    lemma_kept_from(html, evs, 0, 0, Seq::<u8>::empty());
    assert(html.subrange(0, html.len() as int) =~= html);
}

/// A heading-free input passes through unchanged: wrapping with an empty
/// event list returns the input itself.
pub proof fn lemma_wrap_no_headings(html: Seq<u8>)
    ensures
        spec_wrap(html, Seq::<Ev>::empty()) == html,
{
    let ps = pieces_from(html, Seq::<Ev>::empty(), 0, 0, Seq::<u8>::empty());
    let p0 = Piece::Kept { s: html.subrange(0, html.len() as int) };
    let p1 = Piece::Ins { closes: 0, opened: None };
    assert(ps =~= seq![p0, p1] + Seq::<Piece>::empty());
    lemma_flatten_two(p0, p1, Seq::<Piece>::empty());
    assert(closes_final(0) =~= Seq::<u8>::empty());
    assert(html.subrange(0, html.len() as int) + Seq::<u8>::empty() + Seq::<u8>::empty()
        =~= html);
}

/// A stack of open section levels, strictly increasing from bottom to top.
pub open spec fn strictly_increasing(st: Seq<u8>) -> bool {
    forall|a: int, b: int| 0 <= a < b < st.len() ==> st[a] < st[b]
}

proof fn lemma_pops_keeps_lower(st: Seq<u8>, l: u8)
    requires
        strictly_increasing(st),
    ensures
        forall|a: int| 0 <= a < st.len() - pops(st, l) ==> st[a] < l,
    decreases st.len(),
{
    if st.len() > 0 && st.last() >= l {
        assert(st.drop_last() =~= st.subrange(0, st.len() - 1));
        lemma_pops_keeps_lower(st.drop_last(), l);
        assert forall|a: int| 0 <= a < st.len() - pops(st, l) implies st[a] < l by {
            assert(st.drop_last()[a] == st[a]);
        }
    }
}

/// Nesting correctness: processing a heading of level `l` keeps the stack
/// of open sections strictly increasing, puts `l` on top, and leaves every
/// section below the top at a level lower than `l`. The stack length is the
/// nesting depth after the heading.
pub proof fn lemma_stack_step(st: Seq<u8>, l: u8)
    requires
        strictly_increasing(st),
    ensures
        strictly_increasing(stack_step(st, l)),
        stack_step(st, l).len() >= 1,
        stack_step(st, l).last() == l,
        stack_step(st, l).len() == st.len() - pops(st, l) + 1,
    decreases st.len(),
{
    lemma_pops_le_len(st, l);
    lemma_pops_keeps_lower(st, l);
    let kept = st.take(st.len() - pops(st, l));
    assert forall|a: int, b: int|
        0 <= a < b < stack_step(st, l).len() implies stack_step(st, l)[a] < stack_step(
        st,
        l,
    )[b] by {
        if b < kept.len() {
            assert(kept[a] == st[a] && kept[b] == st[b]);
        } else {
            assert(stack_step(st, l)[b] == l);
            assert(stack_step(st, l)[a] == st[a]);
        }
    }
}

/// The stack of open section levels after the first `i` heading events.
pub open spec fn stack_after(evs: Seq<Ev>, i: int) -> Seq<u8>
    decreases i,
{
    if i <= 0 {
        Seq::<u8>::empty()
    } else {
        stack_step(stack_after(evs, i - 1), evs[i - 1].level)
    }
}

/// The section-stack invariant holds throughout a rewrite: after any prefix
/// of the heading events the open sections are strictly increasing in
/// level, and after at least one event the innermost open section carries
/// the most recent heading's level.
pub proof fn lemma_nesting_invariant(evs: Seq<Ev>, i: int)
    requires
        0 <= i <= evs.len(),
    ensures
        strictly_increasing(stack_after(evs, i)),
        i > 0 ==> stack_after(evs, i).len() >= 1 && stack_after(evs, i).last() == evs[i
            - 1].level,
    decreases i,
{
    if i > 0 {
        lemma_nesting_invariant(evs, i - 1);
        lemma_stack_step(stack_after(evs, i - 1), evs[i - 1].level);
    }
}

/// Rewrites `html` by inserting the section wrappers for `events`.
/// The result is exactly the rendering of the piece decomposition.
#[verifier::rlimit(60)]
pub fn rewrite(html: &Vec<u8>, events: &Vec<HeadingEvent>) -> (r: Vec<u8>)
    requires
        evs_ok(html@.len() as int, evs_view(events@)),
    ensures
        r@ == spec_wrap(html@, evs_view(events@)),
{
    let ghost evs = evs_view(events@);
    let mut out: Vec<u8> = Vec::new();
    let mut stack: Vec<u8> = Vec::new();
    let mut last: usize = 0;
    let mut i: usize = 0;
    while i < events.len()
        invariant
            evs == evs_view(events@),
            evs_ok(html@.len() as int, evs),
            evs.len() == events@.len(),
            i <= events.len(),
            last <= html@.len(),
            i == 0 ==> last == 0,
            i > 0 ==> last == evs[i - 1].off,
            spec_wrap(html@, evs) == out@ + flatten(
                pieces_from(html@, evs, i as int, last as int, stack@),
            ),
        decreases events.len() - i,
    {
        let ghost st0 = stack@;
        let ghost out0 = out@;
        let offset = events[i].offset;
        let level = events[i].level;
        proof {
            assert(evs[i as int] == events@[i as int]@);
            if i > 0 {
                assert(evs[i - 1].off <= evs[i as int].off);
            }
        }
        append_range(&mut out, html, last, offset);
        let ghost out1 = out@;
        // Close every open section at the same or a deeper level.
        while stack.len() > 0 && stack[stack.len() - 1] >= level
            invariant
                stack@.len() <= st0.len(),
                stack@ == st0.subrange(0, stack@.len() as int),
                out@ == out1 + closes_mid((st0.len() - stack@.len()) as nat),
                pops(st0, level) == (st0.len() - stack@.len()) + pops(stack@, level),
            decreases stack.len(),
        {
            let ghost stb = stack@;
            proof {
                assert(stb.last() >= level);
                assert(pops(stb, level) == 1 + pops(stb.drop_last(), level));
            }
            let _ = stack.pop();
            push_close_tag(&mut out);
            proof {
                assert(stack@ =~= stb.drop_last());
                assert(stack@ =~= st0.subrange(0, stack@.len() as int));
                let k = (st0.len() - stb.len()) as nat;
                assert(closes_mid(k + 1) == closes_mid(k) + close_tag());
                assert(out@ =~= out1 + closes_mid((st0.len() - stack@.len()) as nat));
            }
        }
        proof {
            assert(pops(stack@, level) == 0);
            assert(pops(st0, level) == st0.len() - stack@.len());
            lemma_pops_le_len(st0, level);
        }
        let ghost out2 = out@;
        push_open_tag(&mut out, &events[i].slug);
        stack.push(level);
        proof {
            assert(stack@ =~= stack_step(st0, level)) by {
                assert(st0.take(st0.len() - pops(st0, level)) =~= st0.subrange(
                    0,
                    st0.len() - pops(st0, level),
                ));
            }
        }
        last = offset;
        i = i + 1;
        proof {
            let ev = evs[i - 1];
            // Unfold one step of the piece decomposition and re-establish
            // the loop invariant.
            let prev_last: int = if i == 1 {
                0int
            } else {
                evs[i - 2].off
            };
            let p0 = Piece::Kept { s: html@.subrange(prev_last, ev.off) };
            let p1 = Piece::Ins { closes: pops(st0, ev.level), opened: Some(ev.slug) };
            let rest = pieces_from(html@, evs, i as int, ev.off, stack_step(st0, ev.level));
            assert(pieces_from(html@, evs, (i - 1) as int, prev_last, st0) =~= seq![p0, p1]
                + rest);
            lemma_flatten_two(p0, p1, rest);
            assert(out1 == out0 + html@.subrange(prev_last, ev.off));
            assert(out2 == out1 + closes_mid(pops(st0, ev.level)));
            assert(out@ == out2 + open_tag(ev.slug));
            assert(out@ =~= out0 + (html@.subrange(prev_last, ev.off) + (closes_mid(
                pops(st0, ev.level),
            ) + open_tag(ev.slug))));
            assert(render_piece(p0) + render_piece(p1) + flatten(rest) =~= render_piece(p0) + (
            render_piece(p1) + flatten(rest)));
            assert(out0 + flatten(pieces_from(html@, evs, (i - 1) as int, prev_last, st0)) =~= out@
                + flatten(rest));
        }
    }
    let ghost out3 = out@;
    append_range(&mut out, html, last, html.len());
    // Close every section that is still open.
    let ghost stf = stack@;
    let ghost out4 = out@;
    if stack.len() > 0 {
        let mut j: usize = 0;
        while j < stack.len() - 1
            invariant
                stack@ == stf,
                stf.len() > 0,
                j <= stf.len() - 1,
                out@ == out4 + crate::text::closes_nl(j as nat),
            decreases stack.len() - 1 - j,
        {
            push_close_tag(&mut out);
            out.push(10u8);
            proof {
                assert(out@ =~= out4 + crate::text::closes_nl((j + 1) as nat));
            }
            j = j + 1;
        }
        push_close_tag(&mut out);
        proof {
            assert(out@ =~= out4 + closes_final(stf.len()));
        }
    }
    proof {
        let lastv: int = if events@.len() == 0 {
            0int
        } else {
            evs[evs.len() - 1].off
        };
        let p0 = Piece::Kept { s: html@.subrange(lastv, html@.len() as int) };
        let p1 = Piece::Ins { closes: stf.len(), opened: None };
        assert(pieces_from(html@, evs, i as int, lastv, stf) =~= seq![p0, p1]);
        lemma_flatten_two(p0, p1, Seq::<Piece>::empty());
        assert(seq![p0, p1] + Seq::<Piece>::empty() =~= seq![p0, p1]);
        assert(flatten(Seq::<Piece>::empty()) == Seq::<u8>::empty());
        if stf.len() == 0 {
            assert(closes_final(stf.len()) =~= Seq::<u8>::empty());
            assert(out@ =~= out4);
        }
        assert(out@ =~= out3 + (html@.subrange(lastv, html@.len() as int) + closes_final(
            stf.len(),
        )));
        assert(render_piece(p0) + render_piece(p1) + Seq::<u8>::empty() =~= render_piece(p0)
            + render_piece(p1));
        assert(out@ =~= spec_wrap(html@, evs));
    }
    out
}

} // verus!
