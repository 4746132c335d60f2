//! Byte-level constants for the wrapper tags that the section rewriter
//! inserts, together with small verified helpers that append them to an
//! output buffer.
use vstd::prelude::*;

verus! {

/// The bytes of `</div>`.
pub open spec fn close_tag() -> Seq<u8> {
    seq![60u8, 47u8, 100u8, 105u8, 118u8, 62u8]
}

/// The bytes of `\n<div class="`, the part of an opening wrapper before the slug.
pub open spec fn open_pre() -> Seq<u8> {
    seq![10u8, 60u8, 100u8, 105u8, 118u8, 32u8, 99u8, 108u8, 97u8, 115u8, 115u8, 61u8, 34u8]
}

/// The bytes of `">\n`, the part of an opening wrapper after the slug.
pub open spec fn open_suf() -> Seq<u8> {
    seq![34u8, 62u8, 10u8]
}

/// The full opening wrapper for a section: a newline, `<div class="`,
/// the slug, `">`, and a newline.
pub open spec fn open_tag(slug: Seq<u8>) -> Seq<u8> {
    open_pre() + slug + open_suf()
}

/// `c` copies of `</div>`, as inserted before a heading that closes sections.
pub open spec fn closes_mid(c: nat) -> Seq<u8>
    decreases c,
{
    if c == 0 {
        Seq::<u8>::empty()
    } else {
        closes_mid((c - 1) as nat) + close_tag()
    }
}

/// `c` copies of `</div>\n`, used between the trailing closing tags.
pub open spec fn closes_nl(c: nat) -> Seq<u8>
    decreases c,
{
    if c == 0 {
        Seq::<u8>::empty()
    } else {
        closes_nl((c - 1) as nat) + close_tag() + seq![10u8]
    }
}

/// The trailing closing tags for `c` still-open sections: `</div>\n`
/// repeated `c - 1` times, then a final `</div>` without a newline.
/// Empty when no section is open.
pub open spec fn closes_final(c: nat) -> Seq<u8> {
    if c == 0 {
        Seq::<u8>::empty()
    } else {
        closes_nl((c - 1) as nat) + close_tag()
    }
}

/// Appends one `</div>`.
pub fn push_close_tag(out: &mut Vec<u8>)
    ensures
        final(out)@ == old(out)@ + close_tag(),
{
    out.push(60u8);
    out.push(47u8);
    out.push(100u8);
    out.push(105u8);
    out.push(118u8);
    out.push(62u8);
    proof {
        assert(out@ =~= old(out)@ + close_tag());
    }
}

/// Appends the opening wrapper for `slug`.
pub fn push_open_tag(out: &mut Vec<u8>, slug: &Vec<u8>)
    ensures
        final(out)@ == old(out)@ + open_tag(slug@),
{
    out.push(10u8);
    out.push(60u8);
    out.push(100u8);
    out.push(105u8);
    out.push(118u8);
    out.push(32u8);
    out.push(99u8);
    out.push(108u8);
    out.push(97u8);
    out.push(115u8);
    out.push(115u8);
    out.push(61u8);
    out.push(34u8);
    append_range(out, slug, 0, slug.len());
    out.push(34u8);
    out.push(62u8);
    out.push(10u8);
    proof {
        assert(slug@.subrange(0, slug@.len() as int) =~= slug@);
        assert(out@ =~= old(out)@ + open_tag(slug@));
    }
}

/// Appends `src[from..to]` to `out`.
pub fn append_range(out: &mut Vec<u8>, src: &Vec<u8>, from: usize, to: usize)
    requires
        from <= to <= src.len(),
    ensures
        final(out)@ == old(out)@ + src@.subrange(from as int, to as int),
{
    let mut j: usize = from;
    while j < to
        invariant
            from <= j <= to <= src.len(),
            out@ == old(out)@ + src@.subrange(from as int, j as int),
        decreases to - j,
    {
        out.push(src[j]);
        j = j + 1;
        proof {
            assert(src@.subrange(from as int, (j - 1) as int).push(src@[j - 1]) =~= src@.subrange(
                from as int,
                j as int,
            ));
        }
    }
    proof {
        assert(out@ =~= old(out)@ + src@.subrange(from as int, to as int));
    }
}

} // verus!
