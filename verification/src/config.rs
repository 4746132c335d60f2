//! Resolution of the tool's options from command line arguments and a
//! configuration file: the command line wins, configuration-file paths are
//! taken relative to the configuration file's directory, and the output
//! file name defaults to the first page's stem with the format's
//! extension.
//!
//! Paths are handled as plain UTF-8 byte strings with `/` as separator;
//! the argument parsing and file reading around this module hand values in
//! and out as such.
use crate::text::append_range;
use vstd::prelude::*;

verus! {

/// The output format of the tool.
#[derive(Clone, Copy, Debug, PartialEq, Eq, Structural)]
pub enum OutputFormat {
    Pdf,
    Html,
}

/// Command line arguments, as plain values.
pub struct Args {
    pub config: Option<Vec<u8>>,
    pub output_file: Option<Vec<u8>>,
    pub output_format: OutputFormat,
    pub pages: Vec<Vec<u8>>,
    pub stylesheet: Option<Vec<u8>>,
}

/// File-based configuration, as plain values.
pub struct Config {
    pub pages: Vec<Vec<u8>>,
    pub stylesheet: Option<Vec<u8>>,
    pub output_file: Option<Vec<u8>>,
    pub output_format: Option<OutputFormat>,
}

/// The final resolved options.
pub struct Options {
    pub pages: Vec<Vec<u8>>,
    pub stylesheet: Option<Vec<u8>>,
    pub output_file: Vec<u8>,
    pub output_format: OutputFormat,
}

/// No pages were given, neither on the command line nor in the
/// configuration file.
#[derive(Clone, Copy, Debug, PartialEq, Eq, Structural)]
pub struct NoPagesError;

/// The paths of a list of path buffers.
pub open spec fn paths_view(s: Seq<Vec<u8>>) -> Seq<Seq<u8>> {
    s.map_values(|v: Vec<u8>| v@)
}

/// The path of an optional path buffer.
pub open spec fn opt_path_view(o: Option<Vec<u8>>) -> Option<Seq<u8>> {
    match o {
        None => None,
        Some(v) => Some(v@),
    }
}

/// The position of the last occurrence of `b` in `s`.
pub open spec fn spec_rfind(s: Seq<u8>, b: u8) -> Option<int>
    decreases s.len(),
{
    if s.len() == 0 {
        None
    } else if s.last() == b {
        Some(s.len() - 1)
    } else {
        spec_rfind(s.drop_last(), b)
    }
}

/// A path that starts at the root.
pub open spec fn is_abs(p: Seq<u8>) -> bool {
    p.len() > 0 && p[0] == 47
}

/// Joining a path onto a directory: an absolute path stands alone; an
/// empty directory contributes nothing; otherwise a single separator
/// stands between the two.
pub open spec fn spec_join(d: Seq<u8>, p: Seq<u8>) -> Seq<u8> {
    if is_abs(p) || d.len() == 0 {
        p
    } else if d.last() == 47 {
        d + p
    } else {
        d + seq![47u8] + p
    }
}

/// The directory part of a path: trailing separators are ignored, then
/// everything before the last separator remains (the separator itself only
/// for a path directly under the root); a bare file name leaves an empty
/// directory, and a path with no parent at all (empty, or the root) is
/// resolved in the current directory, `.`.
pub open spec fn parent_dir(p: Seq<u8>) -> Seq<u8>
    decreases p.len(),
{
    if p.len() == 0 {
        seq![46u8]
    } else if p.last() == 47 && p.len() > 1 {
        parent_dir(p.drop_last())
    } else if p.last() == 47 {
        seq![46u8]
    } else {
        match spec_rfind(p, 47) {
            None => Seq::<u8>::empty(),
            Some(j) => if j == 0 {
                seq![47u8]
            } else {
                p.subrange(0, j)
            },
        }
    }
}

/// The file name part of a path, as the standard path methods read it:
/// trailing separators are ignored, a final `.` component is skipped, and
/// a path that ends in a `..` component (or that has nothing left) has no
/// file name — the result is then empty.
pub open spec fn file_name_of(p: Seq<u8>) -> Seq<u8>
    decreases p.len(),
{
    if p.len() == 0 {
        Seq::<u8>::empty()
    } else if p.last() == 47 {
        file_name_of(p.drop_last())
    } else {
        let name = match spec_rfind(p, 47) {
            None => p,
            Some(j) => p.subrange(j + 1, p.len() as int),
        };
        if name == seq![46u8] {
            file_name_of(p.drop_last())
        } else if name == seq![46u8, 46u8] {
            Seq::<u8>::empty()
        } else {
            name
        }
    }
}

/// The stem of a file name: everything before the last dot, except that a
/// dot in first position (a hidden file) does not count.
pub open spec fn stem_of(name: Seq<u8>) -> Seq<u8> {
    match spec_rfind(name, 46) {
        None => name,
        Some(j) => if j == 0 {
            name
        } else {
            name.subrange(0, j)
        },
    }
}

/// The file extension of an output format.
pub open spec fn ext_of(f: OutputFormat) -> Seq<u8> {
    match f {
        OutputFormat::Pdf => seq![112u8, 100u8, 102u8],
        OutputFormat::Html => seq![104u8, 116u8, 109u8, 108u8],
    }
}

/// The fallback output name `output` with the format's extension.
pub open spec fn default_output(f: OutputFormat) -> Seq<u8> {
    seq![111u8, 117u8, 116u8, 112u8, 117u8, 116u8, 46u8] + ext_of(f)
}

/// The derived output file name: the first page's stem with the format's
/// extension, or the fallback when there is no first page or it has no
/// file name.
pub open spec fn spec_derive_output_file(pages: Seq<Seq<u8>>, f: OutputFormat) -> Seq<u8> {
    if pages.len() > 0 && file_name_of(pages[0]).len() > 0 {
        stem_of(file_name_of(pages[0])) + seq![46u8] + ext_of(f)
    } else {
        default_output(f)
    }
}

/// The directory configuration-file paths are resolved against: the
/// configuration file's directory, or `.` when none was given.
pub open spec fn spec_config_dir(cfg_path: Option<Seq<u8>>) -> Seq<u8> {
    match cfg_path {
        None => seq![46u8],
        Some(p) => parent_dir(p),
    }
}

/// Every path of `ps` joined onto the directory `dir`.
pub open spec fn join_all(dir: Seq<u8>, ps: Seq<Seq<u8>>) -> Seq<Seq<u8>> {
    ps.map_values(|p: Seq<u8>| spec_join(dir, p))
}

/// The resolved page list: command line pages as given, else the
/// configuration pages joined onto the configuration directory.
pub open spec fn spec_resolved_pages(
    args_pages: Seq<Seq<u8>>,
    cfg_pages: Seq<Seq<u8>>,
    dir: Seq<u8>,
) -> Seq<Seq<u8>> {
    if args_pages.len() > 0 {
        args_pages
    } else {
        join_all(dir, cfg_pages)
    }
}

/// The resolved format: the command line's when explicitly set, else the
/// configuration file's, else the command line default.
pub open spec fn spec_resolved_format(
    from_cli: bool,
    args_format: OutputFormat,
    cfg_format: Option<OutputFormat>,
) -> OutputFormat {
    if from_cli {
        args_format
    } else {
        match cfg_format {
            Some(f) => f,
            None => args_format,
        }
    }
}

/// The resolved stylesheet: the command line's as given, else the
/// configuration file's joined onto the configuration directory.
pub open spec fn spec_resolved_stylesheet(
    args_sheet: Option<Seq<u8>>,
    cfg_sheet: Option<Seq<u8>>,
    dir: Seq<u8>,
) -> Option<Seq<u8>> {
    match args_sheet {
        Some(s) => Some(s),
        None => match cfg_sheet {
            Some(s) => Some(spec_join(dir, s)),
            None => None,
        },
    }
}

/// The resolved output file: the command line's as given, else the
/// configuration file's joined onto the configuration directory, else
/// derived from the first page and the format.
pub open spec fn spec_resolved_output(
    args_out: Option<Seq<u8>>,
    cfg_out: Option<Seq<u8>>,
    dir: Seq<u8>,
    pages: Seq<Seq<u8>>,
    f: OutputFormat,
) -> Seq<u8> {
    match args_out {
        Some(o) => o,
        None => match cfg_out {
            Some(o) => spec_join(dir, o),
            None => spec_derive_output_file(pages, f),
        },
    }
}

/// Finds the last occurrence of `b` in `v[..end]`.
fn rfind_to(v: &Vec<u8>, end: usize, b: u8) -> (r: Option<usize>)
    requires
        end <= v@.len(),
    ensures
        match r {
            Some(j) => spec_rfind(v@.subrange(0, end as int), b) == Some(j as int) && j < end,
            None => spec_rfind(v@.subrange(0, end as int), b) is None,
        },
{
    let mut i: usize = end;
    while i > 0
        invariant
            i <= end <= v@.len(),
            spec_rfind(v@.subrange(0, end as int), b) == spec_rfind(v@.subrange(0, i as int), b),
        decreases i,
    {
        i = i - 1;
        if v[i] == b {
            proof {
                assert(v@.subrange(0, (i + 1) as int).last() == b);
            }
            return Some(i);
        }
        proof {
            assert(v@.subrange(0, (i + 1) as int).drop_last() =~= v@.subrange(0, i as int));
        }
    }
    proof {
        assert(v@.subrange(0, 0) =~= Seq::<u8>::empty());
    }
    None
}

/// Finds the last occurrence of `b` in `v`.
fn rfind(v: &Vec<u8>, b: u8) -> (r: Option<usize>)
    ensures
        match r {
            Some(j) => spec_rfind(v@, b) == Some(j as int) && j < v@.len(),
            None => spec_rfind(v@, b) is None,
        },
{
    proof {
        assert(v@.subrange(0, v@.len() as int) =~= v@);
    }
    rfind_to(v, v.len(), b)
}

/// Copies `src[from..to]` into a fresh buffer.
fn copy_range(src: &Vec<u8>, from: usize, to: usize) -> (r: Vec<u8>)
    requires
        from <= to <= src@.len(),
    ensures
        r@ == src@.subrange(from as int, to as int),
{
    let mut out: Vec<u8> = Vec::new();
    append_range(&mut out, src, from, to);
    proof {
        assert(out@ =~= src@.subrange(from as int, to as int));
    }
    out
}

/// The directory part of `p`.
fn parent_path(p: &Vec<u8>) -> (r: Vec<u8>)
    ensures
        r@ == parent_dir(p@),
{
    let mut end: usize = p.len();
    proof {
        assert(p@.subrange(0, p@.len() as int) =~= p@);
    }
    while end > 1 && p[end - 1] == 47
        invariant
            end <= p@.len(),
            parent_dir(p@) == parent_dir(p@.subrange(0, end as int)),
        decreases end,
    {
        proof {
            assert(p@.subrange(0, end as int).drop_last() =~= p@.subrange(0, (end - 1) as int));
        }
        end = end - 1;
    }
    if end == 0 || p[end - 1] == 47 {
        // Nothing or only the root is left: resolve in the current directory.
        let mut out: Vec<u8> = Vec::new();
        out.push(46u8);
        proof {
            assert(out@ =~= seq![46u8]);
        }
        return out;
    }
    match rfind_to(p, end, 47) {
        None => Vec::new(),
        Some(j) => {
            if j == 0 {
                let mut out: Vec<u8> = Vec::new();
                out.push(47u8);
                proof {
                    assert(out@ =~= seq![47u8]);
                    assert(p@.subrange(0, end as int).subrange(0, 0int) =~= Seq::<u8>::empty());
                }
                out
            } else {
                let out = copy_range(p, 0, j);
                proof {
                    assert(p@.subrange(0, end as int).subrange(0, j as int) =~= p@.subrange(
                        0,
                        j as int,
                    ));
                }
                out
            }
        },
    }
}

/// The file name part of `p`.
fn file_name(p: &Vec<u8>) -> (r: Vec<u8>)
    ensures
        r@ == file_name_of(p@),
{
    let mut end: usize = p.len();
    proof {
        assert(p@.subrange(0, p@.len() as int) =~= p@);
    }
    while end > 0
        invariant
            end <= p@.len(),
            file_name_of(p@) == file_name_of(p@.subrange(0, end as int)),
        decreases end,
    {
        let ghost q = p@.subrange(0, end as int);
        if p[end - 1] == 47 {
            proof {
                assert(q.drop_last() =~= p@.subrange(0, (end - 1) as int));
            }
            end = end - 1;
        } else {
            let start: usize = match rfind_to(p, end, 47) {
                Some(j) => j + 1,
                None => 0,
            };
            let ghost name = match spec_rfind(q, 47) {
                Some(j) => q.subrange(j + 1, q.len() as int),
                None => q,
            };
            proof {
                assert(name =~= p@.subrange(start as int, end as int));
                assert(name.len() == end - start);
            }
            if end - start == 1 && p[start] == 46 {
                proof {
                    assert(name =~= seq![46u8]);
                    assert(q.drop_last() =~= p@.subrange(0, (end - 1) as int));
                }
                end = end - 1;
            } else if end - start == 2 && p[start] == 46 && p[start + 1] == 46 {
                proof {
                    assert(name =~= seq![46u8, 46u8]);
                    assert(file_name_of(q) =~= Seq::<u8>::empty());
                }
                return Vec::new();
            } else {
                let out = copy_range(p, start, end);
                proof {
                    assert(name != seq![46u8]) by {
                        if name == seq![46u8] {
                            assert(name.len() == 1);
                            assert(name[0] == 46);
                            assert(p@[start as int] == 46);
                        }
                    }
                    assert(name != seq![46u8, 46u8]) by {
                        if name == seq![46u8, 46u8] {
                            assert(name.len() == 2);
                            assert(name[0] == 46 && name[1] == 46);
                            assert(p@[start as int] == 46 && p@[start + 1] == 46);
                        }
                    }
                    assert(file_name_of(q) == name);
                    assert(out@ =~= name);
                }
                return out;
            }
        }
    }
    proof {
        assert(p@.subrange(0, 0) =~= Seq::<u8>::empty());
    }
    Vec::new()
}

/// Joins `p` onto the directory `d`.
fn join_path(d: &Vec<u8>, p: &Vec<u8>) -> (r: Vec<u8>)
    ensures
        r@ == spec_join(d@, p@),
{
    if (p.len() > 0 && p[0] == 47) || d.len() == 0 {
        copy_range(p, 0, p.len())
    } else {
        let mut out = copy_range(d, 0, d.len());
        if d[d.len() - 1] != 47 {
            out.push(47u8);
        }
        append_range(&mut out, p, 0, p.len());
        proof {
            assert(d@.subrange(0, d@.len() as int) =~= d@);
            assert(p@.subrange(0, p@.len() as int) =~= p@);
            if d@.last() == 47 {
                assert(out@ =~= d@ + p@);
            } else {
                assert(out@ =~= d@ + seq![47u8] + p@);
            }
        }
        out
    }
}

fn push_ext(out: &mut Vec<u8>, f: &OutputFormat)
    ensures
        final(out)@ == old(out)@ + ext_of(*f),
{
    match f {
        OutputFormat::Pdf => {
            out.push(112u8);
            out.push(100u8);
            out.push(102u8);
            proof {
                assert(out@ =~= old(out)@ + ext_of(OutputFormat::Pdf));
            }
        },
        OutputFormat::Html => {
            out.push(104u8);
            out.push(116u8);
            out.push(109u8);
            out.push(108u8);
            proof {
                assert(out@ =~= old(out)@ + ext_of(OutputFormat::Html));
            }
        },
    }
}

impl Options {
    /// The derived output file name for a page list and a format.
    pub fn derive_output_file(pages: &Vec<Vec<u8>>, format: &OutputFormat) -> (r: Vec<u8>)
        ensures
            r@ == spec_derive_output_file(paths_view(pages@), *format),
    {
        if pages.len() > 0 {
            let first = &pages[0];
            proof {
                assert(paths_view(pages@)[0] == first@);
            }
            let name = file_name(first);
            if name.len() > 0 {
                let mut out: Vec<u8> = match rfind(&name, 46) {
                    Some(j) if j > 0 => copy_range(&name, 0, j),
                    _ => copy_range(&name, 0, name.len()),
                };
                proof {
                    assert(name@.subrange(0, name@.len() as int) =~= name@);
                    assert(out@ =~= stem_of(file_name_of(first@)));
                }
                out.push(46u8);
                push_ext(&mut out, format);
                proof {
                    assert(out@ =~= spec_derive_output_file(paths_view(pages@), *format));
                }
                return out;
            }
        }
        let mut out: Vec<u8> = Vec::new();
        out.push(111u8);
        out.push(117u8);
        out.push(116u8);
        out.push(112u8);
        out.push(117u8);
        out.push(116u8);
        out.push(46u8);
        proof {
            assert(out@ =~= seq![111u8, 117u8, 116u8, 112u8, 117u8, 116u8, 46u8]);
        }
        push_ext(&mut out, format);
        proof {
            assert(out@ =~= spec_derive_output_file(paths_view(pages@), *format));
        }
        out
    }

    /// Merges command line arguments and file configuration into the final
    /// options; `format_from_cli` says whether the format was set
    /// explicitly on the command line rather than defaulted. Fails if and
    /// only if no pages result.
    pub fn from_args_and_config(args: Args, config: Config, format_from_cli: bool) -> (r: Result<
        Options,
        NoPagesError,
    >)
        ensures
            ({
                let dir = spec_config_dir(opt_path_view(args.config));
                let pages = spec_resolved_pages(
                    paths_view(args.pages@),
                    paths_view(config.pages@),
                    dir,
                );
                &&& (r is Ok <==> pages.len() > 0)
                &&& (r matches Ok(o) ==> {
                    &&& paths_view(o.pages@) == pages
                    &&& o.output_format == spec_resolved_format(
                        format_from_cli,
                        args.output_format,
                        config.output_format,
                    )
                    &&& opt_path_view(o.stylesheet) == spec_resolved_stylesheet(
                        opt_path_view(args.stylesheet),
                        opt_path_view(config.stylesheet),
                        dir,
                    )
                    &&& o.output_file@ == spec_resolved_output(
                        opt_path_view(args.output_file),
                        opt_path_view(config.output_file),
                        dir,
                        pages,
                        o.output_format,
                    )
                })
            }),
    {
        let ghost gdir = spec_config_dir(opt_path_view(args.config));
        let dir: Vec<u8> = match &args.config {
            Some(p) => parent_path(p),
            None => {
                let mut d: Vec<u8> = Vec::new();
                d.push(46u8);
                proof {
                    assert(d@ =~= seq![46u8]);
                }
                d
            },
        };
        proof {
            assert(dir@ == gdir);
        }
        let ghost gpages = spec_resolved_pages(
            paths_view(args.pages@),
            paths_view(config.pages@),
            gdir,
        );
        let Args {
            config: _a_config,
            output_file: a_output_file,
            output_format: a_output_format,
            pages: a_pages,
            stylesheet: a_stylesheet,
        } = args;
        let Config {
            pages: c_pages,
            stylesheet: c_stylesheet,
            output_file: c_output_file,
            output_format: c_output_format,
        } = config;
        let pages: Vec<Vec<u8>> = if a_pages.len() > 0 {
            a_pages
        } else {
            let mut joined: Vec<Vec<u8>> = Vec::new();
            let mut i: usize = 0;
            proof {
                assert(paths_view(joined@) =~= join_all(
                    gdir,
                    paths_view(c_pages@).subrange(0, 0),
                ));
            }
            while i < c_pages.len()
                invariant
                    i <= c_pages@.len(),
                    paths_view(joined@) == join_all(gdir, paths_view(c_pages@).subrange(0, i as int)),
                    dir@ == gdir,
                decreases c_pages@.len() - i,
            {
                let ghost joined0 = joined@;
                joined.push(join_path(&dir, &c_pages[i]));
                i = i + 1;
                proof {
                    let cview = paths_view(c_pages@);
                    let lhs = paths_view(joined@);
                    let rhs = join_all(gdir, cview.subrange(0, i as int));
                    assert(lhs.len() == joined@.len());
                    assert(paths_view(joined0).len() == joined0.len());
                    assert(join_all(gdir, cview.subrange(0, (i - 1) as int)).len() == i - 1);
                    assert(rhs.len() == i);
                    assert forall|k: int| 0 <= k < lhs.len() implies lhs[k] == rhs[k] by {
                        assert(lhs[k] == joined@[k]@);
                        assert(cview.subrange(0, i as int)[k] == cview[k]);
                        assert(cview[k] == c_pages@[k]@);
                        assert(rhs[k] == spec_join(gdir, cview[k]));
                        if k < joined0.len() {
                            assert(joined@[k] == joined0[k]);
                            assert(paths_view(joined0)[k] == joined0[k]@);
                            assert(cview.subrange(0, (i - 1) as int)[k] == cview[k]);
                            assert(join_all(gdir, cview.subrange(0, (i - 1) as int))[k]
                                == spec_join(gdir, cview[k]));
                        } else {
                            assert(joined@[k]@ == spec_join(dir@, c_pages@[k]@));
                        }
                    }
                    assert(lhs =~= rhs);
                }
            }
            proof {
                assert(paths_view(c_pages@).subrange(0, c_pages@.len() as int) =~= paths_view(
                    c_pages@,
                ));
                assert(paths_view(joined@) =~= gpages);
            }
            joined
        };
        proof {
            assert(paths_view(pages@) == gpages);
        }
        if pages.len() == 0 {
            return Err(NoPagesError);
        }
        let stylesheet: Option<Vec<u8>> = match a_stylesheet {
            Some(s) => Some(s),
            None => match c_stylesheet {
                Some(s) => Some(join_path(&dir, &s)),
                None => None,
            },
        };
        let output_format: OutputFormat = if format_from_cli {
            a_output_format
        } else {
            match c_output_format {
                Some(f) => f,
                None => a_output_format,
            }
        };
        let output_file: Vec<u8> = match a_output_file {
            Some(f) => f,
            None => match c_output_file {
                Some(f) => join_path(&dir, &f),
                None => Options::derive_output_file(&pages, &output_format),
            },
        };
        Ok(Options { pages, stylesheet, output_file, output_format })
    }
}

} // verus!
