//! The compact text encoding of a tree: an object-shaped blob with keys in
//! fixed order `msg`, `location`, `trace`, `sources`, every free-text value
//! escaped, children recursively encoded. Only this encoder's output is
//! meant to be read back by the scanner.

use vstd::prelude::*;

use crate::escape::escape;
use crate::text::dec_digits;
use crate::view::FrameView;
use crate::view::TreeView;

verus! {

/// The encoding of one contextual frame.
pub open spec fn encode_frame(f: FrameView) -> Seq<char> {
    "{\"target\":\""@ + escape(f.target) + "\",\"name\":\""@ + escape(f.name)
        + "\",\"fields\":\""@ + escape(f.fields) + "\""@ + (match f.location {
        Some(l) => ",\"source_loc\":{\"file\":\""@ + escape(l.0) + "\",\"line\":"@ + dec_digits(
            l.1 as nat,
        ) + "}"@,
        None => Seq::<char>::empty(),
    }) + "}"@
}

/// The encodings of the frames from index `i` on, comma-separated.
pub open spec fn encode_frames(frames: Seq<FrameView>, i: int) -> Seq<char>
    decreases frames.len() - i,
{
    if i < 0 || i >= frames.len() {
        Seq::empty()
    } else {
        encode_frame(frames[i]) + (if i < frames.len() - 1 {
            ","@
        } else {
            Seq::<char>::empty()
        }) + encode_frames(frames, i + 1)
    }
}

/// The encoding of one node: message always, location and frame list when
/// present, the child list when non-empty.
pub open spec fn encode_node(t: TreeView) -> Seq<char>
    decreases t, 0int,
{
    "{\"msg\":\""@ + escape(t.msg) + "\""@ + (match t.location {
        Some(l) => ",\"location\":\""@ + escape(l) + "\""@,
        None => Seq::<char>::empty(),
    }) + (if t.trace.len() > 0 {
        ",\"trace\":["@ + encode_frames(t.trace, 0) + "]"@
    } else {
        Seq::<char>::empty()
    }) + (if t.sources.len() > 0 {
        ",\"sources\":["@ + encode_nodes(t.sources, 0) + "]"@
    } else {
        Seq::<char>::empty()
    }) + "}"@
}

/// The encodings of the children from index `i` on, comma-separated.
pub open spec fn encode_nodes(s: Seq<TreeView>, i: int) -> Seq<char>
    decreases s, s.len() - i,
{
    if i < 0 || i >= s.len() {
        Seq::empty()
    } else {
        encode_node(s[i]) + (if i < s.len() - 1 {
            ","@
        } else {
            Seq::<char>::empty()
        }) + encode_nodes(s, i + 1)
    }
}

/// Appends the escaped form of `s` between the pieces already written.
fn push_escaped_str(out: &mut Vec<char>, s: &String)
    ensures
        final(out)@ == old(out)@ + escape(s@),
{
    crate::escape::push_escaped(out, s.as_str());
}

/// Writes the encoding of one contextual frame.
fn json_frame(out: &mut Vec<char>, f: &crate::tree::TraceFrame)
    ensures
        final(out)@ == old(out)@ + encode_frame(crate::view::view_frame(*f)),
{
    crate::text::push_str_chars(out, "{\"target\":\"");
    push_escaped_str(out, &f.target);
    crate::text::push_str_chars(out, "\",\"name\":\"");
    push_escaped_str(out, &f.name);
    crate::text::push_str_chars(out, "\",\"fields\":\"");
    push_escaped_str(out, &f.fields);
    crate::text::push_str_chars(out, "\"");
    let ghost before_sl = out@;
    match &f.location {
        Some(l) => {
            crate::text::push_str_chars(out, ",\"source_loc\":{\"file\":\"");
            push_escaped_str(out, &l.file);
            crate::text::push_str_chars(out, "\",\"line\":");
            crate::text::push_dec(out, l.line);
            crate::text::push_str_chars(out, "}");
            proof {
                assert(out@ =~= before_sl + (",\"source_loc\":{\"file\":\""@ + escape(
                    l.file@,
                ) + "\",\"line\":"@ + dec_digits(l.line as nat) + "}"@));
            }
        },
        None => {},
    }
    crate::text::push_str_chars(out, "}");
    proof {
        assert(out@ =~= old(out)@ + encode_frame(crate::view::view_frame(*f)));
    }
}

/// Writes the encoding of one node.
#[verifier::rlimit(60)]
fn json_fmt(t: &crate::tree::ErrTree, out: &mut Vec<char>)
    ensures
        final(out)@ == old(out)@ + encode_node(crate::view::view_tree(*t)),
    decreases *t,
{
    let ghost tv = crate::view::view_tree(*t);
    proof {
        crate::view::lemma_view_trees(t.sources@);
    }
    crate::text::push_str_chars(out, "{\"msg\":\"");
    push_escaped_str(out, &t.msg);
    crate::text::push_str_chars(out, "\"");
    let ghost after_msg = out@;
    match &t.location {
        Some(loc) => {
            crate::text::push_str_chars(out, ",\"location\":\"");
            push_escaped_str(out, loc);
            crate::text::push_str_chars(out, "\"");
            proof {
                assert(out@ =~= after_msg + (",\"location\":\""@ + escape(loc@) + "\""@));
            }
        },
        None => {},
    }
    let ghost after_loc = out@;
    if t.trace.len() > 0 {
        crate::text::push_str_chars(out, ",\"trace\":[");
        let ghost list_base = out@;
        let n = t.trace.len();
        let mut i: usize = 0;
        proof {
            assert(out@ + encode_frames(tv.trace, 0) =~= list_base + encode_frames(tv.trace, 0));
        }
        while i < n
            invariant
                n == t.trace@.len(),
                tv == crate::view::view_tree(*t),
                tv.trace.len() == n,
                i <= n,
                out@ + encode_frames(tv.trace, i as int) == list_base + encode_frames(tv.trace, 0),
            decreases n - i,
        {
            let ghost pre = out@;
            let f = &t.trace[i];
            proof {
                assert(tv.trace[i as int] == crate::view::view_frame(t.trace@[i as int]));
            }
            json_frame(out, f);
            if i + 1 < n {
                crate::text::push_str_chars(out, ",");
            }
            proof {
                assert(out@ =~= pre + (encode_frame(tv.trace[i as int]) + (if (i as int)
                    < tv.trace.len() - 1 {
                    ","@
                } else {
                    Seq::<char>::empty()
                })));
                assert(out@ + encode_frames(tv.trace, i + 1) =~= list_base + encode_frames(
                    tv.trace,
                    0,
                ));
            }
            i = i + 1;
        }
        crate::text::push_str_chars(out, "]");
        proof {
            assert(encode_frames(tv.trace, n as int) =~= Seq::<char>::empty());
            assert(out@ =~= after_loc + (",\"trace\":["@ + encode_frames(tv.trace, 0) + "]"@));
        }
    }
    let ghost after_trace = out@;
    if t.sources.len() > 0 {
        crate::text::push_str_chars(out, ",\"sources\":[");
        let ghost list_base = out@;
        let n = t.sources.len();
        let mut i: usize = 0;
        proof {
            assert(out@ + encode_nodes(tv.sources, 0) =~= list_base + encode_nodes(tv.sources, 0));
        }
        while i < n
            invariant
                n == t.sources@.len(),
                tv == crate::view::view_tree(*t),
                tv.sources.len() == n,
                i <= n,
                out@ + encode_nodes(tv.sources, i as int) == list_base + encode_nodes(
                    tv.sources,
                    0,
                ),
            decreases n - i,
        {
            let ghost pre = out@;
            proof {
                crate::view::lemma_view_trees(t.sources@);
                assert(tv.sources[i as int] == crate::view::view_tree(t.sources@[i as int]));
                assert(decreases_to!(*t => t.sources));
                assert(decreases_to!(t.sources => t.sources@));
                assert(decreases_to!(t.sources@ => t.sources@[i as int]));
            }
            json_fmt(&t.sources[i], out);
            if i + 1 < n {
                crate::text::push_str_chars(out, ",");
            }
            proof {
                assert(out@ =~= pre + (encode_node(tv.sources[i as int]) + (if (i as int)
                    < tv.sources.len() - 1 {
                    ","@
                } else {
                    Seq::<char>::empty()
                })));
                assert(out@ + encode_nodes(tv.sources, i + 1) =~= list_base + encode_nodes(
                    tv.sources,
                    0,
                ));
            }
            i = i + 1;
        }
        crate::text::push_str_chars(out, "]");
        proof {
            assert(encode_nodes(tv.sources, n as int) =~= Seq::<char>::empty());
            assert(out@ =~= after_trace + (",\"sources\":["@ + encode_nodes(tv.sources, 0)
                + "]"@));
        }
    }
    crate::text::push_str_chars(out, "}");
    proof {
        assert(out@ =~= old(out)@ + encode_node(tv));
    }
}

/// The compact text encoding of a whole tree.
pub fn tree_to_json(tree: &crate::tree::ErrTree) -> (out: String)
    ensures
        out@ == encode_node(crate::view::view_tree(*tree)),
{
    let mut chars: Vec<char> = Vec::new();
    json_fmt(tree, &mut chars);
    proof {
        assert(chars@ =~= encode_node(crate::view::view_tree(*tree)));
    }
    crate::text::chars_to_string(&chars)
}

/// The text between a node's outermost braces; empty when the text has no
/// room for both.
pub open spec fn node_inner(body: Seq<char>) -> Seq<char> {
    match crate::scan::meta_idx_rec(body, '{', 0, false) {
        Some(fb) => if 0 <= fb && fb + 2 <= body.len() {
            body.subrange(fb + 1, body.len() - 1)
        } else {
            Seq::empty()
        },
        None => Seq::empty(),
    }
}

/// The text between the brackets of `key`'s list value; empty when the
/// key or its close is missing.
pub open spec fn list_inner(inner: Seq<char>, key: Seq<char>) -> Seq<char> {
    match crate::scan::find_json_key(key, inner) {
        Some(k) => match crate::scan::char_idx_rec(inner, ']', k, crate::scan::scan_init()) {
            Some(e) => if 0 <= k && k + 1 <= e <= inner.len() {
                inner.subrange(k + 1, e)
            } else {
                Seq::empty()
            },
            None => Seq::empty(),
        },
        None => Seq::empty(),
    }
}

/// One encoded node cut into its four top-level parts: the raw message
/// and location values and the raw trace and child list texts. Built by
/// one pass of the scanner; never an error, with missing parts empty.
pub struct JsonReconstruct {
    pub msg: Vec<char>,
    pub source_line: Vec<char>,
    pub trace: Vec<char>,
    pub sources: Vec<char>,
}

impl JsonReconstruct {
    pub fn new(v: &Vec<char>) -> (r: Self)
        ensures
            r.msg@ == crate::scan::find_json_str("\"msg\""@, node_inner(v@)),
            r.source_line@ == crate::scan::find_json_str("\"location\""@, node_inner(v@)),
            r.trace@ == list_inner(node_inner(v@), "\"trace\""@),
            r.sources@ == list_inner(node_inner(v@), "\"sources\""@),
            r.trace@.len() + 2 <= v@.len() || r.trace@.len() == 0,
            r.sources@.len() + 2 <= v@.len() || r.sources@.len() == 0,
    {
        let n = v.len();
        let inner: Vec<char> = match crate::scan::meta_idx_from(v, '{', 0) {
            Some(fb) => {
                if fb < n && n - fb >= 2 {
                    crate::text::subvec(v, fb + 1, n - 1)
                } else {
                    Vec::new()
                }
            },
            None => Vec::new(),
        };
        proof {
            assert(inner@ == node_inner(v@));
            assert(inner@.len() + 2 <= v@.len() || inner@.len() == 0);
        }
        let msg = crate::scan::find_str(&inner, &crate::text::str_to_chars("\"msg\""));
        let source_line = crate::scan::find_str(
            &inner,
            &crate::text::str_to_chars("\"location\""),
        );
        let trace = Self::list_part(&inner, &crate::text::str_to_chars("\"trace\""));
        let sources = Self::list_part(&inner, &crate::text::str_to_chars("\"sources\""));
        JsonReconstruct { msg, source_line, trace, sources }
    }

    /// Cuts the text of `key`'s list value out of `inner`.
    fn list_part(inner: &Vec<char>, key: &Vec<char>) -> (out: Vec<char>)
        ensures
            out@ == list_inner(inner@, key@),
            out@.len() <= inner@.len(),
    {
        let n = inner.len();
        match crate::scan::find_key(inner, key) {
            Some(k) => {
                match crate::scan::char_idx_from(inner, ']', k) {
                    Some(e) => {
                        if k < n && k + 1 <= e {
                            crate::text::subvec(inner, k + 1, e)
                        } else {
                            Vec::new()
                        }
                    },
                    None => Vec::new(),
                }
            },
            None => Vec::new(),
        }
    }
}

/// The text of one encoded frame past its opening brace.
pub open spec fn frame_inner(chunk: Seq<char>) -> Seq<char> {
    match crate::scan::meta_idx_rec(chunk, '{', 0, false) {
        Some(fb) => if 0 <= fb < chunk.len() {
            chunk.subrange(fb + 1, chunk.len() as int)
        } else {
            Seq::empty()
        },
        None => Seq::empty(),
    }
}

/// The recording site read back out of one encoded frame: the unescaped
/// file and the line number, or nothing when the file is missing or the
/// line is not a number.
pub open spec fn frame_loc(inner: Seq<char>) -> Option<(Seq<char>, u64)> {
    match crate::scan::find_json_key("\"source_loc\""@, inner) {
        Some(p) => match crate::scan::meta_idx_rec(inner, '{', p, false) {
            Some(ob) => match crate::scan::char_idx_rec(inner, '}', ob, crate::scan::scan_init()) {
                Some(cb) => if 0 <= ob && ob + 1 <= cb <= inner.len() {
                    let region = inner.subrange(ob + 1, cb);
                    let file = crate::scan::find_json_str("\"file\""@, region);
                    if file.len() == 0 {
                        None
                    } else {
                        let ls = match crate::scan::find_json_key("\"line\""@, region) {
                            Some(l) => l,
                            None => region.len() as int,
                        };
                        match crate::text::parse_u64(region.subrange(ls, region.len() as int)) {
                            Some(line) => Some((crate::escape::unescape(file), line)),
                            None => None,
                        }
                    }
                } else {
                    None
                },
                None => None,
            },
            None => None,
        },
        None => None,
    }
}

/// One encoded frame read back out. Its identity is the raw slice
/// itself: two reconstructed frames are the same frame exactly when their
/// encoded texts are equal.
pub open spec fn parse_frame(chunk: Seq<char>) -> FrameView {
    let inner = frame_inner(chunk);
    FrameView {
        identifier: chunk,
        target: crate::escape::unescape(crate::scan::find_json_str("\"target\""@, inner)),
        name: crate::escape::unescape(crate::scan::find_json_str("\"name\""@, inner)),
        fields: crate::escape::unescape(crate::scan::find_json_str("\"fields\""@, inner)),
        location: frame_loc(inner),
    }
}

pub open spec fn empty_tree() -> TreeView {
    TreeView { msg: Seq::empty(), location: None, trace: Seq::empty(), sources: Seq::empty() }
}

/// The tree read back out of one encoded node. Reading is lenient:
/// whatever does not follow the encoder's shape comes back empty.
pub open spec fn spec_decode(body: Seq<char>) -> TreeView
    decreases body.len(), 0int, 0int,
{
    let inner = node_inner(body);
    let loc_raw = crate::scan::find_json_str("\"location\""@, inner);
    let trace_chunks = crate::scan::split_all(list_inner(inner, "\"trace\""@));
    TreeView {
        msg: crate::escape::unescape(crate::scan::find_json_str("\"msg\""@, inner)),
        location: if loc_raw.len() == 0 {
            None
        } else {
            Some(crate::escape::unescape(loc_raw))
        },
        trace: Seq::new(trace_chunks.len(), |i: int| parse_frame(trace_chunks[i])),
        sources: if body.len() >= 2 {
            decode_chunks(
                crate::scan::split_all(list_inner(inner, "\"sources\""@)),
                (body.len() - 2) as nat,
            )
        } else {
            Seq::empty()
        },
    }
}

/// The trees read back out of already-split child texts; `bound` keeps
/// every text strictly inside the node it came from.
pub open spec fn decode_chunks(chunks: Seq<Seq<char>>, bound: nat) -> Seq<TreeView>
    decreases bound, 1int, chunks.len(),
{
    if chunks.len() == 0 {
        Seq::empty()
    } else {
        let first = if chunks[0].len() <= bound {
            spec_decode(chunks[0])
        } else {
            empty_tree()
        };
        seq![first] + decode_chunks(chunks.drop_first(), bound)
    }
}

/// The unescaped form of the whole of `v`, as a string.
fn unescaped_string(v: &Vec<char>) -> (s: String)
    ensures
        s@ == crate::escape::unescape(v@),
{
    let u = crate::escape::unescape_range(v, 0, v.len());
    proof {
        assert(v@.subrange(0, v@.len() as int) =~= v@);
    }
    crate::text::chars_to_string(&u)
}

/// Reads one encoded frame back out.
fn parse_frame_exec(chunk: Vec<char>) -> (f: crate::tree::TraceFrame)
    ensures
        crate::view::view_frame(f) == parse_frame(chunk@),
{
    let identifier = crate::text::chars_to_string(&chunk);
    let n = chunk.len();
    let inner: Vec<char> = match crate::scan::meta_idx_from(&chunk, '{', 0) {
        Some(fb) => crate::text::subvec(&chunk, fb + 1, n),
        None => Vec::new(),
    };
    proof {
        assert(inner@ == frame_inner(chunk@));
    }
    let target = unescaped_string(&crate::scan::find_str(&inner, &crate::text::str_to_chars("\"target\"")));
    let name = unescaped_string(&crate::scan::find_str(&inner, &crate::text::str_to_chars("\"name\"")));
    let fields = unescaped_string(&crate::scan::find_str(&inner, &crate::text::str_to_chars("\"fields\"")));
    let location: Option<crate::tree::SpanLocation> = match crate::scan::find_key(
        &inner,
        &crate::text::str_to_chars("\"source_loc\""),
    ) {
        Some(p) => {
            let ni = inner.len();
            match crate::scan::meta_idx_from(&inner, '{', p) {
                Some(ob) => {
                    match crate::scan::char_idx_from(&inner, '}', ob) {
                        Some(cb) => {
                            if ob < ni && ob + 1 <= cb {
                                let region = crate::text::subvec(&inner, ob + 1, cb);
                                let file_raw = crate::scan::find_str(
                                    &region,
                                    &crate::text::str_to_chars("\"file\""),
                                );
                                if file_raw.len() == 0 {
                                    None
                                } else {
                                    let ls: usize = match crate::scan::find_key(
                                        &region,
                                        &crate::text::str_to_chars("\"line\""),
                                    ) {
                                        Some(l) => l,
                                        None => region.len(),
                                    };
                                    match crate::text::parse_u64_range(&region, ls, region.len()) {
                                        Some(line) => Some(
                                            crate::tree::SpanLocation {
                                                file: unescaped_string(&file_raw),
                                                line,
                                            },
                                        ),
                                        None => None,
                                    }
                                }
                            } else {
                                None
                            }
                        },
                        None => None,
                    }
                },
                None => None,
            }
        },
        None => None,
    };
    let f = crate::tree::TraceFrame { identifier, target, name, fields, location };
    proof {
        assert(crate::view::view_frame(f) == parse_frame(chunk@));
    }
    f
}

/// Reads one encoded node and everything under it back into a tree.
pub fn reconstruct_tree(v: &Vec<char>) -> (t: crate::tree::ErrTree)
    ensures
        crate::view::view_tree(t) == spec_decode(v@),
    decreases v@.len(),
{
    let ghost body = v@;
    let parts = JsonReconstruct::new(v);
    let msg = unescaped_string(&parts.msg);
    let location: Option<String> = if parts.source_line.len() == 0 {
        None
    } else {
        Some(unescaped_string(&parts.source_line))
    };
    let ghost trace_chunks = crate::scan::split_all(parts.trace@);
    let mut trace: Vec<crate::tree::TraceFrame> = Vec::new();
    let mut iter = crate::scan::SourcesIter::new(parts.trace);
    proof {
        assert(crate::view::view_frames(trace@) =~= Seq::new(
            trace@.len(),
            |i: int| parse_frame(trace_chunks[i]),
        ).subrange(0, 0));
        assert(crate::scan::split_all(iter.body@) =~= trace_chunks.skip(0));
    }
    loop
        invariant
            trace@.len() <= trace_chunks.len(),
            crate::view::view_frames(trace@) == Seq::new(
                trace_chunks.len(),
                |i: int| parse_frame(trace_chunks[i]),
            ).subrange(0, trace@.len() as int),
            crate::scan::split_all(iter.body@) == trace_chunks.skip(trace@.len() as int),
        ensures
            crate::view::view_frames(trace@) == Seq::new(
                trace_chunks.len(),
                |i: int| parse_frame(trace_chunks[i]),
            ),
        decreases iter.body@.len(),
    {
        let ghost k = trace@.len() as int;
        let ghost ob = iter.body@;
        let r = iter.next();
        match r {
            Some(chunk) => {
                proof {
                    assert(crate::scan::split_next(ob) == Some((chunk@, iter.body@)));
                    assert(crate::scan::split_all(ob) == seq![chunk@] + crate::scan::split_all(
                        iter.body@,
                    ));
                    assert(trace_chunks.skip(k) == seq![chunk@] + crate::scan::split_all(
                        iter.body@,
                    ));
                    assert(trace_chunks.skip(k)[0] == trace_chunks[k]);
                    assert(trace_chunks[k] == chunk@);
                    assert((seq![chunk@] + crate::scan::split_all(iter.body@)).drop_first()
                        =~= crate::scan::split_all(iter.body@));
                    assert(trace_chunks.skip(k).drop_first() =~= trace_chunks.skip(k + 1));
                    assert(crate::scan::split_all(iter.body@) =~= trace_chunks.skip(k + 1));
                }
                let f = parse_frame_exec(chunk);
                trace.push(f);
                proof {
                    assert(crate::view::view_frames(trace@) =~= Seq::new(
                        trace_chunks.len(),
                        |i: int| parse_frame(trace_chunks[i]),
                    ).subrange(0, trace@.len() as int));
                }
            },
            None => {
                proof {
                    assert(trace_chunks.skip(k) =~= Seq::<Seq<char>>::empty());
                    assert(trace@.len() == trace_chunks.len());
                    assert(crate::view::view_frames(trace@) =~= Seq::new(
                        trace_chunks.len(),
                        |i: int| parse_frame(trace_chunks[i]),
                    ));
                }
                break ;
            },
        }
    }
    let ghost source_chunks = crate::scan::split_all(parts.sources@);
    let ghost bound = if body.len() >= 2 {
        (body.len() - 2) as nat
    } else {
        0nat
    };
    proof {
        assert(parts.sources@.len() <= bound);
    }
    let mut sources: Vec<crate::tree::ErrTree> = Vec::new();
    let mut siter = crate::scan::SourcesIter::new(parts.sources);
    proof {
        assert(crate::view::view_trees(sources@) =~= Seq::<crate::view::TreeView>::empty());
        assert(crate::scan::split_all(siter.body@) == source_chunks);
        assert(decode_chunks(source_chunks, bound) =~= crate::view::view_trees(sources@)
            + decode_chunks(crate::scan::split_all(siter.body@), bound));
    }
    loop
        invariant
            body == v@,
            bound == (if body.len() >= 2 {
                (body.len() - 2) as nat
            } else {
                0nat
            }),
            siter.body@.len() <= bound,
            decode_chunks(source_chunks, bound) == crate::view::view_trees(sources@)
                + decode_chunks(crate::scan::split_all(siter.body@), bound),
        ensures
            decode_chunks(source_chunks, bound) == crate::view::view_trees(sources@),
        decreases siter.body@.len(),
    {
        let ghost ob = siter.body@;
        let r = siter.next();
        match r {
            Some(chunk) => {
                let ghost rest = crate::scan::split_all(siter.body@);
                proof {
                    assert(crate::scan::split_next(ob) == Some((chunk@, siter.body@)));
                    assert(crate::scan::split_all(ob) == seq![chunk@] + rest);
                    assert(chunk@.len() <= bound);
                    assert(chunk@.len() < body.len());
                }
                let ghost osrc = sources@;
                let child = reconstruct_tree(&chunk);
                sources.push(child);
                proof {
                    crate::view::lemma_view_trees_snoc(osrc, child);
                    assert(osrc.push(child) =~= sources@);
                    assert(crate::view::view_trees(sources@) == crate::view::view_trees(
                        osrc,
                    ).push(spec_decode(chunk@)));
                    let all = seq![chunk@] + rest;
                    assert(all.len() > 0 && all[0] == chunk@);
                    assert(all.drop_first() =~= rest);
                    assert(decode_chunks(all, bound) == seq![spec_decode(chunk@)] + decode_chunks(
                        rest,
                        bound,
                    ));
                    assert(crate::view::view_trees(sources@) + decode_chunks(rest, bound)
                        =~= crate::view::view_trees(osrc) + (seq![spec_decode(chunk@)]
                        + decode_chunks(rest, bound)));
                    assert(decode_chunks(source_chunks, bound) =~= crate::view::view_trees(
                        sources@,
                    ) + decode_chunks(rest, bound));
                }
            },
            None => {
                proof {
                    assert(decode_chunks(crate::scan::split_all(siter.body@), bound)
                        =~= Seq::<crate::view::TreeView>::empty());
                    assert(decode_chunks(source_chunks, bound) =~= crate::view::view_trees(
                        sources@,
                    ));
                }
                break ;
            },
        }
    }
    let t = crate::tree::ErrTree { msg, location, trace, sources };
    proof {
        let d = spec_decode(body);
        assert(crate::view::view_tree(t).msg == d.msg);
        assert(crate::view::view_tree(t).location == d.location);
        assert(crate::view::view_tree(t).trace =~= d.trace);
        if body.len() >= 2 {
            assert(crate::view::view_tree(t).sources == d.sources);
        } else {
            assert(parts.sources@.len() == 0);
            assert(parts.sources@ =~= Seq::<char>::empty());
            assert(crate::scan::split_all(parts.sources@) =~= Seq::<Seq<char>>::empty());
            assert(decode_chunks(source_chunks, bound) =~= Seq::<crate::view::TreeView>::empty());
            assert(crate::view::view_tree(t).sources =~= d.sources);
        }
        assert(crate::view::view_tree(t) == d);
    }
    t
}

/// Renders the tree read back out of an encoded blob, with `cap` as in
/// `print_tree`. Only this crate's own encoder's output reconstructs the
/// encoded tree; other input degrades to empty parts, never an error.
pub fn reconstruct_output(json: &str, cap: usize) -> (out: String)
    ensures
        out@ == crate::fmt_logic::spec_render(spec_decode(json@), cap as nat),
{
    let chars = crate::text::str_to_chars(json);
    let tree = reconstruct_tree(&chars);
    crate::fmt_logic::print_tree(&tree, cap)
}

} // verus!
