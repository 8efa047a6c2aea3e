//! Statements that hold of rendering as a whole, proved over the same
//! spec functions that the executable renderer is verified against.

use vstd::prelude::*;

use crate::escape::escape;
use crate::escape::escape_char;
use crate::fmt_logic::find_id;
use crate::fmt_logic::frame_lines;
use crate::fmt_logic::location_part;
use crate::fmt_logic::render_node;
use crate::fmt_logic::trace_lines;
use crate::fmt_logic::trace_part;
use crate::fmt_logic::trunc_marker;
use crate::fmt_logic::with_leading;
use crate::view::FrameView;
use crate::view::TreeView;

verus! {

/// A found identifier really stands in the table at the reported index.
pub proof fn lemma_find_id_hit(found: Seq<Seq<char>>, id: Seq<char>)
    requires
        find_id(found, id) is Some,
    ensures
        ({
            let j = find_id(found, id).unwrap();
            0 <= j < found.len() && found[j] == id
        }),
    decreases found.len(),
{
    if found.len() > 0 && found[0] != id {
        lemma_find_id_hit(found.drop_first(), id);
    }
}

/// An identifier just recorded in the table will be found by every later
/// scan of it: once a frame has been rendered in full, repeats of it
/// within the same render are seen as repeats.
pub proof fn lemma_recorded_id_found(found: Seq<Seq<char>>, id: Seq<char>)
    ensures
        find_id(found.push(id), id) is Some,
    decreases found.len(),
{
    if found.len() > 0 && found[0] != id {
        assert(found.push(id).drop_first() =~= found.drop_first().push(id));
        lemma_recorded_id_found(found.drop_first(), id);
    } else {
        if found.len() == 0 {
            assert(found.push(id)[0] == id);
        }
    }
}

/// A node's location line carries the terminal glyph exactly when the
/// node has no frames and no children; with frames or children it
/// carries the branch glyph. The rendered node is the message, then that
/// line, then the rest.
pub proof fn lemma_location_glyph(
    t: TreeView,
    prefix: Seq<char>,
    found: Seq<Seq<char>>,
    pcap: nat,
    dcap: nat,
)
    requires
        t.location is Some,
    ensures
        ({
            let glyph: Seq<char> = if t.trace.len() == 0 && t.sources.len() == 0 {
                "╰─ "@
            } else {
                "├─ "@
            };
            let line = "\n"@ + prefix + glyph + "at "@ + t.location.unwrap();
            let tp = trace_part(t.trace, t.sources.len() > 0, prefix, found, dcap);
            let tail = tp.0 + (if prefix.len() + 4 > pcap {
                if t.sources.len() > 0 {
                    trunc_marker(prefix)
                } else {
                    Seq::<char>::empty()
                }
            } else {
                crate::fmt_logic::render_children(t.sources, 0, prefix, tp.1, pcap, dcap).0
            });
            render_node(t, prefix, found, pcap, dcap).0 == with_leading(t.msg, prefix + "│ "@)
                + line + tail
        }),
{
    let glyph: Seq<char> = if t.trace.len() == 0 && t.sources.len() == 0 {
        "╰─ "@
    } else {
        "├─ "@
    };
    let line = "\n"@ + prefix + glyph + "at "@ + t.location.unwrap();
    let m = with_leading(t.msg, prefix + "│ "@);
    let tp = trace_part(t.trace, t.sources.len() > 0, prefix, found, dcap);
    assert(location_part(t.location, t.trace.len() == 0 && t.sources.len() == 0, prefix) == line);
    if prefix.len() + 4 > pcap {
        let marker: Seq<char> = if t.sources.len() > 0 {
            trunc_marker(prefix)
        } else {
            Seq::<char>::empty()
        };
        assert(render_node(t, prefix, found, pcap, dcap).0 =~= m + line + (tp.0 + marker));
    } else {
        let ch = crate::fmt_logic::render_children(t.sources, 0, prefix, tp.1, pcap, dcap);
        assert(render_node(t, prefix, found, pcap, dcap).0 =~= m + line + (tp.0 + ch.0));
    }
}

/// A frame whose identifier already stands in the table renders as a
/// back-reference, not a full frame body: the node's frame lines carry
/// on unchanged but for the repeat's table index joining the collected
/// back-references.
pub proof fn lemma_duplicate_frame_back_reference(
    frames: Seq<FrameView>,
    i: int,
    prefix: Seq<char>,
    found: Seq<Seq<char>>,
    reps: Seq<int>,
    dcap: nat,
)
    requires
        0 <= i < frames.len(),
        find_id(found, frames[i].identifier) is Some,
    ensures
        ({
            let j = find_id(found, frames[i].identifier).unwrap();
            trace_lines(frames, i, prefix, found, reps, dcap) == trace_lines(
                frames,
                i + 1,
                prefix,
                found,
                reps.push(j),
                dcap,
            ) && found[j] == frames[i].identifier
        }),
{
    lemma_find_id_hit(found, frames[i].identifier);
}

/// A frame seen for the first time renders in full, numbered with the
/// table's fill, and is recorded while the table has room.
pub proof fn lemma_fresh_frame_rendered(
    frames: Seq<FrameView>,
    i: int,
    prefix: Seq<char>,
    found: Seq<Seq<char>>,
    reps: Seq<int>,
    dcap: nat,
)
    requires
        0 <= i < frames.len(),
        find_id(found, frames[i].identifier) is None,
    ensures
        ({
            let recorded: Seq<Seq<char>> = if found.len() < dcap {
                found.push(frames[i].identifier)
            } else {
                found
            };
            let rest = trace_lines(frames, i + 1, prefix, recorded, reps, dcap);
            trace_lines(frames, i, prefix, found, reps, dcap) == (
                frame_lines(frames[i], prefix, found.len()) + rest.0,
                rest.1,
                rest.2,
            )
        }),
{
}

/// Rendering a tree deeper than the prefix buffer allows stops at the
/// cut: the node's children are replaced by the single truncation marker
/// line, and nothing below them reaches the output — the text does not
/// depend on what the children hold.
pub proof fn lemma_depth_truncation(
    t: TreeView,
    other_sources: Seq<TreeView>,
    prefix: Seq<char>,
    found: Seq<Seq<char>>,
    pcap: nat,
    dcap: nat,
)
    requires
        prefix.len() + 4 > pcap,
        t.sources.len() > 0,
        other_sources.len() > 0,
    ensures
        render_node(t, prefix, found, pcap, dcap).0 == with_leading(t.msg, prefix + "│ "@)
            + location_part(t.location, false, prefix) + trace_part(
            t.trace,
            true,
            prefix,
            found,
            dcap,
        ).0 + trunc_marker(prefix),
        render_node(
            TreeView { sources: other_sources, ..t },
            prefix,
            found,
            pcap,
            dcap,
        ) == render_node(t, prefix, found, pcap, dcap),
{
    let t2 = TreeView { sources: other_sources, ..t };
    assert(location_part(t2.location, t2.trace.len() == 0 && t2.sources.len() == 0, prefix)
        == location_part(t.location, t.trace.len() == 0 && t.sources.len() == 0, prefix));
}

/// The tail of a matched region is itself a matched region.
proof fn lemma_subrange_shift(body: Seq<char>, e: Seq<char>, i: int, d: int)
    requires
        0 <= i,
        0 <= d <= e.len(),
        i + e.len() <= body.len(),
        body.subrange(i, i + e.len()) == e,
    ensures
        body.subrange(i + d, i + e.len()) == e.subrange(d, e.len() as int),
{
    assert forall|k: int| 0 <= k < e.len() - d implies body[i + d + k] == #[trigger] e[d + k] by {
        assert(body.subrange(i, i + e.len())[d + k] == body[i + d + k]);
    }
    assert(body.subrange(i + d, i + e.len()) =~= e.subrange(d, e.len() as int));
}

/// A scan for a key passes over escaped text standing inside a quoted
/// value without a hit: the quote state shields every position in it.
proof fn lemma_key_scan_through_escaped(
    body: Seq<char>,
    key: Seq<char>,
    s: Seq<char>,
    i: int,
    st: crate::scan::ScanSt,
)
    requires
        !st.esc,
        st.quote,
        0 <= i,
        i + escape(s).len() <= body.len(),
        body.subrange(i, i + escape(s).len()) == escape(s),
    ensures
        crate::scan::key_end_rec(body, key, i, st) == crate::scan::key_end_rec(
            body,
            key,
            i + escape(s).len(),
            st,
        ),
    decreases s.len(),
{
    if s.len() == 0 {
        assert(escape(s).len() == 0);
    } else {
        let e = escape(s);
        let ec = escape_char(s[0]);
        let rest = escape(s.drop_first());
        assert(e == ec + rest);
        assert(body.subrange(i, i + e.len())[0] == body[i]);
        assert(e[0] == ec[0]);
        assert(rest =~= e.subrange(ec.len() as int, e.len() as int));
        assert(e.len() == ec.len() + rest.len());
        if ec.len() == 1 {
            assert(ec[0] == s[0] && s[0] != '\\' && s[0] != '"');
            assert(crate::scan::scan_step(st, body[i]) == Some(st));
            lemma_subrange_shift(body, e, i, 1);
            lemma_key_scan_through_escaped(body, key, s.drop_first(), i + 1, st);
            assert(crate::scan::key_end_rec(body, key, i, st) == crate::scan::key_end_rec(
                body,
                key,
                i + 1,
                st,
            ));
        } else {
            assert(ec[0] == '\\' && e[1] == ec[1]);
            assert(body.subrange(i, i + e.len())[1] == body[i + 1]);
            assert(body[i + 1] == ec[1]);
            let st_esc = crate::scan::ScanSt { esc: true, ..st };
            assert(crate::scan::scan_step(st, body[i]) == Some(st_esc));
            assert(crate::scan::scan_step(st_esc, body[i + 1]) == Some(st));
            lemma_subrange_shift(body, e, i, 2);
            lemma_key_scan_through_escaped(body, key, s.drop_first(), i + 2, st);
            assert(crate::scan::key_end_rec(body, key, i, st) == crate::scan::key_end_rec(
                body,
                key,
                i + 1,
                st_esc,
            ));
            assert(crate::scan::key_end_rec(body, key, i + 1, st_esc) == crate::scan::key_end_rec(
                body,
                key,
                i + 2,
                st,
            ));
        }
    }
}

/// The first unescaped quote after escaped text is the one that closes
/// its value.
proof fn lemma_quote_end_after_escaped(body: Seq<char>, s: Seq<char>, i: int)
    requires
        0 <= i,
        i + escape(s).len() < body.len(),
        body.subrange(i, i + escape(s).len()) == escape(s),
        body[i + escape(s).len()] == '"',
    ensures
        crate::scan::quote_end_rec(body, i, false) == Some(i + escape(s).len()),
    decreases s.len(),
{
    if s.len() == 0 {
        assert(escape(s).len() == 0);
        assert(body[i] == '"');
    } else {
        let e = escape(s);
        let ec = escape_char(s[0]);
        let rest = escape(s.drop_first());
        assert(e == ec + rest);
        assert(body.subrange(i, i + e.len())[0] == body[i]);
        assert(e[0] == ec[0]);
        assert(rest =~= e.subrange(ec.len() as int, e.len() as int));
        if ec.len() == 1 {
            assert(ec[0] == s[0] && s[0] != '\\' && s[0] != '"');
            assert(e.len() == 1 + rest.len());
            lemma_subrange_shift(body, e, i, 1);
            lemma_quote_end_after_escaped(body, s.drop_first(), i + 1);
            assert(crate::scan::quote_end_rec(body, i, false) == crate::scan::quote_end_rec(
                body,
                i + 1,
                false,
            ));
        } else {
            assert(ec[0] == '\\' && e[1] == ec[1]);
            assert(body.subrange(i, i + e.len())[1] == body[i + 1]);
            assert(body[i + 1] == ec[1]);
            assert(e.len() == 2 + rest.len());
            lemma_subrange_shift(body, e, i, 2);
            lemma_quote_end_after_escaped(body, s.drop_first(), i + 2);
            assert(crate::scan::quote_end_rec(body, i, false) == crate::scan::quote_end_rec(
                body,
                i + 1,
                true,
            ));
            assert(crate::scan::quote_end_rec(body, i + 1, true) == crate::scan::quote_end_rec(
                body,
                i + 2,
                false,
            ));
        }
    }
}

/// The encoding of a node that carries only a message.
spec fn msg_only_encoding(msg: Seq<char>) -> Seq<char> {
    "{\"msg\":\""@ + escape(msg) + "\""@ + "}"@
}

/// The inner body of that encoding: past the braces, the message key,
/// its colon, and the quoted escaped message.
spec fn msg_only_inner(msg: Seq<char>) -> Seq<char> {
    "\"msg\":\""@ + escape(msg) + "\""@
}

/// Facts about the shape of a message-only encoding's inner body.
proof fn lemma_msg_only_inner_shape(msg: Seq<char>)
    ensures
        crate::json::encode_node(
            TreeView {
                msg,
                location: None,
                trace: Seq::<FrameView>::empty(),
                sources: Seq::<TreeView>::empty(),
            },
        ) == msg_only_encoding(msg),
        crate::json::node_inner(msg_only_encoding(msg)) == msg_only_inner(msg),
        msg_only_inner(msg).len() == 8 + escape(msg).len(),
        msg_only_inner(msg)[0] == '"',
        msg_only_inner(msg)[1] == 'm',
        msg_only_inner(msg)[2] == 's',
        msg_only_inner(msg)[3] == 'g',
        msg_only_inner(msg)[4] == '"',
        msg_only_inner(msg)[5] == ':',
        msg_only_inner(msg)[6] == '"',
        msg_only_inner(msg).subrange(7, 7 + escape(msg).len() as int) == escape(msg),
        msg_only_inner(msg)[7 + escape(msg).len() as int] == '"',
{
    let t = TreeView {
        msg,
        location: None,
        trace: Seq::<FrameView>::empty(),
        sources: Seq::<TreeView>::empty(),
    };
    let e = escape(msg);
    let enc = msg_only_encoding(msg);
    let inner = msg_only_inner(msg);
    reveal_strlit("{\"msg\":\"");
    reveal_strlit("\"msg\":\"");
    reveal_strlit("\"");
    reveal_strlit("}");
    assert(crate::json::encode_node(t) =~= enc);
    assert(enc.len() == 10 + e.len());
    assert(enc[0] == '{');
    assert(crate::scan::meta_idx_rec(enc, '{', 0, false) == Some(0int));
    assert(crate::json::node_inner(enc) =~= inner);
    assert(inner.subrange(7, 7 + e.len() as int) =~= e);
}

/// In a message-only encoding, a key of seven characters or more other
/// than the message key is not found: nothing but the message is there.
proof fn lemma_msg_only_key_absent(msg: Seq<char>, key: Seq<char>)
    requires
        key.len() >= 7,
    ensures
        crate::scan::find_json_key(key, msg_only_inner(msg)) is None,
{
    lemma_msg_only_inner_shape(msg);
    let e = escape(msg);
    let inner = msg_only_inner(msg);
    let st0 = crate::scan::scan_init();
    let stq = crate::scan::ScanSt { esc: false, quote: true, brace: 0, bracket: 0 };
    assert(crate::scan::scan_step(st0, '"') == Some(stq));
    assert(crate::scan::scan_step(stq, 'm') == Some(stq));
    assert(crate::scan::scan_step(stq, 's') == Some(stq));
    assert(crate::scan::scan_step(stq, 'g') == Some(stq));
    assert(crate::scan::scan_step(stq, '"') == Some(st0));
    assert(crate::scan::scan_step(st0, ':') == Some(st0));
    assert(crate::scan::key_end_rec(inner, key, 0, st0) == crate::scan::key_end_rec(
        inner,
        key,
        1,
        stq,
    ));
    assert(crate::scan::key_end_rec(inner, key, 1, stq) == crate::scan::key_end_rec(
        inner,
        key,
        2,
        stq,
    ));
    assert(crate::scan::key_end_rec(inner, key, 2, stq) == crate::scan::key_end_rec(
        inner,
        key,
        3,
        stq,
    ));
    assert(crate::scan::key_end_rec(inner, key, 3, stq) == crate::scan::key_end_rec(
        inner,
        key,
        4,
        stq,
    ));
    assert(crate::scan::key_end_rec(inner, key, 4, stq) == crate::scan::key_end_rec(
        inner,
        key,
        5,
        st0,
    ));
    assert(crate::scan::key_end_rec(inner, key, 5, st0) == crate::scan::key_end_rec(
        inner,
        key,
        6,
        st0,
    ));
    assert(crate::scan::key_end_rec(inner, key, 6, st0) == crate::scan::key_end_rec(
        inner,
        key,
        7,
        stq,
    ));
    lemma_key_scan_through_escaped(inner, key, msg, 7, stq);
    let last: int = 7 + e.len() as int;
    assert(crate::scan::scan_step(stq, inner[last]) == Some(st0));
    if last + 1 >= key.len() && inner.subrange(last + 1 - key.len() as int, last + 1) == key {
        assert(crate::scan::key_end_rec(inner, key, last, stq) == Some(last));
    } else {
        assert(crate::scan::key_end_rec(inner, key, last, stq) == crate::scan::key_end_rec(
            inner,
            key,
            last + 1,
            st0,
        ));
        assert(crate::scan::key_end_rec(inner, key, last + 1, st0) is None);
    }
    match crate::scan::key_end_rec(inner, key, 0, st0) {
        Some(hit) => {
            assert(hit == last);
            assert(!(hit + 1 < inner.len()));
        },
        None => {},
    }
}

/// Round trip for one record: reading back the encoding of a node that
/// carries only a message yields exactly that node, so the reconstructed
/// tree renders identically to the original.
pub proof fn lemma_codec_round_trip_single(msg: Seq<char>, cap: nat)
    ensures
        ({
            let t = TreeView {
                msg,
                location: None,
                trace: Seq::<FrameView>::empty(),
                sources: Seq::<TreeView>::empty(),
            };
            crate::json::spec_decode(crate::json::encode_node(t)) == t
                && crate::fmt_logic::spec_render(
                crate::json::spec_decode(crate::json::encode_node(t)),
                cap,
            ) == crate::fmt_logic::spec_render(t, cap)
        }),
{
    let t = TreeView {
        msg,
        location: None,
        trace: Seq::<FrameView>::empty(),
        sources: Seq::<TreeView>::empty(),
    };
    lemma_msg_only_inner_shape(msg);
    let e = escape(msg);
    let enc = msg_only_encoding(msg);
    let inner = msg_only_inner(msg);
    let st0 = crate::scan::scan_init();
    let stq = crate::scan::ScanSt { esc: false, quote: true, brace: 0, bracket: 0 };
    let key = "\"msg\""@;
    reveal_strlit("\"msg\"");
    reveal_strlit("\"location\"");
    reveal_strlit("\"trace\"");
    reveal_strlit("\"sources\"");
    // The message key ends at index four, in a regular region.
    assert(crate::scan::scan_step(st0, '"') == Some(stq));
    assert(crate::scan::scan_step(stq, 'm') == Some(stq));
    assert(crate::scan::key_end_rec(inner, key, 0, st0) == crate::scan::key_end_rec(
        inner,
        key,
        1,
        stq,
    ));
    assert(crate::scan::key_end_rec(inner, key, 1, stq) == crate::scan::key_end_rec(
        inner,
        key,
        2,
        stq,
    ));
    assert(crate::scan::key_end_rec(inner, key, 2, stq) == crate::scan::key_end_rec(
        inner,
        key,
        3,
        stq,
    ));
    assert(crate::scan::key_end_rec(inner, key, 3, stq) == crate::scan::key_end_rec(
        inner,
        key,
        4,
        stq,
    ));
    assert(inner.subrange(0, 5) =~= key);
    assert(crate::scan::key_end_rec(inner, key, 4, stq) == Some(4int));
    // Its value starts right after the colon and is closed by the first
    // unescaped quote.
    assert(crate::scan::meta_idx_rec(inner, ':', 5, false) == Some(5int));
    assert(crate::scan::find_json_key(key, inner) == Some(6int));
    assert(crate::scan::meta_idx_rec(inner, '"', 6, false) == Some(6int));
    lemma_quote_end_after_escaped(inner, msg, 7);
    assert(inner.subrange(7, 7 + e.len() as int) == e);
    assert(crate::scan::find_json_str(key, inner) == e);
    crate::escape::lemma_unescape_escape(msg);
    // No other key is present, so everything else reads back empty.
    lemma_msg_only_key_absent(msg, "\"location\""@);
    lemma_msg_only_key_absent(msg, "\"trace\""@);
    lemma_msg_only_key_absent(msg, "\"sources\""@);
    let d = crate::json::spec_decode(enc);
    assert(crate::json::list_inner(inner, "\"trace\""@) == Seq::<char>::empty());
    assert(crate::json::list_inner(inner, "\"sources\""@) == Seq::<char>::empty());
    assert(crate::scan::split_all(Seq::<char>::empty()) =~= Seq::<Seq<char>>::empty());
    assert(crate::json::decode_chunks(Seq::<Seq<char>>::empty(), (enc.len() - 2) as nat)
        =~= Seq::<TreeView>::empty());
    assert(d.msg == msg);
    assert(d.location is None);
    assert(d.trace =~= Seq::<FrameView>::empty());
    assert(d.sources =~= Seq::<TreeView>::empty());
    assert(d == t);
}

/// Escaping introduces a quote character only for a quote in the text.
proof fn lemma_escape_no_quote(s: Seq<char>)
    requires
        forall|j: int| 0 <= j < s.len() ==> s[j] != '"',
    ensures
        forall|j: int| 0 <= j < escape(s).len() ==> escape(s)[j] != '"',
    decreases s.len(),
{
    if s.len() > 0 {
        let e = escape(s);
        let ec = escape_char(s[0]);
        let rest = escape(s.drop_first());
        assert(e == ec + rest);
        lemma_escape_no_quote(s.drop_first());
        assert forall|j: int| 0 <= j < e.len() implies e[j] != '"' by {
            if j < ec.len() {
                assert(e[j] == ec[j]);
            } else {
                assert(e[j] == rest[j - ec.len()]);
            }
        }
    }
}

/// Plain text with no backslash escapes to itself only as itself: an
/// escaped form equal to `location` can only have come from `location`.
proof fn lemma_escape_location_inverts(msg: Seq<char>)
    requires
        escape(msg) == "location"@,
    ensures
        msg == "location"@,
{
    reveal_strlit("location");
    crate::escape::lemma_unescape_escape(msg);
    let w = "location"@;
    assert(crate::escape::unescape(w) =~= w) by {
        assert(w.len() == 8);
        assert(w.skip(1) =~= w.subrange(1, 8));
        assert(w.subrange(7, 8).drop_first() =~= w.subrange(8, 8));
        assert(w.subrange(6, 8).drop_first() =~= w.subrange(7, 8));
        assert(w.subrange(5, 8).drop_first() =~= w.subrange(6, 8));
        assert(w.subrange(4, 8).drop_first() =~= w.subrange(5, 8));
        assert(w.subrange(3, 8).drop_first() =~= w.subrange(4, 8));
        assert(w.subrange(2, 8).drop_first() =~= w.subrange(3, 8));
        assert(w.subrange(1, 8).drop_first() =~= w.subrange(2, 8));
        assert(w.drop_first() =~= w.subrange(1, 8));
        assert(crate::escape::unescape(w.subrange(8, 8)) =~= Seq::<char>::empty());
        assert(crate::escape::unescape(w.subrange(7, 8)) =~= w.subrange(7, 8));
        assert(crate::escape::unescape(w.subrange(6, 8)) =~= w.subrange(6, 8));
        assert(crate::escape::unescape(w.subrange(5, 8)) =~= w.subrange(5, 8));
        assert(crate::escape::unescape(w.subrange(4, 8)) =~= w.subrange(4, 8));
        assert(crate::escape::unescape(w.subrange(3, 8)) =~= w.subrange(3, 8));
        assert(crate::escape::unescape(w.subrange(2, 8)) =~= w.subrange(2, 8));
        assert(crate::escape::unescape(w.subrange(1, 8)) =~= w.subrange(1, 8));
    }
}

/// The encoding of a node that carries a message and a location.
spec fn msg_loc_encoding(msg: Seq<char>, loc: Seq<char>) -> Seq<char> {
    "{\"msg\":\""@ + escape(msg) + "\",\"location\":\""@ + escape(loc) + "\""@ + "}"@
}

/// The inner body of that encoding.
spec fn msg_loc_inner(msg: Seq<char>, loc: Seq<char>) -> Seq<char> {
    "\"msg\":\""@ + escape(msg) + "\",\"location\":\""@ + escape(loc) + "\""@
}

/// Facts about the shape of a message-and-location encoding's inner
/// body, with `p` the index of the quote that closes the message value.
#[verifier::rlimit(60)]
proof fn lemma_msg_loc_inner_shape(msg: Seq<char>, loc: Seq<char>)
    ensures
        ({
            let t = TreeView {
                msg,
                location: Some(loc),
                trace: Seq::<FrameView>::empty(),
                sources: Seq::<TreeView>::empty(),
            };
            crate::json::encode_node(t) == msg_loc_encoding(msg, loc)
        }),
        crate::json::node_inner(msg_loc_encoding(msg, loc)) == msg_loc_inner(msg, loc),
        ({
            let inner = msg_loc_inner(msg, loc);
            let a = escape(msg).len() as int;
            let b = escape(loc).len() as int;
            let p = 7 + a;
            inner.len() == 22 + a + b && inner[0] == '"' && inner[1] == 'm' && inner[2] == 's'
                && inner[3] == 'g' && inner[4] == '"' && inner[5] == ':' && inner[6] == '"'
                && inner.subrange(0, 5) == "\"msg\""@ && inner.subrange(7, p) == escape(msg)
                && inner[p] == '"' && inner[p + 1] == ',' && inner[p + 2] == '"' && inner[p + 3]
                == 'l' && inner[p + 4] == 'o' && inner[p + 5] == 'c' && inner[p + 6] == 'a'
                && inner[p + 7] == 't' && inner[p + 8] == 'i' && inner[p + 9] == 'o' && inner[p
                + 10] == 'n' && inner[p + 11] == '"' && inner[p + 12] == ':' && inner[p + 13]
                == '"' && inner.subrange(p + 2, p + 12) == "\"location\""@ && inner.subrange(
                p + 14,
                p + 14 + b,
            ) == escape(loc) && inner[p + 14 + b] == '"'
        }),
{
    let t = TreeView {
        msg,
        location: Some(loc),
        trace: Seq::<FrameView>::empty(),
        sources: Seq::<TreeView>::empty(),
    };
    let em = escape(msg);
    let el = escape(loc);
    let a = em.len() as int;
    let b = el.len() as int;
    let p = 7 + a;
    let enc = msg_loc_encoding(msg, loc);
    let inner = msg_loc_inner(msg, loc);
    reveal_strlit("{\"msg\":\"");
    reveal_strlit("\"msg\":\"");
    reveal_strlit("\",\"location\":\"");
    reveal_strlit(",\"location\":\"");
    reveal_strlit("\"");
    reveal_strlit("}");
    reveal_strlit("\"msg\"");
    reveal_strlit("\"location\"");
    assert(crate::json::encode_node(t) =~= enc);
    assert(enc.len() == 24 + a + b);
    assert(enc[0] == '{');
    assert(crate::scan::meta_idx_rec(enc, '{', 0, false) == Some(0int));
    assert(crate::json::node_inner(enc) =~= inner);
    assert(inner.subrange(0, 5) =~= "\"msg\""@);
    assert(inner.subrange(7, p) =~= em);
    assert(inner.subrange(p + 2, p + 12) =~= "\"location\""@);
    assert(inner.subrange(p + 14, p + 14 + b) =~= el);
}

/// Scanning for a long key reaches the quote that closes the message
/// value with the scan still inside that value's quote state.
proof fn lemma_msg_loc_scan_to_close(msg: Seq<char>, loc: Seq<char>, key: Seq<char>)
    requires
        key.len() >= 7,
    ensures
        ({
            let inner = msg_loc_inner(msg, loc);
            let p = 7 + escape(msg).len() as int;
            crate::scan::key_end_rec(inner, key, 0, crate::scan::scan_init())
                == crate::scan::key_end_rec(
                inner,
                key,
                p,
                (crate::scan::ScanSt { esc: false, quote: true, brace: 0, bracket: 0 }),
            )
        }),
{
    lemma_msg_loc_inner_shape(msg, loc);
    let inner = msg_loc_inner(msg, loc);
    let p = 7 + escape(msg).len() as int;
    let st0 = crate::scan::scan_init();
    let stq = crate::scan::ScanSt { esc: false, quote: true, brace: 0, bracket: 0 };
    assert(crate::scan::scan_step(st0, '"') == Some(stq));
    assert(crate::scan::scan_step(stq, 'm') == Some(stq));
    assert(crate::scan::scan_step(stq, '"') == Some(st0));
    assert(crate::scan::scan_step(st0, ':') == Some(st0));
    assert(crate::scan::key_end_rec(inner, key, 0, st0) == crate::scan::key_end_rec(
        inner,
        key,
        1,
        stq,
    ));
    assert(crate::scan::key_end_rec(inner, key, 1, stq) == crate::scan::key_end_rec(
        inner,
        key,
        2,
        stq,
    ));
    assert(crate::scan::key_end_rec(inner, key, 2, stq) == crate::scan::key_end_rec(
        inner,
        key,
        3,
        stq,
    ));
    assert(crate::scan::key_end_rec(inner, key, 3, stq) == crate::scan::key_end_rec(
        inner,
        key,
        4,
        stq,
    ));
    assert(crate::scan::key_end_rec(inner, key, 4, stq) == crate::scan::key_end_rec(
        inner,
        key,
        5,
        st0,
    ));
    assert(crate::scan::key_end_rec(inner, key, 5, st0) == crate::scan::key_end_rec(
        inner,
        key,
        6,
        st0,
    ));
    assert(crate::scan::key_end_rec(inner, key, 6, st0) == crate::scan::key_end_rec(
        inner,
        key,
        7,
        stq,
    ));
    lemma_key_scan_through_escaped(inner, key, msg, 7, stq);
}

/// In a message-and-location encoding, neither the frame-list key nor
/// the child-list key is found.
#[verifier::rlimit(100)]
proof fn lemma_msg_loc_key_absent(msg: Seq<char>, loc: Seq<char>, key: Seq<char>)
    requires
        key == "\"trace\""@ || key == "\"sources\""@,
    ensures
        crate::scan::find_json_key(key, msg_loc_inner(msg, loc)) is None,
{
    reveal_strlit("\"trace\"");
    reveal_strlit("\"sources\"");
    lemma_msg_loc_inner_shape(msg, loc);
    let inner = msg_loc_inner(msg, loc);
    let a = escape(msg).len() as int;
    let b = escape(loc).len() as int;
    let p = 7 + a;
    let q = p + 14 + b;
    let st0 = crate::scan::scan_init();
    let stq = crate::scan::ScanSt { esc: false, quote: true, brace: 0, bracket: 0 };
    lemma_msg_loc_scan_to_close(msg, loc, key);
    assert(crate::scan::scan_step(stq, '"') == Some(st0));
    assert(key[key.len() - 1] == '"');
    assert(key[0] == '"');
    if p + 1 >= key.len() && inner.subrange(p + 1 - key.len() as int, p + 1) == key {
        // A stray hit at the message value's closing quote is dismissed
        // for want of a colon after it.
        assert(crate::scan::key_end_rec(inner, key, p, stq) == Some(p));
        assert(crate::scan::key_end_rec(inner, key, 0, st0) == Some(p));
        assert(crate::scan::meta_idx_rec(inner, ':', p + 1, false) == crate::scan::meta_idx_rec(
            inner,
            ':',
            p + 2,
            false,
        ));
        assert(crate::scan::meta_idx_rec(inner, ':', p + 2, false) is None);
        assert(crate::scan::find_json_key(key, inner) is None);
    } else {
        assert(crate::scan::scan_step(st0, ',') == Some(st0));
        assert(crate::scan::scan_step(st0, '"') == Some(stq));
        assert(crate::scan::scan_step(st0, ':') == Some(st0));
        assert(crate::scan::scan_step(stq, 'l') == Some(stq));
        assert(crate::scan::scan_step(stq, 'o') == Some(stq));
        assert(crate::scan::scan_step(stq, 'c') == Some(stq));
        assert(crate::scan::scan_step(stq, 'a') == Some(stq));
        assert(crate::scan::scan_step(stq, 't') == Some(stq));
        assert(crate::scan::scan_step(stq, 'i') == Some(stq));
        assert(crate::scan::scan_step(stq, 'n') == Some(stq));
        assert(crate::scan::key_end_rec(inner, key, p, stq) == crate::scan::key_end_rec(
            inner,
            key,
            p + 1,
            st0,
        ));
        // The separating comma is no quote, so no key ends there.
        assert(inner.subrange(p + 2 - key.len() as int, p + 2) != key) by {
            if inner.subrange(p + 2 - key.len() as int, p + 2) == key {
                assert(inner.subrange(p + 2 - key.len() as int, p + 2)[key.len() - 1] == inner[p
                    + 1]);
            }
        }
        assert(crate::scan::key_end_rec(inner, key, p + 1, st0) == crate::scan::key_end_rec(
            inner,
            key,
            p + 2,
            st0,
        ));
        assert(crate::scan::key_end_rec(inner, key, p + 2, st0) == crate::scan::key_end_rec(
            inner,
            key,
            p + 3,
            stq,
        ));
        assert(crate::scan::key_end_rec(inner, key, p + 3, stq) == crate::scan::key_end_rec(
            inner,
            key,
            p + 4,
            stq,
        ));
        assert(crate::scan::key_end_rec(inner, key, p + 4, stq) == crate::scan::key_end_rec(
            inner,
            key,
            p + 5,
            stq,
        ));
        assert(crate::scan::key_end_rec(inner, key, p + 5, stq) == crate::scan::key_end_rec(
            inner,
            key,
            p + 6,
            stq,
        ));
        assert(crate::scan::key_end_rec(inner, key, p + 6, stq) == crate::scan::key_end_rec(
            inner,
            key,
            p + 7,
            stq,
        ));
        assert(crate::scan::key_end_rec(inner, key, p + 7, stq) == crate::scan::key_end_rec(
            inner,
            key,
            p + 8,
            stq,
        ));
        assert(crate::scan::key_end_rec(inner, key, p + 8, stq) == crate::scan::key_end_rec(
            inner,
            key,
            p + 9,
            stq,
        ));
        assert(crate::scan::key_end_rec(inner, key, p + 9, stq) == crate::scan::key_end_rec(
            inner,
            key,
            p + 10,
            stq,
        ));
        assert(crate::scan::key_end_rec(inner, key, p + 10, stq) == crate::scan::key_end_rec(
            inner,
            key,
            p + 11,
            stq,
        ));
        // The quote closing the location key's name: the key searched for
        // would have to start inside `location`, where no quote stands.
        assert(inner.subrange(p + 12 - key.len() as int, p + 12) != key) by {
            if inner.subrange(p + 12 - key.len() as int, p + 12) == key {
                assert(inner.subrange(p + 12 - key.len() as int, p + 12)[0] == inner[p + 12
                    - key.len() as int]);
            }
        }
        assert(crate::scan::key_end_rec(inner, key, p + 11, stq) == crate::scan::key_end_rec(
            inner,
            key,
            p + 12,
            st0,
        ));
        // The colon is no quote either.
        assert(inner.subrange(p + 13 - key.len() as int, p + 13) != key) by {
            if inner.subrange(p + 13 - key.len() as int, p + 13) == key {
                assert(inner.subrange(p + 13 - key.len() as int, p + 13)[key.len() - 1] == inner[p
                    + 12]);
            }
        }
        assert(crate::scan::key_end_rec(inner, key, p + 12, st0) == crate::scan::key_end_rec(
            inner,
            key,
            p + 13,
            st0,
        ));
        assert(crate::scan::key_end_rec(inner, key, p + 13, st0) == crate::scan::key_end_rec(
            inner,
            key,
            p + 14,
            stq,
        ));
        lemma_key_scan_through_escaped(inner, key, loc, p + 14, stq);
        // The final quote is the last character: even a hit there leaves
        // no room for a colon.
        if q + 1 >= key.len() && inner.subrange(q + 1 - key.len() as int, q + 1) == key {
            assert(crate::scan::key_end_rec(inner, key, q, stq) == Some(q));
            assert(crate::scan::key_end_rec(inner, key, 0, st0) == Some(q));
            assert(!(q + 1 < inner.len()));
            assert(crate::scan::find_json_key(key, inner) is None);
        } else {
            assert(crate::scan::key_end_rec(inner, key, q, stq) == crate::scan::key_end_rec(
                inner,
                key,
                q + 1,
                st0,
            ));
            assert(crate::scan::key_end_rec(inner, key, q + 1, st0) is None);
            assert(crate::scan::find_json_key(key, inner) is None);
        }
    }
}

/// In a message-and-location encoding, the message key's value is the
/// escaped message.
#[verifier::rlimit(60)]
proof fn lemma_msg_loc_find_msg(msg: Seq<char>, loc: Seq<char>)
    ensures
        crate::scan::find_json_str("\"msg\""@, msg_loc_inner(msg, loc)) == escape(msg),
{
    lemma_msg_loc_inner_shape(msg, loc);
    let inner = msg_loc_inner(msg, loc);
    let st0 = crate::scan::scan_init();
    let stq = crate::scan::ScanSt { esc: false, quote: true, brace: 0, bracket: 0 };
    let key = "\"msg\""@;
    reveal_strlit("\"msg\"");
    assert(crate::scan::scan_step(st0, '"') == Some(stq));
    assert(crate::scan::scan_step(stq, 'm') == Some(stq));
    assert(crate::scan::scan_step(stq, '"') == Some(st0));
    assert(crate::scan::key_end_rec(inner, key, 0, st0) == crate::scan::key_end_rec(
        inner,
        key,
        1,
        stq,
    ));
    assert(crate::scan::key_end_rec(inner, key, 1, stq) == crate::scan::key_end_rec(
        inner,
        key,
        2,
        stq,
    ));
    assert(crate::scan::key_end_rec(inner, key, 2, stq) == crate::scan::key_end_rec(
        inner,
        key,
        3,
        stq,
    ));
    assert(crate::scan::key_end_rec(inner, key, 3, stq) == crate::scan::key_end_rec(
        inner,
        key,
        4,
        stq,
    ));
    assert(inner.subrange(0, 5) =~= key);
    assert(crate::scan::key_end_rec(inner, key, 4, stq) == Some(4int));
    assert(crate::scan::meta_idx_rec(inner, ':', 5, false) == Some(5int));
    assert(crate::scan::find_json_key(key, inner) == Some(6int));
    assert(crate::scan::meta_idx_rec(inner, '"', 6, false) == Some(6int));
    lemma_quote_end_after_escaped(inner, msg, 7);
    assert(crate::scan::find_json_str(key, inner) == escape(msg));
}

/// Ten characters matching the location key right at the end of an
/// eight-character escaped message force that message to be `location`.
proof fn lemma_match_means_location(inner: Seq<char>, em: Seq<char>)
    requires
        em.len() == 8,
        16 <= inner.len(),
        inner.subrange(7, 15) == em,
        inner.subrange(6, 16) == "\"location\""@,
    ensures
        em == "location"@,
{
    reveal_strlit("\"location\"");
    reveal_strlit("location");
    let sub = inner.subrange(6, 16);
    assert(inner.subrange(7, 15)[0] == inner[7]);
    assert(sub[1] == inner[7]);
    assert(em[0] == 'l');
    assert(inner.subrange(7, 15)[1] == inner[8]);
    assert(sub[2] == inner[8]);
    assert(em[1] == 'o');
    assert(inner.subrange(7, 15)[2] == inner[9]);
    assert(sub[3] == inner[9]);
    assert(em[2] == 'c');
    assert(inner.subrange(7, 15)[3] == inner[10]);
    assert(sub[4] == inner[10]);
    assert(em[3] == 'a');
    assert(inner.subrange(7, 15)[4] == inner[11]);
    assert(sub[5] == inner[11]);
    assert(em[4] == 't');
    assert(inner.subrange(7, 15)[5] == inner[12]);
    assert(sub[6] == inner[12]);
    assert(em[5] == 'i');
    assert(inner.subrange(7, 15)[6] == inner[13]);
    assert(sub[7] == inner[13]);
    assert(em[6] == 'o');
    assert(inner.subrange(7, 15)[7] == inner[14]);
    assert(sub[8] == inner[14]);
    assert(em[7] == 'n');
    assert(em =~= "location"@);
}

/// No stray location-key hit at the quote that closes the message value:
/// the ten characters before it cannot read `"location"`.
#[verifier::rlimit(100)]
proof fn lemma_no_false_location_hit(msg: Seq<char>, loc: Seq<char>)
    requires
        forall|j: int| 0 <= j < msg.len() ==> msg[j] != '"',
        msg != "location"@,
    ensures
        ({
            let inner = msg_loc_inner(msg, loc);
            let p = 7 + escape(msg).len() as int;
            let key_loc = "\"location\""@;
            !(p + 1 >= key_loc.len() && inner.subrange(p + 1 - key_loc.len() as int, p + 1)
                == key_loc)
        }),
{
    lemma_msg_loc_inner_shape(msg, loc);
    let em = escape(msg);
    let a = em.len() as int;
    let p = 7 + a;
    let inner = msg_loc_inner(msg, loc);
    let key_loc = "\"location\""@;
    reveal_strlit("\"location\"");
    reveal_strlit("location");
    if p + 1 >= key_loc.len() && inner.subrange(p + 1 - key_loc.len() as int, p + 1) == key_loc {
        let sub = inner.subrange(p - 9, p + 1);
        assert(sub[0] == inner[p - 9] && sub[0] == '"');
        assert(sub[1] == inner[p - 8] && sub[1] == 'l');
        if p - 9 >= 7 {
            lemma_escape_no_quote(msg);
            assert(inner.subrange(7, p)[p - 9 - 7] == inner[p - 9]);
            assert(false);
        } else if p - 9 == 4 {
            assert(sub[1] == inner[5]);
            assert(false);
        } else if p - 9 == 0 {
            assert(sub[1] == inner[1]);
            assert(false);
        } else if p - 9 == 1 {
            assert(sub[0] == inner[1]);
            assert(false);
        } else if p - 9 == 2 {
            assert(sub[0] == inner[2]);
            assert(false);
        } else if p - 9 == 3 {
            assert(sub[0] == inner[3]);
            assert(false);
        } else if p - 9 == 5 {
            assert(sub[0] == inner[5]);
            assert(false);
        } else if p - 9 == 6 {
            assert(a == 8);
            assert(inner.subrange(7, 15) == em);
            assert(inner.subrange(6, 16) == key_loc);
            lemma_match_means_location(inner, em);
            lemma_escape_location_inverts(msg);
            assert(false);
        } else {
            assert(false);
        }
    }
}

/// The location key's closing quote is where the scan for it ends.
#[verifier::rlimit(100)]
proof fn lemma_location_key_end(msg: Seq<char>, loc: Seq<char>)
    requires
        forall|j: int| 0 <= j < msg.len() ==> msg[j] != '"',
        msg != "location"@,
    ensures
        ({
            let inner = msg_loc_inner(msg, loc);
            let p = 7 + escape(msg).len() as int;
            crate::scan::key_end_rec(inner, "\"location\""@, 0, crate::scan::scan_init()) == Some(
                p + 11,
            )
        }),
{
    lemma_msg_loc_inner_shape(msg, loc);
    let em = escape(msg);
    let a = em.len() as int;
    let p = 7 + a;
    let inner = msg_loc_inner(msg, loc);
    let st0 = crate::scan::scan_init();
    let stq = crate::scan::ScanSt { esc: false, quote: true, brace: 0, bracket: 0 };
    let key_loc = "\"location\""@;
    reveal_strlit("\"location\"");
    assert(crate::scan::scan_step(st0, '"') == Some(stq));
    assert(crate::scan::scan_step(stq, '"') == Some(st0));
    assert(crate::scan::scan_step(st0, ',') == Some(st0));
    assert(crate::scan::scan_step(stq, 'l') == Some(stq));
    assert(crate::scan::scan_step(stq, 'o') == Some(stq));
    assert(crate::scan::scan_step(stq, 'c') == Some(stq));
    assert(crate::scan::scan_step(stq, 'a') == Some(stq));
    assert(crate::scan::scan_step(stq, 't') == Some(stq));
    assert(crate::scan::scan_step(stq, 'i') == Some(stq));
    assert(crate::scan::scan_step(stq, 'n') == Some(stq));
    lemma_msg_loc_scan_to_close(msg, loc, key_loc);
    lemma_no_false_location_hit(msg, loc);
    assert(crate::scan::key_end_rec(inner, key_loc, p, stq) == crate::scan::key_end_rec(
        inner,
        key_loc,
        p + 1,
        st0,
    ));
    assert(!(p + 2 >= key_loc.len() && inner.subrange(p + 2 - key_loc.len() as int, p + 2)
        == key_loc)) by {
        if p + 2 >= key_loc.len() && inner.subrange(p + 2 - key_loc.len() as int, p + 2)
            == key_loc {
            assert(inner.subrange(p + 2 - key_loc.len() as int, p + 2)[9] == inner[p + 1]);
        }
    }
    assert(crate::scan::key_end_rec(inner, key_loc, p + 1, st0) == crate::scan::key_end_rec(
        inner,
        key_loc,
        p + 2,
        st0,
    ));
    assert(crate::scan::key_end_rec(inner, key_loc, p + 2, st0) == crate::scan::key_end_rec(
        inner,
        key_loc,
        p + 3,
        stq,
    ));
    assert(crate::scan::key_end_rec(inner, key_loc, p + 3, stq) == crate::scan::key_end_rec(
        inner,
        key_loc,
        p + 4,
        stq,
    ));
    assert(crate::scan::key_end_rec(inner, key_loc, p + 4, stq) == crate::scan::key_end_rec(
        inner,
        key_loc,
        p + 5,
        stq,
    ));
    assert(crate::scan::key_end_rec(inner, key_loc, p + 5, stq) == crate::scan::key_end_rec(
        inner,
        key_loc,
        p + 6,
        stq,
    ));
    assert(crate::scan::key_end_rec(inner, key_loc, p + 6, stq) == crate::scan::key_end_rec(
        inner,
        key_loc,
        p + 7,
        stq,
    ));
    assert(crate::scan::key_end_rec(inner, key_loc, p + 7, stq) == crate::scan::key_end_rec(
        inner,
        key_loc,
        p + 8,
        stq,
    ));
    assert(crate::scan::key_end_rec(inner, key_loc, p + 8, stq) == crate::scan::key_end_rec(
        inner,
        key_loc,
        p + 9,
        stq,
    ));
    assert(crate::scan::key_end_rec(inner, key_loc, p + 9, stq) == crate::scan::key_end_rec(
        inner,
        key_loc,
        p + 10,
        stq,
    ));
    assert(crate::scan::key_end_rec(inner, key_loc, p + 10, stq) == crate::scan::key_end_rec(
        inner,
        key_loc,
        p + 11,
        stq,
    ));
    assert(inner.subrange(p + 2, p + 12) == key_loc);
    assert(crate::scan::key_end_rec(inner, key_loc, p + 11, stq) == Some(p + 11));
}

/// In a message-and-location encoding whose message holds no quote and
/// is not the bare word `location`, the location key's value is the
/// escaped location.
#[verifier::rlimit(60)]
proof fn lemma_msg_loc_find_location(msg: Seq<char>, loc: Seq<char>)
    requires
        forall|j: int| 0 <= j < msg.len() ==> msg[j] != '"',
        msg != "location"@,
    ensures
        crate::scan::find_json_str("\"location\""@, msg_loc_inner(msg, loc)) == escape(loc),
{
    lemma_msg_loc_inner_shape(msg, loc);
    let a = escape(msg).len() as int;
    let p = 7 + a;
    let inner = msg_loc_inner(msg, loc);
    let key_loc = "\"location\""@;
    reveal_strlit("\"location\"");
    lemma_location_key_end(msg, loc);
    assert(crate::scan::meta_idx_rec(inner, ':', p + 12, false) == Some(p + 12));
    assert(crate::scan::find_json_key(key_loc, inner) == Some(p + 13));
    assert(crate::scan::meta_idx_rec(inner, '"', p + 13, false) == Some(p + 13));
    lemma_quote_end_after_escaped(inner, loc, p + 14);
    assert(crate::scan::find_json_str(key_loc, inner) == escape(loc));
}

/// Round trip for one record with a recorded site: reading back the
/// encoding of a node that carries a message and a location yields
/// exactly that node, so the reconstructed tree renders identically. The
/// message may not contain a quote character and may not be the bare
/// word `location`: with either, the scanner mistakes the end of the
/// message value for the location key and the location does not survive
/// the trip. The location must be non-empty: an empty one reads back as
/// absent.
pub proof fn lemma_codec_round_trip_with_location(msg: Seq<char>, loc: Seq<char>, cap: nat)
    requires
        forall|j: int| 0 <= j < msg.len() ==> msg[j] != '"',
        msg != "location"@,
        loc.len() > 0,
    ensures
        ({
            let t = TreeView {
                msg,
                location: Some(loc),
                trace: Seq::<FrameView>::empty(),
                sources: Seq::<TreeView>::empty(),
            };
            crate::json::spec_decode(crate::json::encode_node(t)) == t
                && crate::fmt_logic::spec_render(
                crate::json::spec_decode(crate::json::encode_node(t)),
                cap,
            ) == crate::fmt_logic::spec_render(t, cap)
        }),
{
    let t = TreeView {
        msg,
        location: Some(loc),
        trace: Seq::<FrameView>::empty(),
        sources: Seq::<TreeView>::empty(),
    };
    lemma_msg_loc_inner_shape(msg, loc);
    let enc = msg_loc_encoding(msg, loc);
    let inner = msg_loc_inner(msg, loc);
    lemma_msg_loc_find_msg(msg, loc);
    crate::escape::lemma_unescape_escape(msg);
    lemma_msg_loc_find_location(msg, loc);
    crate::escape::lemma_unescape_escape(loc);
    assert(escape(loc).len() > 0);
    lemma_msg_loc_key_absent(msg, loc, "\"trace\""@);
    lemma_msg_loc_key_absent(msg, loc, "\"sources\""@);
    let d = crate::json::spec_decode(enc);
    assert(crate::json::list_inner(inner, "\"trace\""@) == Seq::<char>::empty());
    assert(crate::json::list_inner(inner, "\"sources\""@) == Seq::<char>::empty());
    assert(crate::scan::split_all(Seq::<char>::empty()) =~= Seq::<Seq<char>>::empty());
    assert(crate::json::decode_chunks(Seq::<Seq<char>>::empty(), (enc.len() - 2) as nat)
        =~= Seq::<TreeView>::empty());
    assert(d.msg == msg);
    assert(d.location == Some(loc));
    assert(d.trace =~= Seq::<FrameView>::empty());
    assert(d.sources =~= Seq::<TreeView>::empty());
    assert(d == t);
}

} // verus!
