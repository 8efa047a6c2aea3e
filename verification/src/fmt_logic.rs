//! The tree renderer: what the box-drawn text for a tree is, and the
//! executable writer that produces exactly that text.
//!
//! One recursion-depth unit costs one connector segment of four characters
//! in the prefix buffer. When pushing one more segment would exceed the
//! buffer's capacity, rendering emits a single truncation marker line in
//! place of a node's children and does not descend further.

use vstd::prelude::*;

use crate::text::dec_digits;
use crate::view::FrameView;
use crate::view::TreeView;

verus! {

/// A message rendered at a prefix: every newline is followed by the
/// prefix and a continuation bar, so later lines stay aligned under the
/// tree.
pub open spec fn with_leading(msg: Seq<char>, leading: Seq<char>) -> Seq<char>
    decreases msg.len(),
{
    if msg.len() == 0 {
        Seq::empty()
    } else {
        (if msg[0] == '\n' {
            seq!['\n'] + leading
        } else {
            seq![msg[0]]
        }) + with_leading(msg.drop_first(), leading)
    }
}

/// The location line of a node, if it carries one. The terminal glyph is
/// used exactly when nothing else follows for this node: no frames and no
/// children.
pub open spec fn location_part(
    location: Option<Seq<char>>,
    nothing_after: bool,
    prefix: Seq<char>,
) -> Seq<char> {
    match location {
        Some(loc) => "\n"@ + prefix + (if nothing_after {
            "╰─ "@
        } else {
            "├─ "@
        }) + "at "@ + loc,
        None => Seq::empty(),
    }
}

/// Two spaces per nesting level of the fields re-flow.
pub open spec fn indent(depth: nat) -> Seq<char>
    decreases depth,
{
    if depth == 0 {
        Seq::empty()
    } else {
        indent((depth - 1) as nat) + "  "@
    }
}

/// One fresh line of the fields re-flow at the given nesting level.
pub open spec fn reflow_line(prefix: Seq<char>, depth: nat) -> Seq<char> {
    "\n"@ + prefix + "│    "@ + indent(depth)
}

pub open spec fn is_open(c: char) -> bool {
    c == '{' || c == '[' || c == '('
}

pub open spec fn is_close(c: char) -> bool {
    c == '}' || c == ']' || c == ')'
}

/// Scanning state of the fields re-flow: nesting depth, whether the scan
/// is inside a quoted substring, and the previous character (with an
/// escaped character neutralised to `'\u{0}'`).
pub struct ReflowSt {
    pub depth: nat,
    pub in_quote: bool,
    pub prev: char,
}

pub open spec fn reflow_init() -> ReflowSt {
    ReflowSt { depth: 0, in_quote: false, prev: '\u{0}' }
}

/// What one character of the fields text contributes to the re-flow: a
/// break after a top-level comma or an opening bracket, a break before a
/// closing bracket, suppression of the space that follows a break, and no
/// breaks at all inside quoted substrings.
pub open spec fn reflow_step(c: char, st: ReflowSt, prefix: Seq<char>) -> (Seq<char>, ReflowSt) {
    let keep = ReflowSt { depth: st.depth, in_quote: st.in_quote, prev: st.prev };
    let (front, mid, skip_space) = if st.in_quote {
        if st.prev == '"' {
            (Seq::<char>::empty(), ReflowSt { in_quote: false, ..keep }, c == ' ')
        } else {
            (Seq::<char>::empty(), keep, false)
        }
    } else if is_open(st.prev) {
        (reflow_line(prefix, st.depth + 1), ReflowSt { depth: st.depth + 1, ..keep }, c == ' ')
    } else if st.prev == ',' {
        (reflow_line(prefix, st.depth), keep, c == ' ')
    } else if st.prev == '"' {
        (Seq::<char>::empty(), ReflowSt { in_quote: true, ..keep }, false)
    } else if is_close(c) {
        let d = if st.depth > 0 {
            (st.depth - 1) as nat
        } else {
            0nat
        };
        (reflow_line(prefix, d), ReflowSt { depth: d, ..keep }, false)
    } else if c == ' ' && is_close(st.prev) {
        (
            if st.depth == 0 {
                reflow_line(prefix, 0)
            } else {
                Seq::<char>::empty()
            },
            keep,
            true,
        )
    } else {
        (Seq::<char>::empty(), keep, false)
    };
    let emitted = front + (if skip_space {
        Seq::<char>::empty()
    } else {
        seq![c]
    });
    let next_prev = if st.prev == '\\' {
        '\u{0}'
    } else {
        c
    };
    (emitted, ReflowSt { prev: next_prev, ..mid })
}

pub open spec fn reflow_rec(fields: Seq<char>, i: int, st: ReflowSt, prefix: Seq<char>) -> Seq<
    char,
>
    decreases fields.len() - i,
{
    if i < 0 || i >= fields.len() {
        Seq::empty()
    } else {
        let step = reflow_step(fields[i], st, prefix);
        step.0 + reflow_rec(fields, i + 1, step.1, prefix)
    }
}

/// The multi-line pretty re-flow of a frame's fields text.
pub open spec fn reflow(fields: Seq<char>, prefix: Seq<char>) -> Seq<char> {
    reflow_line(prefix, 0) + reflow_rec(fields, 0, reflow_init(), prefix)
}

/// The full body of one frame not seen before in this render, numbered
/// with its position in the deduplication table.
pub open spec fn frame_lines(f: FrameView, prefix: Seq<char>, number: nat) -> Seq<char> {
    "\n"@ + prefix + "├─ tracing frame "@ + dec_digits(number) + " => "@ + f.target + "::"@
        + f.name + (if f.fields.len() > 0 {
        " with"@ + reflow(f.fields, prefix)
    } else {
        Seq::empty()
    }) + (match f.location {
        Some(l) => "\n"@ + prefix + "│        at "@ + l.0 + ":"@ + dec_digits(l.1 as nat),
        None => Seq::empty(),
    })
}

/// Index of the first entry of `found` equal to `id`, if any.
pub open spec fn find_id(found: Seq<Seq<char>>, id: Seq<char>) -> Option<int>
    decreases found.len(),
{
    if found.len() == 0 {
        None
    } else if found[0] == id {
        Some(0int)
    } else {
        match find_id(found.drop_first(), id) {
            Some(i) => Some(i + 1),
            None => None,
        }
    }
}

/// The frame lines of one node: a full body for each first occurrence,
/// and for each repeat only its back-reference index collected into
/// `reps`. A fresh identifier is recorded only while the table has room.
/// Returns the text, the table afterwards, and the collected indices.
pub open spec fn trace_lines(
    frames: Seq<FrameView>,
    i: int,
    prefix: Seq<char>,
    found: Seq<Seq<char>>,
    reps: Seq<int>,
    dcap: nat,
) -> (Seq<char>, Seq<Seq<char>>, Seq<int>)
    decreases frames.len() - i,
{
    if i < 0 || i >= frames.len() {
        (Seq::empty(), found, reps)
    } else {
        let f = frames[i];
        match find_id(found, f.identifier) {
            Some(j) => trace_lines(frames, i + 1, prefix, found, reps.push(j), dcap),
            None => {
                let body = frame_lines(f, prefix, found.len());
                let found2 = if found.len() < dcap {
                    found.push(f.identifier)
                } else {
                    found
                };
                let rest = trace_lines(frames, i + 1, prefix, found2, reps, dcap);
                (body + rest.0, rest.1, rest.2)
            },
        }
    }
}

/// The back-reference indices joined with `", "`.
pub open spec fn rep_list(reps: Seq<int>, i: int) -> Seq<char>
    decreases reps.len() - i,
{
    if i < 0 || i >= reps.len() {
        Seq::empty()
    } else {
        dec_digits(reps[i] as nat) + (if i < reps.len() - 1 {
            ", "@
        } else {
            Seq::<char>::empty()
        }) + rep_list(reps, i + 1)
    }
}

/// The trailing summary line for a node's repeated frames, if there were
/// any; terminal glyph exactly when no children follow.
pub open spec fn dup_summary(reps: Seq<int>, has_sources: bool, prefix: Seq<char>) -> Seq<char> {
    if reps.len() == 0 {
        Seq::empty()
    } else {
        "\n"@ + prefix + (if has_sources {
            "├─ "@
        } else {
            "╰─ "@
        }) + dec_digits(reps.len()) + " duplicate tracing frame(s): ["@ + rep_list(reps, 0) + "]"@
    }
}

/// The whole frames section of one node: nothing when the node has no
/// frames; otherwise a bare bar line, the frame lines, and the summary of
/// repeats. Returns the text and the table afterwards.
pub open spec fn trace_part(
    frames: Seq<FrameView>,
    has_sources: bool,
    prefix: Seq<char>,
    found: Seq<Seq<char>>,
    dcap: nat,
) -> (Seq<char>, Seq<Seq<char>>) {
    if frames.len() == 0 {
        (Seq::empty(), found)
    } else {
        let r = trace_lines(frames, 0, prefix, found, Seq::empty(), dcap);
        ("\n"@ + prefix + "│"@ + r.0 + dup_summary(r.2, has_sources, prefix), r.1)
    }
}

/// The truncation marker emitted in place of children that do not fit.
pub open spec fn trunc_marker(prefix: Seq<char>) -> Seq<char> {
    "\n"@ + prefix + "......"@
}

/// The rendered text of one node at a prefix, with the deduplication
/// table as it stands when the node is reached; returns the text and the
/// table afterwards.
pub open spec fn render_node(
    t: TreeView,
    prefix: Seq<char>,
    found: Seq<Seq<char>>,
    pcap: nat,
    dcap: nat,
) -> (Seq<char>, Seq<Seq<char>>)
    decreases t, 0int,
{
    let m = with_leading(t.msg, prefix + "│ "@);
    let lp = location_part(t.location, t.trace.len() == 0 && t.sources.len() == 0, prefix);
    let tp = trace_part(t.trace, t.sources.len() > 0, prefix, found, dcap);
    if prefix.len() + 4 > pcap {
        let marker = if t.sources.len() > 0 {
            trunc_marker(prefix)
        } else {
            Seq::<char>::empty()
        };
        (m + lp + tp.0 + marker, tp.1)
    } else {
        let ch = render_children(t.sources, 0, prefix, tp.1, pcap, dcap);
        (m + lp + tp.0 + ch.0, ch.1)
    }
}

/// The rendered children of a node from index `i` on: a bare bar line and
/// a branch arrow before each, the last with the closing arrow and a
/// blank prefix segment, the rest with the tee arrow and a continuing
/// segment.
pub open spec fn render_children(
    sources: Seq<TreeView>,
    i: int,
    prefix: Seq<char>,
    found: Seq<Seq<char>>,
    pcap: nat,
    dcap: nat,
) -> (Seq<char>, Seq<Seq<char>>)
    decreases sources, sources.len() - i,
{
    if i < 0 || i >= sources.len() {
        (Seq::empty(), found)
    } else {
        let last = i == sources.len() - 1;
        let head = "\n"@ + prefix + "│"@ + "\n"@ + prefix + (if last {
            "╰─▶ "@
        } else {
            "├─▶ "@
        });
        let seg = if last {
            "    "@
        } else {
            "│   "@
        };
        let child = render_node(sources[i], prefix + seg, found, pcap, dcap);
        let rest = render_children(sources, i + 1, prefix, child.1, pcap, dcap);
        (head + child.0 + rest.0, rest.1)
    }
}

/// The rendered text of a whole tree: an empty prefix, a fresh
/// deduplication table, and `cap` as both the prefix capacity and the
/// table capacity.
pub open spec fn spec_render(t: TreeView, cap: nat) -> Seq<char> {
    render_node(t, Seq::empty(), Seq::empty(), cap, cap).0
}

/// If `found[j]` is the first entry equal to `id`, the scan finds `j`.
pub proof fn lemma_find_id_present(found: Seq<Seq<char>>, id: Seq<char>, j: int)
    requires
        0 <= j < found.len(),
        found[j] == id,
        forall|k: int| 0 <= k < j ==> found[k] != id,
    ensures
        find_id(found, id) == Some(j),
    decreases j,
{
    if j > 0 {
        assert(found[0] != id);
        assert(found.drop_first()[j - 1] == found[j]);
        assert(forall|k: int| 0 <= k < j - 1 ==> found.drop_first()[k] == found[k + 1]);
        lemma_find_id_present(found.drop_first(), id, j - 1);
    }
}

/// If no entry equals `id`, the scan finds nothing.
pub proof fn lemma_find_id_absent(found: Seq<Seq<char>>, id: Seq<char>)
    requires
        forall|k: int| 0 <= k < found.len() ==> found[k] != id,
    ensures
        find_id(found, id) is None,
    decreases found.len(),
{
    if found.len() > 0 {
        assert(forall|k: int| 0 <= k < found.len() - 1 ==> found.drop_first()[k] == found[k + 1]);
        lemma_find_id_absent(found.drop_first(), id);
    }
}

/// The capacity-bounded left-margin accumulator: the connector string for
/// the current recursion depth. One instance is threaded by reference
/// through a whole render; siblings reuse it sequentially.
pub struct PrefixBuffer {
    pub buf: Vec<char>,
    pub cap: usize,
}

impl PrefixBuffer {
    /// The fill never exceeds the capacity.
    pub open spec fn wf(self) -> bool {
        self.buf@.len() <= self.cap
    }

    pub fn new(cap: usize) -> (r: Self)
        ensures
            r.wf(),
            r.cap == cap,
            r.buf@ == Seq::<char>::empty(),
    {
        PrefixBuffer { buf: Vec::new(), cap }
    }

    /// Whether one more connector segment fits.
    pub fn can_push(&self) -> (b: bool)
        requires
            self.wf(),
        ensures
            b == (self.buf@.len() + 4 <= self.cap),
    {
        self.cap >= 4 && self.buf.len() <= self.cap - 4
    }

    /// Appends the connector segment for one more depth unit: a blank
    /// segment under a last child, a continuing bar otherwise.
    pub fn push_seg(&mut self, last: bool)
        requires
            old(self).wf(),
            old(self).buf@.len() + 4 <= old(self).cap,
        ensures
            final(self).wf(),
            final(self).cap == old(self).cap,
            final(self).buf@ == old(self).buf@ + (if last {
                "    "@
            } else {
                "│   "@
            }),
    {
        if last {
            self.buf.push(' ');
            self.buf.push(' ');
            self.buf.push(' ');
            self.buf.push(' ');
            proof {
                reveal_strlit("    ");
                assert(self.buf@ =~= old(self).buf@ + "    "@);
            }
        } else {
            self.buf.push('│');
            self.buf.push(' ');
            self.buf.push(' ');
            self.buf.push(' ');
            proof {
                reveal_strlit("│   ");
                assert(self.buf@ =~= old(self).buf@ + "│   "@);
            }
        }
    }

    /// Returns the fill to what it was before a push.
    pub fn truncate_to(&mut self, n: usize)
        requires
            old(self).wf(),
            n <= old(self).buf@.len(),
        ensures
            final(self).wf(),
            final(self).cap == old(self).cap,
            final(self).buf@ == old(self).buf@.subrange(0, n as int),
    {
        self.buf.truncate(n);
    }
}

/// What observing one frame identifier yielded: it was already in the
/// table at the given index, or it is fresh and would be numbered with
/// the given position.
pub enum DedupOutcome {
    Duplicate(usize),
    Fresh(usize),
}

/// The capacity-bounded table of frame identifiers already rendered in
/// full during one render. Fresh identifiers are appended while space
/// remains and silently dropped once the table is full; entries are never
/// removed during a render. One instance per top-level render call.
pub struct FrameDeduplicator {
    pub ids: Vec<String>,
    pub cap: usize,
}

impl FrameDeduplicator {
    /// The identifiers stored so far, as character sequences.
    pub open spec fn table(self) -> Seq<Seq<char>> {
        Seq::new(self.ids@.len(), |i: int| self.ids@[i]@)
    }

    pub fn new(cap: usize) -> (r: Self)
        ensures
            r.cap == cap,
            r.table() == Seq::<Seq<char>>::empty(),
    {
        let r = FrameDeduplicator { ids: Vec::new(), cap };
        proof {
            assert(r.table() =~= Seq::<Seq<char>>::empty());
        }
        r
    }

    /// Linear scan over the filled part of the table: a known identifier
    /// reports the index of its first earlier occurrence; a fresh one
    /// reports the number it will be rendered under and is recorded if
    /// the table still has room.
    pub fn observe(&mut self, id: &String) -> (r: DedupOutcome)
        ensures
            final(self).cap == old(self).cap,
            match r {
                DedupOutcome::Duplicate(j) => final(self).table() == old(self).table() && find_id(
                    old(self).table(),
                    id@,
                ) == Some(j as int),
                DedupOutcome::Fresh(n) => n == old(self).table().len() && find_id(
                    old(self).table(),
                    id@,
                ) is None && final(self).table() == (if (n as nat) < old(self).cap as nat {
                    old(self).table().push(id@)
                } else {
                    old(self).table()
                }),
            },
    {
        let n = self.ids.len();
        let mut j: usize = 0;
        while j < n
            invariant
                *self == *old(self),
                n == self.ids@.len(),
                j <= n,
                forall|k: int| 0 <= k < j ==> self.table()[k] != id@,
            decreases n - j,
        {
            if self.ids[j] == *id {
                proof {
                    lemma_find_id_present(self.table(), id@, j as int);
                }
                return DedupOutcome::Duplicate(j);
            }
            j = j + 1;
        }
        proof {
            lemma_find_id_absent(self.table(), id@);
        }
        if n < self.cap {
            self.ids.push(id.clone());
            proof {
                assert(self.table() =~= old(self).table().push(id@));
            }
        }
        DedupOutcome::Fresh(n)
    }
}

/// Appends a newline and the current prefix: every rendered line but the
/// first begins this way.
fn write_nl_prefix(out: &mut Vec<char>, prefix: &Vec<char>)
    ensures
        final(out)@ == old(out)@ + "\n"@ + prefix@,
{
    out.push('\n');
    proof {
        reveal_strlit("\n");
        assert(out@ =~= old(out)@ + "\n"@);
    }
    crate::text::push_all(out, prefix);
}

/// Rendering a message distributes over appending one character.
proof fn lemma_with_leading_snoc(msg: Seq<char>, c: char, leading: Seq<char>)
    ensures
        with_leading(msg.push(c), leading) == with_leading(msg, leading) + (if c == '\n' {
            seq!['\n'] + leading
        } else {
            seq![c]
        }),
    decreases msg.len(),
{
    let tail: Seq<char> = if c == '\n' {
        seq!['\n'] + leading
    } else {
        seq![c]
    };
    if msg.len() == 0 {
        assert(msg.push(c)[0] == c);
        assert(msg.push(c).drop_first() =~= Seq::<char>::empty());
        assert(with_leading(Seq::<char>::empty(), leading) =~= Seq::<char>::empty());
        assert(with_leading(msg.push(c), leading) =~= with_leading(msg, leading) + tail);
    } else {
        lemma_with_leading_snoc(msg.drop_first(), c, leading);
        assert(msg.push(c)[0] == msg[0]);
        assert(msg.push(c).drop_first() =~= msg.drop_first().push(c));
        assert(with_leading(msg.push(c), leading) =~= with_leading(msg, leading) + tail);
    }
}

/// Writes the node's message, re-emitting the prefix and a continuation
/// bar after every embedded newline.
fn write_msg(out: &mut Vec<char>, msg: &str, prefix: &Vec<char>)
    ensures
        final(out)@ == old(out)@ + with_leading(msg@, prefix@ + "│ "@),
{
    let ghost leading = prefix@ + "│ "@;
    let n = msg.unicode_len();
    let mut i: usize = 0;
    proof {
        assert(msg@.subrange(0, 0) =~= Seq::<char>::empty());
        assert(out@ =~= old(out)@ + with_leading(msg@.subrange(0, 0), leading));
    }
    while i < n
        invariant
            n == msg@.len(),
            i <= n,
            leading == prefix@ + "│ "@,
            out@ == old(out)@ + with_leading(msg@.subrange(0, i as int), leading),
        decreases n - i,
    {
        let ghost pre = out@;
        let c = msg.get_char(i);
        out.push(c);
        if c == '\n' {
            crate::text::push_all(out, prefix);
            out.push('│');
            out.push(' ');
            proof {
                reveal_strlit("│ ");
                assert(out@ =~= pre + seq!['\n'] + leading);
            }
        }
        proof {
            lemma_with_leading_snoc(msg@.subrange(0, i as int), c, leading);
            assert(msg@.subrange(0, i + 1) =~= msg@.subrange(0, i as int).push(c));
            assert(out@ =~= old(out)@ + with_leading(msg@.subrange(0, i + 1), leading));
        }
        i = i + 1;
    }
    proof {
        assert(msg@.subrange(0, n as int) =~= msg@);
    }
}

/// Writes one fresh line of the fields re-flow at the given nesting level.
fn write_reflow_line(out: &mut Vec<char>, prefix: &Vec<char>, depth: usize)
    ensures
        final(out)@ == old(out)@ + reflow_line(prefix@, depth as nat),
{
    write_nl_prefix(out, prefix);
    crate::text::push_str_chars(out, "│    ");
    let ghost base = out@;
    let mut k: usize = 0;
    proof {
        assert(out@ =~= base + indent(0));
    }
    while k < depth
        invariant
            k <= depth,
            out@ == base + indent(k as nat),
        decreases depth - k,
    {
        out.push(' ');
        out.push(' ');
        proof {
            reveal_strlit("  ");
            assert(out@ =~= base + (indent(k as nat) + "  "@));
        }
        k = k + 1;
    }
    proof {
        assert(out@ =~= old(out)@ + reflow_line(prefix@, depth as nat));
    }
}

/// Writes the multi-line pretty re-flow of a frame's fields text.
fn write_reflow(out: &mut Vec<char>, fields: &str, prefix: &Vec<char>)
    ensures
        final(out)@ == old(out)@ + reflow(fields@, prefix@),
{
    write_reflow_line(out, prefix, 0);
    let ghost header_done = out@;
    let n = fields.unicode_len();
    let mut i: usize = 0;
    let mut depth: usize = 0;
    let mut in_quote: bool = false;
    let mut prev: char = '\u{0}';
    proof {
        assert(out@ =~= header_done + Seq::<char>::empty());
    }
    while i < n
        invariant
            n == fields@.len(),
            i <= n,
            depth <= i,
            header_done == old(out)@ + reflow_line(prefix@, 0),
            out@ + reflow_rec(fields@, i as int, (ReflowSt { depth: depth as nat, in_quote, prev }), prefix@)
                == header_done + reflow_rec(fields@, 0, reflow_init(), prefix@),
        decreases n - i,
    {
        let ghost st = ReflowSt { depth: depth as nat, in_quote, prev };
        let ghost step = reflow_step(fields@[i as int], st, prefix@);
        let ghost pre = out@;
        let c = fields.get_char(i);
        let mut skip_space: bool = false;
        if in_quote {
            if prev == '"' {
                in_quote = false;
                if c == ' ' {
                    skip_space = true;
                }
            }
        } else if prev == '{' || prev == '[' || prev == '(' {
            depth = depth + 1;
            write_reflow_line(out, prefix, depth);
            if c == ' ' {
                skip_space = true;
            }
        } else if prev == ',' {
            write_reflow_line(out, prefix, depth);
            if c == ' ' {
                skip_space = true;
            }
        } else if prev == '"' {
            in_quote = true;
        } else if c == '}' || c == ']' || c == ')' {
            if depth > 0 {
                depth = depth - 1;
            }
            write_reflow_line(out, prefix, depth);
        } else if c == ' ' && (prev == '}' || prev == ']' || prev == ')') {
            skip_space = true;
            if depth == 0 {
                write_reflow_line(out, prefix, 0);
            }
        }
        if prev == '\\' {
            prev = '\u{0}';
        } else {
            prev = c;
        }
        if !skip_space {
            out.push(c);
        }
        proof {
            assert(out@ =~= pre + step.0);
            assert((ReflowSt { depth: depth as nat, in_quote, prev }) == step.1);
            assert(out@ + reflow_rec(fields@, i + 1, step.1, prefix@) =~= header_done + reflow_rec(
                fields@,
                0,
                reflow_init(),
                prefix@,
            ));
        }
        i = i + 1;
    }
    proof {
        assert(out@ =~= old(out)@ + reflow(fields@, prefix@));
    }
}

/// Writes the full body of one fresh frame under its table number.
fn write_frame(out: &mut Vec<char>, f: &crate::tree::TraceFrame, prefix: &Vec<char>, number: usize)
    ensures
        final(out)@ == old(out)@ + frame_lines(crate::view::view_frame(*f), prefix@, number as nat),
{
    write_nl_prefix(out, prefix);
    crate::text::push_str_chars(out, "├─ tracing frame ");
    crate::text::push_dec(out, number as u64);
    crate::text::push_str_chars(out, " => ");
    crate::text::push_str_chars(out, f.target.as_str());
    crate::text::push_str_chars(out, "::");
    crate::text::push_str_chars(out, f.name.as_str());
    let ghost before_fields = out@;
    if f.fields.as_str().unicode_len() > 0 {
        crate::text::push_str_chars(out, " with");
        write_reflow(out, f.fields.as_str(), prefix);
        proof {
            assert(out@ =~= before_fields + (" with"@ + reflow(f.fields@, prefix@)));
        }
    }
    let ghost before_loc = out@;
    match &f.location {
        Some(l) => {
            write_nl_prefix(out, prefix);
            crate::text::push_str_chars(out, "│        at ");
            crate::text::push_str_chars(out, l.file.as_str());
            crate::text::push_str_chars(out, ":");
            crate::text::push_dec(out, l.line);
            proof {
                assert(out@ =~= before_loc + ("\n"@ + prefix@ + "│        at "@ + l.file@ + ":"@
                    + dec_digits(l.line as nat)));
            }
        },
        None => {},
    }
    proof {
        assert(out@ =~= old(out)@ + frame_lines(crate::view::view_frame(*f), prefix@, number as nat));
    }
}

/// The collected back-reference indices, as mathematical integers.
pub open spec fn ints_of(s: Seq<usize>) -> Seq<int> {
    Seq::new(s.len(), |i: int| s[i] as int)
}

/// Writes the whole frames section of one node, observing each frame
/// against the deduplication table.
fn write_trace(
    out: &mut Vec<char>,
    frames: &Vec<crate::tree::TraceFrame>,
    prefix: &Vec<char>,
    dedup: &mut FrameDeduplicator,
    has_sources: bool,
)
    ensures
        final(dedup).cap == old(dedup).cap,
        ({
            let r = trace_part(
                crate::view::view_frames(frames@),
                has_sources,
                prefix@,
                old(dedup).table(),
                old(dedup).cap as nat,
            );
            final(out)@ == old(out)@ + r.0 && final(dedup).table() == r.1
        }),
{
    let ghost fv = crate::view::view_frames(frames@);
    let ghost dcap = dedup.cap as nat;
    if frames.len() == 0 {
        proof {
            assert(out@ =~= out@ + Seq::<char>::empty());
        }
        return ;
    }
    write_nl_prefix(out, prefix);
    out.push('│');
    let ghost header_done = out@;
    proof {
        reveal_strlit("│");
        assert(header_done =~= old(out)@ + ("\n"@ + prefix@ + "│"@));
    }
    let ghost target = trace_lines(fv, 0, prefix@, dedup.table(), Seq::empty(), dcap);
    let mut reps: Vec<usize> = Vec::new();
    let n = frames.len();
    let mut i: usize = 0;
    proof {
        assert(ints_of(reps@) =~= Seq::<int>::empty());
        assert(out@ + trace_lines(fv, 0, prefix@, dedup.table(), ints_of(reps@), dcap).0
            =~= header_done + target.0);
    }
    while i < n
        invariant
            n == frames@.len(),
            fv == crate::view::view_frames(frames@),
            fv.len() == n,
            i <= n,
            dedup.cap == old(dedup).cap,
            dcap == dedup.cap as nat,
            target == trace_lines(fv, 0, prefix@, old(dedup).table(), Seq::<int>::empty(), dcap),
            forall|k: int| 0 <= k < reps@.len() ==> reps@[k] <= usize::MAX,
            ({
                let cur = trace_lines(fv, i as int, prefix@, dedup.table(), ints_of(reps@), dcap);
                out@ + cur.0 == header_done + target.0 && cur.1 == target.1 && cur.2 == target.2
            }),
        decreases n - i,
    {
        let ghost old_table = dedup.table();
        let ghost old_reps = ints_of(reps@);
        let ghost cur = trace_lines(fv, i as int, prefix@, old_table, old_reps, dcap);
        let ghost pre_out = out@;
        let f = &frames[i];
        proof {
            assert(fv[i as int] == crate::view::view_frame(frames@[i as int]));
        }
        match dedup.observe(&f.identifier) {
            DedupOutcome::Duplicate(j) => {
                reps.push(j);
                proof {
                    assert(ints_of(reps@) =~= old_reps.push(j as int));
                    assert(cur == trace_lines(fv, i + 1, prefix@, dedup.table(), ints_of(reps@),
                        dcap));
                }
            },
            DedupOutcome::Fresh(number) => {
                write_frame(out, f, prefix, number);
                proof {
                    let rest = trace_lines(fv, i + 1, prefix@, dedup.table(), ints_of(reps@), dcap);
                    assert(cur.0 == frame_lines(fv[i as int], prefix@, number as nat) + rest.0);
                    assert(cur.1 == rest.1 && cur.2 == rest.2);
                    assert(out@ + rest.0 =~= pre_out + cur.0);
                }
            },
        }
        i = i + 1;
    }
    let ghost cur = trace_lines(fv, n as int, prefix@, dedup.table(), ints_of(reps@), dcap);
    proof {
        assert(cur.0 =~= Seq::<char>::empty());
        assert(out@ =~= header_done + target.0);
        assert(dedup.table() == target.1);
        assert(ints_of(reps@) == target.2);
    }
    if reps.len() > 0 {
        let ghost before_dup = out@;
        write_nl_prefix(out, prefix);
        if has_sources {
            crate::text::push_str_chars(out, "├─ ");
        } else {
            crate::text::push_str_chars(out, "╰─ ");
        }
        crate::text::push_dec(out, reps.len() as u64);
        crate::text::push_str_chars(out, " duplicate tracing frame(s): [");
        let ghost list_base = out@;
        let m = reps.len();
        let mut k: usize = 0;
        proof {
            assert(out@ + rep_list(ints_of(reps@), 0) =~= list_base + rep_list(ints_of(reps@), 0));
        }
        while k < m
            invariant
                m == reps@.len(),
                k <= m,
                forall|kk: int| 0 <= kk < reps@.len() ==> reps@[kk] <= usize::MAX,
                out@ + rep_list(ints_of(reps@), k as int) == list_base + rep_list(ints_of(reps@), 0),
            decreases m - k,
        {
            let ghost pre = out@;
            crate::text::push_dec(out, reps[k] as u64);
            if k + 1 < m {
                crate::text::push_str_chars(out, ", ");
            }
            proof {
                assert(ints_of(reps@)[k as int] == reps@[k as int] as int);
                assert(out@ =~= pre + (dec_digits(reps@[k as int] as nat) + (if (k as int) < reps@.len() - 1 {
                    ", "@
                } else {
                    Seq::<char>::empty()
                })));
                assert(out@ + rep_list(ints_of(reps@), k + 1) =~= list_base + rep_list(
                    ints_of(reps@),
                    0,
                ));
            }
            k = k + 1;
        }
        proof {
            assert(rep_list(ints_of(reps@), m as int) =~= Seq::<char>::empty());
            assert(out@ =~= list_base + rep_list(ints_of(reps@), 0));
        }
        crate::text::push_str_chars(out, "]");
        proof {
            assert(out@ =~= before_dup + dup_summary(ints_of(reps@), has_sources, prefix@));
            assert(out@ =~= old(out)@ + trace_part(fv, has_sources, prefix@, old(dedup).table(),
                dcap).0);
        }
    } else {
        proof {
            assert(dup_summary(ints_of(reps@), has_sources, prefix@) =~= Seq::<char>::empty());
            assert(out@ =~= old(out)@ + trace_part(fv, has_sources, prefix@, old(dedup).table(),
                dcap).0);
        }
    }
}

/// Writes one node and its children at the current prefix, restoring the
/// prefix buffer before returning; the deduplication table carries what
/// was observed.
pub fn render_into(
    t: &crate::tree::ErrTree,
    prefix: &mut PrefixBuffer,
    dedup: &mut FrameDeduplicator,
    out: &mut Vec<char>,
)
    requires
        old(prefix).wf(),
    ensures
        final(prefix).buf@ == old(prefix).buf@,
        final(prefix).cap == old(prefix).cap,
        final(dedup).cap == old(dedup).cap,
        ({
            let r = render_node(
                crate::view::view_tree(*t),
                old(prefix).buf@,
                old(dedup).table(),
                old(prefix).cap as nat,
                old(dedup).cap as nat,
            );
            final(out)@ == old(out)@ + r.0 && final(dedup).table() == r.1
        }),
    decreases *t,
{
    let ghost tv = crate::view::view_tree(*t);
    let ghost pcap = prefix.cap as nat;
    let ghost dcap = dedup.cap as nat;
    let ghost p = prefix.buf@;
    proof {
        crate::view::lemma_view_trees(t.sources@);
        assert(tv.sources.len() == t.sources@.len());
        assert(tv.trace.len() == t.trace@.len());
    }
    write_msg(out, t.msg.as_str(), &prefix.buf);
    let ghost after_msg = out@;
    match &t.location {
        Some(loc) => {
            write_nl_prefix(out, &prefix.buf);
            if t.trace.len() == 0 && t.sources.len() == 0 {
                crate::text::push_str_chars(out, "╰─ ");
            } else {
                crate::text::push_str_chars(out, "├─ ");
            }
            crate::text::push_str_chars(out, "at ");
            crate::text::push_str_chars(out, loc.as_str());
            proof {
                assert(out@ =~= after_msg + location_part(
                    tv.location,
                    tv.trace.len() == 0 && tv.sources.len() == 0,
                    p,
                ));
            }
        },
        None => {
            proof {
                assert(out@ =~= after_msg + location_part(
                    tv.location,
                    tv.trace.len() == 0 && tv.sources.len() == 0,
                    p,
                ));
            }
        },
    }
    write_trace(out, &t.trace, &prefix.buf, dedup, t.sources.len() > 0);
    let ghost tp = trace_part(tv.trace, tv.sources.len() > 0, p, old(dedup).table(), dcap);
    let ghost after_trace = out@;
    proof {
        assert(dedup.table() == tp.1);
    }
    if !prefix.can_push() {
        if t.sources.len() > 0 {
            write_nl_prefix(out, &prefix.buf);
            crate::text::push_str_chars(out, "......");
            proof {
                assert(out@ =~= after_trace + trunc_marker(p));
            }
        }
        proof {
            let r = render_node(tv, p, old(dedup).table(), pcap, dcap);
            assert(out@ =~= old(out)@ + r.0);
        }
    } else {
        let n = t.sources.len();
        let ghost target = render_children(tv.sources, 0, p, tp.1, pcap, dcap);
        let mut i: usize = 0;
        proof {
            assert(out@ + render_children(tv.sources, 0, p, dedup.table(), pcap, dcap).0
                =~= after_trace + target.0);
        }
        while i < n
            invariant
                n == t.sources@.len(),
                tv == crate::view::view_tree(*t),
                tv.sources.len() == n,
                i <= n,
                prefix.buf@ == p,
                prefix.cap as nat == pcap,
                prefix.wf(),
                p.len() + 4 <= pcap,
                dedup.cap as nat == dcap,
                target == render_children(
                    tv.sources,
                    0,
                    p,
                    trace_part(tv.trace, tv.sources.len() > 0, p, old(dedup).table(), dcap).1,
                    pcap,
                    dcap,
                ),
                ({
                    let cur = render_children(tv.sources, i as int, p, dedup.table(), pcap, dcap);
                    out@ + cur.0 == after_trace + target.0 && cur.1 == target.1
                }),
            decreases n - i,
        {
            let ghost old_table = dedup.table();
            let ghost cur = render_children(tv.sources, i as int, p, old_table, pcap, dcap);
            let ghost pre_out = out@;
            let last = i + 1 == n;
            write_nl_prefix(out, &prefix.buf);
            out.push('│');
            write_nl_prefix(out, &prefix.buf);
            if last {
                crate::text::push_str_chars(out, "╰─▶ ");
            } else {
                crate::text::push_str_chars(out, "├─▶ ");
            }
            let ghost head = "\n"@ + p + "│"@ + "\n"@ + p + (if last {
                "╰─▶ "@
            } else {
                "├─▶ "@
            });
            proof {
                reveal_strlit("│");
                assert(out@ =~= pre_out + head);
            }
            let fill = prefix.buf.len();
            prefix.push_seg(last);
            proof {
                crate::view::lemma_view_trees(t.sources@);
                assert(decreases_to!(t.sources@ => t.sources@[i as int]));
                assert(decreases_to!(*t => t.sources));
                assert(decreases_to!(t.sources => t.sources@));
            }
            render_into(&t.sources[i], prefix, dedup, out);
            prefix.truncate_to(fill);
            proof {
                assert(prefix.buf@ =~= p);
                let seg: Seq<char> = if last {
                    "    "@
                } else {
                    "│   "@
                };
                let child = render_node(tv.sources[i as int], p + seg, old_table, pcap, dcap);
                let rest = render_children(tv.sources, i + 1, p, dedup.table(), pcap, dcap);
                assert(tv.sources[i as int] == crate::view::view_tree(t.sources@[i as int]));
                assert(cur.0 == head + child.0 + rest.0);
                assert(cur.1 == rest.1);
                assert(out@ + rest.0 =~= pre_out + cur.0);
            }
            i = i + 1;
        }
        proof {
            let cur = render_children(tv.sources, n as int, p, dedup.table(), pcap, dcap);
            assert(cur.0 =~= Seq::<char>::empty());
            assert(out@ =~= after_trace + target.0);
            let r = render_node(tv, p, old(dedup).table(), pcap, dcap);
            assert(out@ =~= old(out)@ + r.0);
            assert(dedup.table() == r.1);
        }
    }
}

/// Renders a whole tree, with `cap` as both the prefix-buffer capacity
/// (four characters per depth unit) and the deduplication table capacity.
pub fn print_tree(tree: &crate::tree::ErrTree, cap: usize) -> (out: String)
    ensures
        out@ == spec_render(crate::view::view_tree(*tree), cap as nat),
{
    let mut prefix = PrefixBuffer::new(cap);
    let mut dedup = FrameDeduplicator::new(cap);
    let mut chars: Vec<char> = Vec::new();
    render_into(tree, &mut prefix, &mut dedup, &mut chars);
    proof {
        assert(chars@ =~= spec_render(crate::view::view_tree(*tree), cap as nat));
    }
    crate::text::chars_to_string(&chars)
}

/// A tree paired with the rendering capacity its display should use.
pub struct ErrTreeDisplay {
    pub tree: crate::tree::ErrTree,
    pub cap: usize,
}

impl ErrTreeDisplay {
    pub fn new(tree: crate::tree::ErrTree, cap: usize) -> (r: Self)
        ensures
            r.tree == tree,
            r.cap == cap,
    {
        ErrTreeDisplay { tree, cap }
    }

    /// The rendered text of the held tree.
    pub fn to_display_string(&self) -> (out: String)
        ensures
            out@ == spec_render(crate::view::view_tree(self.tree), self.cap as nat),
    {
        print_tree(&self.tree, self.cap)
    }
}

/// Injects the newline leader: text written through this accumulates with
/// the prefix and a continuation bar re-emitted after every newline.
pub struct LeadingLineFormatter {
    pub prefix: Vec<char>,
    pub out: Vec<char>,
}

impl LeadingLineFormatter {
    pub fn new(prefix: Vec<char>) -> (r: Self)
        ensures
            r.prefix@ == prefix@,
            r.out@ == Seq::<char>::empty(),
    {
        LeadingLineFormatter { prefix, out: Vec::new() }
    }

    pub fn write_str(&mut self, s: &str)
        ensures
            final(self).prefix@ == old(self).prefix@,
            final(self).out@ == old(self).out@ + with_leading(s@, old(self).prefix@ + "│ "@),
    {
        write_msg(&mut self.out, s, &self.prefix);
    }
}

} // verus!
