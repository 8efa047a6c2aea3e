//! Backslash escaping of free text for the compact encoding, and its
//! inverse. Seven characters are escape-sensitive: quote, backslash,
//! backspace, form feed, newline, carriage return, and tab; every other
//! character passes through unchanged.

use vstd::prelude::*;

verus! {

/// How one character is written inside a quoted value of the encoding.
pub open spec fn escape_char(c: char) -> Seq<char> {
    if c == '"' {
        seq!['\\', '"']
    } else if c == '\\' {
        seq!['\\', '\\']
    } else if c == '\u{8}' {
        seq!['\\', 'b']
    } else if c == '\u{c}' {
        seq!['\\', 'f']
    } else if c == '\n' {
        seq!['\\', 'n']
    } else if c == '\r' {
        seq!['\\', 'r']
    } else if c == '\t' {
        seq!['\\', 't']
    } else {
        seq![c]
    }
}

/// Free text as it is written inside a quoted value of the encoding.
pub open spec fn escape(s: Seq<char>) -> Seq<char>
    decreases s.len(),
{
    if s.len() == 0 {
        Seq::empty()
    } else {
        escape_char(s[0]) + escape(s.drop_first())
    }
}

/// The character a backslash-introduced code stands for, if the code is
/// valid. `/` is accepted on reading although never produced on writing.
pub open spec fn decode_escape(c: char) -> Option<char> {
    if c == '"' {
        Some('"')
    } else if c == '\\' {
        Some('\\')
    } else if c == '/' {
        Some('/')
    } else if c == 'b' {
        Some('\u{8}')
    } else if c == 'f' {
        Some('\u{c}')
    } else if c == 'n' {
        Some('\n')
    } else if c == 'r' {
        Some('\r')
    } else if c == 't' {
        Some('\t')
    } else {
        None
    }
}

/// Reading of a quoted value back out: a backslash and a valid code yield
/// the coded character; an invalid code or a trailing lone backslash ends
/// the text there (reading is lenient, never an error).
pub open spec fn unescape(s: Seq<char>) -> Seq<char>
    decreases s.len(),
{
    if s.len() == 0 {
        Seq::empty()
    } else if s[0] == '\\' {
        if s.len() == 1 {
            Seq::empty()
        } else {
            match decode_escape(s[1]) {
                Some(c) => seq![c] + unescape(s.skip(2)),
                None => Seq::empty(),
            }
        }
    } else {
        seq![s[0]] + unescape(s.drop_first())
    }
}

/// Escaping then unescaping returns every text unchanged, whichever of the
/// escape-sensitive characters it contains.
pub proof fn lemma_unescape_escape(s: Seq<char>)
    ensures
        unescape(escape(s)) == s,
    decreases s.len(),
{
    if s.len() == 0 {
        assert(unescape(escape(s)) =~= s);
    } else {
        let c = s[0];
        let rest = s.drop_first();
        lemma_unescape_escape(rest);
        let e = escape(s);
        if escape_char(c).len() == 2 {
            assert(e[0] == '\\');
            assert(decode_escape(e[1]) == Some(c));
            assert(e.skip(2) =~= escape(rest));
            assert(unescape(e) =~= s);
        } else {
            assert(e[0] == c && c != '\\');
            assert(e.drop_first() =~= escape(rest));
            assert(unescape(e) =~= s);
        }
    }
}

/// Escaping distributes over appending one character.
pub proof fn lemma_escape_snoc(s: Seq<char>, c: char)
    ensures
        escape(s.push(c)) == escape(s) + escape_char(c),
    decreases s.len(),
{
    if s.len() == 0 {
        assert(s.push(c)[0] == c);
        assert(s.push(c).drop_first() =~= Seq::<char>::empty());
        assert(escape(Seq::<char>::empty()) =~= Seq::<char>::empty());
        assert(escape(s.push(c)) =~= escape(s) + escape_char(c));
    } else {
        lemma_escape_snoc(s.drop_first(), c);
        assert(s.push(c)[0] == s[0]);
        assert(s.push(c).drop_first() =~= s.drop_first().push(c));
        assert(escape(s.push(c)) =~= escape(s) + escape_char(c));
    }
}

/// Appends `escape_char(c)` to `out`.
fn push_escaped_char(out: &mut Vec<char>, c: char)
    ensures
        final(out)@ == old(out)@ + escape_char(c),
{
    if c == '"' {
        out.push('\\');
        out.push('"');
    } else if c == '\\' {
        out.push('\\');
        out.push('\\');
    } else if c == '\u{8}' {
        out.push('\\');
        out.push('b');
    } else if c == '\u{c}' {
        out.push('\\');
        out.push('f');
    } else if c == '\n' {
        out.push('\\');
        out.push('n');
    } else if c == '\r' {
        out.push('\\');
        out.push('r');
    } else if c == '\t' {
        out.push('\\');
        out.push('t');
    } else {
        out.push(c);
    }
    assert(out@ =~= old(out)@ + escape_char(c));
}

/// Appends the escaped form of `s` to `out`.
pub fn push_escaped(out: &mut Vec<char>, s: &str)
    ensures
        final(out)@ == old(out)@ + escape(s@),
{
    let n = s.unicode_len();
    let mut i: usize = 0;
    proof {
        assert(s@.subrange(0, 0) =~= Seq::<char>::empty());
        assert(out@ =~= old(out)@ + escape(s@.subrange(0, 0)));
    }
    while i < n
        invariant
            n == s@.len(),
            i <= n,
            out@ == old(out)@ + escape(s@.subrange(0, i as int)),
        decreases n - i,
    {
        let c = s.get_char(i);
        push_escaped_char(out, c);
        proof {
            lemma_escape_snoc(s@.subrange(0, i as int), c);
            assert(s@.subrange(0, i + 1) =~= s@.subrange(0, i as int).push(c));
        }
        i = i + 1;
    }
    proof {
        assert(s@.subrange(0, n as int) =~= s@);
    }
}

/// Reads characters of a raw quoted value back out one at a time, undoing
/// the escaping.
pub struct JsonStrChars {
    pub chars: Vec<char>,
    pub pos: usize,
}

impl JsonStrChars {
    /// The text this reader has not yet produced.
    pub open spec fn remaining(self) -> Seq<char> {
        unescape(self.chars@.skip(self.pos as int))
    }

    pub open spec fn wf(self) -> bool {
        self.pos <= self.chars@.len()
    }

    pub fn new(chars: Vec<char>) -> (r: Self)
        ensures
            r.wf(),
            r.remaining() == unescape(chars@),
    {
        let r = JsonStrChars { chars, pos: 0 };
        proof {
            assert(r.chars@.skip(0) =~= r.chars@);
        }
        r
    }

    pub fn next(&mut self) -> (r: Option<char>)
        requires
            old(self).wf(),
        ensures
            final(self).wf(),
            final(self).chars == old(self).chars,
            final(self).pos >= old(self).pos,
            r is Some ==> final(self).pos > old(self).pos,
            match r {
                Some(c) => old(self).remaining() == seq![c] + final(self).remaining(),
                None => old(self).remaining() == Seq::<char>::empty() && final(self).remaining()
                    == Seq::<char>::empty(),
            },
    {
        let ghost pre = self.chars@.skip(self.pos as int);
        if self.pos >= self.chars.len() {
            assert(pre =~= Seq::<char>::empty());
            return None;
        }
        let c = self.chars[self.pos];
        if c != '\\' {
            self.pos = self.pos + 1;
            proof {
                assert(pre.drop_first() =~= self.chars@.skip(self.pos as int));
            }
            Some(c)
        } else if self.pos + 1 >= self.chars.len() {
            self.pos = self.chars.len();
            proof {
                assert(pre.len() == 1);
                assert(self.chars@.skip(self.pos as int) =~= Seq::<char>::empty());
            }
            None
        } else {
            let code = self.chars[self.pos + 1];
            let decoded = if code == '"' {
                Some('"')
            } else if code == '\\' {
                Some('\\')
            } else if code == '/' {
                Some('/')
            } else if code == 'b' {
                Some('\u{8}')
            } else if code == 'f' {
                Some('\u{c}')
            } else if code == 'n' {
                Some('\n')
            } else if code == 'r' {
                Some('\r')
            } else if code == 't' {
                Some('\t')
            } else {
                None
            };
            assert(decoded == decode_escape(code));
            assert(pre[1] == code);
            match decoded {
                Some(c2) => {
                    self.pos = self.pos + 2;
                    proof {
                        assert(pre.skip(2) =~= self.chars@.skip(self.pos as int));
                    }
                    Some(c2)
                },
                None => {
                    self.pos = self.chars.len();
                    proof {
                        assert(self.chars@.skip(self.pos as int) =~= Seq::<char>::empty());
                    }
                    None
                },
            }
        }
    }
}

/// The unescaped form of `v[lo..hi]`.
pub fn unescape_range(v: &Vec<char>, lo: usize, hi: usize) -> (out: Vec<char>)
    requires
        lo <= hi <= v@.len(),
    ensures
        out@ == unescape(v@.subrange(lo as int, hi as int)),
{
    let mut sub: Vec<char> = Vec::new();
    let mut i: usize = lo;
    while i < hi
        invariant
            lo <= i <= hi <= v@.len(),
            sub@ == v@.subrange(lo as int, i as int),
        decreases hi - i,
    {
        sub.push(v[i]);
        proof {
            assert(v@.subrange(lo as int, i + 1) =~= v@.subrange(lo as int, i as int).push(
                v@[i as int],
            ));
        }
        i = i + 1;
    }
    let ghost target = unescape(sub@);
    let mut reader = JsonStrChars::new(sub);
    let mut out: Vec<char> = Vec::new();
    proof {
        assert(out@ + reader.remaining() =~= target);
    }
    loop
        invariant
            lo <= hi <= v@.len(),
            target == unescape(v@.subrange(lo as int, hi as int)),
            reader.wf(),
            target == out@ + reader.remaining(),
        decreases reader.chars@.len() - reader.pos,
    {
        let ghost old_pos = reader.pos;
        match reader.next() {
            Some(c) => {
                out.push(c);
                proof {
                    assert(out@ + reader.remaining() =~= target);
                    assert(reader.pos > old_pos);
                }
            },
            None => {
                proof {
                    assert(out@ =~= target);
                }
                return out;
            },
        }
    }
}

} // verus!
