//! The shared nesting-tracking scan over encoded text: one state machine
//! follows quoting, backslash escapes, and brace/bracket depth, and every
//! extraction — finding a key, finding a matching close, splitting a list
//! on top-level commas — is phrased over it. Scanning is lenient: running
//! text that does not follow the encoder's shape yields `None`, never an
//! error.

use vstd::prelude::*;

verus! {

/// Scan state: pending backslash, inside a quoted value, and how many
/// braces and brackets stand open.
pub struct ScanSt {
    pub esc: bool,
    pub quote: bool,
    pub brace: nat,
    pub bracket: nat,
}

pub open spec fn scan_init() -> ScanSt {
    ScanSt { esc: false, quote: false, brace: 0, bracket: 0 }
}

/// One character's effect on the scan state; `None` when a close appears
/// with nothing open, which marks the text malformed.
pub open spec fn scan_step(st: ScanSt, c: char) -> Option<ScanSt> {
    if st.esc {
        Some(ScanSt { esc: false, ..st })
    } else if c == '\\' {
        Some(ScanSt { esc: true, ..st })
    } else if c == '{' && !st.quote {
        Some(ScanSt { brace: st.brace + 1, ..st })
    } else if c == '[' && !st.quote {
        Some(ScanSt { bracket: st.bracket + 1, ..st })
    } else if c == '}' && !st.quote {
        if st.brace == 0 {
            None
        } else {
            Some(ScanSt { brace: (st.brace - 1) as nat, ..st })
        }
    } else if c == ']' && !st.quote {
        if st.bracket == 0 {
            None
        } else {
            Some(ScanSt { bracket: (st.bracket - 1) as nat, ..st })
        }
    } else if c == '"' {
        Some(ScanSt { quote: !st.quote, ..st })
    } else {
        Some(st)
    }
}

/// Outside every quote, brace, and bracket.
pub open spec fn regular(st: ScanSt) -> bool {
    !st.quote && st.brace == 0 && st.bracket == 0
}

/// Index of the last character of the first occurrence of `key` that ends
/// in a regular region, scanning from `i` in state `st`.
pub open spec fn key_end_rec(body: Seq<char>, key: Seq<char>, i: int, st: ScanSt) -> Option<int>
    decreases body.len() - i,
{
    if i < 0 || i >= body.len() {
        None
    } else {
        match scan_step(st, body[i]) {
            None => None,
            Some(st2) => if regular(st2) && i + 1 >= key.len() && body.subrange(
                i + 1 - key.len(),
                i + 1,
            ) == key {
                Some(i)
            } else {
                key_end_rec(body, key, i + 1, st2)
            },
        }
    }
}

/// Index of the first `target` standing in a regular region, scanning
/// from `i` in state `st`; a quote counts as its own end. With the scan
/// started on an opening brace or bracket, this finds its matching close.
pub open spec fn char_idx_rec(body: Seq<char>, target: char, i: int, st: ScanSt) -> Option<int>
    decreases body.len() - i,
{
    if i < 0 || i >= body.len() {
        None
    } else if st.esc {
        char_idx_rec(body, target, i + 1, ScanSt { esc: false, ..st })
    } else {
        match scan_step(st, body[i]) {
            None => None,
            Some(st2) => {
                let unquoted = body[i] == '"' || !st2.quote;
                if unquoted && st2.brace == 0 && st2.bracket == 0 && body[i] == target {
                    Some(i)
                } else {
                    char_idx_rec(body, target, i + 1, st2)
                }
            },
        }
    }
}

pub open spec fn is_meta(c: char) -> bool {
    c == '"' || c == ':' || c == '{' || c == '}' || c == '[' || c == ']'
}

/// Index of the first `meta` from `i` on, provided no other structural
/// character comes before it; a backslash passes over the next character.
pub open spec fn meta_idx_rec(body: Seq<char>, meta: char, i: int, esc: bool) -> Option<int>
    decreases body.len() - i,
{
    if i < 0 || i >= body.len() {
        None
    } else if esc {
        meta_idx_rec(body, meta, i + 1, false)
    } else if body[i] == meta {
        Some(i)
    } else if is_meta(body[i]) {
        None
    } else if body[i] == '\\' {
        meta_idx_rec(body, meta, i + 1, true)
    } else {
        meta_idx_rec(body, meta, i + 1, false)
    }
}

/// Index of the first unescaped quote from `i` on.
pub open spec fn quote_end_rec(body: Seq<char>, i: int, esc: bool) -> Option<int>
    decreases body.len() - i,
{
    if i < 0 || i >= body.len() {
        None
    } else if esc {
        quote_end_rec(body, i + 1, false)
    } else if body[i] == '"' {
        Some(i)
    } else if body[i] == '\\' {
        quote_end_rec(body, i + 1, true)
    } else {
        quote_end_rec(body, i + 1, false)
    }
}

/// Index of the character after the colon that follows `key` at depth
/// zero, when the key, its colon, and at least one more character are all
/// there: where the key's value starts.
pub open spec fn find_json_key(key: Seq<char>, body: Seq<char>) -> Option<int> {
    match key_end_rec(body, key, 0, scan_init()) {
        Some(e) => if e + 1 < body.len() {
            match meta_idx_rec(body, ':', e + 1, false) {
                Some(cl) => if cl + 1 < body.len() {
                    Some(cl + 1)
                } else {
                    None
                },
                None => None,
            }
        } else {
            None
        },
        None => None,
    }
}

/// The raw (still escaped) text of `key`'s quoted value, or empty when
/// the key or a well-formed quoted value is missing.
pub open spec fn find_json_str(key: Seq<char>, body: Seq<char>) -> Seq<char> {
    match find_json_key(key, body) {
        Some(q) => match meta_idx_rec(body, '"', q, false) {
            Some(oq) => if oq + 1 < body.len() {
                match quote_end_rec(body, oq + 1, false) {
                    Some(cq) => body.subrange(oq + 1, cq),
                    None => Seq::empty(),
                }
            } else {
                Seq::empty()
            },
            None => Seq::empty(),
        },
        None => Seq::empty(),
    }
}

/// Compares `v[lo..lo+key.len()]` with `key`.
fn range_eq(v: &Vec<char>, lo: usize, key: &Vec<char>) -> (b: bool)
    requires
        lo + key@.len() <= v@.len(),
    ensures
        b == (v@.subrange(lo as int, lo + key@.len()) == key@),
{
    let n = v.len();
    let m = key.len();
    let mut k: usize = 0;
    while k < m
        invariant
            n == v@.len(),
            m == key@.len(),
            lo + m <= n,
            k <= m,
            forall|j: int| 0 <= j < k ==> v@[lo + j] == key@[j],
        decreases m - k,
    {
        if v[lo + k] != key[k] {
            proof {
                assert(v@.subrange(lo as int, lo + key@.len())[k as int] == v@[lo + k]);
            }
            return false;
        }
        k = k + 1;
    }
    proof {
        assert(v@.subrange(lo as int, lo + key@.len()) =~= key@);
    }
    true
}

/// Scans the whole of `v` for the regular-region end of `key`.
pub fn key_end(v: &Vec<char>, key: &Vec<char>) -> (r: Option<usize>)
    ensures
        match r {
            Some(e) => key_end_rec(v@, key@, 0, scan_init()) == Some(e as int) && e < v@.len(),
            None => key_end_rec(v@, key@, 0, scan_init()) is None,
        },
{
    let n = v.len();
    let mut i: usize = 0;
    let mut esc: bool = false;
    let mut quote: bool = false;
    let mut brace: usize = 0;
    let mut bracket: usize = 0;
    while i < n
        invariant
            n == v@.len(),
            i <= n,
            brace <= i,
            bracket <= i,
            key_end_rec(v@, key@, 0, scan_init()) == key_end_rec(
                v@,
                key@,
                i as int,
                (ScanSt { esc, quote, brace: brace as nat, bracket: bracket as nat }),
            ),
        decreases n - i,
    {
        let ghost st = ScanSt { esc, quote, brace: brace as nat, bracket: bracket as nat };
        let c = v[i];
        if esc {
            esc = false;
        } else if c == '\\' {
            esc = true;
        } else if c == '{' && !quote {
            brace = brace + 1;
        } else if c == '[' && !quote {
            bracket = bracket + 1;
        } else if c == '}' && !quote {
            if brace == 0 {
                return None;
            }
            brace = brace - 1;
        } else if c == ']' && !quote {
            if bracket == 0 {
                return None;
            }
            bracket = bracket - 1;
        } else if c == '"' {
            quote = !quote;
        }
        proof {
            assert(scan_step(st, c) == Some(
                ScanSt { esc, quote, brace: brace as nat, bracket: bracket as nat },
            ));
        }
        if !quote && brace == 0 && bracket == 0 && i + 1 >= key.len() {
            if range_eq(v, i + 1 - key.len(), key) {
                return Some(i);
            }
        }
        i = i + 1;
    }
    None
}

/// Scans from `i` for the first regular-region `target`.
pub fn char_idx_from(v: &Vec<char>, target: char, from: usize) -> (r: Option<usize>)
    requires
        from <= v@.len(),
    ensures
        match r {
            Some(e) => char_idx_rec(v@, target, from as int, scan_init()) == Some(e as int)
                && from <= e < v@.len(),
            None => char_idx_rec(v@, target, from as int, scan_init()) is None,
        },
{
    let n = v.len();
    let mut i: usize = from;
    let mut esc: bool = false;
    let mut quote: bool = false;
    let mut brace: usize = 0;
    let mut bracket: usize = 0;
    while i < n
        invariant
            n == v@.len(),
            from <= i <= n,
            brace <= i,
            bracket <= i,
            char_idx_rec(v@, target, from as int, scan_init()) == char_idx_rec(
                v@,
                target,
                i as int,
                (ScanSt { esc, quote, brace: brace as nat, bracket: bracket as nat }),
            ),
        decreases n - i,
    {
        let ghost st = ScanSt { esc, quote, brace: brace as nat, bracket: bracket as nat };
        let c = v[i];
        if esc {
            esc = false;
        } else {
            if c == '\\' {
                esc = true;
            } else if c == '{' && !quote {
                brace = brace + 1;
            } else if c == '[' && !quote {
                bracket = bracket + 1;
            } else if c == '}' && !quote {
                if brace == 0 {
                    return None;
                }
                brace = brace - 1;
            } else if c == ']' && !quote {
                if bracket == 0 {
                    return None;
                }
                bracket = bracket - 1;
            } else if c == '"' {
                quote = !quote;
            }
            proof {
                assert(scan_step(st, c) == Some(
                    ScanSt { esc, quote, brace: brace as nat, bracket: bracket as nat },
                ));
            }
            if (c == '"' || !quote) && brace == 0 && bracket == 0 && c == target {
                return Some(i);
            }
        }
        i = i + 1;
    }
    None
}

/// Scans from `i` for `meta`, stopping at any other structural character.
pub fn meta_idx_from(v: &Vec<char>, meta: char, from: usize) -> (r: Option<usize>)
    requires
        from <= v@.len(),
    ensures
        match r {
            Some(e) => meta_idx_rec(v@, meta, from as int, false) == Some(e as int) && from <= e
                < v@.len(),
            None => meta_idx_rec(v@, meta, from as int, false) is None,
        },
{
    let n = v.len();
    let mut i: usize = from;
    let mut esc: bool = false;
    while i < n
        invariant
            n == v@.len(),
            from <= i <= n,
            meta_idx_rec(v@, meta, from as int, false) == meta_idx_rec(v@, meta, i as int, esc),
        decreases n - i,
    {
        let c = v[i];
        if esc {
            esc = false;
        } else if c == meta {
            return Some(i);
        } else if c == '"' || c == ':' || c == '{' || c == '}' || c == '[' || c == ']' {
            return None;
        } else if c == '\\' {
            esc = true;
        }
        i = i + 1;
    }
    None
}

/// Scans from `i` for the first unescaped quote.
pub fn quote_end_from(v: &Vec<char>, from: usize) -> (r: Option<usize>)
    requires
        from <= v@.len(),
    ensures
        match r {
            Some(e) => quote_end_rec(v@, from as int, false) == Some(e as int) && from <= e
                < v@.len(),
            None => quote_end_rec(v@, from as int, false) is None,
        },
{
    let n = v.len();
    let mut i: usize = from;
    let mut esc: bool = false;
    while i < n
        invariant
            n == v@.len(),
            from <= i <= n,
            quote_end_rec(v@, from as int, false) == quote_end_rec(v@, i as int, esc),
        decreases n - i,
    {
        let c = v[i];
        if esc {
            esc = false;
        } else if c == '"' {
            return Some(i);
        } else if c == '\\' {
            esc = true;
        }
        i = i + 1;
    }
    None
}

/// Where `key`'s value starts, if the key and its colon are there.
pub fn find_key(v: &Vec<char>, key: &Vec<char>) -> (r: Option<usize>)
    ensures
        match r {
            Some(q) => find_json_key(key@, v@) == Some(q as int) && 0 < q < v@.len(),
            None => find_json_key(key@, v@) is None,
        },
{
    let n = v.len();
    match key_end(v, key) {
        Some(e) => {
            if e + 1 < n {
                match meta_idx_from(v, ':', e + 1) {
                    Some(cl) => {
                        if cl + 1 < n {
                            Some(cl + 1)
                        } else {
                            None
                        }
                    },
                    None => None,
                }
            } else {
                None
            }
        },
        None => None,
    }
}

/// The raw text of `key`'s quoted value, or empty.
pub fn find_str(v: &Vec<char>, key: &Vec<char>) -> (out: Vec<char>)
    ensures
        out@ == find_json_str(key@, v@),
{
    match find_key(v, key) {
        Some(q) => {
            let n = v.len();
            match meta_idx_from(v, '"', q) {
                Some(oq) => {
                    if oq + 1 < n {
                        match quote_end_from(v, oq + 1) {
                            Some(cq) => crate::text::subvec(v, oq + 1, cq),
                            None => Vec::new(),
                        }
                    } else {
                        Vec::new()
                    }
                },
                None => Vec::new(),
            }
        },
        None => Vec::new(),
    }
}

/// One step of splitting a list on its top-level commas: the first
/// element and the rest, or `None` once the text is empty.
pub open spec fn split_next(body: Seq<char>) -> Option<(Seq<char>, Seq<char>)> {
    if body.len() == 0 {
        None
    } else {
        match char_idx_rec(body, ',', 0, scan_init()) {
            Some(k) => if 0 <= k < body.len() {
                Some((body.subrange(0, k), body.subrange(k + 1, body.len() as int)))
            } else {
                Some((body, Seq::empty()))
            },
            None => Some((body, Seq::empty())),
        }
    }
}

/// A list split on all of its top-level commas.
pub open spec fn split_all(body: Seq<char>) -> Seq<Seq<char>>
    decreases body.len(),
{
    match split_next(body) {
        None => Seq::empty(),
        Some(p) => seq![p.0] + split_all(p.1),
    }
}

/// Walks the elements of an encoded list, one slice between top-level
/// commas at a time.
pub struct SourcesIter {
    pub body: Vec<char>,
}

impl SourcesIter {
    pub fn new(body: Vec<char>) -> (r: Self)
        ensures
            r.body@ == body@,
    {
        SourcesIter { body }
    }

    pub fn next(&mut self) -> (r: Option<Vec<char>>)
        ensures
            match r {
                Some(chunk) => split_next(old(self).body@) == Some((chunk@, final(self).body@))
                    && chunk@.len() <= old(self).body@.len() && final(self).body@.len() < old(
                    self,
                ).body@.len(),
                None => old(self).body@.len() == 0 && final(self).body@ == old(self).body@,
            },
    {
        let n = self.body.len();
        if n == 0 {
            return None;
        }
        match char_idx_from(&self.body, ',', 0) {
            Some(k) => {
                let chunk = crate::text::subvec(&self.body, 0, k);
                let rest = crate::text::subvec(&self.body, k + 1, n);
                self.body = rest;
                Some(chunk)
            },
            None => {
                let chunk = crate::text::subvec(&self.body, 0, n);
                self.body = Vec::new();
                proof {
                    assert(chunk@ =~= old(self).body@);
                }
                Some(chunk)
            },
        }
    }
}

} // verus!
