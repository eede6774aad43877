//! The frame of a record: the bytes of the JSON object around the strings
//! of a command, and how they are found again in a log.

use vstd::prelude::*;

verus! {

/// The byte that opens and closes a JSON string.
pub const QUOTE: u8 = 0x22;

/// The byte that escapes the byte after it in a JSON string.
pub const BACKSLASH: u8 = 0x5c;

/// The bytes `{"Set":{"key":`.
pub open spec fn set_open() -> Seq<u8> {
    seq![0x7bu8, 0x22, 0x53, 0x65, 0x74, 0x22, 0x3a, 0x7b, 0x22, 0x6b, 0x65, 0x79, 0x22, 0x3a]
}

/// The bytes `,"value":`.
pub open spec fn set_mid() -> Seq<u8> {
    seq![0x2cu8, 0x22, 0x76, 0x61, 0x6c, 0x75, 0x65, 0x22, 0x3a]
}

/// The bytes `{"Remove":{"key":`.
pub open spec fn remove_open() -> Seq<u8> {
    seq![
        0x7bu8,
        0x22,
        0x52,
        0x65,
        0x6d,
        0x6f,
        0x76,
        0x65,
        0x22,
        0x3a,
        0x7b,
        0x22,
        0x6b,
        0x65,
        0x79,
        0x22,
        0x3a,
    ]
}

/// The bytes `}}`.
pub open spec fn close() -> Seq<u8> {
    seq![0x7du8, 0x7d]
}

/// The bytes of a `Put` record around the two JSON strings given.
pub open spec fn set_frame(key_text: Seq<u8>, value_text: Seq<u8>) -> Seq<u8> {
    set_open() + key_text + set_mid() + value_text + close()
}

/// The bytes of a `Remove` record around the JSON string given.
pub open spec fn remove_frame(key_text: Seq<u8>) -> Seq<u8> {
    remove_open() + key_text + close()
}

fn lit_set_open() -> (lit: Vec<u8>)
    ensures
        lit@ == set_open(),
{
    let lit: Vec<u8> = vec![
        0x7bu8,
        0x22,
        0x53,
        0x65,
        0x74,
        0x22,
        0x3a,
        0x7b,
        0x22,
        0x6b,
        0x65,
        0x79,
        0x22,
        0x3a,
    ];
    assert(lit@ =~= set_open());
    lit
}

fn lit_set_mid() -> (lit: Vec<u8>)
    ensures
        lit@ == set_mid(),
{
    let lit: Vec<u8> = vec![0x2cu8, 0x22, 0x76, 0x61, 0x6c, 0x75, 0x65, 0x22, 0x3a];
    assert(lit@ =~= set_mid());
    lit
}

fn lit_remove_open() -> (lit: Vec<u8>)
    ensures
        lit@ == remove_open(),
{
    let lit: Vec<u8> = vec![
        0x7bu8,
        0x22,
        0x52,
        0x65,
        0x6d,
        0x6f,
        0x76,
        0x65,
        0x22,
        0x3a,
        0x7b,
        0x22,
        0x6b,
        0x65,
        0x79,
        0x22,
        0x3a,
    ];
    assert(lit@ =~= remove_open());
    lit
}

fn lit_close() -> (lit: Vec<u8>)
    ensures
        lit@ == close(),
{
    let lit: Vec<u8> = vec![0x7du8, 0x7d];
    assert(lit@ =~= close());
    lit
}

/// Writes a `Put` record around the two JSON strings given.
pub fn frame_set(key_text: &[u8], value_text: &[u8]) -> (bytes: Vec<u8>)
    ensures
        bytes@ == set_frame(key_text@, value_text@),
{
    let mut bytes = lit_set_open();
    bytes.extend_from_slice(key_text);
    let mut mid = lit_set_mid();
    bytes.append(&mut mid);
    bytes.extend_from_slice(value_text);
    let mut end = lit_close();
    bytes.append(&mut end);
    bytes
}

/// Writes a `Remove` record around the JSON string given.
pub fn frame_remove(key_text: &[u8]) -> (bytes: Vec<u8>)
    ensures
        bytes@ == remove_frame(key_text@),
{
    let mut bytes = lit_remove_open();
    bytes.extend_from_slice(key_text);
    let mut end = lit_close();
    bytes.append(&mut end);
    bytes
}

/// White space as JSON has it: space, line feed, tab and carriage return.
pub open spec fn is_space(b: u8) -> bool {
    b == 0x20 || b == 0x0a || b == 0x09 || b == 0x0d
}

/// The first index from `i` on that holds no white space.
pub open spec fn skip_space(s: Seq<u8>, i: int) -> int
    decreases s.len() - i,
{
    if 0 <= i < s.len() && is_space(s[i]) {
        skip_space(s, i + 1)
    } else {
        i
    }
}

/// Where the JSON string ends whose inside begins at `i`: the index after the
/// first quote that no backslash escapes.
pub open spec fn string_end(s: Seq<u8>, i: int) -> Option<int>
    decreases s.len() - i,
{
    if i < 0 || i >= s.len() {
        None
    } else if s[i] == QUOTE {
        Some(i + 1)
    } else if s[i] == BACKSLASH {
        if i + 1 < s.len() {
            string_end(s, i + 2)
        } else {
            None
        }
    } else {
        string_end(s, i + 1)
    }
}

/// Where the JSON string ends that begins, with its quote, at `i`.
pub open spec fn text_end(s: Seq<u8>, i: int) -> Option<int> {
    if 0 <= i < s.len() && s[i] == QUOTE {
        string_end(s, i + 1)
    } else {
        None
    }
}

/// Whether the bytes of `lit` stand in `s` at `i`.
pub open spec fn lit_at(s: Seq<u8>, i: int, lit: Seq<u8>) -> bool {
    0 <= i && i + lit.len() <= s.len() && s.subrange(i, i + lit.len()) == lit
}

/// Where the parts of one record lie in a sequence of bytes.
pub struct Frame {
    /// Whether the record is a `Put`; otherwise it is a `Remove`.
    pub put: bool,
    /// The JSON string of the key, quotes included.
    pub key: (int, int),
    /// The JSON string of the value; empty for a `Remove`.
    pub value: (int, int),
    /// The index after the record's last byte.
    pub end: int,
}

/// The record that begins exactly at `i`.
pub open spec fn frame_at(s: Seq<u8>, i: int) -> Option<Frame> {
    if lit_at(s, i, set_open()) {
        let ks = i + set_open().len();
        match text_end(s, ks) {
            Some(ke) => if lit_at(s, ke, set_mid()) {
                let vs = ke + set_mid().len();
                match text_end(s, vs) {
                    Some(ve) => if lit_at(s, ve, close()) {
                        Some(
                            Frame {
                                put: true,
                                key: (ks, ke),
                                value: (vs, ve),
                                end: ve + close().len(),
                            },
                        )
                    } else {
                        None
                    },
                    None => None,
                }
            } else {
                None
            },
            None => None,
        }
    } else if lit_at(s, i, remove_open()) {
        let ks = i + remove_open().len();
        match text_end(s, ks) {
            Some(ke) => if lit_at(s, ke, close()) {
                Some(Frame { put: false, key: (ks, ke), value: (ke, ke), end: ke + close().len() })
            } else {
                None
            },
            None => None,
        }
    } else {
        None
    }
}

/// The first record of `s`, after any white space in front of it.
pub open spec fn frame_of(s: Seq<u8>) -> Option<Frame> {
    frame_at(s, skip_space(s, 0))
}

/// Where the parts of one record lie in a slice of bytes.
#[derive(Clone, Copy, Debug, PartialEq, Eq)]
pub struct FrameAt {
    pub put: bool,
    pub key_start: usize,
    pub key_end: usize,
    pub value_start: usize,
    pub value_end: usize,
    pub end: usize,
}

impl View for FrameAt {
    type V = Frame;

    open spec fn view(&self) -> Frame {
        Frame {
            put: self.put,
            key: (self.key_start as int, self.key_end as int),
            value: (self.value_start as int, self.value_end as int),
            end: self.end as int,
        }
    }
}

pub proof fn lemma_skip_space_bounds(s: Seq<u8>, i: int)
    requires
        0 <= i <= s.len(),
    ensures
        i <= skip_space(s, i) <= s.len(),
        skip_space(s, i) < s.len() ==> !is_space(s[skip_space(s, i)]),
        forall|j: int| i <= j < skip_space(s, i) ==> is_space(#[trigger] s[j]),
    decreases s.len() - i,
{
    if i < s.len() && is_space(s[i]) {
        lemma_skip_space_bounds(s, i + 1);
    }
}

pub proof fn lemma_string_end_bounds(s: Seq<u8>, i: int)
    requires
        string_end(s, i) is Some,
    ensures
        0 <= i < string_end(s, i)->0 <= s.len(),
    decreases s.len() - i,
{
    if s[i] == QUOTE {
    } else if s[i] == BACKSLASH {
        lemma_string_end_bounds(s, i + 2);
    } else {
        lemma_string_end_bounds(s, i + 1);
    }
}

/// A record's parts lie in order, inside the bytes.
pub proof fn lemma_frame_bounds(s: Seq<u8>, i: int)
    requires
        frame_at(s, i) is Some,
    ensures
        ({
            let f = frame_at(s, i)->0;
            &&& 0 <= i < f.key.0 < f.key.1 <= f.value.0 <= f.value.1 < f.end <= s.len()
            &&& f.put ==> f.value.0 < f.value.1
        }),
{
    if lit_at(s, i, set_open()) {
        let ks = i + set_open().len();
        lemma_string_end_bounds(s, ks + 1);
        let ke = text_end(s, ks)->0;
        let vs = ke + set_mid().len();
        lemma_string_end_bounds(s, vs + 1);
    } else {
        let ks = i + remove_open().len();
        lemma_string_end_bounds(s, ks + 1);
    }
}

/// Skips the white space that begins at `start`.
pub fn skip_space_from(bytes: &[u8], start: usize) -> (i: usize)
    requires
        start <= bytes.len(),
    ensures
        i == skip_space(bytes@, start as int),
        start <= i <= bytes.len(),
{
    let mut i: usize = start;
    while i < bytes.len() && (bytes[i] == 0x20 || bytes[i] == 0x0a || bytes[i] == 0x09 || bytes[i]
        == 0x0d)
        invariant
            start <= i <= bytes.len(),
            skip_space(bytes@, start as int) == skip_space(bytes@, i as int),
        decreases bytes.len() - i,
    {
        i = i + 1;
    }
    i
}

/// Finds the end of the JSON string that begins, with its quote, at `start`.
pub fn scan_string(bytes: &[u8], start: usize) -> (end: Option<usize>)
    ensures
        match end {
            Some(e) => text_end(bytes@, start as int) == Some(e as int),
            None => text_end(bytes@, start as int) is None,
        },
{
    if start >= bytes.len() || bytes[start] != QUOTE {
        return None;
    }
    let mut i: usize = start + 1;
    loop
        invariant
            start < i <= bytes.len() + 1,
            text_end(bytes@, start as int) == string_end(bytes@, i as int),
        decreases bytes.len() + 1 - i,
    {
        if i >= bytes.len() {
            return None;
        }
        let b = bytes[i];
        if b == QUOTE {
            return Some(i + 1);
        }
        if b == BACKSLASH {
            if i + 1 >= bytes.len() {
                return None;
            }
            i = i + 2;
        } else {
            i = i + 1;
        }
    }
}

/// Tells whether the bytes of `lit` stand in `bytes` at `i`.
pub fn has_lit(bytes: &[u8], i: usize, lit: &[u8]) -> (found: bool)
    ensures
        found == lit_at(bytes@, i as int, lit@),
{
    if i > bytes.len() || lit.len() > bytes.len() - i {
        return false;
    }
    let mut k: usize = 0;
    while k < lit.len()
        invariant
            i + lit.len() <= bytes.len(),
            k <= lit.len(),
            forall|j: int| 0 <= j < k ==> bytes@[i + j] == lit@[j],
        decreases lit.len() - k,
    {
        if bytes[i + k] != lit[k] {
            assert(bytes@.subrange(i as int, i + lit.len())[k as int] != lit@[k as int]);
            return false;
        }
        k = k + 1;
    }
    assert(bytes@.subrange(i as int, i + lit.len()) =~= lit@);
    true
}

/// Finds the parts of the first record of `bytes`.
pub fn scan_frame(bytes: &[u8]) -> (frame: Option<FrameAt>)
    ensures
        match frame {
            Some(f) => frame_of(bytes@) == Some(f@),
            None => frame_of(bytes@) is None,
        },
{
    let i = skip_space_from(bytes, 0);
    let open = lit_set_open();
    let close = lit_close();
    if has_lit(bytes, i, open.as_slice()) {
        let ks = i + open.len();
        let ke = match scan_string(bytes, ks) {
            Some(ke) => ke,
            None => { return None; },
        };
        let mid = lit_set_mid();
        if !has_lit(bytes, ke, mid.as_slice()) {
            return None;
        }
        let vs = ke + mid.len();
        let ve = match scan_string(bytes, vs) {
            Some(ve) => ve,
            None => { return None; },
        };
        if !has_lit(bytes, ve, close.as_slice()) {
            return None;
        }
        Some(
            FrameAt {
                put: true,
                key_start: ks,
                key_end: ke,
                value_start: vs,
                value_end: ve,
                end: ve + close.len(),
            },
        )
    } else {
        let open = lit_remove_open();
        if !has_lit(bytes, i, open.as_slice()) {
            return None;
        }
        let ks = i + open.len();
        let ke = match scan_string(bytes, ks) {
            Some(ke) => ke,
            None => { return None; },
        };
        if !has_lit(bytes, ke, close.as_slice()) {
            return None;
        }
        Some(
            FrameAt {
                put: false,
                key_start: ks,
                key_end: ke,
                value_start: ke,
                value_end: ke,
                end: ke + close.len(),
            },
        )
    }
}

/// Whether two sequences hold the same bytes below `n`.
pub open spec fn same_prefix(s: Seq<u8>, t: Seq<u8>, n: int) -> bool {
    &&& 0 <= n <= s.len()
    &&& n <= t.len()
    &&& forall|j: int| 0 <= j < n ==> s[j] == t[j]
}

proof fn lemma_skip_space_prefix(s: Seq<u8>, t: Seq<u8>, i: int, n: int)
    requires
        same_prefix(s, t, n),
        0 <= i,
        skip_space(s, i) < n,
    ensures
        skip_space(t, i) == skip_space(s, i),
    decreases s.len() - i,
{
    if i < s.len() && is_space(s[i]) {
        lemma_skip_space_bounds(s, i + 1);
        lemma_skip_space_prefix(s, t, i + 1, n);
    }
}

proof fn lemma_string_end_prefix(s: Seq<u8>, t: Seq<u8>, i: int, n: int)
    requires
        same_prefix(s, t, n),
        string_end(s, i) is Some,
        string_end(s, i)->0 <= n,
    ensures
        string_end(t, i) == string_end(s, i),
    decreases s.len() - i,
{
    lemma_string_end_bounds(s, i);
    if s[i] == QUOTE {
    } else if s[i] == BACKSLASH {
        lemma_string_end_bounds(s, i + 2);
        lemma_string_end_prefix(s, t, i + 2, n);
    } else {
        lemma_string_end_bounds(s, i + 1);
        lemma_string_end_prefix(s, t, i + 1, n);
    }
}

proof fn lemma_lit_prefix(s: Seq<u8>, t: Seq<u8>, i: int, lit: Seq<u8>, n: int)
    requires
        same_prefix(s, t, n),
        0 <= i,
        i + lit.len() <= n,
    ensures
        lit_at(t, i, lit) == lit_at(s, i, lit),
{
    assert(s.subrange(i, i + lit.len()) =~= t.subrange(i, i + lit.len()));
}

proof fn lemma_text_end_prefix(s: Seq<u8>, t: Seq<u8>, i: int, n: int)
    requires
        same_prefix(s, t, n),
        text_end(s, i) is Some,
        text_end(s, i)->0 <= n,
    ensures
        text_end(t, i) == text_end(s, i),
{
    lemma_string_end_bounds(s, i + 1);
    lemma_string_end_prefix(s, t, i + 1, n);
}

proof fn lemma_frame_at_prefix(s: Seq<u8>, t: Seq<u8>, i: int, n: int)
    requires
        same_prefix(s, t, n),
        frame_at(s, i) is Some,
        frame_at(s, i)->0.end <= n,
    ensures
        frame_at(t, i) == frame_at(s, i),
{
    lemma_frame_bounds(s, i);
    let f = frame_at(s, i)->0;
    if lit_at(s, i, set_open()) {
        lemma_lit_prefix(s, t, i, set_open(), n);
        lemma_text_end_prefix(s, t, f.key.0, n);
        lemma_lit_prefix(s, t, f.key.1, set_mid(), n);
        lemma_text_end_prefix(s, t, f.value.0, n);
        lemma_lit_prefix(s, t, f.value.1, close(), n);
    } else {
        lemma_lit_prefix(s, t, i, set_open(), n);
        lemma_lit_prefix(s, t, i, remove_open(), n);
        lemma_text_end_prefix(s, t, f.key.0, n);
        lemma_lit_prefix(s, t, f.key.1, close(), n);
    }
}

/// The parts of a record are found in its own bytes alone: what follows the
/// record does not matter.
pub proof fn lemma_frame_prefix(s: Seq<u8>, t: Seq<u8>)
    requires
        frame_of(s) is Some,
        same_prefix(s, t, frame_of(s)->0.end),
    ensures
        frame_of(t) == frame_of(s),
{
    let n = frame_of(s)->0.end;
    let i = skip_space(s, 0);
    lemma_skip_space_bounds(s, 0);
    lemma_frame_bounds(s, i);
    lemma_skip_space_prefix(s, t, 0, n);
    lemma_frame_at_prefix(s, t, i, n);
}

} // verus!
