//! The request parser: raw bytes in, a structured request out.
//!
//! The input is treated as best-effort line- and token-oriented text. The
//! first line must split into exactly three whitespace-separated tokens
//! (method, path, version); the remaining lines up to the first blank line
//! are scanned for headers. A header line is split at its first colon, the
//! name trimmed and ASCII-lowercased, the value trimmed; a line without a
//! colon is skipped; on a repeated name the later value wins.

use vstd::prelude::*;

use crate::bytes::{
    byte_is_ws, bytes_eq, is_ws, lower_bytes, lower_seq, slice_subrange, trim_bytes, trim_seq,
};

verus! {

// ---------------------------------------------------------------------------
// Specification model
// ---------------------------------------------------------------------------

/// Length of the run of bytes at `from` that stops before the first line
/// feed (or at the end of `s`).
pub open spec fn line_len(s: Seq<u8>, from: int) -> nat
    decreases s.len() - from,
{
    if from < 0 || from >= s.len() || s[from] == 10 {
        0
    } else {
        1 + line_len(s, from + 1)
    }
}

/// A line with one trailing carriage return removed.
pub open spec fn strip_cr(l: Seq<u8>) -> Seq<u8> {
    if l.len() > 0 && l.last() == 13 {
        l.drop_last()
    } else {
        l
    }
}

/// A run until a line feed never reaches past the end of `s`.
pub proof fn lemma_line_len_bound(s: Seq<u8>, from: int)
    requires
        0 <= from <= s.len(),
    ensures
        line_len(s, from) <= s.len() - from,
    decreases s.len() - from,
{
    if from < s.len() && s[from] != 10 {
        lemma_line_len_bound(s, from + 1);
    }
}

/// The lines of `s` from position `from` on: split at each line feed, one
/// trailing carriage return removed per line, no empty line for a trailing
/// line feed.
pub open spec fn lines_from(s: Seq<u8>, from: int) -> Seq<Seq<u8>>
    decreases s.len() - from,
    via lines_from_decreases
{
    if from < 0 || from >= s.len() {
        Seq::empty()
    } else {
        let e = from + line_len(s, from) as int;
        let next = if e + 1 <= s.len() {
            e + 1
        } else {
            s.len() as int
        };
        seq![strip_cr(s.subrange(from, e))] + lines_from(s, next)
    }
}

#[via_fn]
proof fn lines_from_decreases(s: Seq<u8>, from: int) {
    if 0 <= from < s.len() {
        lemma_line_len_bound(s, from);
    }
}

/// The lines of `s`.
pub open spec fn lines_of(s: Seq<u8>) -> Seq<Seq<u8>> {
    lines_from(s, 0)
}

/// Length of the run of non-whitespace bytes starting at `from`.
pub open spec fn token_len(s: Seq<u8>, from: int) -> nat
    decreases s.len() - from,
{
    if from < 0 || from >= s.len() || is_ws(s[from]) {
        0
    } else {
        1 + token_len(s, from + 1)
    }
}

/// A run of non-whitespace never reaches past the end of `s`.
pub proof fn lemma_token_len_bound(s: Seq<u8>, from: int)
    requires
        0 <= from <= s.len(),
    ensures
        token_len(s, from) <= s.len() - from,
    decreases s.len() - from,
{
    if from < s.len() && !is_ws(s[from]) {
        lemma_token_len_bound(s, from + 1);
    }
}

/// The whitespace-separated tokens of `s` from position `from` on.
pub open spec fn tokens_from(s: Seq<u8>, from: int) -> Seq<Seq<u8>>
    decreases s.len() - from,
    via tokens_from_decreases
{
    if from < 0 || from >= s.len() {
        Seq::empty()
    } else if is_ws(s[from]) {
        tokens_from(s, from + 1)
    } else {
        let e = from + 1 + token_len(s, from + 1) as int;
        seq![s.subrange(from, e)] + tokens_from(s, e)
    }
}

#[via_fn]
proof fn tokens_from_decreases(s: Seq<u8>, from: int) {
    if 0 <= from < s.len() && !is_ws(s[from]) {
        lemma_token_len_bound(s, from + 1);
    }
}

/// The whitespace-separated tokens of a line.
pub open spec fn tokens_of(l: Seq<u8>) -> Seq<Seq<u8>> {
    tokens_from(l, 0)
}

/// Number of bytes of `l` before its first colon starting at `from` (the
/// whole remaining length when there is none).
pub open spec fn colon_len(l: Seq<u8>, from: int) -> nat
    decreases l.len() - from,
{
    if from < 0 || from >= l.len() || l[from] == 58 {
        0
    } else {
        1 + colon_len(l, from + 1)
    }
}

/// Whether the line contains a colon, i.e. names a header.
pub open spec fn has_colon(l: Seq<u8>) -> bool {
    colon_len(l, 0) < l.len()
}

/// The header name of a line with a colon: everything before the first
/// colon, trimmed and ASCII-lowercased.
pub open spec fn entry_key(l: Seq<u8>) -> Seq<u8> {
    lower_seq(trim_seq(l.take(colon_len(l, 0) as int)))
}

/// The header value of a line with a colon: everything after the first
/// colon, trimmed.
pub open spec fn entry_val(l: Seq<u8>) -> Seq<u8> {
    trim_seq(l.skip(colon_len(l, 0) as int + 1))
}

/// Folds header lines into a header mapping, stopping at the first blank
/// line; a later occurrence of a name overwrites an earlier one.
pub open spec fn headers_fold(ls: Seq<Seq<u8>>, acc: Map<Seq<u8>, Seq<u8>>) -> Map<
    Seq<u8>,
    Seq<u8>,
>
    decreases ls.len(),
{
    if ls.len() == 0 || ls[0].len() == 0 {
        acc
    } else {
        let acc2 = if has_colon(ls[0]) {
            acc.insert(entry_key(ls[0]), entry_val(ls[0]))
        } else {
            acc
        };
        headers_fold(ls.drop_first(), acc2)
    }
}

/// The header mapping read from a sequence of header lines.
pub open spec fn headers_of(ls: Seq<Seq<u8>>) -> Map<Seq<u8>, Seq<u8>> {
    headers_fold(ls, Map::empty())
}

/// The tokens of the request line (the first line) of raw request bytes.
pub open spec fn request_tokens(data: Seq<u8>) -> Seq<Seq<u8>> {
    tokens_of(lines_of(data)[0])
}

/// Whether raw request bytes parse: non-empty input whose first line has
/// exactly three tokens.
pub open spec fn parse_ok(data: Seq<u8>) -> bool {
    data.len() > 0 && request_tokens(data).len() == 3
}

/// The method token of raw request bytes (meaningful when they parse).
pub open spec fn spec_method(data: Seq<u8>) -> Seq<u8> {
    request_tokens(data)[0]
}

/// The path token of raw request bytes (meaningful when they parse).
pub open spec fn spec_path(data: Seq<u8>) -> Seq<u8> {
    request_tokens(data)[1]
}

/// The version token of raw request bytes (meaningful when they parse).
pub open spec fn spec_version(data: Seq<u8>) -> Seq<u8> {
    request_tokens(data)[2]
}

/// The header mapping of raw request bytes: read from the lines after the
/// first, up to the first blank line.
pub open spec fn spec_headers(data: Seq<u8>) -> Map<Seq<u8>, Seq<u8>> {
    headers_of(lines_of(data).drop_first())
}

// ---------------------------------------------------------------------------
// Executable splitting
// ---------------------------------------------------------------------------

/// Splits raw bytes into lines, as `lines_of` describes.
fn split_lines(data: &[u8]) -> (r: Vec<Vec<u8>>)
    ensures
        r@.map_values(|l: Vec<u8>| l@) == lines_of(data@),
{
    let n = data.len();
    let mut out: Vec<Vec<u8>> = Vec::new();
    let mut from: usize = 0;
    while from < n
        invariant
            n == data@.len(),
            0 <= from <= n,
            out@.map_values(|l: Vec<u8>| l@) + lines_from(data@, from as int) == lines_of(data@),
        decreases n - from,
    {
        let mut j = from;
        while j < n && data[j] != 10
            invariant
                n == data@.len(),
                from <= j <= n,
                line_len(data@, from as int) == (j - from) + line_len(data@, j as int),
            decreases n - j,
        {
            j = j + 1;
        }
        proof {
            assert(line_len(data@, j as int) == 0);
        }
        let mut line = vstd::slice::slice_to_vec(slice_subrange(data, from, j));
        if line.len() > 0 && line[line.len() - 1] == 13 {
            line.pop();
            proof {
                assert(line@ =~= strip_cr(data@.subrange(from as int, j as int)));
            }
        }
        proof {
            assert(line@ == strip_cr(data@.subrange(from as int, j as int)));
        }
        out.push(line);
        proof {
            let ghost prev = out@.drop_last();
            assert(out@.map_values(|l: Vec<u8>| l@) =~= prev.map_values(|l: Vec<u8>| l@).push(
                line@,
            ));
            let ghost next: int = if j + 1 <= n {
                j + 1
            } else {
                n as int
            };
            assert(out@.map_values(|l: Vec<u8>| l@) + lines_from(data@, next) =~= lines_of(
                data@,
            ));
        }
        from = if j < n {
            j + 1
        } else {
            n
        };
    }
    proof {
        assert(out@.map_values(|l: Vec<u8>| l@) =~= lines_of(data@));
    }
    out
}

/// Splits a line into its whitespace-separated tokens, as `tokens_of`
/// describes.
fn split_tokens(l: &[u8]) -> (r: Vec<Vec<u8>>)
    ensures
        r@.map_values(|t: Vec<u8>| t@) == tokens_of(l@),
{
    let n = l.len();
    let mut out: Vec<Vec<u8>> = Vec::new();
    let mut i: usize = 0;
    while i < n
        invariant
            n == l@.len(),
            0 <= i <= n,
            out@.map_values(|t: Vec<u8>| t@) + tokens_from(l@, i as int) == tokens_of(l@),
        decreases n - i,
    {
        if byte_is_ws(l[i]) {
            i = i + 1;
        } else {
            let mut j = i;
            while j < n && !byte_is_ws(l[j])
                invariant
                    n == l@.len(),
                    i <= j <= n,
                    token_len(l@, i as int) == (j - i) + token_len(l@, j as int),
                decreases n - j,
            {
                j = j + 1;
            }
            proof {
                assert(token_len(l@, j as int) == 0);
            }
            let tok = vstd::slice::slice_to_vec(slice_subrange(l, i, j));
            out.push(tok);
            proof {
                let ghost prev = out@.drop_last();
                assert(out@.map_values(|t: Vec<u8>| t@) =~= prev.map_values(|t: Vec<u8>| t@).push(
                    l@.subrange(i as int, j as int),
                ));
                assert(out@.map_values(|t: Vec<u8>| t@) + tokens_from(l@, j as int) =~= tokens_of(
                    l@,
                ));
            }
            i = j;
        }
    }
    proof {
        assert(out@.map_values(|t: Vec<u8>| t@) =~= tokens_of(l@));
    }
    out
}

/// Finds the position of the first colon in a line, if any.
pub(crate) fn find_colon(l: &[u8]) -> (r: Option<usize>)
    ensures
        match r {
            Some(c) => c == colon_len(l@, 0) && c < l@.len() && l@[c as int] == 58,
            None => colon_len(l@, 0) == l@.len(),
        },
{
    let n = l.len();
    let mut i: usize = 0;
    while i < n && l[i] != 58
        invariant
            n == l@.len(),
            0 <= i <= n,
            colon_len(l@, 0) == i + colon_len(l@, i as int),
        decreases n - i,
    {
        i = i + 1;
    }
    proof {
        assert(colon_len(l@, i as int) == 0);
    }
    if i < n {
        Some(i)
    } else {
        None
    }
}


// ---------------------------------------------------------------------------
// Header map
// ---------------------------------------------------------------------------

/// The mapping read off a run of (name, value) entries: a name maps to the
/// value of an entry carrying it.
pub open spec fn map_of_entries(s: Seq<(Vec<u8>, Vec<u8>)>) -> Map<Seq<u8>, Seq<u8>> {
    Map::new(
        |k: Seq<u8>| exists|i: int| 0 <= i < s.len() && (#[trigger] s[i]).0@ == k,
        |k: Seq<u8>|
            {
                let i = choose|i: int| 0 <= i < s.len() && (#[trigger] s[i]).0@ == k;
                s[i].1@
            },
    )
}

/// No name occurs twice in the run of entries.
pub open spec fn entries_distinct(s: Seq<(Vec<u8>, Vec<u8>)>) -> bool {
    forall|i: int, j: int| 0 <= i < j < s.len() ==> (#[trigger] s[i]).0@ != (#[trigger] s[j]).0@
}

/// A header mapping with unique names, kept as a vector of (name, value)
/// pairs. Inserting an existing name replaces its value, so on duplicate
/// input the later occurrence wins.
pub struct HeaderMap {
    entries: Vec<(Vec<u8>, Vec<u8>)>,
}

impl View for HeaderMap {
    type V = Map<Seq<u8>, Seq<u8>>;

    closed spec fn view(&self) -> Map<Seq<u8>, Seq<u8>> {
        map_of_entries(self.entries@)
    }
}

impl HeaderMap {
    /// Well-formed: no name occurs twice.
    pub closed spec fn wf(&self) -> bool {
        entries_distinct(self.entries@)
    }

    /// An empty header mapping.
    pub fn new() -> (r: Self)
        ensures
            r@ == Map::<Seq<u8>, Seq<u8>>::empty(),
            r.wf(),
    {
        let r = HeaderMap { entries: Vec::new() };
        proof {
            assert(r@ =~= Map::<Seq<u8>, Seq<u8>>::empty());
        }
        r
    }

    /// Looks a header value up by its exact (already lowercased) name.
    pub fn get(&self, name: &[u8]) -> (r: Option<&Vec<u8>>)
        requires
            self.wf(),
        ensures
            match r {
                Some(v) => self@.contains_key(name@) && v@ == self@[name@],
                None => !self@.contains_key(name@),
            },
    {
        let n = self.entries.len();
        let mut i: usize = 0;
        while i < n
            invariant
                self.wf(),
                n == self.entries@.len(),
                0 <= i <= n,
                forall|j: int| 0 <= j < i ==> (#[trigger] self.entries@[j]).0@ != name@,
            decreases n - i,
        {
            if bytes_eq(self.entries[i].0.as_slice(), name) {
                proof {
                    let s = self.entries@;
                    assert(s[i as int].0@ == name@);
                    assert(self@.contains_key(name@));
                    let w = choose|w: int| 0 <= w < s.len() && (#[trigger] s[w]).0@ == name@;
                    assert(w == i as int);
                }
                return Some(&self.entries[i].1);
            }
            i = i + 1;
        }
        proof {
            assert(!self@.contains_key(name@));
        }
        None
    }

    /// Inserts a header, replacing the value of an existing equal name.
    pub fn insert(&mut self, name: Vec<u8>, value: Vec<u8>)
        requires
            old(self).wf(),
        ensures
            final(self).wf(),
            final(self)@ == old(self)@.insert(name@, value@),
    {
        let ghost pre = self.entries@;
        let ghost k = name@;
        let ghost v = value@;
        let n = self.entries.len();
        let mut i: usize = 0;
        while i < n
            invariant
                self.entries@ == pre,
                pre == old(self).entries@,
                entries_distinct(pre),
                n == pre.len(),
                0 <= i <= n,
                forall|j: int| 0 <= j < i ==> (#[trigger] pre[j]).0@ != k,
                k == name@,
                v == value@,
            decreases n - i,
        {
            if bytes_eq(self.entries[i].0.as_slice(), name.as_slice()) {
                self.entries.remove(i);
                self.entries.push((name, value));
                proof {
                    lemma_entries_replace(pre, i as int, self.entries@, k, v);
                    assert(self@ =~= old(self)@.insert(k, v));
                }
                return ;
            }
            i = i + 1;
        }
        self.entries.push((name, value));
        proof {
            lemma_entries_append(pre, self.entries@, k, v);
            assert(self@ =~= old(self)@.insert(k, v));
        }
    }
}

/// Replacing the one entry named `k` (remove it, push a fresh `(k, v)`)
/// keeps names distinct and sets `k` to `v` in the mapping.
proof fn lemma_entries_replace(
    pre: Seq<(Vec<u8>, Vec<u8>)>,
    i: int,
    post: Seq<(Vec<u8>, Vec<u8>)>,
    k: Seq<u8>,
    v: Seq<u8>,
)
    requires
        entries_distinct(pre),
        0 <= i < pre.len(),
        pre[i].0@ == k,
        post.len() == pre.len(),
        post == pre.remove(i).push(post.last()),
        post.last().0@ == k,
        post.last().1@ == v,
    ensures
        entries_distinct(post),
        map_of_entries(post) == map_of_entries(pre).insert(k, v),
{
    let last = post.len() - 1;
    assert forall|a: int, b: int| 0 <= a < b < post.len() implies (#[trigger] post[a]).0@ != (
    #[trigger] post[b]).0@ by {
        if a < i {
            assert(post[a] == pre[a]);
        } else if a < last {
            assert(post[a] == pre[a + 1]);
        }
        if b < i {
            assert(post[b] == pre[b]);
        } else if b < last {
            assert(post[b] == pre[b + 1]);
        }
    }
    assert forall|q: Seq<u8>| #[trigger] map_of_entries(post).contains_key(q) implies map_of_entries(
        pre,
    ).insert(k, v).contains_key(q) && map_of_entries(post)[q] == map_of_entries(pre).insert(
        k,
        v,
    )[q] by {
        let w = choose|w: int| 0 <= w < post.len() && (#[trigger] post[w]).0@ == q;
        if q == k {
            assert(post[last].0@ == k);
            assert(w == last);
            assert(map_of_entries(post)[q] == v);
        } else {
            assert(w < last);
            let orig = if w < i {
                w
            } else {
                w + 1
            };
            assert(post[w] == pre[orig]);
            assert(map_of_entries(pre).contains_key(q));
            let w0 = choose|w0: int| 0 <= w0 < pre.len() && (#[trigger] pre[w0]).0@ == q;
            assert(w0 == orig);
        }
    }
    assert forall|q: Seq<u8>| #[trigger] map_of_entries(pre).insert(k, v).contains_key(
        q,
    ) implies map_of_entries(post).contains_key(q) by {
        if q == k {
            assert(post[last].0@ == k);
        } else {
            let w0 = choose|w0: int| 0 <= w0 < pre.len() && (#[trigger] pre[w0]).0@ == q;
            assert(w0 != i);
            let w = if w0 < i {
                w0
            } else {
                w0 - 1
            };
            assert(post[w] == pre[w0]);
        }
    }
    assert(map_of_entries(post) =~= map_of_entries(pre).insert(k, v));
}

/// Appending an entry with a fresh name keeps names distinct and adds the
/// pair to the mapping.
proof fn lemma_entries_append(
    pre: Seq<(Vec<u8>, Vec<u8>)>,
    post: Seq<(Vec<u8>, Vec<u8>)>,
    k: Seq<u8>,
    v: Seq<u8>,
)
    requires
        entries_distinct(pre),
        forall|j: int| 0 <= j < pre.len() ==> (#[trigger] pre[j]).0@ != k,
        post.len() == pre.len() + 1,
        post == pre.push(post.last()),
        post.last().0@ == k,
        post.last().1@ == v,
    ensures
        entries_distinct(post),
        map_of_entries(post) == map_of_entries(pre).insert(k, v),
{
    let last = post.len() - 1;
    assert forall|a: int, b: int| 0 <= a < b < post.len() implies (#[trigger] post[a]).0@ != (
    #[trigger] post[b]).0@ by {
        assert(post[a] == pre[a]);
        if b < last {
            assert(post[b] == pre[b]);
        }
    }
    assert forall|q: Seq<u8>| #[trigger] map_of_entries(post).contains_key(q) implies map_of_entries(
        pre,
    ).insert(k, v).contains_key(q) && map_of_entries(post)[q] == map_of_entries(pre).insert(
        k,
        v,
    )[q] by {
        let w = choose|w: int| 0 <= w < post.len() && (#[trigger] post[w]).0@ == q;
        if q == k {
            assert(w == last);
            assert(map_of_entries(post)[q] == v);
        } else {
            assert(w < last);
            assert(post[w] == pre[w]);
            assert(map_of_entries(pre).contains_key(q));
            let w0 = choose|w0: int| 0 <= w0 < pre.len() && (#[trigger] pre[w0]).0@ == q;
            assert(w0 == w);
        }
    }
    assert forall|q: Seq<u8>| #[trigger] map_of_entries(pre).insert(k, v).contains_key(
        q,
    ) implies map_of_entries(post).contains_key(q) by {
        if q == k {
            assert(post[last].0@ == k);
        } else {
            let w0 = choose|w0: int| 0 <= w0 < pre.len() && (#[trigger] pre[w0]).0@ == q;
            assert(post[w0] == pre[w0]);
        }
    }
    assert(map_of_entries(post) =~= map_of_entries(pre).insert(k, v));
}

// ---------------------------------------------------------------------------
// Request
// ---------------------------------------------------------------------------

/// Why raw request bytes failed to parse.
#[derive(Clone, Copy, Debug, PartialEq, Eq, Structural)]
pub enum ParseError {
    /// The input held no bytes at all.
    Empty,
    /// The first line did not split into exactly three tokens.
    InvalidRequestLine,
}

/// A parsed request: the three request-line tokens and the header mapping.
pub struct Request {
    pub method: Vec<u8>,
    pub path: Vec<u8>,
    pub version: Vec<u8>,
    pub headers: HeaderMap,
}

impl Request {
    /// Parses raw request bytes.
    ///
    /// Fails exactly on empty input or a first line whose token count is
    /// not three; otherwise the three tokens are returned verbatim and the
    /// lines up to the first blank line populate the header mapping.
    pub fn parse(data: &[u8]) -> (r: Result<Request, ParseError>)
        ensures
            r is Ok <==> parse_ok(data@),
            r matches Ok(req) ==> ({
                &&& req.method@ == spec_method(data@)
                &&& req.path@ == spec_path(data@)
                &&& req.version@ == spec_version(data@)
                &&& req.headers.wf()
                &&& req.headers@ == spec_headers(data@)
            }),
            r matches Err(e) ==> ((e == ParseError::Empty && data@.len() == 0) || (
            e == ParseError::InvalidRequestLine && data@.len() > 0 && request_tokens(data@).len()
                != 3)),
    {
        if data.len() == 0 {
            return Err(ParseError::Empty);
        }
        let ghost ls = lines_of(data@);
        let lines = split_lines(data);
        proof {
            assert(ls.len() == lines@.len());
            assert(lines@.map_values(|l: Vec<u8>| l@)[0] == ls[0]);
        }
        let mut toks = split_tokens(lines[0].as_slice());
        proof {
            assert(toks@.map_values(|t: Vec<u8>| t@) == request_tokens(data@));
            assert(toks@.len() == request_tokens(data@).len());
        }
        if toks.len() != 3 {
            return Err(ParseError::InvalidRequestLine);
        }
        let version = match toks.pop() {
            Some(t) => t,
            None => { return Err(ParseError::InvalidRequestLine) },
        };
        let path = match toks.pop() {
            Some(t) => t,
            None => { return Err(ParseError::InvalidRequestLine) },
        };
        let method = match toks.pop() {
            Some(t) => t,
            None => { return Err(ParseError::InvalidRequestLine) },
        };
        proof {
            assert(method@ == request_tokens(data@)[0]);
            assert(path@ == request_tokens(data@)[1]);
            assert(version@ == request_tokens(data@)[2]);
        }
        let mut headers = HeaderMap::new();
        let n = lines.len();
        let mut i: usize = 1;
        while i < n && lines[i].len() > 0
            invariant
                lines@.map_values(|l: Vec<u8>| l@) == ls,
                n == lines@.len(),
                1 <= i <= n,
                headers.wf(),
                headers_fold(ls.skip(1), Map::empty()) == headers_fold(
                    ls.skip(i as int),
                    headers@,
                ),
            decreases n - i,
        {
            let ghost pre_map = headers@;
            let line = &lines[i];
            proof {
                assert(line@ == ls[i as int]);
                assert(ls.skip(i as int)[0] == ls[i as int]);
            }
            match find_colon(line.as_slice()) {
                Some(c) => {
                    let rawname = trim_bytes(slice_subrange(line.as_slice(), 0, c));
                    let key = lower_bytes(rawname.as_slice());
                    let value = trim_bytes(slice_subrange(line.as_slice(), c + 1, line.len()));
                    proof {
                        assert(line@.subrange(0, c as int) =~= line@.take(colon_len(line@, 0) as int));
                        assert(line@.subrange(c + 1, line@.len() as int) =~= line@.skip(
                            colon_len(line@, 0) as int + 1,
                        ));
                        assert(key@ == entry_key(ls[i as int]));
                        assert(value@ == entry_val(ls[i as int]));
                    }
                    headers.insert(key, value);
                    proof {
                        assert(has_colon(ls[i as int]));
                        assert(headers@ == pre_map.insert(
                            entry_key(ls[i as int]),
                            entry_val(ls[i as int]),
                        ));
                    }
                },
                None => {
                    proof {
                        assert(!has_colon(ls[i as int]));
                    }
                },
            }
            proof {
                assert(ls.skip(i as int).drop_first() =~= ls.skip(i + 1));
                assert(headers_fold(ls.skip(i as int), pre_map) == headers_fold(
                    ls.skip(i + 1),
                    headers@,
                ));
            }
            i = i + 1;
        }
        proof {
            assert(headers_fold(ls.skip(i as int), headers@) == headers@);
            assert(ls.skip(1) =~= ls.drop_first());
            assert(headers@ == spec_headers(data@));
        }
        Ok(Request { method, path, version, headers })
    }
}

// ---------------------------------------------------------------------------
// Laws of the header scan
// ---------------------------------------------------------------------------

/// Lowercasing moves no byte onto or off the colon, so the first-colon
/// position is unchanged by it.
pub proof fn lemma_colon_len_lower(l: Seq<u8>, from: int)
    ensures
        colon_len(lower_seq(l), from) == colon_len(l, from),
    decreases l.len() - from,
{
    if 0 <= from < l.len() {
        lemma_colon_len_lower(l, from + 1);
    }
}

/// A run until a colon never reaches past the end of `l`.
pub proof fn lemma_colon_len_bound(l: Seq<u8>, from: int)
    requires
        0 <= from <= l.len(),
    ensures
        colon_len(l, from) <= l.len() - from,
    decreases l.len() - from,
{
    if from < l.len() && l[from] != 58 {
        lemma_colon_len_bound(l, from + 1);
    }
}

/// Header names are case-insensitively normalized: two header lines equal
/// up to ASCII case agree on whether they name a header and, if they do,
/// populate the same key.
pub proof fn lemma_header_names_case_insensitive(l1: Seq<u8>, l2: Seq<u8>)
    requires
        lower_seq(l1) == lower_seq(l2),
    ensures
        has_colon(l1) == has_colon(l2),
        has_colon(l1) ==> entry_key(l1) == entry_key(l2),
{
    lemma_colon_len_lower(l1, 0);
    lemma_colon_len_lower(l2, 0);
    assert(l1.len() == lower_seq(l1).len());
    assert(colon_len(l1, 0) == colon_len(l2, 0));
    if has_colon(l1) {
        let c = colon_len(l1, 0) as int;
        lemma_colon_len_bound(l1, 0);
        let x1 = l1.take(c);
        let x2 = l2.take(c);
        assert(lower_seq(x1) =~= lower_seq(l1).take(c));
        assert(lower_seq(x2) =~= lower_seq(l2).take(c));
        crate::bytes::lemma_trim_lower(x1);
        crate::bytes::lemma_trim_lower(x2);
        assert(entry_key(l1) == trim_seq(lower_seq(x1)));
        assert(entry_key(l2) == trim_seq(lower_seq(x2)));
    }
}

/// The lines up to and including index `j` are all non-blank, i.e. the
/// header scan reaches line `j`.
pub open spec fn all_nonblank_to(ls: Seq<Seq<u8>>, j: int) -> bool {
    forall|m: int| 0 <= m <= j ==> (#[trigger] ls[m]).len() > 0
}

/// No line of `ls` that the header scan reaches populates key `k`.
pub open spec fn no_entry_for(ls: Seq<Seq<u8>>, k: Seq<u8>) -> bool {
    forall|j: int|
        0 <= j < ls.len() && all_nonblank_to(ls, j) && has_colon(ls[j]) ==> #[trigger] entry_key(
            ls[j],
        ) != k
}

/// Folding lines none of which populates `k` leaves `k` as the
/// accumulator has it.
proof fn lemma_fold_key_untouched(ls: Seq<Seq<u8>>, acc: Map<Seq<u8>, Seq<u8>>, k: Seq<u8>)
    requires
        no_entry_for(ls, k),
    ensures
        headers_fold(ls, acc).contains_key(k) == acc.contains_key(k),
        acc.contains_key(k) ==> headers_fold(ls, acc)[k] == acc[k],
    decreases ls.len(),
{
    if ls.len() == 0 || ls[0].len() == 0 {
    } else {
        assert(all_nonblank_to(ls, 0));
        let acc2 = if has_colon(ls[0]) {
            acc.insert(entry_key(ls[0]), entry_val(ls[0]))
        } else {
            acc
        };
        if has_colon(ls[0]) {
            assert(entry_key(ls[0]) != k);
        }
        let rest = ls.drop_first();
        assert forall|j: int|
            0 <= j < rest.len() && all_nonblank_to(rest, j) && has_colon(
                rest[j],
            ) implies #[trigger] entry_key(rest[j]) != k by {
            assert(rest[j] == ls[j + 1]);
            assert forall|m: int| 0 <= m <= j + 1 implies (#[trigger] ls[m]).len() > 0 by {
                if m > 0 {
                    assert(rest[m - 1] == ls[m]);
                }
            }
            assert(all_nonblank_to(ls, j + 1));
        }
        lemma_fold_key_untouched(rest, acc2, k);
    }
}

/// Folding from line `j` on, where line `j` populates `k` and no reached
/// later line does, makes `k` map to line `j`'s value.
proof fn lemma_fold_later_wins(ls: Seq<Seq<u8>>, acc: Map<Seq<u8>, Seq<u8>>, j: int)
    requires
        0 <= j < ls.len(),
        all_nonblank_to(ls, j),
        has_colon(ls[j]),
        forall|j2: int|
            j < j2 < ls.len() && all_nonblank_to(ls, j2) && has_colon(
                ls[j2],
            ) ==> #[trigger] entry_key(ls[j2]) != entry_key(ls[j]),
    ensures
        headers_fold(ls, acc).contains_key(entry_key(ls[j])),
        headers_fold(ls, acc)[entry_key(ls[j])] == entry_val(ls[j]),
    decreases j,
{
    let k = entry_key(ls[j]);
    let rest = ls.drop_first();
    assert(ls[0].len() > 0);
    let acc2 = if has_colon(ls[0]) {
        acc.insert(entry_key(ls[0]), entry_val(ls[0]))
    } else {
        acc
    };
    if j == 0 {
        assert forall|j2: int|
            0 <= j2 < rest.len() && all_nonblank_to(rest, j2) && has_colon(
                rest[j2],
            ) implies #[trigger] entry_key(rest[j2]) != k by {
            assert(rest[j2] == ls[j2 + 1]);
            assert forall|m: int| 0 <= m <= j2 + 1 implies (#[trigger] ls[m]).len() > 0 by {
                if m > 0 {
                    assert(rest[m - 1] == ls[m]);
                }
            }
            assert(all_nonblank_to(ls, j2 + 1));
        }
        lemma_fold_key_untouched(rest, acc2, k);
        assert(acc2.contains_key(k) && acc2[k] == entry_val(ls[0]));
    } else {
        assert forall|m: int| 0 <= m <= j - 1 implies (#[trigger] rest[m]).len() > 0 by {
            assert(rest[m] == ls[m + 1]);
        }
        assert(all_nonblank_to(rest, j - 1));
        assert(rest[j - 1] == ls[j]);
        assert forall|j2: int|
            j - 1 < j2 < rest.len() && all_nonblank_to(rest, j2) && has_colon(
                rest[j2],
            ) implies #[trigger] entry_key(rest[j2]) != entry_key(rest[j - 1]) by {
            assert(rest[j2] == ls[j2 + 1]);
            assert forall|m: int| 0 <= m <= j2 + 1 implies (#[trigger] ls[m]).len() > 0 by {
                if m > 0 {
                    assert(rest[m - 1] == ls[m]);
                }
            }
            assert(all_nonblank_to(ls, j2 + 1));
        }
        lemma_fold_later_wins(rest, acc2, j - 1);
    }
}

/// If the same header name appears twice, the later value is retained:
/// when line `j` is reached by the scan and no reached later line
/// populates the same key, that key maps to line `j`'s value.
pub proof fn lemma_later_header_wins(ls: Seq<Seq<u8>>, j: int)
    requires
        0 <= j < ls.len(),
        all_nonblank_to(ls, j),
        has_colon(ls[j]),
        forall|j2: int|
            j < j2 < ls.len() && all_nonblank_to(ls, j2) && has_colon(
                ls[j2],
            ) ==> #[trigger] entry_key(ls[j2]) != entry_key(ls[j]),
    ensures
        headers_of(ls).contains_key(entry_key(ls[j])),
        headers_of(ls)[entry_key(ls[j])] == entry_val(ls[j]),
{
    lemma_fold_later_wins(ls, Map::empty(), j);
}

/// Dropping a non-blank line without a colon changes nothing: the scan
/// skips it.
proof fn lemma_fold_skip_no_colon(ls: Seq<Seq<u8>>, acc: Map<Seq<u8>, Seq<u8>>, i: int)
    requires
        0 <= i < ls.len(),
        ls[i].len() > 0,
        !has_colon(ls[i]),
    ensures
        headers_fold(ls, acc) == headers_fold(ls.remove(i), acc),
    decreases i,
{
    let cut = ls.remove(i);
    if i == 0 {
        assert(cut =~= ls.drop_first());
    } else {
        assert(cut[0] == ls[0]);
        if ls[0].len() == 0 {
        } else {
            let acc2 = if has_colon(ls[0]) {
                acc.insert(entry_key(ls[0]), entry_val(ls[0]))
            } else {
                acc
            };
            assert(cut.drop_first() =~= ls.drop_first().remove(i - 1));
            assert(ls.drop_first()[i - 1] == ls[i]);
            lemma_fold_skip_no_colon(ls.drop_first(), acc2, i - 1);
        }
    }
}

/// A header line without a colon is ignored: the mapping equals that of
/// the lines with it removed.
pub proof fn lemma_no_colon_line_ignored(ls: Seq<Seq<u8>>, i: int)
    requires
        0 <= i < ls.len(),
        ls[i].len() > 0,
        !has_colon(ls[i]),
    ensures
        headers_of(ls) == headers_of(ls.remove(i)),
{
    lemma_fold_skip_no_colon(ls, Map::empty(), i);
}

/// Everything from a blank line on is ignored by the scan.
proof fn lemma_fold_stops_at_blank(ls: Seq<Seq<u8>>, acc: Map<Seq<u8>, Seq<u8>>, i: int)
    requires
        0 <= i < ls.len(),
        ls[i].len() == 0,
    ensures
        headers_fold(ls, acc) == headers_fold(ls.take(i), acc),
    decreases i,
{
    if i == 0 {
        assert(ls.take(0) =~= Seq::<Seq<u8>>::empty());
    } else {
        let front = ls.take(i);
        assert(front[0] == ls[0]);
        if ls[0].len() == 0 {
        } else {
            let acc2 = if has_colon(ls[0]) {
                acc.insert(entry_key(ls[0]), entry_val(ls[0]))
            } else {
                acc
            };
            assert(front.drop_first() =~= ls.drop_first().take(i - 1));
            assert(ls.drop_first()[i - 1] == ls[i]);
            lemma_fold_stops_at_blank(ls.drop_first(), acc2, i - 1);
        }
    }
}

/// A blank line terminates header scanning even if further non-blank
/// lines follow after it: the mapping equals that of the lines before it.
pub proof fn lemma_blank_line_ends_headers(ls: Seq<Seq<u8>>, i: int)
    requires
        0 <= i < ls.len(),
        ls[i].len() == 0,
    ensures
        headers_of(ls) == headers_of(ls.take(i)),
{
    lemma_fold_stops_at_blank(ls, Map::empty(), i);
}

/// Folding preserves "every key is lowercase".
proof fn lemma_fold_keys_lowercase(ls: Seq<Seq<u8>>, acc: Map<Seq<u8>, Seq<u8>>)
    requires
        forall|k: Seq<u8>| #[trigger] acc.contains_key(k) ==> lower_seq(k) == k,
    ensures
        forall|k: Seq<u8>| #[trigger] headers_fold(ls, acc).contains_key(k) ==> lower_seq(k) == k,
    decreases ls.len(),
{
    if ls.len() == 0 || ls[0].len() == 0 {
    } else {
        let acc2 = if has_colon(ls[0]) {
            acc.insert(entry_key(ls[0]), entry_val(ls[0]))
        } else {
            acc
        };
        if has_colon(ls[0]) {
            crate::bytes::lemma_lower_idempotent(
                trim_seq(ls[0].take(colon_len(ls[0], 0) as int)),
            );
            assert(lower_seq(entry_key(ls[0])) == entry_key(ls[0]));
        }
        assert forall|k: Seq<u8>| #[trigger] acc2.contains_key(k) implies lower_seq(k) == k by {
            if !(has_colon(ls[0]) && k == entry_key(ls[0])) {
                assert(acc.contains_key(k));
            }
        }
        lemma_fold_keys_lowercase(ls.drop_first(), acc2);
        assert(headers_fold(ls, acc) == headers_fold(ls.drop_first(), acc2));
        assert forall|k: Seq<u8>| #[trigger] headers_fold(ls, acc).contains_key(
            k,
        ) implies lower_seq(k) == k by {
            assert(headers_fold(ls.drop_first(), acc2).contains_key(k));
        }
    }
}

/// Every key of a header mapping is lowercase.
pub proof fn lemma_header_keys_lowercase(ls: Seq<Seq<u8>>)
    ensures
        forall|k: Seq<u8>| #[trigger] headers_of(ls).contains_key(k) ==> lower_seq(k) == k,
{
    lemma_fold_keys_lowercase(ls, Map::empty());
}

} // verus!
