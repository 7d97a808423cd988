//! The proxy configuration value, the bounded connection limiter that
//! admission control runs on, and target address resolution.

use vstd::prelude::*;

use crate::bytes::{bytes_eq, slice_subrange};
use crate::handler::opt_bytes_view;
use crate::handler::ErrorKind;
use crate::http::colon_len;

verus! {

// ---------------------------------------------------------------------------
// Connection limiter
// ---------------------------------------------------------------------------

/// An admission-control operation on the pool: one accepted connection
/// asking for a slot, or one finished connection giving its slot back.
pub enum PoolOp {
    Admit,
    Release,
}

/// Whether a pool with this many occupied slots admits one more.
pub open spec fn pool_admits(capacity: nat, active: nat) -> bool {
    active < capacity
}

/// One admission-control step: a failed admission and a release of an
/// empty pool both leave the count unchanged.
pub open spec fn pool_apply(capacity: nat, active: nat, op: PoolOp) -> nat {
    match op {
        PoolOp::Admit => if active < capacity {
            active + 1
        } else {
            active
        },
        PoolOp::Release => if active > 0 {
            (active - 1) as nat
        } else {
            0
        },
    }
}

/// The occupied count after a whole history of admissions and releases,
/// starting from an empty pool.
pub open spec fn pool_run(capacity: nat, ops: Seq<PoolOp>) -> nat
    decreases ops.len(),
{
    if ops.len() == 0 {
        0
    } else {
        pool_apply(capacity, pool_run(capacity, ops.drop_last()), ops.last())
    }
}

/// With capacity N, at most N connections are ever concurrently active:
/// whatever the history of admissions and releases, the occupied count
/// never exceeds the capacity.
pub proof fn lemma_pool_never_exceeds_capacity(capacity: nat, ops: Seq<PoolOp>)
    ensures
        pool_run(capacity, ops) <= capacity,
    decreases ops.len(),
{
    if ops.len() > 0 {
        lemma_pool_never_exceeds_capacity(capacity, ops.drop_last());
    }
}

/// A full pool rejects the next connection, and one release is enough to
/// admit it: rejection holds exactly while all slots are taken.
pub proof fn lemma_full_pool_rejects_until_release(capacity: nat, ops: Seq<PoolOp>)
    requires
        capacity > 0,
        pool_run(capacity, ops) == capacity,
    ensures
        !pool_admits(capacity, pool_run(capacity, ops)),
        pool_admits(capacity, pool_run(capacity, ops.push(PoolOp::Release))),
{
    assert(ops.push(PoolOp::Release).drop_last() =~= ops);
}

/// The counting pool that bounds concurrently active connections. It
/// never blocks: an admission either takes a free slot or fails at once.
pub struct ConnectionLimiter {
    capacity: usize,
    active: usize,
}

impl ConnectionLimiter {
    /// The fixed number of slots.
    pub closed spec fn capacity(&self) -> nat {
        self.capacity as nat
    }

    /// The number of outstanding permits.
    pub closed spec fn active(&self) -> nat {
        self.active as nat
    }

    /// The pool invariant: outstanding permits never exceed the capacity.
    pub open spec fn wf(&self) -> bool {
        self.active() <= self.capacity()
    }

    /// A pool of `capacity` free slots.
    pub fn new(capacity: usize) -> (r: Self)
        ensures
            r.capacity() == capacity,
            r.active() == 0,
            r.wf(),
    {
        ConnectionLimiter { capacity, active: 0 }
    }

    /// Takes one slot, or fails with `ErrorKind::Capacity` exactly when
    /// every slot is taken. Never blocks.
    pub fn try_acquire(&mut self) -> (r: Result<(), ErrorKind>)
        requires
            old(self).wf(),
        ensures
            final(self).wf(),
            final(self).capacity() == old(self).capacity(),
            r is Ok <==> pool_admits(old(self).capacity(), old(self).active()),
            r matches Err(e) ==> e == ErrorKind::Capacity,
            final(self).active() == pool_apply(
                old(self).capacity(),
                old(self).active(),
                PoolOp::Admit,
            ),
    {
        if self.active < self.capacity {
            self.active = self.active + 1;
            Ok(())
        } else {
            Err(ErrorKind::Capacity)
        }
    }

    /// Gives one slot back.
    pub fn release(&mut self)
        requires
            old(self).wf(),
            old(self).active() > 0,
        ensures
            final(self).wf(),
            final(self).capacity() == old(self).capacity(),
            final(self).active() == pool_apply(
                old(self).capacity(),
                old(self).active(),
                PoolOp::Release,
            ),
    {
        self.active = self.active - 1;
    }

    /// The number of outstanding permits, for callers that must check
    /// before releasing.
    pub fn active_count(&self) -> (n: usize)
        ensures
            n == self.active(),
    {
        self.active
    }

    /// The fixed number of slots.
    pub fn capacity_limit(&self) -> (n: usize)
        ensures
            n == self.capacity(),
    {
        self.capacity
    }
}

// ---------------------------------------------------------------------------
// Target address resolution
// ---------------------------------------------------------------------------

/// An ASCII decimal digit.
pub open spec fn is_digit(b: u8) -> bool {
    48 <= b <= 57
}

/// Every byte is a decimal digit.
pub open spec fn all_digits(s: Seq<u8>) -> bool {
    forall|i: int| 0 <= i < s.len() ==> is_digit(#[trigger] s[i])
}

/// The decimal value of a digit string.
pub open spec fn dec_value(s: Seq<u8>) -> int
    decreases s.len(),
{
    if s.len() == 0 {
        0
    } else {
        10 * dec_value(s.drop_last()) + s.last() - 48
    }
}

/// A digit string's value is non-negative.
pub proof fn lemma_dec_value_nonneg(s: Seq<u8>)
    requires
        all_digits(s),
    ensures
        dec_value(s) >= 0,
    decreases s.len(),
{
    if s.len() > 0 {
        assert(all_digits(s.drop_last()));
        lemma_dec_value_nonneg(s.drop_last());
    }
}

/// Reading more digits never shrinks the value: the whole string's value
/// is at least any prefix's.
pub proof fn lemma_dec_value_monotone(s: Seq<u8>, j: int)
    requires
        all_digits(s),
        0 <= j <= s.len(),
    ensures
        dec_value(s) >= dec_value(s.take(j)),
    decreases s.len(),
{
    if j == s.len() {
        assert(s.take(j) =~= s);
    } else {
        assert(all_digits(s.drop_last()));
        assert(s.drop_last().take(j) =~= s.take(j));
        lemma_dec_value_monotone(s.drop_last(), j);
        lemma_dec_value_nonneg(s.drop_last());
    }
}

/// The scheme prefix that implies port 80.
pub open spec fn http_scheme() -> Seq<u8> {
    seq!['h' as u8, 't' as u8, 't' as u8, 'p' as u8, ':' as u8, '/' as u8, '/' as u8]
}

/// The scheme prefix that implies port 443.
pub open spec fn https_scheme() -> Seq<u8> {
    seq!['h' as u8, 't' as u8, 't' as u8, 'p' as u8, 's' as u8, ':' as u8, '/' as u8, '/' as u8]
}

/// A target with its scheme prefix, if any, removed.
pub open spec fn after_scheme(s: Seq<u8>) -> Seq<u8> {
    if s.len() >= 8 && s.take(8) == https_scheme() {
        s.skip(8)
    } else if s.len() >= 7 && s.take(7) == http_scheme() {
        s.skip(7)
    } else {
        s
    }
}

/// The port a target falls back on when it names none: 443 under the
/// `https` scheme, else 80.
pub open spec fn scheme_default_port(s: Seq<u8>) -> u16 {
    if s.len() >= 8 && s.take(8) == https_scheme() {
        443
    } else {
        80
    }
}

/// What parsing a target yields: the host and port of a `host:port`,
/// `host`, or `scheme://host[:port]` byte string, or nothing when the
/// part after the colon is not a decimal port.
pub open spec fn target_spec(s: Seq<u8>) -> Option<(Seq<u8>, u16)> {
    let rest = after_scheme(s);
    let c = colon_len(rest, 0) as int;
    if c == rest.len() {
        Some((rest, scheme_default_port(s)))
    } else {
        let p = rest.skip(c + 1);
        if p.len() > 0 && all_digits(p) && dec_value(p) <= 65535 {
            Some((rest.take(c), dec_value(p) as u16))
        } else {
            None
        }
    }
}

/// Builds the `http://` scheme prefix.
fn http_scheme_bytes() -> (r: Vec<u8>)
    ensures
        r@ == http_scheme(),
{
    let mut r: Vec<u8> = Vec::new();
    r.push('h' as u8);
    r.push('t' as u8);
    r.push('t' as u8);
    r.push('p' as u8);
    r.push(':' as u8);
    r.push('/' as u8);
    r.push('/' as u8);
    proof {
        assert(r@ =~= http_scheme());
    }
    r
}

/// Builds the `https://` scheme prefix.
fn https_scheme_bytes() -> (r: Vec<u8>)
    ensures
        r@ == https_scheme(),
{
    let mut r: Vec<u8> = Vec::new();
    r.push('h' as u8);
    r.push('t' as u8);
    r.push('t' as u8);
    r.push('p' as u8);
    r.push('s' as u8);
    r.push(':' as u8);
    r.push('/' as u8);
    r.push('/' as u8);
    proof {
        assert(r@ =~= https_scheme());
    }
    r
}

// ---------------------------------------------------------------------------
// The proxy value
// ---------------------------------------------------------------------------

/// The resolved proxy settings one run works from: the listening address,
/// the optional forward target, the connection bound, and the timeout in
/// seconds that wraps every bounded network operation.
pub struct Proxy {
    pub host: Vec<u8>,
    pub port: u16,
    pub target: Option<Vec<u8>>,
    pub max_connections: usize,
    pub timeout_secs: u64,
}

impl Proxy {
    /// A proxy with the default bound of 100 connections and 30 second
    /// timeout.
    pub fn new(host: Vec<u8>, port: u16, target: Option<Vec<u8>>) -> (r: Self)
        ensures
            r.host@ == host@,
            r.port == port,
            opt_bytes_view(r.target) == opt_bytes_view(target),
            r.max_connections == 100,
            r.timeout_secs == 30,
    {
        Proxy { host, port, target, max_connections: 100, timeout_secs: 30 }
    }

    /// A proxy with an explicit connection bound.
    pub fn with_config(host: Vec<u8>, port: u16, target: Option<Vec<u8>>, max_connections: usize) -> (r: Self)
        ensures
            r.host@ == host@,
            r.port == port,
            opt_bytes_view(r.target) == opt_bytes_view(target),
            r.max_connections == max_connections,
            r.timeout_secs == 30,
    {
        Proxy { host, port, target, max_connections, timeout_secs: 30 }
    }

    /// Splits a target into host and port, as `target_spec` describes:
    /// an `http://` or `https://` prefix picks the default port (80 or
    /// 443), a `:port` suffix overrides it, and a bare host gets 80.
    pub fn parse_target_url(url: &[u8]) -> (r: Option<(Vec<u8>, u16)>)
        ensures
            r is Some <==> target_spec(url@) is Some,
            r matches Some(t) ==> target_spec(url@) == Some((t.0@, t.1)),
    {
        let n = url.len();
        let https = https_scheme_bytes();
        let http = http_scheme_bytes();
        let mut start: usize = 0;
        let mut tls = false;
        if n >= 8 && bytes_eq(slice_subrange(url, 0, 8), https.as_slice()) {
            start = 8;
            tls = true;
        } else if n >= 7 && bytes_eq(slice_subrange(url, 0, 7), http.as_slice()) {
            start = 7;
        }
        let ghost rest = after_scheme(url@);
        proof {
            assert(rest == url@.skip(start as int));
        }
        let restslice = slice_subrange(url, start, n);
        let deflt: u16 = if tls {
            443
        } else {
            80
        };
        proof {
            assert(deflt == scheme_default_port(url@));
        }
        match crate::http::find_colon(restslice) {
            None => {
                proof {
                    assert(colon_len(rest, 0) == rest.len());
                }
                Some((vstd::slice::slice_to_vec(restslice), deflt))
            },
            Some(c) => {
                let ghost p = rest.skip(c + 1);
                let pstart = c + 1;
                let m = restslice.len();
                if pstart >= m {
                    proof {
                        assert(p.len() == 0);
                    }
                    return None;
                }
                let mut acc: u32 = 0;
                let mut i = pstart;
                while i < m
                    invariant
                        m == rest.len(),
                        rest == after_scheme(url@),
                        restslice@ == rest,
                        p == rest.skip(pstart as int),
                        0 <= pstart <= i <= m,
                        pstart < m,
                        c == pstart - 1,
                        c == colon_len(rest, 0),
                        acc <= 65535,
                        acc == dec_value(rest.subrange(pstart as int, i as int)),
                        all_digits(rest.subrange(pstart as int, i as int)),
                    decreases m - i,
                {
                    let b = restslice[i];
                    let ghost pre = rest.subrange(pstart as int, i as int);
                    let ghost cur = rest.subrange(pstart as int, i + 1);
                    proof {
                        assert(cur.drop_last() =~= pre);
                        assert(cur.last() == rest[i as int]);
                    }
                    if b < 48 || b > 57 {
                        proof {
                            assert(p[i - pstart] == b);
                            assert(!all_digits(p));
                        }
                        return None;
                    }
                    let acc2 = acc * 10 + ((b - 48) as u32);
                    proof {
                        assert(dec_value(cur) == acc2);
                        assert(all_digits(cur));
                    }
                    if acc2 > 65535 {
                        proof {
                            if all_digits(p) {
                                lemma_dec_value_monotone(p, i + 1 - pstart);
                                assert(p.take(i + 1 - pstart) =~= cur);
                            }
                        }
                        return None;
                    }
                    acc = acc2;
                    i = i + 1;
                }
                proof {
                    assert(rest.subrange(pstart as int, m as int) =~= p);
                    assert(p.len() > 0);
                    assert(all_digits(p));
                    assert(dec_value(p) == acc <= 65535);
                    assert(rest.take(c as int) =~= rest.subrange(0, c as int));
                }
                let host = vstd::slice::slice_to_vec(slice_subrange(restslice, 0, c));
                Some((host, acc as u16))
            },
        }
    }
}

} // verus!
