//! Streaming search for the marker that separates a leaf daemon's
//! human-readable output from the protocol bytes that follow it.
//!
//! Bytes that cannot belong to the marker are handed back to be forwarded at
//! once; bytes that may still turn out to be the start of the marker are held
//! back until they are confirmed or falsified, whatever the chunk boundaries.
use vstd::prelude::*;

verus! {

/// `p` is a prefix of `m`.
pub open spec fn is_prefix_of(p: Seq<u8>, m: Seq<u8>) -> bool {
    p.len() <= m.len() && m.subrange(0, p.len() as int) == p
}

/// `h` ends with `p`.
pub open spec fn ends_with(h: Seq<u8>, p: Seq<u8>) -> bool {
    p.len() <= h.len() && h.subrange(h.len() - p.len(), h.len() as int) == p
}

/// `m` occurs in `s` and ends at position `k`.
pub open spec fn occurs_ending_at(s: Seq<u8>, m: Seq<u8>, k: int) -> bool {
    m.len() <= k <= s.len() && s.subrange(k - m.len(), k) == m
}

/// `m` occurs somewhere in `s`.
pub open spec fn contains_marker(s: Seq<u8>, m: Seq<u8>) -> bool {
    exists|k: int| occurs_ending_at(s, m, k)
}

/// The suffix of `t` from `i` on could still grow into `m`.
pub open spec fn could_start_marker(t: Seq<u8>, m: Seq<u8>, i: int) -> bool {
    t.len() - i < m.len() && is_prefix_of(t.subrange(i, t.len() as int), m)
}

/// The first position from `i` on where the rest of `t` could still grow
/// into `m` (`t.len()` if none before).
pub open spec fn first_fit(t: Seq<u8>, m: Seq<u8>, i: int) -> int
    decreases t.len() - i,
{
    if i >= t.len() {
        t.len() as int
    } else if could_start_marker(t, m, i) {
        i
    } else {
        first_fit(t, m, i + 1)
    }
}

/// Where a scan stands: the held-back bytes, the bytes released for
/// forwarding, whether the marker was seen, and how many input bytes were
/// used.
pub struct ScanState {
    pub held: Seq<u8>,
    pub out: Seq<u8>,
    pub found: bool,
    pub consumed: nat,
}

/// One input byte `b` after the held-back bytes `held`.
pub open spec fn step(m: Seq<u8>, held: Seq<u8>, b: u8) -> ScanState {
    let t = held.push(b);
    if t == m {
        ScanState { held: t, out: seq![], found: true, consumed: 1 }
    } else {
        let i = first_fit(t, m, 0);
        ScanState {
            held: t.subrange(i, t.len() as int),
            out: t.subrange(0, i),
            found: false,
            consumed: 1,
        }
    }
}

/// The scan of the bytes `bs` from the state (`held`, `found`). Once the
/// marker is found no further byte is used.
pub open spec fn scan(m: Seq<u8>, held: Seq<u8>, found: bool, bs: Seq<u8>) -> ScanState
    decreases bs.len(),
{
    if bs.len() == 0 {
        ScanState { held, out: seq![], found, consumed: 0 }
    } else {
        let r = scan(m, held, found, bs.drop_last());
        if r.found {
            r
        } else {
            let s = step(m, r.held, bs.last());
            ScanState {
                held: s.held,
                out: r.out + s.out,
                found: s.found,
                consumed: r.consumed + 1,
            }
        }
    }
}

/// The scan of the chunks `cs`, fed one after another.
pub open spec fn scan_chunks(m: Seq<u8>, held: Seq<u8>, found: bool, cs: Seq<Seq<u8>>) -> ScanState
    decreases cs.len(),
{
    if cs.len() == 0 {
        ScanState { held, out: seq![], found, consumed: 0 }
    } else {
        let r1 = scan(m, held, found, cs[0]);
        let r2 = scan_chunks(m, r1.held, r1.found, cs.drop_first());
        ScanState {
            held: r2.held,
            out: r1.out + r2.out,
            found: r2.found,
            consumed: r1.consumed + r2.consumed,
        }
    }
}

/// What one call of `MagicScanner::feed` returns.
pub struct ScanOutput {
    /// Bytes to forward now.
    pub forward: Vec<u8>,
    /// How many bytes of the chunk were used; the rest follows the marker.
    pub consumed: usize,
}

/// A streaming matcher for one marker.
pub struct MagicScanner {
    marker: Vec<u8>,
    held: Vec<u8>,
    found: bool,
}

impl MagicScanner {
    pub closed spec fn marker(&self) -> Seq<u8> {
        self.marker@
    }

    pub closed spec fn held(&self) -> Seq<u8> {
        self.held@
    }

    pub closed spec fn found(&self) -> bool {
        self.found
    }

    pub closed spec fn wf(&self) -> bool {
        &&& self.marker@.len() > 0
        &&& is_prefix_of(self.held@, self.marker@)
        &&& !self.found ==> self.held@.len() < self.marker@.len()
    }

    /// A scanner for `marker` that has seen nothing yet.
    pub fn new(marker: Vec<u8>) -> (r: MagicScanner)
        requires
            marker@.len() > 0,
        ensures
            r.wf(),
            r.marker() == marker@,
            r.held() == Seq::<u8>::empty(),
            !r.found(),
    {
        let r = MagicScanner { marker, held: Vec::new(), found: false };
        assert(r.marker@.subrange(0, 0) =~= r.held@);
        r
    }

    /// Whether the marker has been seen.
    pub fn is_found(&self) -> (r: bool)
        ensures
            r == self.found(),
    {
        self.found
    }

    /// How many bytes may be read without reading past the end of the marker.
    pub fn want(&self) -> (r: usize)
        requires
            self.wf(),
        ensures
            r == if self.found() { 0 } else { self.marker().len() - self.held().len() },
            !self.found() ==> r > 0,
    {
        if self.found {
            0
        } else {
            self.marker.len() - self.held.len()
        }
    }

    /// Feeds the next chunk of input. Returns the bytes to forward and how
    /// many bytes of `chunk` were used; on finding the marker the scan stops.
    pub fn feed(&mut self, chunk: &[u8]) -> (r: ScanOutput)
        requires
            old(self).wf(),
        ensures
            final(self).wf(),
            final(self).marker() == old(self).marker(),
            ({
                let s = scan(old(self).marker(), old(self).held(), old(self).found(), chunk@);
                &&& r.forward@ == s.out
                &&& r.consumed == s.consumed
                &&& final(self).held() == s.held
                &&& final(self).found() == s.found
            }),
    {
        let ghost m = self.marker@;
        let ghost h0 = self.held@;
        let ghost f0 = self.found;
        let mut forward: Vec<u8> = Vec::new();
        let mut k: usize = 0;
        if self.found {
            assert(chunk@.subrange(0, 0) =~= Seq::<u8>::empty());
            proof {
                lemma_found_stable(m, h0, f0, chunk@, 0);
            }
            return ScanOutput { forward, consumed: 0 };
        }
        assert(chunk@.subrange(0, 0) =~= Seq::<u8>::empty());
        while k < chunk.len()
            invariant
                self.wf(),
                self.marker@ == m,
                m == old(self).marker@,
                h0 == old(self).held@,
                f0 == old(self).found,
                k <= chunk@.len(),
                !self.found,
                ({
                    let s = scan(m, h0, f0, chunk@.subrange(0, k as int));
                    &&& forward@ == s.out
                    &&& k == s.consumed
                    &&& self.held@ == s.held
                    &&& !s.found
                }),
            decreases chunk@.len() - k,
        {
            let b = chunk[k];
            proof {
                let p = chunk@.subrange(0, k as int + 1);
                assert(p.drop_last() =~= chunk@.subrange(0, k as int));
                assert(p.last() == b);
            }
            let mut released = self.push_byte(b);
            forward.append(&mut released);
            k = k + 1;
            if self.found {
                proof {
                    lemma_found_stable(m, h0, f0, chunk@, k as int);
                }
                return ScanOutput { forward, consumed: k };
            }
        }
        assert(chunk@.subrange(0, k as int) =~= chunk@);
        ScanOutput { forward, consumed: k }
    }

    /// One byte: updates the held-back bytes and returns what is released.
    fn push_byte(&mut self, b: u8) -> (r: Vec<u8>)
        requires
            old(self).wf(),
            !old(self).found(),
        ensures
            final(self).wf(),
            final(self).marker() == old(self).marker(),
            ({
                let s = step(old(self).marker(), old(self).held(), b);
                &&& r@ == s.out
                &&& final(self).held() == s.held
                &&& final(self).found() == s.found
            }),
    {
        let ghost m = self.marker@;
        let mut t = self.held.clone();
        t.push(b);
        assert(t@ == self.held@.push(b));
        if bytes_equal(&t, &self.marker) {
            self.held = t;
            self.found = true;
            assert(is_prefix_of(self.held@, m)) by {
                assert(m.subrange(0, m.len() as int) =~= m);
            }
            return Vec::new();
        }
        let i = first_fit_exec(&t, &self.marker);
        proof {
            lemma_first_fit_fits(t@, m, 0);
        }
        let mut out: Vec<u8> = Vec::new();
        let mut rest: Vec<u8> = Vec::new();
        let mut j: usize = 0;
        while j < t.len()
            invariant
                0 <= i <= t@.len(),
                j <= t@.len(),
                j <= i ==> out@ == t@.subrange(0, j as int) && rest@.len() == 0,
                j > i ==> out@ == t@.subrange(0, i as int) && rest@ == t@.subrange(
                    i as int,
                    j as int,
                ),
            decreases t@.len() - j,
        {
            if j < i {
                out.push(t[j]);
                assert(out@ =~= t@.subrange(0, j as int + 1));
            } else {
                rest.push(t[j]);
                assert(rest@ =~= t@.subrange(i as int, j as int + 1));
            }
            j = j + 1;
        }
        if i == t.len() {
            assert(rest@ =~= t@.subrange(i as int, t@.len() as int));
        }
        assert(out@ =~= t@.subrange(0, i as int));
        self.held = rest;
        out
    }
}

/// Whether two byte vectors are equal.
fn bytes_equal(a: &Vec<u8>, b: &Vec<u8>) -> (r: bool)
    ensures
        r == (a@ == b@),
{
    if a.len() != b.len() {
        return false;
    }
    let mut i: usize = 0;
    while i < a.len()
        invariant
            a@.len() == b@.len(),
            i <= a@.len(),
            forall|j: int| 0 <= j < i ==> a@[j] == b@[j],
        decreases a@.len() - i,
    {
        if a[i] != b[i] {
            return false;
        }
        i = i + 1;
    }
    assert(a@ =~= b@);
    true
}

/// Whether the suffix of `t` from `i` could still grow into `m`.
fn could_start_exec(t: &Vec<u8>, m: &Vec<u8>, i: usize) -> (r: bool)
    requires
        i <= t@.len(),
    ensures
        r == could_start_marker(t@, m@, i as int),
{
    let tl = t.len();
    let n = tl - i;
    if n >= m.len() {
        return false;
    }
    let mut j: usize = 0;
    while j < n
        invariant
            tl == t@.len(),
            i <= tl,
            n == tl - i,
            n < m@.len(),
            j <= n,
            forall|q: int| 0 <= q < j ==> t@[i + q] == m@[q],
        decreases n - j,
    {
        if t[i + j] != m[j] {
            assert(m@.subrange(0, n as int)[j as int] != t@.subrange(i as int, t@.len() as int)[j as int]);
            return false;
        }
        j = j + 1;
    }
    assert(m@.subrange(0, n as int) =~= t@.subrange(i as int, t@.len() as int));
    true
}

/// `first_fit(t, m, 0)`, computed.
fn first_fit_exec(t: &Vec<u8>, m: &Vec<u8>) -> (r: usize)
    ensures
        r == first_fit(t@, m@, 0),
{
    let mut i: usize = 0;
    while i < t.len()
        invariant
            i <= t@.len(),
            first_fit(t@, m@, 0) == first_fit(t@, m@, i as int),
        decreases t@.len() - i,
    {
        if could_start_exec(t, m, i) {
            return i;
        }
        i = i + 1;
    }
    i
}

/// `first_fit` is the least position from `i` on where the rest of `t` could
/// still grow into `m`.
pub proof fn lemma_first_fit_fits(t: Seq<u8>, m: Seq<u8>, i: int)
    requires
        0 <= i <= t.len(),
        m.len() > 0,
    ensures
        i <= first_fit(t, m, i) <= t.len(),
        could_start_marker(t, m, first_fit(t, m, i)),
        forall|q: int| i <= q < first_fit(t, m, i) ==> !#[trigger] could_start_marker(t, m, q),
    decreases t.len() - i,
{
    if i >= t.len() {
        assert(t.subrange(t.len() as int, t.len() as int) =~= m.subrange(0, 0));
    } else if !could_start_marker(t, m, i) {
        lemma_first_fit_fits(t, m, i + 1);
    }
}

/// Two scan results, the second run from where the first stopped, joined.
pub open spec fn combine(r1: ScanState, r2: ScanState) -> ScanState {
    ScanState {
        held: r2.held,
        out: r1.out + r2.out,
        found: r2.found,
        consumed: r1.consumed + r2.consumed,
    }
}

/// Scanning `a + b` is scanning `a`, then `b` from where that stopped.
pub proof fn lemma_scan_concat(m: Seq<u8>, h: Seq<u8>, f: bool, a: Seq<u8>, b: Seq<u8>)
    ensures
        ({
            let r1 = scan(m, h, f, a);
            scan(m, h, f, a + b) == combine(r1, scan(m, r1.held, r1.found, b))
        }),
    decreases b.len(),
{
    let r1 = scan(m, h, f, a);
    if b.len() == 0 {
        assert(a + b =~= a);
        assert(r1.out + seq![] =~= r1.out);
    } else {
        let b1 = b.drop_last();
        assert((a + b).drop_last() =~= a + b1);
        assert((a + b).last() == b.last());
        lemma_scan_concat(m, h, f, a, b1);
        let q = scan(m, r1.held, r1.found, b1);
        if !q.found {
            let st = step(m, q.held, b.last());
            assert((r1.out + q.out) + st.out =~= r1.out + (q.out + st.out));
        }
    }
}

/// Feeding chunks one after another is feeding their concatenation.
pub proof fn lemma_scan_chunks_flatten(m: Seq<u8>, h: Seq<u8>, f: bool, cs: Seq<Seq<u8>>)
    ensures
        scan_chunks(m, h, f, cs) == scan(m, h, f, cs.flatten()),
    decreases cs.len(),
{
    if cs.len() == 0 {
        assert(scan(m, h, f, cs.flatten()).out =~= seq![]);
    } else {
        let r1 = scan(m, h, f, cs[0]);
        lemma_scan_chunks_flatten(m, r1.held, r1.found, cs.drop_first());
        lemma_scan_concat(m, h, f, cs[0], cs.drop_first().flatten());
    }
}

/// What holds of a scan of `s` from the start.
pub open spec fn scan_facts(m: Seq<u8>, s: Seq<u8>, st: ScanState) -> bool {
    if st.found {
        &&& occurs_ending_at(s, m, st.consumed as int)
        &&& forall|k: int| 0 <= k < st.consumed ==> !occurs_ending_at(s, m, k)
        &&& st.out == s.subrange(0, st.consumed - m.len())
        &&& st.held == m
    } else {
        &&& st.out + st.held == s
        &&& st.held.len() < m.len()
        &&& is_prefix_of(st.held, m)
        &&& forall|j: int|
            0 <= j < m.len() && #[trigger] ends_with(s, m.subrange(0, j)) ==> j <= st.held.len()
        &&& !contains_marker(s, m)
        &&& st.consumed == s.len()
    }
}

/// An occurrence in `h.push(b)` that ends before its last byte lies in `h`.
proof fn lemma_occurrence_in_prefix(m: Seq<u8>, h: Seq<u8>, b: u8, k: int)
    requires
        0 <= k < h.len() + 1,
        occurs_ending_at(h.push(b), m, k),
    ensures
        occurs_ending_at(h, m, k),
{
    assert(h.push(b).subrange(k - m.len(), k) =~= h.subrange(k - m.len(), k));
}

/// The facts carry over a byte that comes after the marker was found.
proof fn lemma_facts_after_found(m: Seq<u8>, h: Seq<u8>, b: u8, r: ScanState)
    requires
        r.found,
        scan_facts(m, h, r),
    ensures
        scan_facts(m, h.push(b), r),
{
    let s = h.push(b);
    assert(s.subrange(r.consumed - m.len(), r.consumed as int) =~= h.subrange(
        r.consumed - m.len(),
        r.consumed as int,
    ));
    assert(s.subrange(0, r.consumed - m.len()) =~= h.subrange(0, r.consumed - m.len()));
    assert forall|k: int| 0 <= k < r.consumed implies !occurs_ending_at(s, m, k) by {
        if occurs_ending_at(s, m, k) {
            lemma_occurrence_in_prefix(m, h, b, k);
        }
    }
}

/// A tail of `h.push(b)` that is a proper prefix of `m` is a tail of the
/// held-back bytes followed by `b`.
proof fn lemma_tail_fits(m: Seq<u8>, h: Seq<u8>, b: u8, r: ScanState, j: int)
    requires
        m.len() > 0,
        !r.found,
        scan_facts(m, h, r),
        1 <= j < m.len(),
        ends_with(h.push(b), m.subrange(0, j)),
    ensures
        j <= r.held.len() + 1,
        could_start_marker(r.held.push(b), m, r.held.len() + 1 - j),
{
    let s = h.push(b);
    let n = s.len() as int;
    let held = r.held;
    let t = held.push(b);
    assert(s.subrange(n - j, n)[j - 1] == m.subrange(0, j)[j - 1]);
    assert(h.subrange(h.len() - (j - 1), h.len() as int) =~= s.subrange(n - j, n).subrange(0, j - 1));
    assert(m.subrange(0, j - 1) =~= m.subrange(0, j).subrange(0, j - 1));
    assert(ends_with(h, m.subrange(0, j - 1)));
    assert(j - 1 <= held.len());
    assert(h.subrange(r.out.len() as int, h.len() as int) =~= held);
    assert(t.subrange(t.len() - j, t.len() as int) =~= s.subrange(n - j, n));
}

/// The facts carry over a byte that completes the marker.
proof fn lemma_facts_on_match(m: Seq<u8>, h: Seq<u8>, b: u8, r: ScanState)
    requires
        m.len() > 0,
        !r.found,
        scan_facts(m, h, r),
        r.held.push(b) == m,
    ensures
        scan_facts(m, h.push(b), ScanState {
            held: m,
            out: r.out + seq![],
            found: true,
            consumed: r.consumed + 1,
        }),
{
    let s = h.push(b);
    let n = s.len() as int;
    let held = r.held;
    assert(h.subrange(r.out.len() as int, h.len() as int) =~= held);
    assert(r.out =~= h.subrange(0, r.out.len() as int));
    assert(s.subrange(n - m.len(), n) =~= held.push(b));
    assert(r.out + seq![] =~= s.subrange(0, n - m.len()));
    assert forall|k: int| 0 <= k < n implies !occurs_ending_at(s, m, k) by {
        if occurs_ending_at(s, m, k) {
            lemma_occurrence_in_prefix(m, h, b, k);
        }
    }
}

/// The facts carry over a byte that does not complete the marker.
proof fn lemma_facts_on_release(m: Seq<u8>, h: Seq<u8>, b: u8, r: ScanState)
    requires
        m.len() > 0,
        !r.found,
        scan_facts(m, h, r),
        r.held.push(b) != m,
    ensures
        ({
            let st = step(m, r.held, b);
            scan_facts(m, h.push(b), ScanState {
                held: st.held,
                out: r.out + st.out,
                found: st.found,
                consumed: r.consumed + 1,
            })
        }),
{
    let s = h.push(b);
    let n = s.len() as int;
    let held = r.held;
    let t = held.push(b);
    let i = first_fit(t, m, 0);
    lemma_first_fit_fits(t, m, 0);
    let st = step(m, held, b);
    assert(h.subrange(r.out.len() as int, h.len() as int) =~= held);
    assert(r.out + st.out + st.held =~= s);
    assert forall|j: int| 0 <= j < m.len() && #[trigger] ends_with(s, m.subrange(0, j)) implies j
        <= st.held.len() by {
        if j >= 1 {
            lemma_tail_fits(m, h, b, r, j);
            assert(could_start_marker(t, m, t.len() - j));
            assert(i <= t.len() - j);
        }
        assert(st.held.len() == t.len() - i);
    }
    if contains_marker(s, m) {
        let k = choose|k: int| occurs_ending_at(s, m, k);
        if k < n {
            lemma_occurrence_in_prefix(m, h, b, k);
        } else {
            let j = m.len() - 1;
            assert(m.subrange(0, m.len() as int) =~= m);
            if j == 0 {
                assert(held.len() == 0);
                assert(t =~= s.subrange(n - m.len(), n));
            } else {
                assert(ends_with(s, m.subrange(0, m.len() as int)));
                assert(s.subrange(n - m.len(), n)[j] == m[j]);
                assert(h.subrange(h.len() - j, h.len() as int) =~= s.subrange(n - m.len(), n).subrange(
                    0,
                    j,
                ));
                assert(m.subrange(0, j) =~= m.subrange(0, m.len() as int).subrange(0, j));
                assert(ends_with(h, m.subrange(0, j)));
                assert(held.len() == j);
                assert(held =~= h.subrange(h.len() - j, h.len() as int));
                assert(t =~= s.subrange(n - m.len(), n));
            }
        }
    }
}

proof fn lemma_scan_facts(m: Seq<u8>, s: Seq<u8>)
    requires
        m.len() > 0,
    ensures
        scan_facts(m, s, scan(m, seq![], false, s)),
    decreases s.len(),
{
    let st = scan(m, seq![], false, s);
    if s.len() == 0 {
        assert(st.out + st.held =~= s);
        assert(m.subrange(0, 0) =~= st.held);
        assert forall|j: int| 0 <= j < m.len() && #[trigger] ends_with(s, m.subrange(0, j)) implies j
            <= st.held.len() by {
            assert(m.subrange(0, j).len() == j);
        }
    } else {
        let h = s.drop_last();
        let b = s.last();
        assert(h.push(b) =~= s);
        lemma_scan_facts(m, h);
        let r = scan(m, seq![], false, h);
        if r.found {
            lemma_facts_after_found(m, h, b, r);
        } else if r.held.push(b) == m {
            lemma_facts_on_match(m, h, b, r);
        } else {
            lemma_facts_on_release(m, h, b, r);
        }
    }
}

/// Fed in any chunking, a stream that ends with the marker and holds it
/// nowhere before: exactly the bytes before the marker are forwarded, then
/// the marker is found, with every byte used.
pub proof fn lemma_scan_finds_marker_at_end(m: Seq<u8>, cs: Seq<Seq<u8>>)
    requires
        m.len() > 0,
        occurs_ending_at(cs.flatten(), m, cs.flatten().len() as int),
        forall|k: int| 0 <= k < cs.flatten().len() ==> !occurs_ending_at(cs.flatten(), m, k),
    ensures
        ({
            let s = cs.flatten();
            let r = scan_chunks(m, seq![], false, cs);
            &&& r.found
            &&& r.out == s.subrange(0, s.len() - m.len())
            &&& r.consumed == s.len()
        }),
{
    let s = cs.flatten();
    lemma_scan_chunks_flatten(m, seq![], false, cs);
    lemma_scan_facts(m, s);
    let st = scan(m, seq![], false, s);
    assert(contains_marker(s, m));
    if st.found {
        assert(st.consumed <= s.len());
    }
}

/// Fed in any chunking, a stream that does not hold the marker: the marker is
/// never reported, and the forwarded bytes followed by the held-back ones are
/// the whole stream.
pub proof fn lemma_scan_never_finds_absent_marker(m: Seq<u8>, cs: Seq<Seq<u8>>)
    requires
        m.len() > 0,
        !contains_marker(cs.flatten(), m),
    ensures
        ({
            let r = scan_chunks(m, seq![], false, cs);
            &&& !r.found
            &&& r.out + r.held == cs.flatten()
        }),
{
    let s = cs.flatten();
    lemma_scan_chunks_flatten(m, seq![], false, cs);
    lemma_scan_facts(m, s);
    let st = scan(m, seq![], false, s);
    if st.found {
        assert(occurs_ending_at(s, m, st.consumed as int));
    }
}

/// Once the marker is found, further bytes change nothing.
proof fn lemma_found_stable(m: Seq<u8>, h: Seq<u8>, f: bool, bs: Seq<u8>, k: int)
    requires
        0 <= k <= bs.len(),
        scan(m, h, f, bs.subrange(0, k)).found,
    ensures
        scan(m, h, f, bs) == scan(m, h, f, bs.subrange(0, k)),
    decreases bs.len() - k,
{
    if k < bs.len() {
        let p = bs.subrange(0, k + 1);
        assert(p.drop_last() =~= bs.subrange(0, k));
        lemma_found_stable(m, h, f, bs, k + 1);
    } else {
        assert(bs.subrange(0, k) =~= bs);
    }
}

} // verus!
