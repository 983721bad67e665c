//! Framing of the backend's event stream: records end at a blank line, and the
//! lines of a record that start with `data: ` carry its payloads.
use vstd::prelude::*;
use vstd::slice::{slice_subrange, slice_to_vec};

verus! {

/// The first position from `i` on where two line feeds stand, or -1.
pub open spec fn find_sep(s: Seq<u8>, i: int) -> int
    decreases s.len() - i,
{
    if i < 0 || i + 1 >= s.len() {
        -1
    } else if s[i] == 10u8 && s[i + 1] == 10u8 {
        i
    } else {
        find_sep(s, i + 1)
    }
}

/// The complete records at the front of `s`, in order.
pub open spec fn frames(s: Seq<u8>) -> Seq<Seq<u8>>
    decreases s.len(),
{
    let p = find_sep(s, 0);
    if p < 0 || p + 2 > s.len() {
        Seq::empty()
    } else {
        seq![s.subrange(0, p)] + frames(s.subrange(p + 2, s.len() as int))
    }
}

/// What is left of `s` after its complete records: the start of a record not yet ended.
pub open spec fn rest(s: Seq<u8>) -> Seq<u8>
    decreases s.len(),
{
    let p = find_sep(s, 0);
    if p < 0 || p + 2 > s.len() {
        s
    } else {
        rest(s.subrange(p + 2, s.len() as int))
    }
}

/// The first position from `i` on where a line feed stands, or -1.
pub open spec fn find_newline(s: Seq<u8>, i: int) -> int
    decreases s.len() - i,
{
    if i < 0 || i >= s.len() {
        -1
    } else if s[i] == 10u8 {
        i
    } else {
        find_newline(s, i + 1)
    }
}

/// A line without the carriage return that may end it.
pub open spec fn strip_cr(line: Seq<u8>) -> Seq<u8> {
    if line.len() > 0 && line.last() == 13u8 {
        line.drop_last()
    } else {
        line
    }
}

/// The marker `data: ` that starts a payload line.
pub open spec fn data_marker() -> Seq<u8> {
    seq![100u8, 97u8, 116u8, 97u8, 58u8, 32u8]
}

/// The payload of one line, if the line carries one.
pub open spec fn line_payload(line: Seq<u8>) -> Seq<Seq<u8>> {
    let l = strip_cr(line);
    if l.len() >= 6 && l.subrange(0, 6) == data_marker() {
        seq![l.subrange(6, l.len() as int)]
    } else {
        Seq::empty()
    }
}

/// The payloads of one record, line by line.
pub open spec fn payloads(rec: Seq<u8>) -> Seq<Seq<u8>>
    decreases rec.len(),
{
    let q = find_newline(rec, 0);
    if q < 0 || q + 1 > rec.len() {
        line_payload(rec)
    } else {
        line_payload(rec.subrange(0, q)) + payloads(rec.subrange(q + 1, rec.len() as int))
    }
}

/// The payloads of a run of records, in order.
pub open spec fn all_payloads(recs: Seq<Seq<u8>>) -> Seq<Seq<u8>>
    decreases recs.len(),
{
    if recs.len() == 0 {
        Seq::empty()
    } else {
        all_payloads(recs.drop_last()) + payloads(recs.last())
    }
}

/// The payloads that the bytes `s` hold in complete records.
pub open spec fn stream_payloads(s: Seq<u8>) -> Seq<Seq<u8>> {
    all_payloads(frames(s))
}

/// The contents of a run of byte vectors.
pub open spec fn views(v: Seq<Vec<u8>>) -> Seq<Seq<u8>> {
    v.map_values(|x: Vec<u8>| x@)
}

proof fn lemma_find_sep_range(s: Seq<u8>, i: int)
    ensures
        find_sep(s, i) == -1 || (i <= find_sep(s, i) && find_sep(s, i) + 2 <= s.len()
            && s[find_sep(s, i)] == 10u8 && s[find_sep(s, i) + 1] == 10u8),
    decreases s.len() - i,
{
    if !(i < 0 || i + 1 >= s.len()) && !(s[i] == 10u8 && s[i + 1] == 10u8) {
        lemma_find_sep_range(s, i + 1);
    }
}

proof fn lemma_find_sep_prefix(a: Seq<u8>, b: Seq<u8>, i: int)
    requires
        find_sep(a, i) >= 0,
    ensures
        find_sep(a + b, i) == find_sep(a, i),
    decreases a.len() - i,
{
    lemma_find_sep_range(a, i);
    if !(a[i] == 10u8 && a[i + 1] == 10u8) {
        lemma_find_sep_prefix(a, b, i + 1);
    }
}

proof fn lemma_find_newline_range(s: Seq<u8>, i: int)
    ensures
        find_newline(s, i) == -1 || (i <= find_newline(s, i) < s.len() && s[find_newline(s, i)]
            == 10u8),
    decreases s.len() - i,
{
    if !(i < 0 || i >= s.len()) && s[i] != 10u8 {
        lemma_find_newline_range(s, i + 1);
    }
}

proof fn lemma_all_payloads_concat(a: Seq<Seq<u8>>, b: Seq<Seq<u8>>)
    ensures
        all_payloads(a + b) == all_payloads(a) + all_payloads(b),
    decreases b.len(),
{
    if b.len() == 0 {
        assert(a + b =~= a);
        assert(all_payloads(a) + all_payloads(b) =~= all_payloads(a));
    } else {
        lemma_all_payloads_concat(a, b.drop_last());
        assert((a + b).drop_last() =~= a + b.drop_last());
        assert((a + b).last() == b.last());
        assert(all_payloads(a + b) =~= all_payloads(a) + all_payloads(b));
    }
}

/// Records split the same way whether the bytes come at once or in two parts.
proof fn lemma_frames_split(a: Seq<u8>, b: Seq<u8>)
    ensures
        frames(a) + frames(rest(a) + b) == frames(a + b),
        rest(rest(a) + b) == rest(a + b),
    decreases a.len(),
{
    let p = find_sep(a, 0);
    lemma_find_sep_range(a, 0);
    if p < 0 {
        assert(frames(a) + frames(rest(a) + b) =~= frames(a + b));
    } else {
        lemma_find_sep_prefix(a, b, 0);
        let a2 = a.subrange(p + 2, a.len() as int);
        assert((a + b).subrange(0, p) =~= a.subrange(0, p));
        assert((a + b).subrange(p + 2, (a + b).len() as int) =~= a2 + b);
        lemma_frames_split(a2, b);
        assert(frames(a) + frames(rest(a) + b) =~= frames(a + b));
    }
}

/// Feeding the bytes `a` and then `b` to a framer that holds `pending` gives the
/// same payloads, and leaves the same unfinished record, as feeding `a + b` at once.
pub proof fn lemma_split_read(pending: Seq<u8>, a: Seq<u8>, b: Seq<u8>)
    ensures
        stream_payloads(pending + a) + stream_payloads(rest(pending + a) + b) == stream_payloads(
            pending + a + b,
        ),
        rest(rest(pending + a) + b) == rest(pending + a + b),
{
    lemma_frames_split(pending + a, b);
    lemma_all_payloads_concat(frames(pending + a), frames(rest(pending + a) + b));
    assert(pending + a + b =~= (pending + a) + b);
}

/// Keeps the bytes of a record whose end has not arrived yet.
pub struct EventFramer {
    pending: Vec<u8>,
}

impl View for EventFramer {
    type V = Seq<u8>;

    closed spec fn view(&self) -> Seq<u8> {
        self.pending@
    }
}

impl EventFramer {
    pub fn new() -> (r: EventFramer)
        ensures
            r@ == Seq::<u8>::empty(),
    {
        EventFramer { pending: Vec::new() }
    }

    /// Takes the next bytes of the stream and returns the payloads of every record
    /// that they complete, in order.
    pub fn feed(&mut self, input: &[u8]) -> (out: Vec<Vec<u8>>)
        ensures
            views(out@) == stream_payloads(old(self)@ + input@),
            final(self)@ == rest(old(self)@ + input@),
    {
        let mut cur: Vec<u8> = self.pending.clone();
        cur.extend_from_slice(input);
        let ghost all = old(self)@ + input@;
        assert(cur@ =~= all);
        let mut out: Vec<Vec<u8>> = Vec::new();
        loop
            invariant
                views(out@) + stream_payloads(cur@) == stream_payloads(all),
                rest(cur@) == rest(all),
                all == old(self)@ + input@,
            decreases cur@.len(),
        {
            let n = cur.len();
            let found = find_separator(cur.as_slice());
            if found.is_none() {
                assert(frames(cur@) =~= Seq::<Seq<u8>>::empty());
                assert(all_payloads(Seq::<Seq<u8>>::empty()) =~= Seq::<Seq<u8>>::empty());
                assert(stream_payloads(cur@) =~= Seq::<Seq<u8>>::empty());
                assert(views(out@) + stream_payloads(cur@) =~= views(out@));
                assert(rest(cur@) == cur@);
                self.pending = cur;
                return out;
            }
            let i = found.unwrap();
            proof {
                lemma_find_sep_range(cur@, 0);
            }
            let record = slice_to_vec(slice_subrange(cur.as_slice(), 0, i));
            let parts = record_payloads(record.as_slice());
            let next = slice_to_vec(slice_subrange(cur.as_slice(), i + 2, n));
            proof {
                lemma_all_payloads_concat(seq![record@], frames(next@));
                assert(all_payloads(seq![record@]) =~= payloads(record@)) by {
                    assert(seq![record@].drop_last() =~= Seq::<Seq<u8>>::empty());
                    assert(all_payloads(Seq::<Seq<u8>>::empty()) =~= Seq::<Seq<u8>>::empty());
                    assert(seq![record@].last() == record@);
                }
                assert(frames(cur@) == seq![record@] + frames(next@));
            }
            let ghost old_out = out@;
            let mut parts = parts;
            out.append(&mut parts);
            assert(views(out@) =~= views(old_out) + payloads(record@));
            cur = next;
        }
    }
}

/// Where the first two line feeds stand.
fn find_separator(s: &[u8]) -> (r: Option<usize>)
    ensures
        r is None ==> find_sep(s@, 0) == -1,
        r is Some ==> find_sep(s@, 0) == r.unwrap() as int,
{
    let n = s.len();
    let mut i: usize = 0;
    while n >= 1 && i < n - 1
        invariant
            n == s@.len(),
            i <= n,
            find_sep(s@, 0) == find_sep(s@, i as int),
        decreases n - i,
    {
        if s[i] == 10u8 && s[i + 1] == 10u8 {
            return Some(i);
        }
        i = i + 1;
    }
    None
}

/// Where the first line feed stands, or the length where none does.
fn find_line_end(s: &[u8]) -> (r: usize)
    ensures
        r <= s@.len(),
        r < s@.len() ==> find_newline(s@, 0) == r as int,
        r == s@.len() ==> find_newline(s@, 0) == -1,
{
    let n = s.len();
    let mut i: usize = 0;
    while i < n
        invariant
            n == s@.len(),
            i <= n,
            find_newline(s@, 0) == find_newline(s@, i as int),
        decreases n - i,
    {
        if s[i] == 10u8 {
            return i;
        }
        i = i + 1;
    }
    n
}

/// The payloads of one record.
fn record_payloads(rec: &[u8]) -> (out: Vec<Vec<u8>>)
    ensures
        views(out@) == payloads(rec@),
{
    let mut out: Vec<Vec<u8>> = Vec::new();
    let mut cur: &[u8] = rec;
    loop
        invariant
            views(out@) + payloads(cur@) == payloads(rec@),
        decreases cur@.len(),
    {
        let n = cur.len();
        let i = find_line_end(cur);
        let line = slice_subrange(cur, 0, i);
        let ghost old_out = out@;
        push_line_payload(&mut out, line);
        if i >= n {
            assert(line@ =~= cur@);
            assert(views(out@) =~= payloads(rec@));
            return out;
        }
        assert(views(out@) =~= views(old_out) + line_payload(line@));
        let next = slice_subrange(cur, i + 1, n);
        assert(payloads(cur@) == line_payload(line@) + payloads(next@));
        assert(views(out@) + payloads(next@) =~= views(old_out) + payloads(cur@));
        cur = next;
    }
}

fn push_line_payload(out: &mut Vec<Vec<u8>>, line: &[u8])
    ensures
        views(final(out)@) == views(old(out)@) + line_payload(line@),
{
    let mut n = line.len();
    if n > 0 && line[n - 1] == 13u8 {
        n = n - 1;
    }
    let l = slice_subrange(line, 0, n);
    assert(l@ =~= strip_cr(line@));
    let marked = n >= 6 && l[0] == 100u8 && l[1] == 97u8 && l[2] == 116u8 && l[3] == 97u8
        && l[4] == 58u8 && l[5] == 32u8;
    if marked {
        assert(l@.subrange(0, 6) =~= data_marker());
        let p = slice_to_vec(slice_subrange(l, 6, n));
        out.push(p);
        assert(views(out@) =~= views(old(out)@) + line_payload(line@));
    } else {
        assert(n >= 6 ==> l@.subrange(0, 6) != data_marker()) by {
            if n >= 6 && l@.subrange(0, 6) == data_marker() {
                assert(l@.subrange(0, 6)[0] == 100u8);
                assert(l@.subrange(0, 6)[5] == 32u8);
                assert(l@.subrange(0, 6)[1] == 97u8);
                assert(l@.subrange(0, 6)[2] == 116u8);
                assert(l@.subrange(0, 6)[3] == 97u8);
                assert(l@.subrange(0, 6)[4] == 58u8);
            }
        }
        assert(views(out@) =~= views(old(out)@) + line_payload(line@));
    }
}

pub open spec fn is_space(b: u8) -> bool {
    b == 32u8 || (9u8 <= b && b <= 13u8)
}

pub open spec fn trim_front(s: Seq<u8>) -> Seq<u8>
    decreases s.len(),
{
    if s.len() > 0 && is_space(s[0]) {
        trim_front(s.drop_first())
    } else {
        s
    }
}

pub open spec fn trim_back(s: Seq<u8>) -> Seq<u8>
    decreases s.len(),
{
    if s.len() > 0 && is_space(s.last()) {
        trim_back(s.drop_last())
    } else {
        s
    }
}

/// The bytes of `[DONE]`, the payload that ends the backend's stream.
pub open spec fn done_marker() -> Seq<u8> {
    seq![91u8, 68u8, 79u8, 78u8, 69u8, 93u8]
}

pub open spec fn is_done(p: Seq<u8>) -> bool {
    trim_back(trim_front(p)) == done_marker()
}

/// Whether a payload, without the white space around it, is the end-of-stream sentinel.
pub fn is_done_payload(p: &[u8]) -> (r: bool)
    ensures
        r == is_done(p@),
{
    let n = p.len();
    let mut lo: usize = 0;
    assert(p@.subrange(0, n as int) =~= p@);
    while lo < n && (p[lo] == 32u8 || (9u8 <= p[lo] && p[lo] <= 13u8))
        invariant
            n == p@.len(),
            lo <= n,
            trim_front(p@) == trim_front(p@.subrange(lo as int, n as int)),
        decreases n - lo,
    {
        assert(p@.subrange(lo as int, n as int).drop_first() =~= p@.subrange(lo + 1, n as int));
        lo = lo + 1;
    }
    let ghost front = p@.subrange(lo as int, n as int);
    assert(trim_front(front) == front);
    let mut hi: usize = n;
    while hi > lo && (p[hi - 1] == 32u8 || (9u8 <= p[hi - 1] && p[hi - 1] <= 13u8))
        invariant
            n == p@.len(),
            lo <= hi <= n,
            front == p@.subrange(lo as int, n as int),
            trim_back(front) == trim_back(p@.subrange(lo as int, hi as int)),
        decreases hi - lo,
    {
        assert(p@.subrange(lo as int, hi as int).drop_last() =~= p@.subrange(lo as int, hi - 1));
        hi = hi - 1;
    }
    let t = slice_subrange(p, lo, hi);
    assert(trim_back(t@) == t@);
    if hi - lo != 6 {
        assert(t@.len() != done_marker().len());
        return false;
    }
    let r = t[0] == 91u8 && t[1] == 68u8 && t[2] == 79u8 && t[3] == 78u8 && t[4] == 69u8
        && t[5] == 93u8;
    if r {
        assert(t@ =~= done_marker());
    } else {
        assert(t@ != done_marker()) by {
            if t@ == done_marker() {
                assert(t@[0] == 91u8 && t@[1] == 68u8 && t@[2] == 79u8);
                assert(t@[3] == 78u8 && t@[4] == 69u8 && t@[5] == 93u8);
            }
        }
    }
    r
}

} // verus!
