//! GOP-aware rolling history of encoded packets.
//!
//! While recording history, packets are queued instead of written; per
//! stream, once the span from the second-oldest keyframe to the newest
//! packet exceeds the configured duration, the packets of that stream
//! before that keyframe are discarded. Discarding never removes the
//! keyframe a decoder needs to start from. On an external trigger the
//! queue is replayed with timestamps rebased, and every later packet is
//! written immediately with the same fixed offset.

use vstd::prelude::*;

verus! {

/// A stream time base: timestamps count in units of `num`/`den` seconds.
#[derive(Clone, Copy, Debug, PartialEq, Eq, Structural)]
pub struct Rational {
    pub num: i32,
    pub den: i32,
}

impl Rational {
    /// A usable time base is a positive ratio.
    pub open spec fn wf(self) -> bool {
        self.num >= 1 && self.den >= 1
    }
}

/// What the history logic reads of an encoded packet, plus the opaque
/// payload `T` it carries for the caller.
pub struct Packet<T> {
    pub stream: usize,
    pub pts: i64,
    pub dts: Option<i64>,
    pub is_key: bool,
    pub data: T,
}

/// Which of its two modes the history is in.
#[derive(Clone, Copy, Debug, PartialEq, Eq, Structural)]
pub enum HistoryMode {
    /// Still buffering: the rolling window's length in nanoseconds.
    RecordingHistory { duration_ns: u64 },
    /// Writing through: every timestamp is reduced by this offset in
    /// nanoseconds, fixed when the trigger fired (zero when history was
    /// never requested).
    Recording { pts_offset_ns: i64 },
}

/// The history component of the encode pipeline. It either buffers
/// packets in a rolling window, or, after the one-time trigger, passes
/// them through with a fixed timestamp offset. The queue holds the
/// buffered packets in arrival order and is empty once writing through.
pub struct History<T> {
    pub mode: HistoryMode,
    pub queue: Vec<Packet<T>>,
}

/// Position `i` of `q` holds a packet of stream `s`.
pub open spec fn in_stream<T>(q: Seq<Packet<T>>, s: int, i: int) -> bool {
    0 <= i < q.len() && q[i].stream == s
}

/// Position `i` of `q` holds a keyframe of stream `s`.
pub open spec fn key_of<T>(q: Seq<Packet<T>>, s: int, i: int) -> bool {
    in_stream(q, s, i) && q[i].is_key
}

/// Position `i` holds the newest packet of stream `s`.
pub open spec fn is_last_of<T>(q: Seq<Packet<T>>, s: int, i: int) -> bool {
    in_stream(q, s, i) && forall|j: int| i < j < q.len() ==> q[j].stream != s
}

/// Position `i` holds the oldest packet of stream `s`.
pub open spec fn is_first_of<T>(q: Seq<Packet<T>>, s: int, i: int) -> bool {
    in_stream(q, s, i) && forall|j: int| 0 <= j < i ==> q[j].stream != s
}

/// Stream `s` has at least two keyframes in `q`.
pub open spec fn has_second_key<T>(q: Seq<Packet<T>>, s: int) -> bool {
    exists|i: int, j: int| key_of(q, s, i) && key_of(q, s, j) && i < j
}

/// Position `i` holds the second-oldest keyframe of stream `s`: a keyframe
/// with exactly one keyframe of `s` before it.
pub open spec fn is_second_key<T>(q: Seq<Packet<T>>, s: int, i: int) -> bool {
    key_of(q, s, i) && exists|j: int|
        key_of(q, s, j) && j < i && (forall|k: int|
            0 <= k < i && k != j ==> !key_of(q, s, k))
}

/// Stream `s`'s rolling window is within bounds: the span from its
/// second-oldest keyframe to its newest packet does not exceed the
/// window.
pub open spec fn stream_within_window<T>(
    q: Seq<Packet<T>>,
    s: int,
    tb: Rational,
    dur_ns: u64,
) -> bool {
    forall|i: int| is_second_key(q, s, i) ==> !over_span(q, s, tb, dur_ns, i)
}

/// Nanoseconds from the packet at `i` to the one at `l`, in a stream whose
/// time base is `tb`.
pub open spec fn span_ns<T>(q: Seq<Packet<T>>, tb: Rational, i: int, l: int) -> int {
    (q[l].pts - q[i].pts) * (tb.num as int) * 1_000_000_000 / (tb.den as int)
}

/// The span from position `i` to the newest packet of stream `s` exceeds
/// `dur_ns` nanoseconds.
pub open spec fn over_span<T>(q: Seq<Packet<T>>, s: int, tb: Rational, dur_ns: u64, i: int) -> bool {
    exists|l: int| is_last_of(q, s, l) && span_ns(q, tb, i, l) > dur_ns
}

/// A queue is well formed when every packet belongs to a known stream,
/// timestamps are non-negative, and each stream's timestamps arrive in
/// non-decreasing order.
pub open spec fn wf_queue<T>(q: Seq<Packet<T>>, nstreams: int) -> bool {
    &&& forall|i: int| 0 <= i < q.len() ==> 0 <= #[trigger] q[i].stream < nstreams
    &&& forall|i: int| 0 <= i < q.len() ==> #[trigger] q[i].pts >= 0
    &&& forall|i: int, j: int|
        0 <= i < j < q.len() && q[i].stream == q[j].stream ==> #[trigger] q[i].pts
            <= #[trigger] q[j].pts
}

/// Every stream's time base is usable.
pub open spec fn wf_tbs(tbs: Seq<Rational>) -> bool {
    forall|i: int| 0 <= i < tbs.len() ==> (#[trigger] tbs[i]).wf()
}

/// The fixed per-stream offset, in the stream's own time base units, that
/// the write path subtracts: the nanosecond offset converted via the time
/// base, rounding down.
pub open spec fn spec_scaled_offset(offset_ns: int, tb: Rational) -> int {
    offset_ns * (tb.den as int) / (tb.num as int) / 1_000_000_000
}

/// A packet with its timestamps reduced by `off` (in stream time base
/// units).
pub open spec fn spec_adjust<T>(p: Packet<T>, off: int) -> Packet<T> {
    Packet {
        pts: (p.pts - off) as i64,
        dts: match p.dts {
            Some(d) => Some((d - off) as i64),
            None => None,
        },
        ..p
    }
}

/// The position where a trim of stream `s` cuts: the latest keyframe of
/// `s` whose span to the stream's newest packet still exceeds the window,
/// provided an older keyframe exists (so a decodable keyframe survives).
/// Everything of stream `s` strictly before it is discarded.
pub open spec fn is_cut<T>(q: Seq<Packet<T>>, s: int, tb: Rational, dur_ns: u64, c: int) -> bool {
    &&& key_of(q, s, c)
    &&& over_span(q, s, tb, dur_ns, c)
    &&& exists|j: int| 0 <= j < c && key_of(q, s, j)
    &&& forall|i: int| c < i < q.len() && key_of(q, s, i) ==> !over_span(q, s, tb, dur_ns, i)
}

/// The queue after trimming stream `s` at cut `c`: packets of `s` before
/// the cut are gone, everything else is kept in order.
pub open spec fn spec_trimmed<T>(q: Seq<Packet<T>>, s: int, c: int) -> Seq<Packet<T>> {
    q.subrange(0, c).filter(|p: Packet<T>| p.stream != s) + q.subrange(c, q.len() as int)
}

impl<T> History<T> {
    /// Well-formed for a muxer with `nstreams` streams.
    pub open spec fn wf(self, nstreams: int) -> bool {
        match self.mode {
            HistoryMode::RecordingHistory { .. } => wf_queue(self.queue@, nstreams),
            HistoryMode::Recording { pts_offset_ns } => pts_offset_ns >= 0 && self.queue@.len()
                == 0,
        }
    }

    /// Sets up the history state: buffering when a window was asked for
    /// and the trigger has not fired yet, else writing through with no
    /// offset.
    pub fn new(history_duration_ns: Option<u64>, already_triggered: bool) -> (r: History<T>)
        ensures
            r.mode == (match history_duration_ns {
                Some(d) => if already_triggered {
                    HistoryMode::Recording { pts_offset_ns: 0i64 }
                } else {
                    HistoryMode::RecordingHistory { duration_ns: d }
                },
                None => HistoryMode::Recording { pts_offset_ns: 0i64 },
            }),
            r.queue@ == Seq::<Packet<T>>::empty(),
            forall|n: int| r.wf(n),
    {
        let mode = match history_duration_ns {
            Some(d) if !already_triggered => HistoryMode::RecordingHistory { duration_ns: d },
            _ => HistoryMode::Recording { pts_offset_ns: 0 },
        };
        History { mode, queue: Vec::new() }
    }
}

/// A stream has at most one newest packet.
proof fn lemma_last_unique<T>(q: Seq<Packet<T>>, s: int, l1: int, l2: int)
    requires
        is_last_of(q, s, l1),
        is_last_of(q, s, l2),
    ensures
        l1 == l2,
{
    if l1 < l2 {
        assert(q[l2].stream != s);
    } else if l2 < l1 {
        assert(q[l1].stream != s);
    }
}

/// Filtering a one-element sequence keeps or drops that element.
proof fn lemma_filter_singleton<A>(x: A, pred: spec_fn(A) -> bool)
    ensures
        seq![x].filter(pred) == if pred(x) {
            seq![x]
        } else {
            Seq::<A>::empty()
        },
{
    reveal_with_fuel(Seq::filter, 2);
    assert(seq![x].drop_last() =~= Seq::<A>::empty());
}

/// Discards every packet of stream `s` that precedes the cut position,
/// leaving other streams untouched: the queue becomes `spec_trimmed` at
/// the cut. Nothing happens when no cut exists (fewer than two keyframes,
/// or the window is not yet exceeded).
fn trim_stream<T>(queue: &mut Vec<Packet<T>>, s: usize, tb: Rational, dur_ns: u64)
    requires
        tb.wf(),
        forall|i: int| 0 <= i < old(queue)@.len() ==> #[trigger] old(queue)@[i].pts >= 0,
        forall|i: int, j: int|
            0 <= i < j < old(queue)@.len() && old(queue)@[i].stream == old(queue)@[j].stream ==> #[trigger] old(
                queue,
            )@[i].pts <= #[trigger] old(queue)@[j].pts,
    ensures
        (!exists|c: int| is_cut(old(queue)@, s as int, tb, dur_ns, c)) ==> final(queue)@ == old(
            queue,
        )@,
        forall|c: int|
            is_cut(old(queue)@, s as int, tb, dur_ns, c) ==> final(queue)@ == spec_trimmed(
                old(queue)@,
                s as int,
                c,
            ),
{
    let ghost q0 = queue@;
    let n = queue.len();

    // the newest packet of the stream, if the stream has any packet
    let mut last: Option<usize> = None;
    let mut i: usize = 0;
    while i < n
        invariant
            i <= n,
            n == q0.len(),
            queue@ == q0,
            match last {
                Some(l) => l < i && q0[l as int].stream == s && forall|j: int|
                    l < j < i ==> q0[j].stream != s,
                None => forall|j: int| 0 <= j < i ==> q0[j].stream != s,
            },
        decreases n - i,
    {
        if queue[i].stream == s {
            last = Some(i);
        }
        i += 1;
    }

    let l = match last {
        Some(l) => l,
        None => {
            // stream has no packets, so no keyframes and no cut
            proof {
                assert forall|c: int| !is_cut(q0, s as int, tb, dur_ns, c) by {
                    if 0 <= c < q0.len() {
                        assert(q0[c].stream != s);
                    }
                }
            }
            return ;
        },
    };
    proof {
        assert(is_last_of(q0, s as int, l as int));
    }
    let last_pts = queue[l].pts;

    // the latest keyframe of the stream whose span to the newest packet
    // exceeds the window
    let mut cut: Option<usize> = None;
    let mut i: usize = 0;
    while i < n
        invariant
            i <= n,
            n == q0.len(),
            queue@ == q0,
            tb.wf(),
            is_last_of(q0, s as int, l as int),
            l < n,
            last_pts == q0[l as int].pts,
            forall|k: int| 0 <= k < q0.len() ==> #[trigger] q0[k].pts >= 0,
            forall|k: int, j: int|
                0 <= k < j < q0.len() && q0[k].stream == q0[j].stream ==> #[trigger] q0[k].pts
                    <= #[trigger] q0[j].pts,
            match cut {
                Some(c) => c < i && key_of(q0, s as int, c as int) && over_span(
                    q0,
                    s as int,
                    tb,
                    dur_ns,
                    c as int,
                ) && forall|j: int|
                    c < j < i && key_of(q0, s as int, j) ==> !over_span(
                        q0,
                        s as int,
                        tb,
                        dur_ns,
                        j,
                    ),
                None => forall|j: int|
                    0 <= j < i && key_of(q0, s as int, j) ==> !over_span(q0, s as int, tb, dur_ns, j),
            },
        decreases n - i,
    {
        if queue[i].stream == s && queue[i].is_key {
            proof {
                if i != l {
                    assert(q0[i as int].pts <= q0[l as int].pts);
                }
                vstd::arithmetic::mul::lemma_mul_upper_bound(
                    (last_pts - queue@[i as int].pts) as int,
                    i64::MAX as int,
                    tb.num as int,
                    i32::MAX as int,
                );
                vstd::arithmetic::mul::lemma_mul_upper_bound(
                    (last_pts - queue@[i as int].pts) as int * (tb.num as int),
                    i64::MAX as int * i32::MAX as int,
                    1_000_000_000,
                    1_000_000_000,
                );
            }
            let diff = last_pts - queue[i].pts;
            let span: u128 = (diff as u128) * (tb.num as u128) * 1_000_000_000 / (tb.den as u128);
            if span > dur_ns as u128 {
                proof {
                    assert(span_ns(q0, tb, i as int, l as int) == span as int);
                    assert(over_span(q0, s as int, tb, dur_ns, i as int));
                }
                cut = Some(i);
            } else {
                proof {
                    assert(span_ns(q0, tb, i as int, l as int) == span as int);
                    assert forall|ll: int| is_last_of(q0, s as int, ll) implies !(span_ns(
                        q0,
                        tb,
                        i as int,
                        ll,
                    ) > dur_ns) by {
                        lemma_last_unique(q0, s as int, ll, l as int);
                    }
                }
            }
        }
        i += 1;
    }

    let c = match cut {
        Some(c) => c,
        None => {
            // no keyframe is out of the window: nothing to discard
            proof {
                assert forall|cc: int| !is_cut(q0, s as int, tb, dur_ns, cc) by {}
            }
            return ;
        },
    };

    // the cut must leave an older keyframe behind, else the stream's only
    // decodable start would be discarded
    let mut has_prior = false;
    let mut i: usize = 0;
    while i < c
        invariant
            i <= c,
            c < n,
            n == q0.len(),
            queue@ == q0,
            has_prior == exists|j: int| 0 <= j < i && key_of(q0, s as int, j),
        decreases c - i,
    {
        if queue[i].stream == s && queue[i].is_key {
            proof {
                assert(key_of(q0, s as int, i as int));
            }
            has_prior = true;
        }
        i += 1;
    }

    if !has_prior {
        // the out-of-window keyframe is the stream's first: keep it
        proof {
            assert forall|cc: int| !is_cut(q0, s as int, tb, dur_ns, cc) by {
                if is_cut(q0, s as int, tb, dur_ns, cc) {
                    if cc < c {
                        assert(key_of(q0, s as int, c as int) && over_span(
                            q0,
                            s as int,
                            tb,
                            dur_ns,
                            c as int,
                        ));
                    } else if cc > c {
                        assert(!over_span(q0, s as int, tb, dur_ns, cc));
                    }
                }
            }
        }
        return ;
    }

    proof {
        assert(is_cut(q0, s as int, tb, dur_ns, c as int));
    }

    // discard everything of the stream before the cut, in place
    let ghost pred = |p: Packet<T>| p.stream != s;
    let mut c_now = c;
    let mut i: usize = 0;
    let ghost mut k: int = 0;
    while i < c_now
        invariant
            0 <= k <= c <= n,
            n == q0.len(),
            i <= c_now <= c,
            queue@ == q0.subrange(0, k).filter(pred) + q0.subrange(k, n as int),
            i == q0.subrange(0, k).filter(pred).len(),
            c_now == c - (k - i),
            pred == (|p: Packet<T>| p.stream != s),
        decreases c_now - i,
    {
        proof {
            assert(queue@[i as int] == q0[k]);
            assert(q0.subrange(0, k + 1) =~= q0.subrange(0, k) + seq![q0[k]]);
            Seq::filter_distributes_over_add(q0.subrange(0, k), seq![q0[k]], pred);
            lemma_filter_singleton(q0[k], pred);
        }
        if queue[i].stream == s {
            queue.remove(i);
            proof {
                assert(queue@ =~= q0.subrange(0, k + 1).filter(pred) + q0.subrange(
                    k + 1,
                    n as int,
                ));
            }
            c_now -= 1;
        } else {
            i += 1;
            proof {
                assert(queue@ =~= q0.subrange(0, k + 1).filter(pred) + q0.subrange(
                    k + 1,
                    n as int,
                ));
            }
        }
        proof {
            k = k + 1;
        }
    }

    proof {
        assert(k == c);
        assert(queue@ == spec_trimmed(q0, s as int, c as int));
        // the cut position is unique, so the result is the trim at any cut
        assert forall|cc: int|
            is_cut(q0, s as int, tb, dur_ns, cc) implies queue@ == spec_trimmed(
            q0,
            s as int,
            cc,
        ) by {
            if cc < c {
                assert(over_span(q0, s as int, tb, dur_ns, c as int));
            } else if cc > c {
                assert(!over_span(q0, s as int, tb, dur_ns, cc));
            }
        }
    }
}

/// Every element of a filtered sequence comes from the original.
proof fn lemma_filter_membership<A>(s: Seq<A>, pred: spec_fn(A) -> bool)
    ensures
        forall|i: int|
            0 <= i < s.filter(pred).len() ==> exists|k: int|
                0 <= k < s.len() && s[k] == #[trigger] s.filter(pred)[i],
    decreases s.len(),
{
    reveal(Seq::filter);
    if s.len() > 0 {
        lemma_filter_membership(s.drop_last(), pred);
        assert forall|i: int| 0 <= i < s.filter(pred).len() implies exists|k: int|
            0 <= k < s.len() && s[k] == #[trigger] s.filter(pred)[i] by {
            if pred(s.last()) && i == s.filter(pred).len() - 1 {
                assert(s[s.len() - 1] == s.filter(pred)[i]);
            } else {
                assert(s.filter(pred)[i] == s.drop_last().filter(pred)[i]);
                let k = choose|k: int|
                    0 <= k < s.drop_last().len() && s.drop_last()[k] == s.drop_last().filter(
                        pred,
                    )[i];
                assert(s[k] == s.filter(pred)[i]);
            }
        }
    }
}

/// Filtering keeps every pairwise relation that held in the original
/// order.
proof fn lemma_filter_pairwise<A>(s: Seq<A>, pred: spec_fn(A) -> bool, rel: spec_fn(A, A) -> bool)
    requires
        forall|i: int, j: int| 0 <= i < j < s.len() ==> rel(#[trigger] s[i], #[trigger] s[j]),
    ensures
        forall|i: int, j: int|
            0 <= i < j < s.filter(pred).len() ==> rel(
                #[trigger] s.filter(pred)[i],
                #[trigger] s.filter(pred)[j],
            ),
    decreases s.len(),
{
    reveal(Seq::filter);
    if s.len() > 0 {
        assert forall|i: int, j: int|
            0 <= i < j < s.drop_last().len() implies rel(
            #[trigger] s.drop_last()[i],
            #[trigger] s.drop_last()[j],
        ) by {
            assert(s.drop_last()[i] == s[i] && s.drop_last()[j] == s[j]);
        }
        lemma_filter_pairwise(s.drop_last(), pred, rel);
        lemma_filter_membership(s.drop_last(), pred);
        assert forall|i: int, j: int|
            0 <= i < j < s.filter(pred).len() implies rel(
            #[trigger] s.filter(pred)[i],
            #[trigger] s.filter(pred)[j],
        ) by {
            if pred(s.last()) && j == s.filter(pred).len() - 1 {
                assert(s.filter(pred)[j] == s.last());
                assert(s.filter(pred)[i] == s.drop_last().filter(pred)[i]);
                let k = choose|k: int|
                    0 <= k < s.drop_last().len() && s.drop_last()[k] == s.drop_last().filter(
                        pred,
                    )[i];
                assert(rel(s[k], s[s.len() - 1]));
            } else {
                assert(s.filter(pred)[i] == s.drop_last().filter(pred)[i]);
                assert(s.filter(pred)[j] == s.drop_last().filter(pred)[j]);
            }
        }
    }
}

/// The position in `s` of the `j`-th element its filtering keeps.
spec fn filter_pos<A>(s: Seq<A>, pred: spec_fn(A) -> bool, j: int) -> int
    decreases s.len(),
{
    if s.len() == 0 {
        0
    } else if pred(s.last()) && j == s.filter(pred).len() - 1 {
        s.len() - 1
    } else {
        filter_pos(s.drop_last(), pred, j)
    }
}

/// The filter position map lands on the kept elements, in order, and
/// reaches every kept element.
proof fn lemma_filter_pos<A>(s: Seq<A>, pred: spec_fn(A) -> bool)
    ensures
        forall|j: int|
            0 <= j < s.filter(pred).len() ==> 0 <= #[trigger] filter_pos(s, pred, j) < s.len()
                && s[filter_pos(s, pred, j)] == s.filter(pred)[j],
        forall|j1: int, j2: int|
            0 <= j1 < j2 < s.filter(pred).len() ==> #[trigger] filter_pos(s, pred, j1)
                < #[trigger] filter_pos(s, pred, j2),
        forall|k: int|
            0 <= k < s.len() && pred(#[trigger] s[k]) ==> exists|j: int|
                0 <= j < s.filter(pred).len() && #[trigger] filter_pos(s, pred, j) == k,
    decreases s.len(),
{
    reveal(Seq::filter);
    if s.len() > 0 {
        let t = s.drop_last();
        let fs = s.filter(pred);
        let ft = t.filter(pred);
        lemma_filter_pos(t, pred);
        s.lemma_filter_len(pred);
        t.lemma_filter_len(pred);
        assert(fs == if pred(s.last()) {
            ft.push(s.last())
        } else {
            ft
        });
        assert forall|j: int|
            0 <= j < fs.len() implies 0 <= #[trigger] filter_pos(s, pred, j) < s.len() && s[filter_pos(
            s,
            pred,
            j,
        )] == fs[j] by {
            if pred(s.last()) && j == fs.len() - 1 {
                assert(fs[j] == s.last());
            } else {
                assert(j < ft.len());
                assert(fs[j] == ft[j]);
                assert(0 <= filter_pos(t, pred, j) < t.len() && t[filter_pos(t, pred, j)]
                    == ft[j]);
                assert(s[filter_pos(t, pred, j)] == t[filter_pos(t, pred, j)]);
            }
        }
        assert forall|j1: int, j2: int|
            0 <= j1 < j2 < fs.len() implies #[trigger] filter_pos(s, pred, j1)
            < #[trigger] filter_pos(s, pred, j2) by {
            if pred(s.last()) && j2 == fs.len() - 1 {
                assert(j1 < ft.len());
                assert(0 <= filter_pos(t, pred, j1) < t.len());
                assert(filter_pos(s, pred, j1) == filter_pos(t, pred, j1));
            } else {
                assert(j2 < ft.len());
                assert(filter_pos(t, pred, j1) < filter_pos(t, pred, j2));
            }
        }
        assert forall|k: int|
            0 <= k < s.len() && pred(#[trigger] s[k]) implies exists|j: int|
            0 <= j < s.filter(pred).len() && #[trigger] filter_pos(s, pred, j) == k by {
            if k == s.len() - 1 {
                assert(filter_pos(s, pred, fs.len() - 1) == k);
            } else {
                assert(t[k] == s[k]);
                assert(pred(t[k]));
                let j = choose|j: int|
                    0 <= j < t.filter(pred).len() && #[trigger] filter_pos(t, pred, j) == k;
                assert(filter_pos(s, pred, j) == k);
            }
        }
    }
}

/// The position in the original queue of the `j`-th packet of the
/// trimmed queue.
spec fn trim_pos<T>(q: Seq<Packet<T>>, s: int, c: int, j: int) -> int {
    let a = q.subrange(0, c).filter(|p: Packet<T>| p.stream != s);
    if j < a.len() {
        filter_pos(q.subrange(0, c), |p: Packet<T>| p.stream != s, j)
    } else {
        j - a.len() + c
    }
}

/// The trimmed queue is an ordered subsequence of the original: the
/// position map is monotone, lands on equal packets, and reaches every
/// packet the trim keeps (everything at or after the cut, and everything
/// of other streams before it).
proof fn lemma_trim_pos<T>(q: Seq<Packet<T>>, s: int, c: int)
    requires
        0 <= c <= q.len(),
    ensures
        spec_trimmed(q, s, c).len() <= q.len(),
        forall|j: int|
            0 <= j < spec_trimmed(q, s, c).len() ==> 0 <= #[trigger] trim_pos(q, s, c, j)
                < q.len() && spec_trimmed(q, s, c)[j] == q[trim_pos(q, s, c, j)],
        forall|j1: int, j2: int|
            0 <= j1 < j2 < spec_trimmed(q, s, c).len() ==> #[trigger] trim_pos(q, s, c, j1)
                < #[trigger] trim_pos(q, s, c, j2),
        forall|k: int|
            0 <= k < q.len() && (k >= c || (#[trigger] q[k]).stream != s) ==> exists|j: int|
                0 <= j < spec_trimmed(q, s, c).len() && trim_pos(q, s, c, j) == k,
{
    let pred = |p: Packet<T>| p.stream != s;
    let sub = q.subrange(0, c);
    let a = sub.filter(pred);
    let al = a.len() as int;
    let q2 = spec_trimmed(q, s, c);
    lemma_filter_pos(sub, pred);
    sub.lemma_filter_len(pred);
    assert(q2.len() == al + (q.len() - c));
    assert forall|j: int|
        0 <= j < q2.len() implies 0 <= #[trigger] trim_pos(q, s, c, j) < q.len() && q2[j] == q[trim_pos(
        q,
        s,
        c,
        j,
    )] by {
        if j < al {
            assert(sub[filter_pos(sub, pred, j)] == a[j]);
            assert(q[filter_pos(sub, pred, j)] == sub[filter_pos(sub, pred, j)]);
        }
    }
    assert forall|k: int|
        0 <= k < q.len() && (k >= c || (#[trigger] q[k]).stream != s) implies exists|j: int|
        0 <= j < q2.len() && trim_pos(q, s, c, j) == k by {
        if k >= c {
            assert(trim_pos(q, s, c, k - c + al) == k);
        } else {
            assert(sub[k] == q[k] && pred(sub[k]));
            let j = choose|j: int|
                0 <= j < sub.filter(pred).len() && #[trigger] filter_pos(sub, pred, j) == k;
            assert(trim_pos(q, s, c, j) == k);
        }
    }
}

/// Trimming one stream leaves every other stream's rolling window
/// property untouched.
proof fn lemma_trimmed_preserves_stream<T>(
    q: Seq<Packet<T>>,
    s: int,
    c: int,
    s2: int,
    tb2: Rational,
    dur_ns: u64,
)
    requires
        0 <= c < q.len(),
        q[c].stream == s,
        s2 != s,
        stream_within_window(q, s2, tb2, dur_ns),
    ensures
        stream_within_window(spec_trimmed(q, s, c), s2, tb2, dur_ns),
{
    let q2 = spec_trimmed(q, s, c);
    let n2 = q2.len() as int;
    lemma_trim_pos(q, s, c);
    assert forall|i2: int|
        is_second_key(q2, s2, i2) implies !over_span(q2, s2, tb2, dur_ns, i2) by {
        if over_span(q2, s2, tb2, dur_ns, i2) {
            let pi = trim_pos(q, s, c, i2);
            // the prior keyframe and the newest packet, mapped back
            let j2 = choose|j2: int|
                key_of(q2, s2, j2) && j2 < i2 && (forall|k: int|
                    0 <= k < i2 && k != j2 ==> !key_of(q2, s2, k));
            let pj = trim_pos(q, s, c, j2);
            let l2 = choose|l2: int| is_last_of(q2, s2, l2) && span_ns(q2, tb2, i2, l2) > dur_ns;
            let pl = trim_pos(q, s, c, l2);
            assert(key_of(q, s2, pi) && key_of(q, s2, pj) && pj < pi);
            assert(is_second_key(q, s2, pi)) by {
                assert forall|k: int|
                    0 <= k < pi && k != pj implies !key_of(q, s2, k) by {
                    if key_of(q, s2, k) {
                        let j = choose|j: int|
                            0 <= j < q2.len() && #[trigger] trim_pos(q, s, c, j) == k;
                        assert(q2[j] == q[k]);
                        assert(j < i2) by {
                            if j >= i2 {
                                if j > i2 {
                                    assert(trim_pos(q, s, c, i2) < trim_pos(q, s, c, j));
                                }
                            }
                        }
                        assert(key_of(q2, s2, j));
                        assert(j == j2);
                    }
                }
            }
            assert(is_last_of(q, s2, pl)) by {
                assert forall|k: int| pl < k < q.len() implies (#[trigger] q[k]).stream != s2 by {
                    if q[k].stream == s2 {
                        let j = choose|j: int|
                            0 <= j < q2.len() && #[trigger] trim_pos(q, s, c, j) == k;
                        assert(q2[j] == q[k]);
                        assert(j > l2) by {
                            if j <= l2 {
                                if j < l2 {
                                    assert(trim_pos(q, s, c, j) < trim_pos(q, s, c, l2));
                                }
                            }
                        }
                        assert(q2[j].stream != s2);
                    }
                }
            }
            assert(span_ns(q, tb2, pi, pl) == span_ns(q2, tb2, i2, l2));
            assert(over_span(q, s2, tb2, dur_ns, pi));
            assert(!over_span(q, s2, tb2, dur_ns, pi));
        }
    }
}

/// Appending a packet of another stream leaves a stream's rolling window
/// property untouched.
proof fn lemma_push_preserves_stream<T>(
    q: Seq<Packet<T>>,
    p: Packet<T>,
    s2: int,
    tb2: Rational,
    dur_ns: u64,
)
    requires
        p.stream != s2,
        stream_within_window(q, s2, tb2, dur_ns),
    ensures
        stream_within_window(q.push(p), s2, tb2, dur_ns),
{
    let q1 = q.push(p);
    let n = q.len() as int;
    assert forall|i: int|
        is_second_key(q1, s2, i) implies !over_span(q1, s2, tb2, dur_ns, i) by {
        if over_span(q1, s2, tb2, dur_ns, i) {
            assert(i < n);
            assert(is_second_key(q, s2, i)) by {
                let j2 = choose|j2: int|
                    key_of(q1, s2, j2) && j2 < i && (forall|k: int|
                        0 <= k < i && k != j2 ==> !key_of(q1, s2, k));
                assert(key_of(q, s2, j2));
                assert forall|k: int| 0 <= k < i && k != j2 implies !key_of(q, s2, k) by {
                    if key_of(q, s2, k) {
                        assert(key_of(q1, s2, k));
                    }
                }
            }
            let l = choose|l: int| is_last_of(q1, s2, l) && span_ns(q1, tb2, i, l) > dur_ns;
            assert(l < n);
            assert(is_last_of(q, s2, l)) by {
                assert forall|j: int| l < j < n implies (#[trigger] q[j]).stream != s2 by {
                    assert(q1[j] == q[j]);
                }
            }
            assert(span_ns(q, tb2, i, l) == span_ns(q1, tb2, i, l));
            assert(over_span(q, s2, tb2, dur_ns, i));
            assert(!over_span(q, s2, tb2, dur_ns, i));
        }
    }
}

/// Trimming keeps the queue well formed.
proof fn lemma_trimmed_wf<T>(q: Seq<Packet<T>>, s: int, c: int, nstreams: int)
    requires
        wf_queue(q, nstreams),
        0 <= c < q.len(),
    ensures
        wf_queue(spec_trimmed(q, s, c), nstreams),
{
    let pred = |p: Packet<T>| p.stream != s;
    let a = q.subrange(0, c).filter(pred);
    let b = q.subrange(c, q.len() as int);
    let q2 = spec_trimmed(q, s, c);
    lemma_filter_membership(q.subrange(0, c), pred);
    lemma_filter_pairwise(
        q.subrange(0, c),
        pred,
        |x: Packet<T>, y: Packet<T>| x.stream == y.stream ==> x.pts <= y.pts,
    );
    assert forall|i: int| 0 <= i < q2.len() implies 0 <= (#[trigger] q2[i]).stream < nstreams
        && q2[i].pts >= 0 by {
        if i < a.len() {
            let k = choose|k: int| 0 <= k < q.subrange(0, c).len() && q.subrange(0, c)[k] == a[i];
            assert(q2[i] == q[k]);
        } else {
            assert(q2[i] == q[c + (i - a.len())]);
        }
    }
    assert forall|i: int, j: int|
        0 <= i < j < q2.len() && q2[i].stream == q2[j].stream implies #[trigger] q2[i].pts
        <= #[trigger] q2[j].pts by {
        if j < a.len() {
            assert(q2[i] == a[i] && q2[j] == a[j]);
        } else if i >= a.len() {
            assert(q2[i] == q[c + (i - a.len())] && q2[j] == q[c + (j - a.len())]);
        } else {
            let k = choose|k: int| 0 <= k < q.subrange(0, c).len() && q.subrange(0, c)[k] == a[i];
            assert(q2[i] == q[k] && k < c);
            assert(q2[j] == q[c + (j - a.len())]);
        }
    }
}

/// Whenever some keyframe with an older keyframe behind it is out of the
/// window, a cut position exists.
proof fn lemma_cut_exists<T>(q: Seq<Packet<T>>, s: int, tb: Rational, dur_ns: u64, i: int)
    requires
        key_of(q, s, i),
        over_span(q, s, tb, dur_ns, i),
        exists|j: int| 0 <= j < i && key_of(q, s, j),
    ensures
        exists|c: int| is_cut(q, s, tb, dur_ns, c),
    decreases q.len() - i,
{
    if forall|j: int| i < j < q.len() && key_of(q, s, j) ==> !over_span(q, s, tb, dur_ns, j) {
        assert(is_cut(q, s, tb, dur_ns, i));
    } else {
        let j = choose|j: int|
            i < j < q.len() && key_of(q, s, j) && over_span(q, s, tb, dur_ns, j);
        lemma_cut_exists(q, s, tb, dur_ns, j);
    }
}

/// After a trim, the oldest remaining packet of the trimmed stream is the
/// keyframe the cut kept, so the stream is still decodable from its start.
proof fn lemma_trimmed_starts_at_key<T>(q: Seq<Packet<T>>, s: int, tb: Rational, dur_ns: u64, c: int)
    requires
        is_cut(q, s, tb, dur_ns, c),
    ensures
        forall|i: int| is_first_of(spec_trimmed(q, s, c), s, i) ==> spec_trimmed(q, s, c)[i].is_key,
{
    let pred = |p: Packet<T>| p.stream != s;
    let a = q.subrange(0, c).filter(pred);
    let q2 = spec_trimmed(q, s, c);
    assert(q2[a.len() as int] == q[c]);
    assert forall|i: int| is_first_of(q2, s, i) implies q2[i].is_key by {
        assert forall|j: int| 0 <= j < a.len() implies (#[trigger] q2[j]).stream != s by {
            assert(q2[j] == a[j]);
            Seq::lemma_filter_pred(q.subrange(0, c), pred, j);
        }
        assert(q2[a.len() as int].stream == s);
        if i < a.len() {
            assert(q2[i].stream != s);
        } else if i > a.len() {
            assert(q2[a.len() as int].stream != s);
        }
    }
}

/// After a trim, the span from the trimmed stream's second-oldest
/// keyframe to its newest packet is back inside the window.
proof fn lemma_trimmed_fixpoint<T>(q: Seq<Packet<T>>, s: int, tb: Rational, dur_ns: u64, c: int)
    requires
        is_cut(q, s, tb, dur_ns, c),
    ensures
        forall|i2: int|
            is_second_key(spec_trimmed(q, s, c), s, i2) ==> !over_span(
                spec_trimmed(q, s, c),
                s,
                tb,
                dur_ns,
                i2,
            ),
{
    let pred = |p: Packet<T>| p.stream != s;
    let a = q.subrange(0, c).filter(pred);
    let al = a.len() as int;
    let q2 = spec_trimmed(q, s, c);
    let n = q.len() as int;
    let shift = c - al;
    assert(q2.len() == al + (n - c));
    assert forall|j: int| 0 <= j < al implies (#[trigger] q2[j]).stream != s by {
        assert(q2[j] == a[j]);
        Seq::lemma_filter_pred(q.subrange(0, c), pred, j);
    }
    assert forall|j: int| al <= j < q2.len() implies #[trigger] q2[j] == q[j + shift] by {}
    assert forall|i2: int|
        is_second_key(q2, s, i2) implies !over_span(q2, s, tb, dur_ns, i2) by {
        if over_span(q2, s, tb, dur_ns, i2) {
            // an older keyframe exists in the trimmed queue, so this one
            // is strictly after the kept cut keyframe
            let j2 = choose|j2: int|
                key_of(q2, s, j2) && j2 < i2 && (forall|k: int|
                    0 <= k < i2 && k != j2 ==> !key_of(q2, s, k));
            assert(i2 >= al && j2 >= al);
            let i = i2 + shift;
            assert(q2[i2] == q[i]);
            assert(key_of(q, s, i));
            assert(i > c);
            // map the trimmed queue's newest packet of the stream back
            let l2 = choose|l2: int| is_last_of(q2, s, l2) && span_ns(q2, tb, i2, l2) > dur_ns;
            assert(l2 >= al);
            let l = l2 + shift;
            assert(q[l] == q2[l2]);
            assert forall|j: int| l < j < n implies (#[trigger] q[j]).stream != s by {
                assert(q2[j - shift] == q[j]);
                assert(l2 < j - shift < q2.len());
            }
            assert(is_last_of(q, s, l));
            assert(span_ns(q, tb, i, l) == span_ns(q2, tb, i2, l2));
            assert(over_span(q, s, tb, dur_ns, i));
            assert(!over_span(q, s, tb, dur_ns, i));
        }
    }
}

/// Converts a non-negative nanosecond offset into stream time base units,
/// rounding down.
fn scaled_offset(offset_ns: i64, tb: Rational) -> (r: i64)
    requires
        offset_ns >= 0,
        tb.wf(),
        spec_scaled_offset(offset_ns as int, tb) <= i64::MAX,
    ensures
        r == spec_scaled_offset(offset_ns as int, tb),
        r >= 0,
{
    proof {
        vstd::arithmetic::mul::lemma_mul_upper_bound(
            offset_ns as int,
            i64::MAX as int,
            tb.den as int,
            i32::MAX as int,
        );
    }
    let wide: u128 = (offset_ns as u128) * (tb.den as u128) / (tb.num as u128) / 1_000_000_000;
    wide as i64
}

impl<T> History<T> {
    /// Routes one encoded packet. While buffering, the packet is appended
    /// and its stream's window is trimmed: packets of that stream older
    /// than the latest out-of-window keyframe are discarded, but never so
    /// much that the stream loses its decodable start, and never anything
    /// while the stream has fewer than two keyframes. Once writing
    /// through, the packet is returned with both timestamps reduced by
    /// the fixed per-stream offset, for immediate muxing.
    pub fn on_encoded_packet(&mut self, p: Packet<T>, tbs: &Vec<Rational>) -> (out: Vec<
        Packet<T>,
    >)
        requires
            wf_tbs(tbs@),
            old(self).wf(tbs@.len() as int),
            p.stream < tbs@.len(),
            p.pts >= 0,
            forall|i: int|
                0 <= i < old(self).queue@.len() && (#[trigger] old(self).queue@[i]).stream
                    == p.stream ==> old(self).queue@[i].pts <= p.pts,
            old(self).mode matches HistoryMode::Recording { pts_offset_ns } ==> {
                &&& spec_scaled_offset(pts_offset_ns as int, tbs@[p.stream as int]) <= i64::MAX
                &&& (p.dts matches Some(d) ==> d - spec_scaled_offset(
                    pts_offset_ns as int,
                    tbs@[p.stream as int],
                ) >= i64::MIN)
            },
        ensures
            final(self).mode == old(self).mode,
            final(self).wf(tbs@.len() as int),
            old(self).mode matches HistoryMode::Recording { pts_offset_ns } ==> {
                &&& final(self).queue@ == old(self).queue@
                &&& out@ == seq![
                    spec_adjust(
                        p,
                        spec_scaled_offset(pts_offset_ns as int, tbs@[p.stream as int]),
                    ),
                ]
            },
            old(self).mode matches HistoryMode::RecordingHistory { duration_ns } ==> {
                let q1 = old(self).queue@.push(p);
                let s = p.stream as int;
                let tb = tbs@[s];
                let qf = final(self).queue@;
                &&& out@ == Seq::<Packet<T>>::empty()
                &&& ((!exists|c: int| is_cut(q1, s, tb, duration_ns, c)) ==> qf == q1)
                &&& (forall|c: int| is_cut(q1, s, tb, duration_ns, c) ==> qf == spec_trimmed(q1, s, c))
                &&& (!has_second_key(q1, s) ==> qf == q1)
                &&& ((exists|c: int| is_cut(q1, s, tb, duration_ns, c)) ==> (forall|i: int|
                    is_first_of(qf, s, i) ==> qf[i].is_key))
                // the arriving stream's window is back within bounds
                &&& stream_within_window(qf, s, tb, duration_ns)
                // every other stream whose window was within bounds
                // stays within bounds, so the window invariant holds of
                // all streams across any run of calls
                &&& (forall|s2: int|
                    0 <= s2 < tbs@.len() && s2 != p.stream && stream_within_window(
                        old(self).queue@,
                        s2,
                        #[trigger] tbs@[s2],
                        duration_ns,
                    ) ==> stream_within_window(qf, s2, tbs@[s2], duration_ns))
            },
    {
        match self.mode {
            HistoryMode::Recording { pts_offset_ns } => {
                let off = scaled_offset(pts_offset_ns, tbs[p.stream]);
                let adjusted = Packet {
                    stream: p.stream,
                    pts: p.pts - off,
                    dts: match p.dts {
                        Some(d) => Some(d - off),
                        None => None,
                    },
                    is_key: p.is_key,
                    data: p.data,
                };
                let mut out: Vec<Packet<T>> = Vec::new();
                out.push(adjusted);
                out
            },
            HistoryMode::RecordingHistory { duration_ns } => {
                let s = p.stream;
                self.queue.push(p);
                let ghost q1 = self.queue@;
                proof {
                    assert forall|i: int, j: int|
                        0 <= i < j < q1.len() && q1[i].stream == q1[j].stream implies #[trigger] q1[i].pts
                        <= #[trigger] q1[j].pts by {
                        if j == q1.len() - 1 {
                            assert(q1[i] == old(self).queue@[i]);
                        }
                    }
                    assert(wf_queue(q1, tbs@.len() as int));
                }
                trim_stream(&mut self.queue, s, tbs[s], duration_ns);
                proof {
                    let si = s as int;
                    let tb = tbs@[si];
                    let qf = self.queue@;
                    if exists|c: int| is_cut(q1, si, tb, duration_ns, c) {
                        let c = choose|c: int| is_cut(q1, si, tb, duration_ns, c);
                        lemma_trimmed_wf(q1, si, c, tbs@.len() as int);
                        lemma_trimmed_starts_at_key(q1, si, tb, duration_ns, c);
                        lemma_trimmed_fixpoint(q1, si, tb, duration_ns, c);
                        assert(has_second_key(q1, si));
                    } else {
                        assert(qf == q1);
                        assert forall|i: int|
                            is_second_key(qf, si, i) implies !over_span(
                            qf,
                            si,
                            tb,
                            duration_ns,
                            i,
                        ) by {
                            if over_span(q1, si, tb, duration_ns, i) {
                                lemma_cut_exists(q1, si, tb, duration_ns, i);
                            }
                        }
                    }
                    assert forall|s2: int|
                        0 <= s2 < tbs@.len() && s2 != si && stream_within_window(
                            old(self).queue@,
                            s2,
                            #[trigger] tbs@[s2],
                            duration_ns,
                        ) implies stream_within_window(qf, s2, tbs@[s2], duration_ns) by {
                        lemma_push_preserves_stream(
                            old(self).queue@,
                            p,
                            s2,
                            tbs@[s2],
                            duration_ns,
                        );
                        if exists|c: int| is_cut(q1, si, tb, duration_ns, c) {
                            let c = choose|c: int| is_cut(q1, si, tb, duration_ns, c);
                            lemma_trimmed_preserves_stream(
                                q1,
                                si,
                                c,
                                s2,
                                tbs@[s2],
                                duration_ns,
                            );
                        }
                    }
                }
                Vec::new()
            },
        }
    }
}

/// The timestamp of position `i`, converted to nanoseconds in stream time
/// base `tb`; the candidate offset a stream contributes when the history
/// is committed.
pub open spec fn spec_offset_term<T>(q: Seq<Packet<T>>, tb: Rational, i: int) -> int {
    q[i].pts * 1_000_000_000 * (tb.num as int) / (tb.den as int)
}

/// The minimum offset candidate over streams `0..n`: each stream with a
/// queued packet contributes its oldest packet's timestamp in nanoseconds;
/// `None` when none of them has a packet.
pub open spec fn spec_offset_upto<T>(q: Seq<Packet<T>>, tbs: Seq<Rational>, n: int) -> Option<
    int,
>
    decreases n,
{
    if n <= 0 {
        None
    } else {
        let rest = spec_offset_upto(q, tbs, n - 1);
        let cur = if exists|i: int| #[trigger] is_first_of(q, n - 1, i) {
            let i = choose|i: int| #[trigger] is_first_of(q, n - 1, i);
            Some(spec_offset_term(q, tbs[n - 1], i))
        } else {
            None
        };
        match (rest, cur) {
            (Some(a), Some(b)) => if a <= b {
                Some(a)
            } else {
                Some(b)
            },
            (Some(a), None) => Some(a),
            (None, b) => b,
        }
    }
}

/// The offset fixed when the history is committed: the minimum over all
/// streams of the oldest queued packet's timestamp in nanoseconds, or
/// zero when nothing is queued. Subtracting it keeps every replayed
/// timestamp non-negative.
pub open spec fn spec_trigger_offset<T>(q: Seq<Packet<T>>, tbs: Seq<Rational>) -> int {
    match spec_offset_upto(q, tbs, tbs.len() as int) {
        Some(m) => m,
        None => 0,
    }
}

/// Every stream's offset candidate fits the packet timestamp type, and
/// every rebased decode timestamp stays representable: the machine limits
/// under which a commit cannot overflow.
pub open spec fn spec_commit_fits<T>(q: Seq<Packet<T>>, tbs: Seq<Rational>) -> bool {
    &&& forall|s: int, i: int|
        0 <= s < tbs.len() && is_first_of(q, s, i) ==> spec_offset_term(q, tbs[s], i) <= i64::MAX
    &&& forall|s: int|
        0 <= s < tbs.len() ==> spec_scaled_offset(spec_trigger_offset(q, tbs), #[trigger] tbs[s])
            <= i64::MAX
    &&& forall|i: int|
        0 <= i < q.len() ==> ((#[trigger] q[i]).dts matches Some(d) ==> d - spec_scaled_offset(
            spec_trigger_offset(q, tbs),
            tbs[q[i].stream as int],
        ) >= i64::MIN)
}

/// Every stream with a packet has an oldest one.
proof fn lemma_first_exists<T>(q: Seq<Packet<T>>, s: int, i: int)
    requires
        in_stream(q, s, i),
    ensures
        exists|f: int| #[trigger] is_first_of(q, s, f),
    decreases i,
{
    if forall|j: int| 0 <= j < i ==> q[j].stream != s {
        assert(is_first_of(q, s, i));
    } else {
        let j = choose|j: int| 0 <= j < i && q[j].stream == s;
        lemma_first_exists(q, s, j);
    }
}

/// A stream has at most one oldest packet.
proof fn lemma_first_unique<T>(q: Seq<Packet<T>>, s: int, f1: int, f2: int)
    requires
        is_first_of(q, s, f1),
        is_first_of(q, s, f2),
    ensures
        f1 == f2,
{
    if f1 < f2 {
        assert(q[f1].stream != s);
    } else if f2 < f1 {
        assert(q[f2].stream != s);
    }
}

/// Offset candidates are never negative while timestamps are not.
proof fn lemma_term_nonneg<T>(q: Seq<Packet<T>>, tb: Rational, i: int)
    requires
        0 <= i < q.len(),
        q[i].pts >= 0,
        tb.wf(),
    ensures
        spec_offset_term(q, tb, i) >= 0,
{
    vstd::arithmetic::mul::lemma_mul_nonnegative(q[i].pts * 1_000_000_000, tb.num as int);
    vstd::arithmetic::div_mod::lemma_div_is_ordered(
        0,
        q[i].pts * 1_000_000_000 * (tb.num as int),
        tb.den as int,
    );
}

/// The minimum over the first `n` streams is non-negative and below every
/// stream's own candidate.
proof fn lemma_offset_upto_le<T>(q: Seq<Packet<T>>, tbs: Seq<Rational>, s: int, f: int, n: int)
    requires
        wf_queue(q, tbs.len() as int),
        wf_tbs(tbs),
        0 <= s < n <= tbs.len(),
        is_first_of(q, s, f),
    ensures
        spec_offset_upto(q, tbs, n) matches Some(m) && m <= spec_offset_term(q, tbs[s], f),
    decreases n,
{
    if n - 1 == s {
        assert(is_first_of(q, n - 1, f));
        let chosen = choose|i: int| #[trigger] is_first_of(q, n - 1, i);
        lemma_first_unique(q, s, chosen, f);
    } else {
        lemma_offset_upto_le(q, tbs, s, f, n - 1);
        if exists|i: int| #[trigger] is_first_of(q, n - 1, i) {
            let chosen = choose|i: int| #[trigger] is_first_of(q, n - 1, i);
            lemma_term_nonneg(q, tbs[n - 1], chosen);
        }
    }
}

/// The commit offset never drives a replayed timestamp negative: for
/// every queued packet, the offset (the minimum over all streams of the
/// oldest packet's timestamp in nanoseconds) converts, in that packet's
/// own time base, to no more than the packet's timestamp. This is the
/// point of taking the minimum: the rebased file starts at zero without
/// any stream going negative.
pub proof fn lemma_commit_keeps_pts_nonneg<T>(q: Seq<Packet<T>>, tbs: Seq<Rational>, i: int)
    requires
        wf_queue(q, tbs.len() as int),
        wf_tbs(tbs),
        0 <= i < q.len(),
    ensures
        0 <= spec_scaled_offset(spec_trigger_offset(q, tbs), tbs[q[i].stream as int])
            <= q[i].pts,
{
    let s = q[i].stream as int;
    let tb = tbs[s];
    let num = tb.num as int;
    let den = tb.den as int;
    let p = q[i].pts as int;

    lemma_first_exists(q, s, i);
    let f = choose|f: int| #[trigger] is_first_of(q, s, f);
    lemma_offset_upto_le(q, tbs, s, f, tbs.len() as int);
    let offset = spec_trigger_offset(q, tbs);

    // the offset is below this stream's candidate, which is below this
    // packet's own timestamp in nanoseconds
    assert(f <= i);
    assert(q[f].pts <= p);
    vstd::arithmetic::mul::lemma_mul_inequality(q[f].pts * 1_000_000_000, p * 1_000_000_000, num);
    vstd::arithmetic::div_mod::lemma_div_is_ordered(
        q[f].pts * 1_000_000_000 * num,
        p * 1_000_000_000 * num,
        den,
    );
    assert(offset <= spec_offset_term(q, tb, i));

    // offset is non-negative
    lemma_term_nonneg(q, tb, f);
    assert(offset >= 0) by {
        lemma_offset_upto_nonneg(q, tbs, tbs.len() as int);
    }

    // converting back can only round down further
    let t = spec_offset_term(q, tb, i);
    vstd::arithmetic::div_mod::lemma_fundamental_div_mod(p * 1_000_000_000 * num, den);
    vstd::arithmetic::div_mod::lemma_mod_bound(p * 1_000_000_000 * num, den);
    assert(t * den <= p * 1_000_000_000 * num);
    vstd::arithmetic::mul::lemma_mul_inequality(offset, t, den);
    assert(offset * den <= t * den);
    vstd::arithmetic::div_mod::lemma_div_is_ordered(offset * den, p * 1_000_000_000 * num, num);
    assert((p * 1_000_000_000 * num) / num == p * 1_000_000_000) by {
        vstd::arithmetic::div_mod::lemma_div_multiples_vanish(p * 1_000_000_000, num);
        vstd::arithmetic::mul::lemma_mul_is_commutative(p * 1_000_000_000, num);
    }
    vstd::arithmetic::div_mod::lemma_div_is_ordered(
        offset * den / num,
        p * 1_000_000_000,
        1_000_000_000,
    );
    assert((p * 1_000_000_000) / 1_000_000_000 == p) by {
        vstd::arithmetic::div_mod::lemma_div_multiples_vanish(p, 1_000_000_000);
        vstd::arithmetic::mul::lemma_mul_is_commutative(p, 1_000_000_000);
    }
    vstd::arithmetic::mul::lemma_mul_nonnegative(offset, den);
    vstd::arithmetic::div_mod::lemma_div_is_ordered(0, offset * den, num);
    vstd::arithmetic::div_mod::lemma_div_is_ordered(0, offset * den / num, 1_000_000_000);
}

/// The minimum over the first `n` streams is non-negative.
proof fn lemma_offset_upto_nonneg<T>(q: Seq<Packet<T>>, tbs: Seq<Rational>, n: int)
    requires
        wf_queue(q, tbs.len() as int),
        wf_tbs(tbs),
        0 <= n <= tbs.len(),
    ensures
        spec_offset_upto(q, tbs, n) matches Some(m) ==> m >= 0,
    decreases n,
{
    if n > 0 {
        lemma_offset_upto_nonneg(q, tbs, n - 1);
        if exists|i: int| #[trigger] is_first_of(q, n - 1, i) {
            let chosen = choose|i: int| #[trigger] is_first_of(q, n - 1, i);
            lemma_term_nonneg(q, tbs[n - 1], chosen);
        }
    }
}

/// Finds the oldest queued packet of each stream and takes the minimum of
/// their timestamps in nanoseconds.
fn compute_trigger_offset<T>(queue: &Vec<Packet<T>>, tbs: &Vec<Rational>) -> (r: i64)
    requires
        wf_tbs(tbs@),
        wf_queue(queue@, tbs@.len() as int),
        forall|s: int, i: int|
            0 <= s < tbs@.len() && is_first_of(queue@, s, i) ==> spec_offset_term(
                queue@,
                tbs@[s],
                i,
            ) <= i64::MAX,
    ensures
        r == spec_trigger_offset(queue@, tbs@),
        r >= 0,
{
    let ghost q = queue@;
    let mut best: Option<i64> = None;
    let mut s: usize = 0;
    while s < tbs.len()
        invariant
            s <= tbs@.len(),
            wf_tbs(tbs@),
            wf_queue(q, tbs@.len() as int),
            q == queue@,
            forall|s0: int, i: int|
                0 <= s0 < tbs@.len() && is_first_of(q, s0, i) ==> spec_offset_term(
                    q,
                    tbs@[s0],
                    i,
                ) <= i64::MAX,
            match best {
                Some(b) => spec_offset_upto(q, tbs@, s as int) == Some(b as int) && b >= 0,
                None => spec_offset_upto(q, tbs@, s as int) is None,
            },
        decreases tbs@.len() - s,
    {
        // the oldest packet of stream s, if any
        let mut found: Option<usize> = None;
        let mut i: usize = 0;
        while i < queue.len()
            invariant_except_break
                found is None,
            invariant
                i <= q.len(),
                q == queue@,
                forall|j: int| 0 <= j < i ==> q[j].stream != s,
            ensures
                match found {
                    Some(f) => is_first_of(q, s as int, f as int),
                    None => forall|j: int| 0 <= j < q.len() ==> q[j].stream != s,
                },
            decreases q.len() - i,
        {
            if queue[i].stream == s {
                found = Some(i);
                break ;
            }
            i += 1;
        }
        if let Some(f) = found {
            proof {
                assert(is_first_of(q, s as int, f as int));
                assert forall|i2: int|
                    is_first_of(q, s as int, i2) implies i2 == f as int by {
                    if i2 < f {
                        assert(q[i2].stream != s);
                    } else if i2 > f {
                        assert(q[f as int].stream != s);
                    }
                }
                vstd::arithmetic::mul::lemma_mul_upper_bound(
                    queue@[f as int].pts as int,
                    i64::MAX as int,
                    1_000_000_000,
                    1_000_000_000,
                );
                vstd::arithmetic::mul::lemma_mul_upper_bound(
                    queue@[f as int].pts as int * 1_000_000_000,
                    i64::MAX as int * 1_000_000_000,
                    tbs@[s as int].num as int,
                    i32::MAX as int,
                );
            }
            let tb = tbs[s];
            let term_wide: u128 = (queue[f].pts as u128) * 1_000_000_000 * (tb.num as u128) / (
            tb.den as u128);
            let term = term_wide as i64;
            proof {
                assert(term == spec_offset_term(q, tbs@[s as int], f as int));
            }
            best = match best {
                Some(b) if b <= term => Some(b),
                _ => Some(term),
            };
        }
        s += 1;
    }
    match best {
        Some(b) => b,
        None => 0,
    }
}

impl<T> History<T> {
    /// Commits the history: the buffered packets are handed back for
    /// muxing, oldest first, with timestamps rebased so the earliest
    /// stream starts at zero, and the history permanently switches to
    /// writing through with that offset. Triggering again later changes
    /// nothing and returns nothing, so a second commit signal is a no-op.
    pub fn trigger(&mut self, tbs: &Vec<Rational>) -> (out: Vec<Packet<T>>)
        requires
            wf_tbs(tbs@),
            old(self).wf(tbs@.len() as int),
            old(self).mode matches HistoryMode::RecordingHistory { .. } ==> spec_commit_fits(
                old(self).queue@,
                tbs@,
            ),
        ensures
            final(self).wf(tbs@.len() as int),
            old(self).mode matches HistoryMode::Recording { .. } ==> *final(self) == *old(self)
                && out@ == Seq::<Packet<T>>::empty(),
            old(self).mode matches HistoryMode::RecordingHistory { .. } ==> {
                let q = old(self).queue@;
                let off_ns = spec_trigger_offset(q, tbs@);
                &&& final(self).mode == (HistoryMode::Recording { pts_offset_ns: off_ns as i64 })
                &&& final(self).queue@ == Seq::<Packet<T>>::empty()
                &&& out@.len() == q.len()
                &&& forall|i: int|
                    0 <= i < q.len() ==> out@[i] == spec_adjust(
                        #[trigger] q[i],
                        spec_scaled_offset(off_ns, tbs@[q[i].stream as int]),
                    )
                // rebasing at the minimum keeps every timestamp
                // non-negative
                &&& forall|i: int| 0 <= i < out@.len() ==> (#[trigger] out@[i]).pts >= 0
            },
    {
        match self.mode {
            HistoryMode::Recording { .. } => Vec::new(),
            HistoryMode::RecordingHistory { .. } => {
                let ghost q = self.queue@;
                let off_ns = compute_trigger_offset(&self.queue, tbs);
                self.mode = HistoryMode::Recording { pts_offset_ns: off_ns };
                let mut out: Vec<Packet<T>> = Vec::new();
                let ghost mut k: int = 0;
                while self.queue.len() > 0
                    invariant
                        0 <= k <= q.len(),
                        self.mode == (HistoryMode::Recording { pts_offset_ns: off_ns }),
                        self.queue@ == q.subrange(k, q.len() as int),
                        wf_tbs(tbs@),
                        wf_queue(q, tbs@.len() as int),
                        spec_commit_fits(q, tbs@),
                        off_ns == spec_trigger_offset(q, tbs@),
                        off_ns >= 0,
                        out@.len() == k,
                        forall|i: int|
                            0 <= i < k ==> out@[i] == spec_adjust(
                                #[trigger] q[i],
                                spec_scaled_offset(off_ns as int, tbs@[q[i].stream as int]),
                            ),
                    decreases self.queue@.len(),
                {
                    proof {
                        assert(self.queue@[0] == q[k]);
                    }
                    let p = self.queue.remove(0);
                    let off = scaled_offset(off_ns, tbs[p.stream]);
                    let adjusted = Packet {
                        stream: p.stream,
                        pts: p.pts - off,
                        dts: match p.dts {
                            Some(d) => Some(d - off),
                            None => None,
                        },
                        is_key: p.is_key,
                        data: p.data,
                    };
                    out.push(adjusted);
                    proof {
                        assert(self.queue@ =~= q.subrange(k + 1, q.len() as int));
                        k = k + 1;
                    }
                }
                proof {
                    assert forall|i: int|
                        0 <= i < out@.len() implies (#[trigger] out@[i]).pts >= 0 by {
                        lemma_commit_keeps_pts_nonneg(q, tbs@, i);
                    }
                }
                out
            },
        }
    }
}

} // verus!
