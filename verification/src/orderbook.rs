//! Top-of-book snapshots, the cross-venue comparator, and the market
//! tracker that feeds candidate dislocations into the alert gate.

use vstd::prelude::*;
use crate::alert_gate::{AlertGate, AppAlert};
use crate::price::MAX_PRICE;
use crate::text::str_eq;

verus! {

broadcast use vstd::string::group_string_axioms;

#[derive(Clone, Copy, Debug, PartialEq, Eq, Structural, Default)]
pub enum MarketType {
    #[default]
    Spot,
    Futures,
}

/// One venue's best bid and ask for one instrument, with fixed-point
/// prices (see `price`).  `mid2` is bid + ask: twice the mid, kept exact.
#[derive(Clone, Debug)]
pub struct MarketSnapshot {
    pub exchange: String,
    pub symbol: String,
    pub bid: u64,
    pub ask: u64,
    pub mid2: u64,
    pub timestamp: u64,
    pub market_type: MarketType,
}

impl MarketSnapshot {
    pub open spec fn wf(&self) -> bool {
        &&& 0 < self.bid
        &&& self.bid <= self.ask
        &&& self.ask <= MAX_PRICE
        &&& self.mid2 == self.bid + self.ask
        &&& vstd::utf8::is_ascii_chars(self.exchange@)
        &&& vstd::utf8::is_ascii_chars(self.symbol@)
    }

    /// Builds a snapshot; the price invariants hold at construction and
    /// a violating update is discarded by the caller, never corrected.
    pub fn new(
        exchange: &str,
        symbol: &str,
        bid: u64,
        ask: u64,
        timestamp: u64,
        market_type: MarketType,
    ) -> (r: MarketSnapshot)
        requires
            0 < bid,
            bid <= ask,
            ask <= MAX_PRICE,
            exchange.is_ascii(),
            symbol.is_ascii(),
        ensures
            r.wf(),
            r.exchange@ == exchange@,
            r.symbol@ == symbol@,
            r.bid == bid,
            r.ask == ask,
            r.mid2 == bid + ask,
            r.timestamp == timestamp,
            r.market_type == market_type,
    {
        MarketSnapshot {
            exchange: exchange.to_owned(),
            symbol: symbol.to_owned(),
            bid,
            ask,
            mid2: bid + ask,
            timestamp,
            market_type,
        }
    }

    /// An equal copy.  (The derived `Clone` carries no specification;
    /// this does.)
    pub fn dup(&self) -> (r: MarketSnapshot)
        ensures
            r == *self,
    {
        MarketSnapshot {
            exchange: self.exchange.clone(),
            symbol: self.symbol.clone(),
            bid: self.bid,
            ask: self.ask,
            mid2: self.mid2,
            timestamp: self.timestamp,
            market_type: self.market_type,
        }
    }
}

pub open spec fn abs_diff(a: int, b: int) -> int {
    if a >= b {
        a - b
    } else {
        b - a
    }
}

/// The dislocation between two mids in hundredths of a percent,
/// truncated: |mid_a - mid_b| / mid_a * 100, with the first venue of the
/// enumerated pair as the denominator.  Stated over `mid2` values; the
/// factor two cancels.
pub open spec fn diff_cp_math(mid2_a: int, mid2_b: int) -> int {
    abs_diff(mid2_a, mid2_b) * 10000 / mid2_a
}

/// The same, saturated into a `u64`.
pub open spec fn diff_cp_capped(mid2_a: int, mid2_b: int) -> int {
    if diff_cp_math(mid2_a, mid2_b) > u64::MAX as int {
        u64::MAX as int
    } else {
        diff_cp_math(mid2_a, mid2_b)
    }
}

/// Computes the dislocation between two mids, saturating.
pub fn diff_cp(mid2_a: u64, mid2_b: u64) -> (r: u64)
    requires
        mid2_a >= 1,
    ensures
        r as int == diff_cp_capped(mid2_a as int, mid2_b as int),
{
    let d: u64 = if mid2_a >= mid2_b {
        mid2_a - mid2_b
    } else {
        mid2_b - mid2_a
    };
    let num: u128 = d as u128 * 10000;
    let q: u128 = num / (mid2_a as u128);
    if q > u64::MAX as u128 {
        u64::MAX
    } else {
        q as u64
    }
}

/// A candidate alert: two snapshots of the same instrument on different
/// venues, and their dislocation.
#[derive(Clone, Debug)]
pub struct Dislocation {
    pub a: MarketSnapshot,
    pub b: MarketSnapshot,
    pub diff_cp: u64,
}

pub open spec fn mk_dislocation(a: MarketSnapshot, b: MarketSnapshot) -> Dislocation {
    Dislocation { a, b, diff_cp: diff_cp_capped(a.mid2 as int, b.mid2 as int) as u64 }
}

/// A pair qualifies when the venues differ and the dislocation reaches
/// the threshold.
pub open spec fn qualifying(a: MarketSnapshot, b: MarketSnapshot, threshold: u64) -> bool {
    a.exchange@ != b.exchange@ && diff_cp_capped(a.mid2 as int, b.mid2 as int) >= threshold
}

/// Candidates pairing `a` with `s[from..]`, in enumeration order.
pub open spec fn inner_cands(
    a: MarketSnapshot,
    s: Seq<MarketSnapshot>,
    from: int,
    threshold: u64,
) -> Seq<Dislocation>
    decreases s.len() - from,
{
    if from < 0 || from >= s.len() {
        Seq::empty()
    } else {
        let rest = inner_cands(a, s, from + 1, threshold);
        if qualifying(a, s[from], threshold) {
            seq![mk_dislocation(a, s[from])] + rest
        } else {
            rest
        }
    }
}

/// Candidates among all pairs (i, j), i < j, with i ranging over
/// `s[start..]`, in enumeration order.
pub open spec fn outer_cands(s: Seq<MarketSnapshot>, start: int, threshold: u64) -> Seq<
    Dislocation,
>
    decreases s.len() - start,
{
    if start < 0 || start >= s.len() {
        Seq::empty()
    } else {
        inner_cands(s[start], s, start + 1, threshold) + outer_cands(s, start + 1, threshold)
    }
}

/// All qualifying pairs of distinct venues, in enumeration order.
pub open spec fn candidates(s: Seq<MarketSnapshot>, threshold: u64) -> Seq<Dislocation> {
    outer_cands(s, 0, threshold)
}

/// The running maximum of a watermark over the emitted dislocations.
pub open spec fn watermark(w: u64, cands: Seq<Dislocation>) -> u64
    decreases cands.len(),
{
    if cands.len() == 0 {
        w
    } else {
        watermark(
            if cands[0].diff_cp > w {
                cands[0].diff_cp
            } else {
                w
            },
            cands.drop_first(),
        )
    }
}

proof fn lemma_watermark_push(w: u64, s: Seq<Dislocation>, d: Dislocation)
    ensures
        watermark(w, s.push(d)) == (if d.diff_cp > watermark(w, s) {
            d.diff_cp
        } else {
            watermark(w, s)
        }),
    decreases s.len(),
{
    if s.len() == 0 {
        assert(s.push(d)[0] == d);
        assert(s.push(d).drop_first() =~= Seq::<Dislocation>::empty());
        let w2 = if d.diff_cp > w {
            d.diff_cp
        } else {
            w
        };
        assert(watermark(w, s.push(d)) == watermark(w2, s.push(d).drop_first()));
        assert(watermark(w2, s.push(d).drop_first()) == w2);
        assert(watermark(w, s) == w);
    } else {
        assert(s.push(d)[0] == s[0]);
        assert(s.push(d).drop_first() =~= s.drop_first().push(d));
        let w2 = if s[0].diff_cp > w {
            s[0].diff_cp
        } else {
            w
        };
        lemma_watermark_push(w2, s.drop_first(), d);
        assert(watermark(w, s.push(d)) == watermark(w2, s.drop_first().push(d)));
        assert(watermark(w, s) == watermark(w2, s.drop_first()));
    }
}

/// Pairwise cross-venue comparison with a configurable threshold (in
/// hundredths of a percent) and an advisory watermark that never
/// suppresses an emission.
pub struct Comparator {
    pub threshold: u64,
    pub biggest_diff: u64,
}

impl Comparator {
    pub fn new(threshold: u64) -> (r: Comparator)
        ensures
            r.threshold == threshold,
            r.biggest_diff == 0,
    {
        Comparator { threshold, biggest_diff: 0 }
    }

    /// Emits every qualifying pair of distinct venues, in enumeration
    /// order, and advances the watermark over what was emitted.
    pub fn compare(&mut self, snapshots: &Vec<MarketSnapshot>) -> (out: Vec<Dislocation>)
        requires
            forall|i: int| 0 <= i < snapshots@.len() ==> (#[trigger] snapshots@[i]).wf(),
        ensures
            out@ == candidates(snapshots@, old(self).threshold),
            final(self).threshold == old(self).threshold,
            final(self).biggest_diff == watermark(old(self).biggest_diff, out@),
            forall|k: int|
                0 <= k < out@.len() ==> (#[trigger] out@[k]).a.wf() && out@[k].b.wf()
                    && out@[k].diff_cp >= old(self).threshold,
    {
        let ghost thr = self.threshold;
        let ghost w0 = self.biggest_diff;
        let n = snapshots.len();
        let mut out: Vec<Dislocation> = Vec::new();
        let mut i: usize = 0;
        while i < n
            invariant
                forall|k: int| 0 <= k < snapshots@.len() ==> (#[trigger] snapshots@[k]).wf(),
                n == snapshots@.len(),
                i <= n,
                thr == self.threshold,
                candidates(snapshots@, thr) =~= out@ + outer_cands(snapshots@, i as int, thr),
                self.biggest_diff == watermark(w0, out@),
                forall|k: int|
                    0 <= k < out@.len() ==> (#[trigger] out@[k]).a.wf() && out@[k].b.wf()
                        && out@[k].diff_cp >= thr,
            decreases n - i,
        {
            let mut j: usize = i + 1;
            while j < n
                invariant
                    forall|k: int| 0 <= k < snapshots@.len() ==> (#[trigger] snapshots@[k]).wf(),
                    n == snapshots@.len(),
                    i < n,
                    i < j <= n,
                    thr == self.threshold,
                    candidates(snapshots@, thr) =~= out@ + inner_cands(
                        snapshots@[i as int],
                        snapshots@,
                        j as int,
                        thr,
                    ) + outer_cands(snapshots@, i as int + 1, thr),
                    self.biggest_diff == watermark(w0, out@),
                    forall|k: int|
                        0 <= k < out@.len() ==> (#[trigger] out@[k]).a.wf() && out@[k].b.wf()
                            && out@[k].diff_cp >= thr,
                decreases n - j,
            {
                let a = &snapshots[i];
                let b = &snapshots[j];
                let ghost pre_out = out@;
                if !str_eq(a.exchange.as_str(), b.exchange.as_str()) {
                    let d = diff_cp(a.mid2, b.mid2);
                    if d >= self.threshold {
                        out.push(Dislocation { a: a.dup(), b: b.dup(), diff_cp: d });
                        proof {
                            assert(out@.last() == mk_dislocation(
                                snapshots@[i as int],
                                snapshots@[j as int],
                            ));
                            lemma_watermark_push(
                                w0,
                                pre_out,
                                mk_dislocation(snapshots@[i as int], snapshots@[j as int]),
                            );
                        }
                        if d > self.biggest_diff {
                            self.biggest_diff = d;
                        }
                        proof {
                            assert(qualifying(snapshots@[i as int], snapshots@[j as int], thr));
                            assert(out@ =~= pre_out.push(
                                mk_dislocation(snapshots@[i as int], snapshots@[j as int]),
                            ));
                            assert(candidates(snapshots@, thr) =~= out@ + inner_cands(
                                snapshots@[i as int],
                                snapshots@,
                                j as int + 1,
                                thr,
                            ) + outer_cands(snapshots@, i as int + 1, thr));
                        }
                    } else {
                        proof {
                            assert(!qualifying(snapshots@[i as int], snapshots@[j as int], thr));
                        }
                    }
                } else {
                    proof {
                        assert(!qualifying(snapshots@[i as int], snapshots@[j as int], thr));
                    }
                }
                j += 1;
            }
            i += 1;
        }
        proof {
            assert(outer_cands(snapshots@, n as int, thr) =~= Seq::<Dislocation>::empty());
            assert(candidates(snapshots@, thr) =~= out@);
        }
        out
    }
}

/// The venue table after an update: the snapshot replaces the entry with
/// the same venue tag, or is appended.
pub open spec fn upsert_venue(table: Seq<MarketSnapshot>, snap: MarketSnapshot) -> Seq<
    MarketSnapshot,
>
    decreases table.len(),
{
    if table.len() == 0 {
        seq![snap]
    } else if table[0].exchange@ == snap.exchange@ {
        seq![snap] + table.drop_first()
    } else {
        seq![table[0]] + upsert_venue(table.drop_first(), snap)
    }
}

/// The venue table stored for an instrument, scanning front to back.
pub open spec fn table_get(data: Seq<(String, Vec<MarketSnapshot>)>, sym: Seq<char>) -> Option<
    Seq<MarketSnapshot>,
>
    decreases data.len(),
{
    if data.len() == 0 {
        None
    } else if data[0].0@ == sym {
        Some(data[0].1@)
    } else {
        table_get(data.drop_first(), sym)
    }
}

/// A gate may move from `pre` to `post` by one `maybe_send` call per
/// candidate, in order.
pub open spec fn gate_steps(
    pre: AlertGate,
    post: AlertGate,
    cands: Seq<Dislocation>,
    now_ms: u64,
) -> bool
    decreases cands.len(),
{
    if cands.len() == 0 {
        post == pre
    } else {
        exists|mid: AlertGate, sent: bool|
            #[trigger] AlertGate::step_rel(
                pre,
                mid,
                cands[0].a.symbol@,
                cands[0].a.exchange@,
                cands[0].b.exchange@,
                cands[0].diff_cp,
                now_ms,
                sent,
            ) && gate_steps(mid, post, cands.drop_first(), now_ms)
    }
}

proof fn lemma_gate_steps_push(
    g0: AlertGate,
    g1: AlertGate,
    g2: AlertGate,
    s: Seq<Dislocation>,
    d: Dislocation,
    now_ms: u64,
    sent: bool,
)
    requires
        gate_steps(g0, g1, s, now_ms),
        AlertGate::step_rel(g1, g2, d.a.symbol@, d.a.exchange@, d.b.exchange@, d.diff_cp, now_ms, sent),
    ensures
        gate_steps(g0, g2, s.push(d), now_ms),
    decreases s.len(),
{
    if s.len() == 0 {
        assert(g1 == g0);
        assert(s.push(d)[0] == d);
        assert(s.push(d).drop_first() =~= Seq::<Dislocation>::empty());
        assert(gate_steps(g2, g2, s.push(d).drop_first(), now_ms));
        assert(AlertGate::step_rel(
            g0,
            g2,
            s.push(d)[0].a.symbol@,
            s.push(d)[0].a.exchange@,
            s.push(d)[0].b.exchange@,
            s.push(d)[0].diff_cp,
            now_ms,
            sent,
        ));
    } else {
        let (m, st): (AlertGate, bool) = choose|m: AlertGate, st: bool|
            #[trigger] AlertGate::step_rel(
                g0,
                m,
                s[0].a.symbol@,
                s[0].a.exchange@,
                s[0].b.exchange@,
                s[0].diff_cp,
                now_ms,
                st,
            ) && gate_steps(m, g1, s.drop_first(), now_ms);
        lemma_gate_steps_push(m, g1, g2, s.drop_first(), d, now_ms, sent);
        assert(s.push(d)[0] == s[0]);
        assert(s.push(d).drop_first() =~= s.drop_first().push(d));
        assert(AlertGate::step_rel(
            g0,
            m,
            s.push(d)[0].a.symbol@,
            s.push(d)[0].a.exchange@,
            s.push(d)[0].b.exchange@,
            s.push(d)[0].diff_cp,
            now_ms,
            st,
        ));
    }
}

/// How one tracker update takes the tracker from `pre` to `post`: a
/// rejected snapshot changes nothing; an accepted one rewrites exactly
/// this (instrument, venue) slot, and the comparator's candidates on the
/// instrument's new table drive the alert gate in order.
pub open spec fn update_rel(
    pre: MarketTracker,
    post: MarketTracker,
    exchange: Seq<char>,
    symbol: Seq<char>,
    bid: u64,
    ask: u64,
    market_type: MarketType,
    now_ms: u64,
) -> bool {
    &&& (!(0 < bid && bid <= ask && ask <= MAX_PRICE) ==> post == pre)
    &&& ((0 < bid && bid <= ask && ask <= MAX_PRICE) ==> exists|snap: MarketSnapshot|
        #![trigger snap.timestamp]
        {
            let table0 = match table_get(pre.data@, symbol) {
                Some(t) => t,
                None => Seq::empty(),
            };
            let table1 = upsert_venue(table0, snap);
            let cands = candidates(table1, pre.comparator.threshold);
            &&& snap.exchange@ == exchange
            &&& snap.symbol@ == symbol
            &&& snap.bid == bid
            &&& snap.ask == ask
            &&& snap.mid2 == bid + ask
            &&& snap.timestamp == now_ms
            &&& snap.market_type == market_type
            &&& table_get(post.data@, symbol) == Some(table1)
            &&& (forall|s2: Seq<char>|
                s2 != symbol ==> table_get(post.data@, s2) == table_get(pre.data@, s2))
            &&& gate_steps(pre.gate, post.gate, cands, now_ms)
            &&& post.comparator.biggest_diff == watermark(pre.comparator.biggest_diff, cands)
        })
}

/// Indexes the latest snapshot per (instrument, venue) and, on each
/// accepted update, drives the comparator and the alert gate.
pub struct MarketTracker {
    /// instrument -> latest snapshot per venue, insertion-ordered.
    pub data: Vec<(String, Vec<MarketSnapshot>)>,
    pub comparator: Comparator,
    pub gate: AlertGate,
}

impl MarketTracker {
    /// Instrument keys are ASCII and unique; each table holds
    /// well-formed snapshots of that instrument, one per venue.
    pub open spec fn data_wf(data: Seq<(String, Vec<MarketSnapshot>)>) -> bool {
        &&& forall|i: int|
            0 <= i < data.len() ==> vstd::utf8::is_ascii_chars(#[trigger] data[i].0@)
        &&& forall|i: int, j: int| 0 <= i < j < data.len() ==> data[i].0@ != data[j].0@
        &&& forall|i: int, k: int|
            0 <= i < data.len() && 0 <= k < data[i].1@.len() ==> (#[trigger] data[i].1@[k]).wf()
        &&& forall|i: int, k: int|
            0 <= i < data.len() && 0 <= k < data[i].1@.len() ==> (
            #[trigger] data[i].1@[k]).symbol@ == data[i].0@
        &&& forall|i: int, k: int, l: int|
            #![trigger data[i].1@[k], data[i].1@[l]]
            0 <= i < data.len() && 0 <= k < l < data[i].1@.len() ==> data[i].1@[k].exchange@
                != data[i].1@[l].exchange@
    }

    pub open spec fn wf(&self) -> bool {
        &&& self.gate.wf()
        &&& Self::data_wf(self.data@)
    }

    pub fn new(threshold: u64, gate: AlertGate) -> (r: MarketTracker)
        requires
            gate.wf(),
        ensures
            r.wf(),
            r.data@.len() == 0,
            r.comparator.threshold == threshold,
            r.comparator.biggest_diff == 0,
            r.gate == gate,
    {
        MarketTracker { data: Vec::new(), comparator: Comparator::new(threshold), gate }
    }

    /// Every snapshot the tracker holds was accepted with a positive bid
    /// and ask.
    pub proof fn lemma_snapshots_valid(&self)
        requires
            self.wf(),
        ensures
            forall|i: int, k: int|
                0 <= i < self.data@.len() && 0 <= k < self.data@[i].1@.len() ==> (
                #[trigger] self.data@[i].1@[k]).bid > 0 && self.data@[i].1@[k].ask > 0,
    {
    }

    /// Handles one top-of-book update: a snapshot with a non-positive or
    /// crossed price is discarded silently and nothing changes; an
    /// accepted snapshot overwrites this (instrument, venue) slot, the
    /// comparator emits all qualifying dislocations of the instrument's
    /// table, and each one is offered to the alert gate in order.
    pub fn update(
        &mut self,
        exchange: &str,
        symbol: &str,
        bid: u64,
        ask: u64,
        market_type: MarketType,
        now_ms: u64,
        tx: &tokio::sync::mpsc::Sender<AppAlert>,
    )
        requires
            old(self).wf(),
            exchange.is_ascii(),
            symbol.is_ascii(),
        ensures
            final(self).wf(),
            final(self).comparator.threshold == old(self).comparator.threshold,
            update_rel(
                *old(self),
                *final(self),
                exchange@,
                symbol@,
                bid,
                ask,
                market_type,
                now_ms,
            ),
    {
        if bid == 0 || bid > ask || ask > MAX_PRICE {
            return ;
        }
        let snap = MarketSnapshot::new(exchange, symbol, bid, ask, now_ms, market_type);
        let ghost snapv = snap;
        let ghost data0 = self.data@;
        let ghost gate0 = self.gate;
        let ghost thr = self.comparator.threshold;
        let ghost w0 = self.comparator.biggest_diff;

        // find the instrument's entry
        let n = self.data.len();
        let mut idx: usize = 0;
        while idx < n && !str_eq(self.data[idx].0.as_str(), symbol)
            invariant
                self.wf(),
                symbol.is_ascii(),
                n == self.data@.len(),
                idx <= n,
                data0 == self.data@,
                forall|j: int| 0 <= j < idx ==> self.data@[j].0@ != symbol@,
            decreases n - idx,
        {
            idx += 1;
        }

        let ghost table0 = match table_get(data0, symbol@) {
            Some(t) => t,
            None => Seq::<MarketSnapshot>::empty(),
        };
        let cands: Vec<Dislocation> = if idx == n {
            // new instrument
            proof {
                lemma_table_no_sym(data0, symbol@);
            }
            let mut table: Vec<MarketSnapshot> = Vec::new();
            table.push(snap);
            proof {
                assert(table@ =~= upsert_venue(table0, snapv));
            }
            let c = self.comparator.compare(&table);
            self.data.push((symbol.to_owned(), table));
            proof {
                lemma_table_append(data0, self.data@, symbol@);
                assert(table_get(self.data@, symbol@) == Some(upsert_venue(table0, snapv)));
                let d1 = self.data@;
                assert forall|i: int|
                    0 <= i < d1.len() implies vstd::utf8::is_ascii_chars(
                    #[trigger] d1[i].0@,
                ) by {
                    if i < d1.len() - 1 {
                        assert(d1[i] == data0[i]);
                    }
                }
                assert forall|i: int, j: int| 0 <= i < j < d1.len() implies d1[i].0@
                    != d1[j].0@ by {
                    if j < d1.len() - 1 {
                        assert(d1[i] == data0[i]);
                        assert(d1[j] == data0[j]);
                    } else {
                        assert(d1[i] == data0[i]);
                        assert(d1[j].0@ == symbol@);
                    }
                }
                assert forall|i: int, k: int|
                    0 <= i < d1.len() && 0 <= k < d1[i].1@.len() implies (
                #[trigger] d1[i].1@[k]).wf() && d1[i].1@[k].symbol@ == d1[i].0@ by {
                    if i < d1.len() - 1 {
                        assert(d1[i] == data0[i]);
                    } else {
                        assert(d1[i].1@ =~= seq![snapv]);
                    }
                }
                assert forall|i: int, k: int, l: int|
                    #![trigger d1[i].1@[k], d1[i].1@[l]]
                    0 <= i < d1.len() && 0 <= k < l < d1[i].1@.len() implies d1[i].1@[k].exchange@
                    != d1[i].1@[l].exchange@ by {
                    if i < d1.len() - 1 {
                        assert(d1[i] == data0[i]);
                    } else {
                        assert(d1[i].1@.len() == 1);
                    }
                }
                assert(Self::data_wf(d1));
            }
            c
        } else {
            proof {
                lemma_table_found(data0, idx as int);
            }
            let mut entry = self.data.remove(idx);
            let ghost tab0 = entry.1@;
            proof {
                assert(tab0 == table0);
            }
            // upsert the venue slot
            let m = entry.1.len();
            let mut j: usize = 0;
            while j < m && !str_eq(entry.1[j].exchange.as_str(), exchange)
                invariant
                    exchange.is_ascii(),
                    m == entry.1@.len(),
                    j <= m,
                    tab0 == entry.1@,
                    forall|l: int| 0 <= l < entry.1@.len() ==> (#[trigger] entry.1@[l]).wf(),
                    forall|l: int| 0 <= l < j ==> entry.1@[l].exchange@ != exchange@,
                decreases m - j,
            {
                j += 1;
            }
            if j == m {
                entry.1.push(snap);
                proof {
                    lemma_upsert_push(tab0, snapv);
                    assert(entry.1@ =~= tab0.push(snapv));
                }
            } else {
                entry.1[j] = snap;
                proof {
                    lemma_upsert_at(tab0, entry.1@, j as int, snapv);
                }
            }
            proof {
                assert forall|l: int| 0 <= l < entry.1@.len() implies (
                #[trigger] entry.1@[l]).wf() && entry.1@[l].symbol@ == symbol@ by {
                    if j < m {
                        if l != j {
                            assert(entry.1@[l] == tab0[l]);
                        }
                    } else {
                        if l < m {
                            assert(entry.1@[l] == tab0[l]);
                        }
                    }
                }
                assert forall|k: int, l: int|
                    #![trigger entry.1@[k], entry.1@[l]]
                    0 <= k < l < entry.1@.len() implies entry.1@[k].exchange@
                    != entry.1@[l].exchange@ by {
                    if j < m {
                        if k != j {
                            assert(entry.1@[k] == tab0[k]);
                        }
                        if l != j {
                            assert(entry.1@[l] == tab0[l]);
                        }
                        if k == j {
                            assert(entry.1@[k].exchange@ == tab0[j as int].exchange@);
                        }
                        if l == j {
                            assert(entry.1@[l].exchange@ == tab0[j as int].exchange@);
                        }
                    } else {
                        if k < m {
                            assert(entry.1@[k] == tab0[k]);
                        }
                        if l < m {
                            assert(entry.1@[l] == tab0[l]);
                        }
                    }
                }
            }
            let c = self.comparator.compare(&entry.1);
            self.data.insert(idx, entry);
            proof {
                assert(self.data@ =~= data0.update(idx as int, self.data@[idx as int]));
                lemma_table_update(data0, self.data@, idx as int);
                assert(table_get(self.data@, symbol@) == Some(upsert_venue(table0, snapv)));
                let d1 = self.data@;
                assert forall|i: int|
                    0 <= i < d1.len() implies vstd::utf8::is_ascii_chars(
                    #[trigger] d1[i].0@,
                ) by {
                    assert(d1[i].0@ == data0[i].0@);
                }
                assert forall|i2: int, j2: int| 0 <= i2 < j2 < d1.len() implies d1[i2].0@
                    != d1[j2].0@ by {
                    assert(d1[i2].0@ == data0[i2].0@);
                    assert(d1[j2].0@ == data0[j2].0@);
                }
                assert forall|i: int, k: int|
                    0 <= i < d1.len() && 0 <= k < d1[i].1@.len() implies (
                #[trigger] d1[i].1@[k]).wf() && d1[i].1@[k].symbol@ == d1[i].0@ by {
                    if i != idx as int {
                        assert(d1[i] == data0[i]);
                    }
                }
                assert forall|i: int, k: int, l: int|
                    #![trigger d1[i].1@[k], d1[i].1@[l]]
                    0 <= i < d1.len() && 0 <= k < l < d1[i].1@.len() implies d1[i].1@[k].exchange@
                    != d1[i].1@[l].exchange@ by {
                    if i != idx as int {
                        assert(d1[i] == data0[i]);
                    }
                }
                assert(Self::data_wf(d1));
            }
            c
        };

        let ghost table1 = upsert_venue(table0, snapv);
        let ghost data1 = self.data@;
        let ghost wm1 = self.comparator.biggest_diff;

        // offer each candidate to the alert gate, in order
        let mut k: usize = 0;
        proof {
            assert(cands@.take(0) =~= Seq::<Dislocation>::empty());
            assert(gate_steps(gate0, self.gate, cands@.take(0), now_ms));
        }
        while k < cands.len()
            invariant
                self.gate.wf(),
                Self::data_wf(self.data@),
                k <= cands@.len(),
                self.data@ == data1,
                self.comparator.threshold == thr,
                self.comparator.biggest_diff == wm1,
                gate_steps(gate0, self.gate, cands@.take(k as int), now_ms),
                forall|l: int|
                    0 <= l < cands@.len() ==> (#[trigger] cands@[l]).a.wf() && cands@[l].b.wf(),
            decreases cands@.len() - k,
        {
            let c = &cands[k];
            let ghost gpre = self.gate;
            let sent = self.gate.maybe_send(
                tx,
                c.a.symbol.as_str(),
                c.a.exchange.as_str(),
                c.b.exchange.as_str(),
                c.a.bid,
                c.a.ask,
                c.a.mid2,
                c.b.bid,
                c.b.ask,
                c.b.mid2,
                c.diff_cp,
                now_ms,
            );
            proof {
                lemma_gate_steps_push(
                    gate0,
                    gpre,
                    self.gate,
                    cands@.take(k as int),
                    cands@[k as int],
                    now_ms,
                    sent,
                );
                assert(cands@.take(k as int + 1) =~= cands@.take(k as int).push(cands@[k as int]));
            }
            k += 1;
        }
        proof {
            assert(cands@.take(cands@.len() as int) =~= cands@);
            assert(gate_steps(gate0, self.gate, candidates(upsert_venue(table0, snapv), thr), now_ms));
            assert(table_get(data1, symbol@) == Some(upsert_venue(table0, snapv)));
            assert(forall|s2: Seq<char>|
                s2 != symbol@ ==> table_get(data1, s2) == table_get(data0, s2));
        }
    }
}

/// The first match of a symbol determines its table.
proof fn lemma_table_found(data: Seq<(String, Vec<MarketSnapshot>)>, i: int)
    requires
        0 <= i < data.len(),
        forall|j: int| 0 <= j < i ==> data[j].0@ != data[i].0@,
    ensures
        table_get(data, data[i].0@) == Some(data[i].1@),
    decreases i,
{
    if i > 0 {
        assert forall|j: int| 0 <= j < i - 1 implies #[trigger] data.drop_first()[j].0@
            != data.drop_first()[i - 1].0@ by {
            assert(data.drop_first()[j] == data[j + 1]);
            assert(data.drop_first()[i - 1] == data[i]);
        }
        lemma_table_found(data.drop_first(), i - 1);
        assert(data.drop_first()[i - 1] == data[i]);
    }
}

/// A symbol that the scan never matched has no table.
proof fn lemma_table_no_sym(data: Seq<(String, Vec<MarketSnapshot>)>, sym: Seq<char>)
    requires
        forall|j: int| 0 <= j < data.len() ==> data[j].0@ != sym,
    ensures
        table_get(data, sym) is None,
    decreases data.len(),
{
    if data.len() > 0 {
        assert(forall|j: int|
            0 <= j < data.drop_first().len() ==> data.drop_first()[j] == data[j + 1]);
        lemma_table_no_sym(data.drop_first(), sym);
    }
}

/// Appending an entry for a fresh symbol adds exactly that symbol.
proof fn lemma_table_append(
    pre: Seq<(String, Vec<MarketSnapshot>)>,
    post: Seq<(String, Vec<MarketSnapshot>)>,
    sym: Seq<char>,
)
    requires
        post.len() == pre.len() + 1,
        forall|j: int| 0 <= j < pre.len() ==> post[j] == pre[j],
        post.last().0@ == sym,
        forall|j: int| 0 <= j < pre.len() ==> pre[j].0@ != sym,
    ensures
        table_get(post, sym) == Some(post.last().1@),
        forall|s2: Seq<char>| s2 != sym ==> table_get(post, s2) == table_get(pre, s2),
    decreases pre.len(),
{
    if pre.len() == 0 {
        assert(post[0] == post.last());
        assert forall|s2: Seq<char>| s2 != sym implies table_get(post, s2) == table_get(
            pre,
            s2,
        ) by {
            assert(post.drop_first() =~= Seq::<(String, Vec<MarketSnapshot>)>::empty());
            assert(table_get(post, s2) == table_get(post.drop_first(), s2));
        }
    } else {
        assert(post[0] == pre[0]);
        assert(post.drop_first().len() == pre.drop_first().len() + 1);
        assert forall|j: int| 0 <= j < pre.drop_first().len() implies #[trigger] (post.drop_first()[j]) == pre.drop_first()[j] by {
            assert(post.drop_first()[j] == post[j + 1]);
            assert(pre.drop_first()[j] == pre[j + 1]);
        }
        assert(post.drop_first().last() == post.last());
        assert forall|j: int| 0 <= j < pre.drop_first().len() implies pre.drop_first()[j].0@
            != sym by {
            assert(pre.drop_first()[j] == pre[j + 1]);
        }
        lemma_table_append(pre.drop_first(), post.drop_first(), sym);
        assert(table_get(post, sym) == table_get(post.drop_first(), sym));
        assert forall|s2: Seq<char>| s2 != sym implies table_get(post, s2) == table_get(
            pre,
            s2,
        ) by {
            if s2 != pre[0].0@ {
                assert(table_get(post, s2) == table_get(post.drop_first(), s2));
                assert(table_get(pre, s2) == table_get(pre.drop_first(), s2));
            }
        }
    }
}

/// Replacing the entry at the first match of its symbol rewrites exactly
/// that symbol's table.
proof fn lemma_table_update(
    pre: Seq<(String, Vec<MarketSnapshot>)>,
    post: Seq<(String, Vec<MarketSnapshot>)>,
    i: int,
)
    requires
        0 <= i < pre.len(),
        post.len() == pre.len(),
        forall|j: int| 0 <= j < pre.len() && j != i ==> post[j] == pre[j],
        post[i].0@ == pre[i].0@,
        forall|j: int| 0 <= j < i ==> pre[j].0@ != pre[i].0@,
    ensures
        table_get(post, pre[i].0@) == Some(post[i].1@),
        forall|s2: Seq<char>| s2 != pre[i].0@ ==> table_get(post, s2) == table_get(pre, s2),
    decreases i,
{
    if i == 0 {
        assert(table_get(post, pre[0].0@) == Some(post[0].1@));
        assert forall|s2: Seq<char>| s2 != pre[0].0@ implies table_get(post, s2) == table_get(
            pre,
            s2,
        ) by {
            assert(post.drop_first() =~= pre.drop_first());
            assert(table_get(post, s2) == table_get(post.drop_first(), s2));
            assert(table_get(pre, s2) == table_get(pre.drop_first(), s2));
        }
    } else {
        let pt = pre.drop_first();
        let qt = post.drop_first();
        assert forall|j: int| 0 <= j < pt.len() && j != i - 1 implies #[trigger] qt[j]
            == pt[j] by {
            assert(qt[j] == post[j + 1]);
            assert(pt[j] == pre[j + 1]);
        }
        assert(qt[i - 1] == post[i]);
        assert(pt[i - 1] == pre[i]);
        assert forall|j: int| 0 <= j < i - 1 implies #[trigger] pt[j].0@ != pt[i - 1].0@ by {
            assert(pt[j] == pre[j + 1]);
        }
        lemma_table_update(pt, qt, i - 1);
        assert(post[0] == pre[0]);
        assert(table_get(post, pre[i].0@) == table_get(qt, pre[i].0@));
        assert forall|s2: Seq<char>| s2 != pre[i].0@ implies table_get(post, s2) == table_get(
            pre,
            s2,
        ) by {
            if s2 != pre[0].0@ {
                assert(table_get(post, s2) == table_get(qt, s2));
                assert(table_get(pre, s2) == table_get(pt, s2));
            }
        }
    }
}

/// In-place replacement at the first venue match realises `upsert_venue`.
proof fn lemma_upsert_at(
    pre: Seq<MarketSnapshot>,
    post: Seq<MarketSnapshot>,
    j: int,
    snap: MarketSnapshot,
)
    requires
        0 <= j < pre.len(),
        post.len() == pre.len(),
        forall|l: int| 0 <= l < pre.len() && l != j ==> post[l] == pre[l],
        post[j] == snap,
        pre[j].exchange@ == snap.exchange@,
        forall|l: int| 0 <= l < j ==> pre[l].exchange@ != snap.exchange@,
    ensures
        post == upsert_venue(pre, snap),
    decreases j,
{
    if j == 0 {
        assert(post =~= seq![snap] + pre.drop_first());
    } else {
        let pt = pre.drop_first();
        let qt = post.drop_first();
        assert forall|l: int| 0 <= l < pt.len() && l != j - 1 implies #[trigger] qt[l]
            == pt[l] by {
            assert(qt[l] == post[l + 1]);
            assert(pt[l] == pre[l + 1]);
        }
        assert(qt[j - 1] == post[j]);
        assert(pt[j - 1] == pre[j]);
        assert forall|l: int| 0 <= l < j - 1 implies #[trigger] pt[l].exchange@
            != snap.exchange@ by {
            assert(pt[l] == pre[l + 1]);
        }
        lemma_upsert_at(pt, qt, j - 1, snap);
        assert(post[0] == pre[0]);
        assert(pre[0].exchange@ != snap.exchange@);
        assert(post =~= seq![pre[0]] + qt);
    }
}

/// Appending a snapshot for an absent venue realises `upsert_venue`.
proof fn lemma_upsert_push(pre: Seq<MarketSnapshot>, snap: MarketSnapshot)
    requires
        forall|l: int| 0 <= l < pre.len() ==> pre[l].exchange@ != snap.exchange@,
    ensures
        pre.push(snap) == upsert_venue(pre, snap),
    decreases pre.len(),
{
    if pre.len() == 0 {
        assert(pre.push(snap) =~= seq![snap]);
    } else {
        assert forall|l: int| 0 <= l < pre.drop_first().len() implies #[trigger] (pre.drop_first()[l]).exchange@ != snap.exchange@ by {
            assert(pre.drop_first()[l] == pre[l + 1]);
        }
        lemma_upsert_push(pre.drop_first(), snap);
        assert(pre.push(snap).drop_first() =~= pre.drop_first().push(snap));
        assert(pre.push(snap) =~= seq![pre[0]] + pre.drop_first().push(snap));
    }
}

} // verus!
