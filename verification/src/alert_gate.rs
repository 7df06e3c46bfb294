//! Rate-limited, deduplicated alert gating.
//!
//! An alert passes three guards in order: a minimum dislocation, a
//! re-alert delta against the last notified value for the same pair key,
//! and a global cooldown.  Only an alert that was actually enqueued into
//! the notification mailbox updates gate state.

use vstd::prelude::*;
use crate::text::{lex_le, str_eq, str_le, to_upper_ascii, upper_chars};

verus! {

broadcast use vstd::string::group_string_axioms;

/// Arbitrage alert payload handed to the notification mailbox.
/// Prices are fixed-point (see `price`); `mid2_*` is bid + ask, twice the
/// mid, kept exact; `diff_cp` is the dislocation in hundredths of a percent.
#[derive(Clone, Debug)]
pub struct AppAlert {
    pub symbol: String,
    pub exchange_a: String,
    pub exchange_b: String,
    pub bid_a: u64,
    pub ask_a: u64,
    pub mid2_a: u64,
    pub bid_b: u64,
    pub ask_b: u64,
    pub mid2_b: u64,
    pub diff_cp: u64,
}

/// Declares tokio's bounded mpsc `Sender` so it can stand in signatures;
/// the crate sees nothing of its inside.
#[verifier::external_type_specification]
#[verifier::external_body]
#[verifier::reject_recursive_types(T)]
pub struct ExSender<T>(tokio::sync::mpsc::Sender<T>);

/// Relies on tokio's bounded mpsc `Sender::try_send`: without blocking it
/// either enqueues the message (`Ok`) or rejects it because the channel
/// is full or closed.  Whether it succeeds depends on channel state, so
/// nothing is promised about the result.
#[verifier::external_body]
fn try_send_alert(tx: &tokio::sync::mpsc::Sender<AppAlert>, alert: AppAlert) -> (enqueued: bool) {
    tx.try_send(alert).is_ok()
}

/// Builds the alert payload offered to the mailbox, field for field from
/// the values the guards were evaluated on.
pub fn make_alert(
    symbol: &str,
    exchange_a: &str,
    exchange_b: &str,
    bid_a: u64,
    ask_a: u64,
    mid2_a: u64,
    bid_b: u64,
    ask_b: u64,
    mid2_b: u64,
    diff_cp: u64,
) -> (a: AppAlert)
    ensures
        a.symbol@ == symbol@,
        a.exchange_a@ == exchange_a@,
        a.exchange_b@ == exchange_b@,
        a.bid_a == bid_a,
        a.ask_a == ask_a,
        a.mid2_a == mid2_a,
        a.bid_b == bid_b,
        a.ask_b == ask_b,
        a.mid2_b == mid2_b,
        a.diff_cp == diff_cp,
{
    AppAlert {
        symbol: symbol.to_owned(),
        exchange_a: exchange_a.to_owned(),
        exchange_b: exchange_b.to_owned(),
        bid_a,
        ask_a,
        mid2_a,
        bid_b,
        ask_b,
        mid2_b,
        diff_cp,
    }
}

/// The normalised deduplication key: upper-cased symbol and the two venue
/// tags in lexicographic order, separated by `|`.
pub open spec fn pair_key_spec(sym: Seq<char>, a: Seq<char>, b: Seq<char>) -> Seq<char> {
    let lo = if lex_le(a, b) {
        a
    } else {
        b
    };
    let hi = if lex_le(a, b) {
        b
    } else {
        a
    };
    upper_chars(sym) + seq!['|'] + lo + seq!['|'] + hi
}

/// Builds the normalised pair key; symmetric in the two venue tags.
pub fn pair_key(symbol: &str, exchange_a: &str, exchange_b: &str) -> (r: String)
    requires
        symbol.is_ascii(),
        exchange_a.is_ascii(),
        exchange_b.is_ascii(),
    ensures
        r@ == pair_key_spec(symbol@, exchange_a@, exchange_b@),
{
    let first = str_le(exchange_a, exchange_b);
    let lo = if first {
        exchange_a
    } else {
        exchange_b
    };
    let hi = if first {
        exchange_b
    } else {
        exchange_a
    };
    let mut r = to_upper_ascii(symbol);
    r.append("|");
    r.append(lo);
    r.append("|");
    r.append(hi);
    proof {
        reveal_strlit("|");
        assert("|"@ =~= seq!['|']);
        assert(r@ =~= pair_key_spec(symbol@, exchange_a@, exchange_b@));
    }
    r
}

/// A pair key built from ASCII parts is ASCII.
pub proof fn lemma_pair_key_ascii(sym: Seq<char>, a: Seq<char>, b: Seq<char>)
    requires
        vstd::utf8::is_ascii_chars(sym),
        vstd::utf8::is_ascii_chars(a),
        vstd::utf8::is_ascii_chars(b),
    ensures
        vstd::utf8::is_ascii_chars(pair_key_spec(sym, a, b)),
{
    crate::text::lemma_upper_chars_ascii(sym);
    let key = pair_key_spec(sym, a, b);
    assert(('|' as u32) == 124);
    assert forall|i: int| 0 <= i < key.len() implies '\0' <= #[trigger] key[i] <= '\u{7f}' by {
        let u = upper_chars(sym);
        let lo = if lex_le(a, b) {
            a
        } else {
            b
        };
        let hi = if lex_le(a, b) {
            b
        } else {
            a
        };
        assert(key == u + seq!['|'] + lo + seq!['|'] + hi);
        if i < u.len() {
            assert(key[i] == u[i]);
        } else if i == u.len() {
            assert(key[i] == '|');
        } else if i < u.len() + 1 + lo.len() {
            assert(key[i] == lo[i - u.len() - 1]);
        } else if i == u.len() + 1 + lo.len() {
            assert(key[i] == '|');
        } else {
            assert(key[i] == hi[i - u.len() - lo.len() - 2]);
        }
    }
}

/// Swapping the venue order leaves the pair key unchanged.
pub proof fn lemma_pair_key_symmetric(sym: Seq<char>, a: Seq<char>, b: Seq<char>)
    ensures
        pair_key_spec(sym, a, b) == pair_key_spec(sym, b, a),
{
    crate::text::lemma_lex_le_total(a, b);
    if lex_le(a, b) && lex_le(b, a) {
        crate::text::lemma_lex_le_antisymmetric(a, b);
    }
}

/// The last notified value for `key` in an association list, scanning
/// front to back.
pub open spec fn assoc_get(s: Seq<(String, u64)>, key: Seq<char>) -> Option<u64>
    decreases s.len(),
{
    if s.len() == 0 {
        None
    } else if s[0].0@ == key {
        Some(s[0].1)
    } else {
        assoc_get(s.drop_first(), key)
    }
}

/// The re-alert delta guard: with no prior notification the alert may
/// pass; otherwise it must exceed the prior value by at least `delta`.
pub open spec fn delta_ok(prev: Option<u64>, diff_cp: u64, delta: u64) -> bool {
    match prev {
        None => true,
        Some(p) => diff_cp as int >= p as int + delta as int,
    }
}

/// The global cooldown guard.
pub open spec fn cooldown_ok(last_send: Option<u64>, now_ms: u64, cooldown_ms: u64) -> bool {
    match last_send {
        None => true,
        Some(t) => now_ms as int >= t as int + cooldown_ms as int,
    }
}

pub struct AlertGate {
    /// Last notified dislocation per pair key.
    pub last_notified: Vec<(String, u64)>,
    /// Timestamp (ms) of the last successful enqueue, across all keys.
    pub last_send: Option<u64>,
    /// Guard 1: minimum dislocation, in hundredths of a percent.
    pub min_diff: u64,
    /// Guard 2: required jump over the last notified value, in
    /// hundredths of a percent.
    pub re_alert_delta: u64,
    /// Guard 3: minimum spacing of two sends, in milliseconds.
    pub cooldown_ms: u64,
}

impl AlertGate {
    /// Keys are ASCII and pairwise distinct, so the association list
    /// behaves as a map.
    pub open spec fn wf(&self) -> bool {
        &&& forall|i: int|
            0 <= i < self.last_notified@.len() ==> vstd::utf8::is_ascii_chars(
                #[trigger] self.last_notified@[i].0@,
            )
        &&& forall|i: int, j: int|
            0 <= i < j < self.last_notified@.len() ==> self.last_notified@[i].0@
                != self.last_notified@[j].0@
    }

    /// The map view: last notified value per pair key.
    pub open spec fn notified(&self, key: Seq<char>) -> Option<u64> {
        assoc_get(self.last_notified@, key)
    }

    pub open spec fn last_send_time(&self) -> Option<u64> {
        self.last_send
    }

    /// All three guards, in the order they are applied.
    pub open spec fn guards_pass(
        &self,
        sym: Seq<char>,
        ea: Seq<char>,
        eb: Seq<char>,
        diff_cp: u64,
        now_ms: u64,
    ) -> bool {
        &&& diff_cp >= self.min_diff
        &&& delta_ok(self.notified(pair_key_spec(sym, ea, eb)), diff_cp, self.re_alert_delta)
        &&& cooldown_ok(self.last_send, now_ms, self.cooldown_ms)
    }

    /// How one `maybe_send` call may take a gate from `pre` to `post`.
    pub open spec fn step_rel(
        pre: AlertGate,
        post: AlertGate,
        sym: Seq<char>,
        ea: Seq<char>,
        eb: Seq<char>,
        diff_cp: u64,
        now_ms: u64,
        sent: bool,
    ) -> bool {
        let key = pair_key_spec(sym, ea, eb);
        &&& post.min_diff == pre.min_diff
        &&& post.re_alert_delta == pre.re_alert_delta
        &&& post.cooldown_ms == pre.cooldown_ms
        &&& (sent ==> pre.guards_pass(sym, ea, eb, diff_cp, now_ms))
        &&& (!sent ==> (forall|k: Seq<char>| post.notified(k) == pre.notified(k))
            && post.last_send == pre.last_send)
        &&& (sent ==> (forall|k: Seq<char>|
            post.notified(k) == if k == key {
                Some(diff_cp)
            } else {
                pre.notified(k)
            }) && post.last_send == Some(now_ms))
    }

    pub fn new(min_diff: u64, re_alert_delta: u64, cooldown_secs: u64) -> (r: AlertGate)
        requires
            cooldown_secs <= 0xFFFF_FFFF,
        ensures
            r.wf(),
            r.min_diff == min_diff,
            r.re_alert_delta == re_alert_delta,
            r.cooldown_ms == cooldown_secs * 1000,
            r.last_send_time() is None,
            forall|k: Seq<char>| r.notified(k) is None,
    {
        AlertGate {
            last_notified: Vec::new(),
            last_send: None,
            min_diff,
            re_alert_delta,
            cooldown_ms: cooldown_secs * 1000,
        }
    }

    /// Looks up the last notified value for `key`.
    fn lookup(&self, key: &str) -> (r: Option<u64>)
        requires
            self.wf(),
            key.is_ascii(),
        ensures
            r == self.notified(key@),
    {
        let n = self.last_notified.len();
        let mut i: usize = 0;
        proof {
            assert(self.last_notified@.skip(0) =~= self.last_notified@);
        }
        while i < n
            invariant
                self.wf(),
                key.is_ascii(),
                i <= n == self.last_notified@.len(),
                assoc_get(self.last_notified@.skip(i as int), key@) == self.notified(key@),
                forall|j: int| 0 <= j < i ==> self.last_notified@[j].0@ != key@,
            decreases n - i,
        {
            let entry_key: &String = &self.last_notified[i].0;
            if str_eq(entry_key.as_str(), key) {
                proof {
                    assert(self.last_notified@.skip(i as int)[0] == self.last_notified@[i as int]);
                }
                return Some(self.last_notified[i].1);
            }
            proof {
                assert(self.last_notified@.skip(i as int).drop_first() =~= self.last_notified@.skip(
                    i as int + 1,
                ));
            }
            i += 1;
        }
        proof {
            assert(self.last_notified@.skip(i as int).len() == 0);
        }
        None
    }

    /// Records the outcome of an enqueue attempt for an alert that passed
    /// all three guards: a successful enqueue updates the pair key's last
    /// notified value and the global send time; a failed one leaves the
    /// gate untouched, so the next eligible alert can still fire.
    pub fn apply_send_outcome(&mut self, key: String, diff_cp: u64, now_ms: u64, enqueued: bool)
        requires
            old(self).wf(),
            vstd::utf8::is_ascii_chars(key@),
        ensures
            final(self).wf(),
            final(self).min_diff == old(self).min_diff,
            final(self).re_alert_delta == old(self).re_alert_delta,
            final(self).cooldown_ms == old(self).cooldown_ms,
            !enqueued ==> (forall|k: Seq<char>| final(self).notified(k) == old(self).notified(k))
                && final(self).last_send == old(self).last_send,
            enqueued ==> (forall|k: Seq<char>|
                final(self).notified(k) == if k == key@ {
                    Some(diff_cp)
                } else {
                    old(self).notified(k)
                }) && final(self).last_send == Some(now_ms),
    {
        if !enqueued {
            return ;
        }
        let n = self.last_notified.len();
        let mut i: usize = 0;
        while i < n
            invariant
                enqueued,
                self == old(self),
                n == self.last_notified@.len(),
                i <= n,
                vstd::utf8::is_ascii_chars(key@),
                self.wf(),
                forall|j: int| 0 <= j < i ==> self.last_notified@[j].0@ != key@,
            decreases n - i,
        {
            let entry_key: &String = &self.last_notified[i].0;
            if str_eq(entry_key.as_str(), key.as_str()) {
                let ghost pre = self.last_notified@;
                self.last_notified[i] = (key, diff_cp);
                self.last_send = Some(now_ms);
                proof {
                    lemma_assoc_update(pre, self.last_notified@, i as int, diff_cp);
                }
                return ;
            }
            i += 1;
        }
        let ghost pre = self.last_notified@;
        proof {
            lemma_assoc_no_key(pre, key@);
        }
        self.last_notified.push((key, diff_cp));
        self.last_send = Some(now_ms);
        proof {
            lemma_assoc_push(pre, self.last_notified@[n as int], diff_cp);
            assert(self.last_notified@.drop_last() =~= pre);
            assert(self.last_notified@ =~= pre.push(self.last_notified@[n as int]));
        }
    }

    /// Evaluates the three guards and, when they pass, tries a
    /// non-blocking enqueue into the notification mailbox.  Gate state
    /// changes exactly when the alert was enqueued; the payload offered
    /// is `make_alert` of exactly the argument values, whose contract
    /// pins every field.
    pub fn maybe_send(
        &mut self,
        tx: &tokio::sync::mpsc::Sender<AppAlert>,
        symbol: &str,
        exchange_a: &str,
        exchange_b: &str,
        bid_a: u64,
        ask_a: u64,
        mid2_a: u64,
        bid_b: u64,
        ask_b: u64,
        mid2_b: u64,
        diff_cp: u64,
        now_ms: u64,
    ) -> (sent: bool)
        requires
            old(self).wf(),
            symbol.is_ascii(),
            exchange_a.is_ascii(),
            exchange_b.is_ascii(),
        ensures
            final(self).wf(),
            AlertGate::step_rel(
                *old(self),
                *final(self),
                symbol@,
                exchange_a@,
                exchange_b@,
                diff_cp,
                now_ms,
                sent,
            ),
            !old(self).guards_pass(symbol@, exchange_a@, exchange_b@, diff_cp, now_ms) ==> !sent,
    {
        // Guard 1: minimum dislocation.
        if diff_cp < self.min_diff {
            return false;
        }
        let key = pair_key(symbol, exchange_a, exchange_b);
        proof {
            lemma_pair_key_ascii(symbol@, exchange_a@, exchange_b@);
        }
        // Guard 2: re-alert delta.
        match self.lookup(key.as_str()) {
            Some(prev) => {
                if (diff_cp as u128) < prev as u128 + self.re_alert_delta as u128 {
                    return false;
                }
            },
            None => {},
        }
        // Guard 3: global cooldown.
        match self.last_send {
            Some(t) => {
                if (now_ms as u128) < t as u128 + self.cooldown_ms as u128 {
                    return false;
                }
            },
            None => {},
        }
        let alert = make_alert(
            symbol,
            exchange_a,
            exchange_b,
            bid_a,
            ask_a,
            mid2_a,
            bid_b,
            ask_b,
            mid2_b,
            diff_cp,
        );
        let enqueued = try_send_alert(tx, alert);
        self.apply_send_outcome(key, diff_cp, now_ms, enqueued);
        enqueued
    }

    /// Wipes the notified values and the global send time; the three
    /// guard parameters are kept.
    pub fn reset(&mut self)
        requires
            old(self).wf(),
        ensures
            final(self).wf(),
            final(self).min_diff == old(self).min_diff,
            final(self).re_alert_delta == old(self).re_alert_delta,
            final(self).cooldown_ms == old(self).cooldown_ms,
            final(self).last_send_time() is None,
            forall|k: Seq<char>| final(self).notified(k) is None,
    {
        self.last_notified.clear();
        self.last_send = None;
    }
}

/// Updating the matching entry in place rewrites exactly that key.
proof fn lemma_assoc_update(pre: Seq<(String, u64)>, post: Seq<(String, u64)>, i: int, diff: u64)
    requires
        0 <= i < pre.len(),
        post.len() == pre.len(),
        forall|j: int| 0 <= j < pre.len() && j != i ==> post[j] == pre[j],
        post[i].0@ == pre[i].0@,
        post[i].1 == diff,
        forall|j: int| 0 <= j < i ==> pre[j].0@ != pre[i].0@,
    ensures
        forall|k: Seq<char>|
            assoc_get(post, k) == if k == pre[i].0@ {
                Some(diff)
            } else {
                assoc_get(pre, k)
            },
    decreases i,
{
    if i == 0 {
        assert forall|k: Seq<char>|
            assoc_get(post, k) == (if k == pre[0].0@ {
                Some(diff)
            } else {
                assoc_get(pre, k)
            }) by {
            if k == pre[0].0@ {
                assert(post[0].0@ == k);
                assert(assoc_get(post, k) == Some(post[0].1));
            } else {
                assert(post.drop_first() =~= pre.drop_first());
                assert(assoc_get(post, k) == assoc_get(post.drop_first(), k));
                assert(assoc_get(pre, k) == assoc_get(pre.drop_first(), k));
            }
        }
    } else {
        let pt = pre.drop_first();
        let qt = post.drop_first();
        assert(qt.len() == pt.len());
        assert forall|j: int| 0 <= j < pt.len() && j != i - 1 implies #[trigger] qt[j]
            == pt[j] by {
            assert(qt[j] == post[j + 1]);
            assert(pt[j] == pre[j + 1]);
        }
        assert(qt[i - 1] == post[i]);
        assert(pt[i - 1] == pre[i]);
        assert forall|j: int| 0 <= j < i - 1 implies #[trigger] pt[j].0@ != pt[i - 1].0@ by {
            assert(pt[j] == pre[j + 1]);
        }
        lemma_assoc_update(pt, qt, i - 1, diff);
        assert forall|k: Seq<char>|
            assoc_get(post, k) == (if k == pre[i].0@ {
                Some(diff)
            } else {
                assoc_get(pre, k)
            }) by {
            assert(post[0] == pre[0]);
            if k == pre[0].0@ {
                assert(assoc_get(post, k) == Some(post[0].1));
                assert(assoc_get(pre, k) == Some(pre[0].1));
                assert(k != pre[i].0@);
            } else {
                assert(assoc_get(post, k) == assoc_get(qt, k));
                assert(assoc_get(pre, k) == assoc_get(pt, k));
            }
        }
    }
}

/// A key that the scan never matched is absent from the list.
proof fn lemma_assoc_no_key(s: Seq<(String, u64)>, key: Seq<char>)
    requires
        forall|j: int| 0 <= j < s.len() ==> s[j].0@ != key,
    ensures
        assoc_get(s, key) is None,
    decreases s.len(),
{
    if s.len() > 0 {
        assert(forall|j: int| 0 <= j < s.drop_first().len() ==> s.drop_first()[j] == s[j + 1]);
        lemma_assoc_no_key(s.drop_first(), key);
    }
}

/// Appending an entry for an absent key adds exactly that key.
proof fn lemma_assoc_push(pre: Seq<(String, u64)>, entry: (String, u64), diff: u64)
    requires
        assoc_get(pre, entry.0@) is None,
        entry.1 == diff,
    ensures
        forall|k: Seq<char>|
            assoc_get(pre.push(entry), k) == if k == entry.0@ {
                Some(diff)
            } else {
                assoc_get(pre, k)
            },
    decreases pre.len(),
{
    if pre.len() == 0 {
        assert forall|k: Seq<char>|
            assoc_get(pre.push(entry), k) == (if k == entry.0@ {
                Some(diff)
            } else {
                assoc_get(pre, k)
            }) by {
            assert(pre.push(entry)[0] == entry);
            if k == entry.0@ {
                assert(assoc_get(pre.push(entry), k) == Some(entry.1));
            } else {
                assert(pre.push(entry).drop_first() =~= Seq::<(String, u64)>::empty());
                assert(assoc_get(pre.push(entry), k) == assoc_get(
                    pre.push(entry).drop_first(),
                    k,
                ));
                assert(assoc_get(pre.push(entry), k) is None);
            }
        }
    } else {
        assert(assoc_get(pre, entry.0@) == if pre[0].0@ == entry.0@ {
            Some(pre[0].1)
        } else {
            assoc_get(pre.drop_first(), entry.0@)
        });
        lemma_assoc_push(pre.drop_first(), entry, diff);
        assert forall|k: Seq<char>|
            assoc_get(pre.push(entry), k) == (if k == entry.0@ {
                Some(diff)
            } else {
                assoc_get(pre, k)
            }) by {
            assert(pre.push(entry)[0] == pre[0]);
            assert(pre.push(entry).drop_first() =~= pre.drop_first().push(entry));
            if k == pre[0].0@ {
                assert(assoc_get(pre.push(entry), k) == Some(pre[0].1));
                assert(assoc_get(pre, k) == Some(pre[0].1));
                assert(k != entry.0@);
            } else {
                assert(assoc_get(pre.push(entry), k) == assoc_get(
                    pre.drop_first().push(entry),
                    k,
                ));
                assert(assoc_get(pre, k) == assoc_get(pre.drop_first(), k));
            }
        }
    }
}

/// After an alert for a key is accepted with value `v`, no later alert
/// for that key is accepted below `v` plus the re-alert delta, as long
/// as no reset intervenes.
pub proof fn lemma_gate_monotone(
    pre: AlertGate,
    post: AlertGate,
    sym: Seq<char>,
    ea: Seq<char>,
    eb: Seq<char>,
    diff_cp: u64,
    now_ms: u64,
    prev: u64,
)
    requires
        AlertGate::step_rel(pre, post, sym, ea, eb, diff_cp, now_ms, true),
        pre.notified(pair_key_spec(sym, ea, eb)) == Some(prev),
    ensures
        diff_cp as int >= prev as int + pre.re_alert_delta as int,
        post.notified(pair_key_spec(sym, ea, eb)) == Some(diff_cp),
{
}

/// Two accepted alerts are at least one cooldown apart.
pub proof fn lemma_gate_cooldown(
    pre: AlertGate,
    mid: AlertGate,
    post: AlertGate,
    sym1: Seq<char>,
    ea1: Seq<char>,
    eb1: Seq<char>,
    diff1: u64,
    t1: u64,
    sym2: Seq<char>,
    ea2: Seq<char>,
    eb2: Seq<char>,
    diff2: u64,
    t2: u64,
)
    requires
        AlertGate::step_rel(pre, mid, sym1, ea1, eb1, diff1, t1, true),
        AlertGate::step_rel(mid, post, sym2, ea2, eb2, diff2, t2, true),
    ensures
        t2 as int - t1 as int >= pre.cooldown_ms as int,
{
}

/// An alert is treated the same under either venue order.
pub proof fn lemma_gate_symmetric(
    pre: AlertGate,
    post: AlertGate,
    sym: Seq<char>,
    ea: Seq<char>,
    eb: Seq<char>,
    diff_cp: u64,
    now_ms: u64,
    sent: bool,
)
    ensures
        AlertGate::step_rel(pre, post, sym, ea, eb, diff_cp, now_ms, sent)
            == AlertGate::step_rel(pre, post, sym, eb, ea, diff_cp, now_ms, sent),
        pre.guards_pass(sym, ea, eb, diff_cp, now_ms) == pre.guards_pass(
            sym,
            eb,
            ea,
            diff_cp,
            now_ms,
        ),
{
    lemma_pair_key_symmetric(sym, ea, eb);
}

} // verus!
