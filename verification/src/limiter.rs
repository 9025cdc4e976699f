//! Rate limiting primitives: a per-connection token bucket and a keyed
//! quota table, both driven by an explicit millisecond clock handed in by
//! the caller.

use vstd::prelude::*;

verus! {

/// A token bucket replenished continuously at `quota` tokens per second.
///
/// Token amounts are kept in thousandths of a token ("millitokens") so that
/// refilling is exact integer arithmetic: `e` elapsed milliseconds refill
/// `e * quota` millitokens, and one admission costs 1000.
pub struct TokenBucket {
    /// Tokens granted per second; also the burst capacity.
    pub quota: u32,
    /// Current fill, in millitokens; at most `1000 * quota`.
    pub millitokens: u64,
    /// The clock value at the last `check`.
    pub last_ms: u64,
}

impl TokenBucket {
    /// A bucket is well formed when its quota is positive and its fill does
    /// not exceed its capacity.
    pub open spec fn wf(self) -> bool {
        1 <= self.quota && self.millitokens <= 1000 * self.quota
    }

    /// The fill after accounting for the time passed since the last check.
    /// A clock that appears to have moved backwards refills nothing.
    pub open spec fn spec_refilled(self, now_ms: u64) -> int {
        let elapsed: int = if now_ms >= self.last_ms {
            now_ms - self.last_ms
        } else {
            0
        };
        if elapsed >= 1000 {
            1000 * self.quota
        } else if self.millitokens + elapsed * self.quota >= 1000 * self.quota {
            1000 * self.quota
        } else {
            self.millitokens + elapsed * self.quota
        }
    }

    /// Whether a check at `now_ms` admits: at least one whole token is
    /// available after refilling.
    pub open spec fn spec_admits(self, now_ms: u64) -> bool {
        self.spec_refilled(now_ms) >= 1000
    }

    /// The bucket state after a check at `now_ms`, admitted or not.
    pub open spec fn spec_after_check(self, now_ms: u64) -> TokenBucket {
        let r = self.spec_refilled(now_ms);
        TokenBucket {
            quota: self.quota,
            millitokens: (if r >= 1000 {
                r - 1000
            } else {
                r
            }) as u64,
            last_ms: now_ms,
        }
    }

    /// A full bucket with the given quota, whose clock starts at `now_ms`.
    pub open spec fn spec_full(quota: u32, now_ms: u64) -> TokenBucket {
        TokenBucket { quota, millitokens: (1000 * quota) as u64, last_ms: now_ms }
    }

    /// A full bucket whose clock starts at `now_ms`.
    pub fn new(quota: u32, now_ms: u64) -> (b: TokenBucket)
        requires
            quota >= 1,
        ensures
            b.wf(),
            b == TokenBucket::spec_full(quota, now_ms),
            b.quota == quota,
            b.millitokens == 1000 * quota,
            b.last_ms == now_ms,
    {
        TokenBucket { quota, millitokens: 1000 * (quota as u64), last_ms: now_ms }
    }

    /// One admission attempt at `now_ms`: refills by the elapsed time, then
    /// either consumes one token and admits, or leaves the fill short of a
    /// token and rejects.
    pub fn check(&mut self, now_ms: u64) -> (admitted: bool)
        requires
            old(self).wf(),
        ensures
            final(self).wf(),
            admitted == old(self).spec_admits(now_ms),
            *final(self) == old(self).spec_after_check(now_ms),
    {
        let cap: u64 = 1000 * (self.quota as u64);
        let elapsed: u64 = if now_ms >= self.last_ms {
            now_ms - self.last_ms
        } else {
            0
        };
        let refilled: u64 = if elapsed >= 1000 {
            cap
        } else {
            proof {
                assert(elapsed * self.quota <= 999 * self.quota) by (nonlinear_arith)
                    requires
                        elapsed <= 999,
                        self.quota >= 0,
                ;
            }
            let gained: u64 = elapsed * (self.quota as u64);
            if self.millitokens + gained >= cap {
                cap
            } else {
                self.millitokens + gained
            }
        };
        self.last_ms = now_ms;
        if refilled >= 1000 {
            self.millitokens = refilled - 1000;
            true
        } else {
            self.millitokens = refilled;
            false
        }
    }
}

/// The bucket state after `k` checks, all at the same instant `now_ms`.
pub open spec fn after_checks(b: TokenBucket, now_ms: u64, k: nat) -> TokenBucket
    decreases k,
{
    if k == 0 {
        b
    } else {
        after_checks(b, now_ms, (k - 1) as nat).spec_after_check(now_ms)
    }
}

/// Burst law: out of a full bucket with quota `q`, a run of checks at one
/// instant admits exactly the first `q` attempts; the next one is rejected.
pub proof fn lemma_token_bucket_burst(b: TokenBucket, now_ms: u64, k: nat)
    requires
        b.wf(),
        b.millitokens == 1000 * b.quota,
        b.last_ms == now_ms,
        k <= b.quota,
    ensures
        after_checks(b, now_ms, k).millitokens == 1000 * (b.quota - k),
        after_checks(b, now_ms, k).quota == b.quota,
        after_checks(b, now_ms, k).last_ms == now_ms,
        k < b.quota ==> after_checks(b, now_ms, k).spec_admits(now_ms),
        k == b.quota ==> !after_checks(b, now_ms, k).spec_admits(now_ms),
    decreases k,
{
    if k > 0 {
        lemma_token_bucket_burst(b, now_ms, (k - 1) as nat);
        let prev = after_checks(b, now_ms, (k - 1) as nat);
        assert(0 * (prev.quota as int) == 0) by (nonlinear_arith);
        assert(prev.spec_refilled(now_ms) == prev.millitokens);
    }
}

/// The key of a keyed-quota entry: the pair of group and text.
pub open spec fn entry_key(e: (String, String, u64)) -> (Seq<char>, Seq<char>) {
    (e.0@, e.1@)
}

/// The map that a sequence of entries denotes: each key to its stamp.
pub open spec fn entries_map(es: Seq<(String, String, u64)>) -> Map<
    (Seq<char>, Seq<char>),
    u64,
>
    decreases es.len(),
{
    if es.len() == 0 {
        Map::empty()
    } else {
        entries_map(es.drop_last()).insert(entry_key(es.last()), es.last().2)
    }
}

/// Whether the keys of `es` are pairwise distinct.
pub open spec fn entries_distinct(es: Seq<(String, String, u64)>) -> bool {
    forall|i: int, j: int|
        0 <= i < j < es.len() ==> entry_key(es[i]) != entry_key(es[j])
}

proof fn lemma_entries_map_index(es: Seq<(String, String, u64)>, i: int)
    requires
        entries_distinct(es),
        0 <= i < es.len(),
    ensures
        entries_map(es).dom().contains(entry_key(es[i])),
        entries_map(es)[entry_key(es[i])] == es[i].2,
    decreases es.len(),
{
    if i < es.len() - 1 {
        assert(entries_distinct(es.drop_last()));
        assert(es.drop_last()[i] == es[i]);
        lemma_entries_map_index(es.drop_last(), i);
        assert(entry_key(es[i]) != entry_key(es.last()));
    }
}

proof fn lemma_entries_map_absent(es: Seq<(String, String, u64)>, k: (Seq<char>, Seq<char>))
    requires
        forall|i: int| 0 <= i < es.len() ==> entry_key(es[i]) != k,
    ensures
        !entries_map(es).dom().contains(k),
    decreases es.len(),
{
    if es.len() > 0 {
        lemma_entries_map_absent(es.drop_last(), k);
    }
}

proof fn lemma_entries_map_update(es: Seq<(String, String, u64)>, i: int, e: (String, String, u64))
    requires
        entries_distinct(es),
        0 <= i < es.len(),
        entry_key(e) == entry_key(es[i]),
    ensures
        entries_map(es.update(i, e)) =~= entries_map(es).insert(entry_key(e), e.2),
    decreases es.len(),
{
    let up = es.update(i, e);
    if i == es.len() - 1 {
        assert(up.drop_last() =~= es.drop_last());
        assert(up.last() == e);
    } else {
        assert(up.drop_last() =~= es.drop_last().update(i, e));
        assert(up.last() == es.last());
        assert(entries_distinct(es.drop_last()));
        assert(es.drop_last()[i] == es[i]);
        lemma_entries_map_update(es.drop_last(), i, e);
        assert(entry_key(e) != entry_key(es.last()));
    }
}

/// A keyed quota: one admission per key per window. The table keeps, for
/// each `(group, text)` key seen, the clock value of its last admission.
pub struct KeyedQuota {
    window_ms: u64,
    entries: Vec<(String, String, u64)>,
}

impl View for KeyedQuota {
    type V = Map<(Seq<char>, Seq<char>), u64>;

    closed spec fn view(&self) -> Map<(Seq<char>, Seq<char>), u64> {
        entries_map(self.entries@)
    }
}

/// Whether a check of key `k` at `now_ms` is admitted against table `m`:
/// either the key was never admitted, or at least the window has passed
/// since its last admission.
pub open spec fn quota_admits(
    m: Map<(Seq<char>, Seq<char>), u64>,
    window_ms: u64,
    k: (Seq<char>, Seq<char>),
    now_ms: u64,
) -> bool {
    !m.dom().contains(k) || (now_ms >= m[k] && now_ms - m[k] >= window_ms)
}

impl KeyedQuota {
    /// The table's keys are pairwise distinct.
    pub closed spec fn wf(self) -> bool {
        entries_distinct(self.entries@)
    }

    /// The window length in milliseconds; a key admitted at `t` cannot be
    /// admitted again before `t + window()`.
    pub closed spec fn window(self) -> u64 {
        self.window_ms
    }

    /// An empty table with the given window.
    pub fn new(window_ms: u64) -> (q: KeyedQuota)
        ensures
            q.wf(),
            q.window() == window_ms,
            q@ =~= Map::<(Seq<char>, Seq<char>), u64>::empty(),
    {
        KeyedQuota { window_ms, entries: Vec::new() }
    }

    /// One admission attempt for `(group, text)` at `now_ms`. The first
    /// sight of a key is admitted and stamped; a later sight is admitted,
    /// and re-stamped, only once at least `window_ms` has passed since the
    /// stamp. A rejected attempt leaves the table unchanged.
    pub fn check_key(&mut self, group: &String, text: &String, now_ms: u64) -> (admitted: bool)
        requires
            old(self).wf(),
        ensures
            final(self).wf(),
            final(self).window() == old(self).window(),
            admitted == quota_admits(old(self)@, old(self).window(), (group@, text@), now_ms),
            admitted ==> final(self)@ =~= old(self)@.insert((group@, text@), now_ms),
            !admitted ==> final(self)@ =~= old(self)@,
    {
        let ghost key = (group@, text@);
        let n = self.entries.len();
        let mut i: usize = 0;
        while i < n
            invariant
                *self == *old(self),
                old(self).wf(),
                n == self.entries@.len(),
                0 <= i <= n,
                forall|j: int| 0 <= j < i ==> entry_key(self.entries@[j]) != key,
                key == (group@, text@),
            decreases n - i,
        {
            if self.entries[i].0.eq(group) && self.entries[i].1.eq(text) {
                proof {
                    lemma_entries_map_index(self.entries@, i as int);
                }
                let stamp = self.entries[i].2;
                if now_ms >= stamp && now_ms - stamp >= self.window_ms {
                    let g = self.entries[i].0.clone();
                    let t = self.entries[i].1.clone();
                    self.entries.set(i, (g, t, now_ms));
                    proof {
                        lemma_entries_map_update(
                            old(self).entries@,
                            i as int,
                            self.entries@[i as int],
                        );
                    }
                    return true;
                } else {
                    return false;
                }
            }
            i = i + 1;
        }
        proof {
            lemma_entries_map_absent(self.entries@, key);
        }
        self.entries.push((group.clone(), text.clone(), now_ms));
        proof {
            assert(self.entries@.drop_last() =~= old(self).entries@);
            assert(forall|j: int|
                0 <= j < old(self).entries@.len() ==> entry_key(#[trigger] self.entries@[j])
                    != key);
        }
        true
    }
}

/// Window law: once a key is admitted and stamped at `t1`, any further
/// attempt at a `t2` earlier than `t1 + window` is rejected, and any
/// attempt at `t1 + window` or later is admitted.
pub proof fn lemma_quota_window(
    m: Map<(Seq<char>, Seq<char>), u64>,
    window_ms: u64,
    k: (Seq<char>, Seq<char>),
    t1: u64,
    t2: u64,
)
    ensures
        t2 < t1 + window_ms ==> !quota_admits(m.insert(k, t1), window_ms, k, t2),
        t2 >= t1 && t2 - t1 >= window_ms ==> quota_admits(m.insert(k, t1), window_ms, k, t2),
{
}

} // verus!
