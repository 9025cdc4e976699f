//! The filter chain: an ordered, fixed-at-startup sequence of filters,
//! each taking one packet and either passing it on unchanged or dropping
//! it; the first drop short-circuits the rest of the chain.

use vstd::prelude::*;

use crate::buffer::FanInBuffer;
use crate::broadcast::Broadcaster;
use crate::config::Config;
use crate::danmaku::DanmakuPacket;
use crate::danmaku::PacketView;
use crate::limiter::KeyedQuota;
use crate::limiter::quota_admits;

verus! {

/// The patterns a compiled regex set was built from, in order.
pub uninterp spec fn regex_set_patterns(s: regex::RegexSet) -> Seq<Seq<char>>;

/// Whether the regular expression `pattern` matches somewhere in `text`.
pub uninterp spec fn regex_match(pattern: Seq<char>, text: Seq<char>) -> bool;

#[verifier::external_type_specification]
#[verifier::external_body]
pub struct ExRegexSet(regex::RegexSet);

#[verifier::external_type_specification]
#[verifier::external_body]
pub struct ExRegexError(regex::Error);

/// Whether regex's compiler, at its default settings, accepts every one
/// of `patterns`; a function of the pattern list alone.
pub uninterp spec fn regex_patterns_ok(patterns: Seq<Seq<char>>) -> bool;

/// Relies on `regex::RegexSet::new`: compiles the given expressions into
/// one set, failing exactly when the compiler rejects one of them.
#[verifier::external_body]
fn regex_set_new(patterns: &Vec<String>) -> (r: Result<regex::RegexSet, regex::Error>)
    ensures
        (r is Ok) == regex_patterns_ok(patterns.deep_view()),
        r matches Ok(s) ==> regex_set_patterns(s) == patterns.deep_view(),
{
    regex::RegexSet::new(patterns.iter())
}

/// Whether any of `patterns` matches `text`.
pub open spec fn matches_any(patterns: Seq<Seq<char>>, text: Seq<char>) -> bool {
    exists|i: int| 0 <= i < patterns.len() && regex_match(patterns[i], text)
}

/// Relies on `regex::RegexSet::is_match`: true exactly when at least one
/// pattern of the set matches the haystack.
#[verifier::external_body]
fn regex_set_is_match(s: &regex::RegexSet, text: &str) -> (r: bool)
    ensures
        r == matches_any(regex_set_patterns(*s), text@),
        r == (exists|i: int| 0 <= i < regex_set_patterns(*s).len() && regex_match(regex_set_patterns(*s)[i], text@)),
{
    s.is_match(text)
}

/// The mathematical state of one filter.
pub enum MiddlewareModel {
    /// The logging filter: stateless, never drops.
    Echo,
    /// The duplicate-suppression filter: its window and its table of last
    /// admission stamps per `(group, text)` key.
    Dedup { window_ms: u64, table: Map<(Seq<char>, Seq<char>), u64> },
    /// The blacklist filter: the fixed pattern set it was built from.
    Blacklist { patterns: Seq<Seq<char>> },
}

/// Whether filter `m` passes packet `p` on at clock value `now_ms`.
pub open spec fn middleware_admits(m: MiddlewareModel, p: PacketView, now_ms: u64) -> bool {
    match m {
        MiddlewareModel::Echo => true,
        MiddlewareModel::Dedup { window_ms, table } => quota_admits(
            table,
            window_ms,
            (p.group, p.danmaku.text),
            now_ms,
        ),
        MiddlewareModel::Blacklist { patterns } => !matches_any(patterns, p.danmaku.text),
    }
}

/// The state of filter `m` after seeing packet `p` at clock value
/// `now_ms`: only the dedup filter carries state, and it stamps the
/// packet's key exactly when it admits it.
pub open spec fn middleware_after(m: MiddlewareModel, p: PacketView, now_ms: u64) -> MiddlewareModel {
    match m {
        MiddlewareModel::Dedup { window_ms, table } => {
            if quota_admits(table, window_ms, (p.group, p.danmaku.text), now_ms) {
                MiddlewareModel::Dedup {
                    window_ms,
                    table: table.insert((p.group, p.danmaku.text), now_ms),
                }
            } else {
                m
            }
        },
        _ => m,
    }
}

/// The logging filter. It never drops a packet; what it observes is
/// reported to the embedding application's log, which the pipeline does
/// not model.
pub struct Echo;

impl Echo {
    /// Passes every packet on unchanged.
    pub fn run(&mut self, packet: DanmakuPacket) -> (r: Option<DanmakuPacket>)
        ensures
            r == Some(packet),
    {
        Some(packet)
    }
}

/// The duplicate-suppression filter: a keyed quota of one admission per
/// `(group, text)` key per window.
pub struct Dedup {
    quota: KeyedQuota,
}

impl Dedup {
    /// The filter's mathematical state.
    pub closed spec fn model(self) -> MiddlewareModel {
        MiddlewareModel::Dedup { window_ms: self.quota.window(), table: self.quota@ }
    }

    /// The quota table keeps well formed.
    pub closed spec fn wf(self) -> bool {
        self.quota.wf()
    }

    /// Builds the filter from configuration: present only when the
    /// configured window is positive, with the window in milliseconds.
    pub fn from_config(config: &Config) -> (r: Option<Dedup>)
        ensures
            config.dedup_window <= 0 ==> r is None,
            config.dedup_window > 0 ==> (r matches Some(d) && d.wf() && d.model()
                == (MiddlewareModel::Dedup {
                window_ms: (config.dedup_window * 1000) as u64,
                table: Map::<(Seq<char>, Seq<char>), u64>::empty(),
            })),
    {
        if config.dedup_window <= 0 {
            None
        } else {
            let window_ms: u64 = (config.dedup_window as u64) * 1000;
            Some(Dedup { quota: KeyedQuota::new(window_ms) })
        }
    }

    /// Admits the first sight of a `(group, text)` key in each window and
    /// drops every repetition inside the window.
    pub fn run(&mut self, packet: DanmakuPacket, now_ms: u64) -> (r: Option<DanmakuPacket>)
        requires
            old(self).wf(),
        ensures
            final(self).wf(),
            final(self).model() == middleware_after(old(self).model(), packet@, now_ms),
            middleware_admits(old(self).model(), packet@, now_ms) ==> r == Some(packet),
            !middleware_admits(old(self).model(), packet@, now_ms) ==> r is None,
    {
        let admitted = self.quota.check_key(&packet.group, &packet.danmaku.text, now_ms);
        if admitted {
            Some(packet)
        } else {
            None
        }
    }
}

/// The library's report of an invalid blacklist pattern.
#[derive(Debug)]
pub struct PatternError;

/// The blacklist filter: drops every packet whose text matches one of a
/// fixed, startup-loaded set of regular expressions.
pub struct RegexFilter {
    set: regex::RegexSet,
}

impl RegexFilter {
    /// The pattern set the filter was built from.
    pub closed spec fn patterns(self) -> Seq<Seq<char>> {
        regex_set_patterns(self.set)
    }

    /// The filter's mathematical state.
    pub open spec fn model(self) -> MiddlewareModel {
        MiddlewareModel::Blacklist { patterns: self.patterns() }
    }

    /// Compiles the given patterns; succeeds if and only if the compiler
    /// accepts every one of them.
    pub fn new(patterns: &Vec<String>) -> (r: Result<RegexFilter, PatternError>)
        ensures
            (r is Ok) == regex_patterns_ok(patterns.deep_view()),
            r matches Ok(f) ==> f.patterns() == patterns.deep_view(),
    {
        match regex_set_new(patterns) {
            Ok(set) => Ok(RegexFilter { set }),
            Err(_) => Err(PatternError),
        }
    }

    /// Drops the packet exactly when its text matches a blacklist
    /// pattern.
    pub fn run(&mut self, packet: DanmakuPacket) -> (r: Option<DanmakuPacket>)
        ensures
            *final(self) == *old(self),
            !matches_any(old(self).patterns(), packet@.danmaku.text) ==> r == Some(packet),
            matches_any(old(self).patterns(), packet@.danmaku.text) ==> r is None,
    {
        if regex_set_is_match(&self.set, packet.danmaku.text.as_str()) {
            None
        } else {
            Some(packet)
        }
    }
}

/// One filter of the chain: the closed set of filter kinds, assembled
/// into an ordered list at startup.
pub enum Middleware {
    /// The logging filter.
    Echo(Echo),
    /// The duplicate-suppression filter.
    Dedup(Dedup),
    /// The blacklist filter.
    Blacklist(RegexFilter),
}

impl View for Middleware {
    type V = MiddlewareModel;

    open spec fn view(&self) -> MiddlewareModel {
        match self {
            Middleware::Echo(_) => MiddlewareModel::Echo,
            Middleware::Dedup(d) => d.model(),
            Middleware::Blacklist(f) => f.model(),
        }
    }
}

impl DeepView for Middleware {
    type V = MiddlewareModel;

    open spec fn deep_view(&self) -> MiddlewareModel {
        self.view()
    }
}

impl Middleware {
    /// Internal invariants of the filter's state.
    pub open spec fn wf(self) -> bool {
        match self {
            Middleware::Dedup(d) => d.wf(),
            _ => true,
        }
    }

    /// Runs one filter on one packet: passes it on unchanged or drops it,
    /// exactly as the filter's model admits it.
    pub fn run(&mut self, packet: DanmakuPacket, now_ms: u64) -> (r: Option<DanmakuPacket>)
        requires
            old(self).wf(),
        ensures
            final(self).wf(),
            final(self)@ == middleware_after(old(self)@, packet@, now_ms),
            middleware_admits(old(self)@, packet@, now_ms) ==> r == Some(packet),
            !middleware_admits(old(self)@, packet@, now_ms) ==> r is None,
    {
        match self {
            Middleware::Echo(e) => e.run(packet),
            Middleware::Dedup(d) => d.run(packet, now_ms),
            Middleware::Blacklist(f) => f.run(packet),
        }
    }
}

/// Whether every filter of the chain, each in its present state, admits
/// packet `p`.
pub open spec fn chain_admits(ms: Seq<MiddlewareModel>, p: PacketView, now_ms: u64) -> bool
    decreases ms.len(),
{
    if ms.len() == 0 {
        true
    } else {
        middleware_admits(ms[0], p, now_ms) && chain_admits(ms.drop_first(), p, now_ms)
    }
}

/// The chain's filter states after threading packet `p` through it: each
/// filter that saw the packet is stepped; the filters after the first
/// drop never see it.
pub open spec fn chain_after(ms: Seq<MiddlewareModel>, p: PacketView, now_ms: u64) -> Seq<
    MiddlewareModel,
>
    decreases ms.len(),
{
    if ms.len() == 0 {
        ms
    } else if middleware_admits(ms[0], p, now_ms) {
        seq![middleware_after(ms[0], p, now_ms)] + chain_after(ms.drop_first(), p, now_ms)
    } else {
        seq![middleware_after(ms[0], p, now_ms)] + ms.drop_first()
    }
}

proof fn lemma_chain_admits_snoc(ms: Seq<MiddlewareModel>, p: PacketView, now_ms: u64, m: MiddlewareModel)
    ensures
        chain_admits(ms.push(m), p, now_ms) == (chain_admits(ms, p, now_ms)
            && middleware_admits(m, p, now_ms)),
    decreases ms.len(),
{
    if ms.len() == 0 {
        assert(ms.push(m).drop_first() =~= Seq::<MiddlewareModel>::empty());
        assert(ms.push(m)[0] == m);
        assert(chain_admits(Seq::<MiddlewareModel>::empty(), p, now_ms));
        assert(chain_admits(ms.push(m), p, now_ms) == middleware_admits(m, p, now_ms));
    } else {
        let t = ms.drop_first();
        assert(ms.push(m)[0] == ms[0]);
        assert(ms.push(m).drop_first() =~= t.push(m));
        lemma_chain_admits_snoc(t, p, now_ms, m);
        assert(chain_admits(ms.push(m), p, now_ms) == (middleware_admits(ms[0], p, now_ms)
            && chain_admits(t.push(m), p, now_ms)));
        assert(chain_admits(ms, p, now_ms) == (middleware_admits(ms[0], p, now_ms)
            && chain_admits(t, p, now_ms)));
    }
}

proof fn lemma_chain_after_snoc(ms: Seq<MiddlewareModel>, p: PacketView, now_ms: u64, m: MiddlewareModel)
    ensures
        chain_after(ms.push(m), p, now_ms) =~= (if chain_admits(ms, p, now_ms) {
            chain_after(ms, p, now_ms).push(middleware_after(m, p, now_ms))
        } else {
            chain_after(ms, p, now_ms).push(m)
        }),
    decreases ms.len(),
{
    if ms.len() == 0 {
        assert(ms.push(m).drop_first() =~= Seq::<MiddlewareModel>::empty());
        assert(ms.push(m)[0] == m);
        assert(chain_admits(Seq::<MiddlewareModel>::empty(), p, now_ms));
        assert(chain_after(Seq::<MiddlewareModel>::empty(), p, now_ms) =~= Seq::<
            MiddlewareModel,
        >::empty());
        assert(chain_after(ms.push(m), p, now_ms) =~= seq![middleware_after(m, p, now_ms)]);
        assert(chain_after(ms, p, now_ms).push(middleware_after(m, p, now_ms)) =~= seq![
            middleware_after(m, p, now_ms),
        ]);
    } else {
        let t = ms.drop_first();
        assert(ms.push(m)[0] == ms[0]);
        assert(ms.push(m).drop_first() =~= t.push(m));
        lemma_chain_admits_snoc(t, p, now_ms, m);
        lemma_chain_after_snoc(t, p, now_ms, m);
        if middleware_admits(ms[0], p, now_ms) {
            assert(chain_after(ms.push(m), p, now_ms) =~= seq![
                middleware_after(ms[0], p, now_ms),
            ] + chain_after(t.push(m), p, now_ms));
            if chain_admits(t, p, now_ms) {
                assert(chain_after(ms, p, now_ms).push(middleware_after(m, p, now_ms)) =~= seq![
                    middleware_after(ms[0], p, now_ms),
                ] + chain_after(t, p, now_ms).push(middleware_after(m, p, now_ms)));
            } else {
                assert(chain_after(ms, p, now_ms).push(m) =~= seq![
                    middleware_after(ms[0], p, now_ms),
                ] + chain_after(t, p, now_ms).push(m));
            }
        } else {
            assert(chain_after(ms.push(m), p, now_ms) =~= seq![
                middleware_after(ms[0], p, now_ms),
            ] + t.push(m));
            assert(chain_after(ms, p, now_ms).push(m) =~= seq![
                middleware_after(ms[0], p, now_ms),
            ] + t.push(m));
        }
    }
}

/// The ordered filter chain, assembled once at startup.
pub struct MiddlewareChain {
    middlewares: Vec<Middleware>,
}

impl View for MiddlewareChain {
    type V = Seq<MiddlewareModel>;

    closed spec fn view(&self) -> Seq<MiddlewareModel> {
        self.middlewares.deep_view()
    }
}

impl MiddlewareChain {
    /// Every filter's own invariant holds.
    pub closed spec fn wf(self) -> bool {
        forall|i: int| 0 <= i < self.middlewares@.len() ==> (#[trigger] self.middlewares@[i]).wf()
    }

    /// An empty chain.
    pub fn new() -> (c: MiddlewareChain)
        ensures
            c.wf(),
            c@ =~= Seq::<MiddlewareModel>::empty(),
    {
        MiddlewareChain { middlewares: Vec::new() }
    }

    /// Appends a filter to the chain; absent filters (a disabled dedup)
    /// leave it unchanged.
    pub fn add(&mut self, middleware: Option<Middleware>)
        requires
            old(self).wf(),
            middleware matches Some(m) ==> m.wf(),
        ensures
            final(self).wf(),
            middleware matches Some(m) ==> final(self)@ =~= old(self)@.push(m@),
            middleware is None ==> final(self)@ =~= old(self)@,
    {
        match middleware {
            Some(m) => {
                self.middlewares.push(m);
                proof {
                    assert(self.middlewares@.drop_last() =~= old(self).middlewares@);
                }
            },
            None => {},
        }
    }

    /// Threads one packet through the filters in order; the first drop
    /// short-circuits the rest. The packet, when it survives, comes out
    /// unchanged.
    pub fn run(&mut self, packet: DanmakuPacket, now_ms: u64) -> (r: Option<DanmakuPacket>)
        requires
            old(self).wf(),
        ensures
            final(self).wf(),
            final(self)@ =~= chain_after(old(self)@, packet@, now_ms),
            chain_admits(old(self)@, packet@, now_ms) ==> r == Some(packet),
            !chain_admits(old(self)@, packet@, now_ms) ==> r is None,
    {
        let ghost orig = self@;
        let n = self.middlewares.len();
        let mut current: Option<DanmakuPacket> = Some(packet);
        let mut i: usize = 0;
        proof {
            assert(orig.take(0) =~= Seq::<MiddlewareModel>::empty());
        }
        while i < n
            invariant
                orig.len() == n,
                self@.len() == n,
                self.middlewares@.len() == n,
                0 <= i <= n,
                forall|j: int| 0 <= j < n ==> (#[trigger] self.middlewares@[j]).wf(),
                forall|j: int| i <= j < n ==> self@[j] == orig[j],
                self@.take(i as int) =~= chain_after(orig.take(i as int), packet@, now_ms),
                current == (if chain_admits(orig.take(i as int), packet@, now_ms) {
                    Some(packet)
                } else {
                    None::<DanmakuPacket>
                }),
            decreases n - i,
        {
            let ghost pre = self@;
            let ghost premid = self.middlewares@;
            proof {
                assert(orig.take(i + 1) =~= orig.take(i as int).push(orig[i as int]));
                lemma_chain_admits_snoc(orig.take(i as int), packet@, now_ms, orig[i as int]);
                lemma_chain_after_snoc(orig.take(i as int), packet@, now_ms, orig[i as int]);
                assert(self@[i as int] == orig[i as int]);
            }
            match current {
                Some(p) => {
                    current = self.middlewares[i].run(p, now_ms);
                    proof {
                        assert(forall|j: int|
                            0 <= j < n && j != i ==> self.middlewares@[j] == premid[j]);
                        assert(forall|j: int| 0 <= j < n && j != i ==> self@[j] == pre[j]);
                        assert(self@[i as int] == middleware_after(
                            orig[i as int],
                            packet@,
                            now_ms,
                        ));
                        assert(self@.take(i + 1) =~= chain_after(
                            orig.take(i + 1),
                            packet@,
                            now_ms,
                        ));
                    }
                },
                None => {
                    current = None;
                    proof {
                        assert(self@.take(i + 1) =~= self@.take(i as int).push(
                            self@[i as int],
                        ));
                        assert(self@.take(i + 1) =~= chain_after(
                            orig.take(i + 1),
                            packet@,
                            now_ms,
                        ));
                    }
                },
            }
            i = i + 1;
        }
        proof {
            assert(orig.take(n as int) =~= orig);
            assert(self@.take(n as int) =~= self@);
        }
        current
    }
}

/// The required chain layout for a configuration: the echo filter first,
/// then the dedup filter exactly when the configured window is positive,
/// then the blacklist built from `patterns`.
pub open spec fn chain_layout(config: Config, patterns: Seq<Seq<char>>) -> Seq<MiddlewareModel> {
    (if config.dedup_window > 0 {
        seq![
            MiddlewareModel::Echo,
            MiddlewareModel::Dedup {
                window_ms: (config.dedup_window * 1000) as u64,
                table: Map::<(Seq<char>, Seq<char>), u64>::empty(),
            },
        ]
    } else {
        seq![MiddlewareModel::Echo]
    }).push(MiddlewareModel::Blacklist { patterns })
}

/// Assembles the filter chain in the required order — echo, then dedup
/// when enabled, then the blacklist — failing exactly when the compiler
/// rejects one of the blacklist patterns.
pub fn build_chain(config: &Config, patterns: &Vec<String>) -> (r: Result<
    MiddlewareChain,
    PatternError,
>)
    ensures
        (r is Ok) == regex_patterns_ok(patterns.deep_view()),
        r matches Ok(c) ==> c.wf() && c@ =~= chain_layout(*config, patterns.deep_view()),
{
    let blacklist = match RegexFilter::new(patterns) {
        Ok(f) => f,
        Err(e) => {
            return Err(e);
        },
    };
    let mut chain = MiddlewareChain::new();
    chain.add(Some(Middleware::Echo(Echo)));
    match Dedup::from_config(config) {
        Some(d) => chain.add(Some(Middleware::Dedup(d))),
        None => (),
    }
    chain.add(Some(Middleware::Blacklist(blacklist)));
    Ok(chain)
}

/// The packets the chain emits when the packets `inputs` are threaded
/// through it in order, starting from filter states `ms`.
pub open spec fn chain_outputs(ms: Seq<MiddlewareModel>, inputs: Seq<PacketView>, now_ms: u64) -> Seq<PacketView>
    decreases inputs.len(),
{
    if inputs.len() == 0 {
        Seq::empty()
    } else {
        (if chain_admits(ms, inputs[0], now_ms) {
            seq![inputs[0]]
        } else {
            Seq::<PacketView>::empty()
        }) + chain_outputs(chain_after(ms, inputs[0], now_ms), inputs.drop_first(), now_ms)
    }
}

/// The filter states after the packets `inputs` are threaded through the
/// chain in order.
pub open spec fn chain_states_after(ms: Seq<MiddlewareModel>, inputs: Seq<PacketView>, now_ms: u64) -> Seq<MiddlewareModel>
    decreases inputs.len(),
{
    if inputs.len() == 0 {
        ms
    } else {
        chain_states_after(chain_after(ms, inputs[0], now_ms), inputs.drop_first(), now_ms)
    }
}

/// Feeding one more packet appends at most that packet to the outputs and
/// steps the filter states once.
pub proof fn lemma_chain_outputs_snoc(ms: Seq<MiddlewareModel>, inputs: Seq<PacketView>, now_ms: u64, p: PacketView)
    ensures
        chain_states_after(ms, inputs.push(p), now_ms) == chain_after(
            chain_states_after(ms, inputs, now_ms),
            p,
            now_ms,
        ),
        chain_outputs(ms, inputs.push(p), now_ms) =~= chain_outputs(ms, inputs, now_ms) + (
        if chain_admits(chain_states_after(ms, inputs, now_ms), p, now_ms) {
            seq![p]
        } else {
            Seq::<PacketView>::empty()
        }),
    decreases inputs.len(),
{
    if inputs.len() == 0 {
        assert(inputs.push(p)[0] == p);
        assert(inputs.push(p).drop_first() =~= Seq::<PacketView>::empty());
        assert(chain_states_after(ms, Seq::<PacketView>::empty(), now_ms) == ms);
        assert(chain_states_after(
            chain_after(ms, p, now_ms),
            Seq::<PacketView>::empty(),
            now_ms,
        ) == chain_after(ms, p, now_ms));
        assert(chain_outputs(ms, Seq::<PacketView>::empty(), now_ms) =~= Seq::<
            PacketView,
        >::empty());
        assert(chain_outputs(
            chain_after(ms, p, now_ms),
            Seq::<PacketView>::empty(),
            now_ms,
        ) =~= Seq::<PacketView>::empty());
    } else {
        let after0 = chain_after(ms, inputs[0], now_ms);
        let rest = inputs.drop_first();
        assert(inputs.push(p)[0] == inputs[0]);
        assert(inputs.push(p).drop_first() =~= rest.push(p));
        lemma_chain_outputs_snoc(after0, rest, now_ms, p);
        let head = if chain_admits(ms, inputs[0], now_ms) {
            seq![inputs[0]]
        } else {
            Seq::<PacketView>::empty()
        };
        let tail = if chain_admits(chain_states_after(ms, inputs, now_ms), p, now_ms) {
            seq![p]
        } else {
            Seq::<PacketView>::empty()
        };
        assert(chain_states_after(ms, inputs, now_ms) == chain_states_after(
            after0,
            rest,
            now_ms,
        ));
        assert(chain_outputs(ms, inputs.push(p), now_ms) =~= head + (chain_outputs(
            after0,
            rest,
            now_ms,
        ) + tail));
        assert(head + (chain_outputs(after0, rest, now_ms) + tail) =~= (head + chain_outputs(
            after0,
            rest,
            now_ms,
        )) + tail);
        assert(chain_outputs(ms, inputs, now_ms) =~= head + chain_outputs(after0, rest, now_ms));
    }
}

/// Drives the filter chain: drains the fan-in buffer one packet at a
/// time, in arrival order, threads each packet through the chain, and
/// publishes every survivor to the broadcaster in that same order.
pub fn run_middleware(
    source: &mut FanInBuffer,
    chain: &mut MiddlewareChain,
    sink: &mut Broadcaster,
    now_ms: u64,
)
    requires
        old(source).wf(),
        old(chain).wf(),
        old(sink).wf(),
        old(sink).count() + old(source)@.len() <= u64::MAX,
    ensures
        final(source).wf(),
        final(chain).wf(),
        final(sink).wf(),
        final(source)@.len() == 0,
        final(source).capacity() == old(source).capacity(),
        final(source).spec_closed() == old(source).spec_closed(),
        final(sink).capacity() == old(sink).capacity(),
        final(sink).spec_closed() == old(sink).spec_closed(),
        final(chain)@ =~= chain_states_after(old(chain)@, old(source)@, now_ms),
        final(sink).history() =~= old(sink).history() + chain_outputs(
            old(chain)@,
            old(source)@,
            now_ms,
        ),
{
    let ghost src0 = source@;
    let ghost ch0 = chain@;
    let ghost hist0 = sink.history();
    let ghost mut k: int = 0;
    proof {
        assert(src0.take(0) =~= Seq::<PacketView>::empty());
        assert(src0.skip(0) =~= src0);
        assert(chain_states_after(ch0, Seq::<PacketView>::empty(), now_ms) == ch0);
        assert(chain_outputs(ch0, Seq::<PacketView>::empty(), now_ms) =~= Seq::<
            PacketView,
        >::empty());
        assert(hist0 + Seq::<PacketView>::empty() =~= hist0);
    }
    while source.len() > 0
        invariant
            source.wf(),
            chain.wf(),
            sink.wf(),
            0 <= k <= src0.len(),
            source@ =~= src0.skip(k),
            chain@ =~= chain_states_after(ch0, src0.take(k), now_ms),
            sink.history() =~= hist0 + chain_outputs(ch0, src0.take(k), now_ms),
            sink.count() == sink.history().len(),
            chain_outputs(ch0, src0.take(k), now_ms).len() <= k,
            hist0.len() + src0.len() <= u64::MAX,
            source.capacity() == old(source).capacity(),
            source.spec_closed() == old(source).spec_closed(),
            sink.capacity() == old(sink).capacity(),
            sink.spec_closed() == old(sink).spec_closed(),
        decreases source@.len(),
    {
        proof {
            assert(src0.skip(k)[0] == src0[k]);
            assert(src0.take(k + 1) =~= src0.take(k).push(src0[k]));
            lemma_chain_outputs_snoc(ch0, src0.take(k), now_ms, src0[k]);
        }
        let popped = source.pop();
        let p = popped.unwrap();
        proof {
            assert(source@ =~= src0.skip(k + 1)) by {
                assert(src0.skip(k).drop_first() =~= src0.skip(k + 1));
            }
        }
        let r = chain.run(p, now_ms);
        match r {
            Some(q) => {
                sink.publish(q);
                proof {
                    assert(sink.history() =~= hist0 + chain_outputs(
                        ch0,
                        src0.take(k + 1),
                        now_ms,
                    ));
                }
            },
            None => {
                proof {
                    assert(chain_outputs(ch0, src0.take(k + 1), now_ms) =~= chain_outputs(
                        ch0,
                        src0.take(k),
                        now_ms,
                    ));
                }
            },
        }
        proof {
            k = k + 1;
        }
    }
    proof {
        assert(k == src0.len());
        assert(src0.take(k) =~= src0);
    }
}

} // verus!
