//! Pipeline-wide laws: what holds of the chain's output for every input
//! sequence and every filter state.

use vstd::prelude::*;

use crate::danmaku::PacketView;
use crate::middleware::MiddlewareModel;
use crate::middleware::chain_admits;
use crate::middleware::chain_after;
use crate::middleware::chain_outputs;
use crate::middleware::chain_states_after;
use crate::middleware::lemma_chain_outputs_snoc;
use crate::middleware::matches_any;
use crate::middleware::middleware_admits;

verus! {

/// Splitting the input sequence splits the output sequence at the
/// matching filter state.
pub proof fn lemma_chain_outputs_concat(
    ms: Seq<MiddlewareModel>,
    xs: Seq<PacketView>,
    ys: Seq<PacketView>,
    now_ms: u64,
)
    ensures
        chain_states_after(ms, xs + ys, now_ms) == chain_states_after(
            chain_states_after(ms, xs, now_ms),
            ys,
            now_ms,
        ),
        chain_outputs(ms, xs + ys, now_ms) =~= chain_outputs(ms, xs, now_ms) + chain_outputs(
            chain_states_after(ms, xs, now_ms),
            ys,
            now_ms,
        ),
    decreases xs.len(),
{
    if xs.len() == 0 {
        assert(xs + ys =~= ys);
        assert(chain_states_after(ms, Seq::<PacketView>::empty(), now_ms) == ms);
        assert(chain_outputs(ms, Seq::<PacketView>::empty(), now_ms) =~= Seq::<
            PacketView,
        >::empty());
    } else {
        let after0 = chain_after(ms, xs[0], now_ms);
        assert((xs + ys)[0] == xs[0]);
        assert((xs + ys).drop_first() =~= xs.drop_first() + ys);
        lemma_chain_outputs_concat(after0, xs.drop_first(), ys, now_ms);
        let head = if chain_admits(ms, xs[0], now_ms) {
            seq![xs[0]]
        } else {
            Seq::<PacketView>::empty()
        };
        assert(chain_outputs(ms, xs + ys, now_ms) =~= head + (chain_outputs(
            after0,
            xs.drop_first(),
            now_ms,
        ) + chain_outputs(chain_states_after(ms, xs, now_ms), ys, now_ms)));
        assert(head + (chain_outputs(after0, xs.drop_first(), now_ms) + chain_outputs(
            chain_states_after(ms, xs, now_ms),
            ys,
            now_ms,
        )) =~= (head + chain_outputs(after0, xs.drop_first(), now_ms)) + chain_outputs(
            chain_states_after(ms, xs, now_ms),
            ys,
            now_ms,
        ));
        assert(chain_outputs(ms, xs, now_ms) =~= head + chain_outputs(
            after0,
            xs.drop_first(),
            now_ms,
        ));
    }
}

/// Whether the packet at input position `i` survives the whole chain,
/// given the states the chain has reached by then.
pub open spec fn survives(
    ms: Seq<MiddlewareModel>,
    inputs: Seq<PacketView>,
    now_ms: u64,
    i: int,
) -> bool {
    chain_admits(chain_states_after(ms, inputs.take(i), now_ms), inputs[i], now_ms)
}

/// The position in the chain's output at which the packet at input
/// position `i` lands when it survives.
pub open spec fn output_pos(
    ms: Seq<MiddlewareModel>,
    inputs: Seq<PacketView>,
    now_ms: u64,
    i: int,
) -> int {
    chain_outputs(ms, inputs.take(i), now_ms).len() as int
}

proof fn lemma_output_take_step(
    ms: Seq<MiddlewareModel>,
    inputs: Seq<PacketView>,
    now_ms: u64,
    i: int,
)
    requires
        0 <= i < inputs.len(),
    ensures
        chain_outputs(ms, inputs.take(i + 1), now_ms) =~= chain_outputs(
            ms,
            inputs.take(i),
            now_ms,
        ) + (if survives(ms, inputs, now_ms, i) {
            seq![inputs[i]]
        } else {
            Seq::<PacketView>::empty()
        }),
{
    assert(inputs.take(i + 1) =~= inputs.take(i).push(inputs[i]));
    lemma_chain_outputs_snoc(ms, inputs.take(i), now_ms, inputs[i]);
}

proof fn lemma_outputs_of_prefix(
    ms: Seq<MiddlewareModel>,
    inputs: Seq<PacketView>,
    now_ms: u64,
    k: int,
)
    requires
        0 <= k <= inputs.len(),
    ensures
        chain_outputs(ms, inputs, now_ms) =~= chain_outputs(ms, inputs.take(k), now_ms)
            + chain_outputs(
            chain_states_after(ms, inputs.take(k), now_ms),
            inputs.skip(k),
            now_ms,
        ),
{
    assert(inputs =~= inputs.take(k) + inputs.skip(k));
    lemma_chain_outputs_concat(ms, inputs.take(k), inputs.skip(k), now_ms);
}

proof fn lemma_output_pos_monotone(
    ms: Seq<MiddlewareModel>,
    inputs: Seq<PacketView>,
    now_ms: u64,
    a: int,
    b: int,
)
    requires
        0 <= a <= b <= inputs.len(),
    ensures
        output_pos(ms, inputs, now_ms, a) <= output_pos(ms, inputs, now_ms, b),
{
    assert(inputs.take(b) =~= inputs.take(a) + inputs.take(b).skip(a));
    lemma_chain_outputs_concat(ms, inputs.take(a), inputs.take(b).skip(a), now_ms);
}

/// A surviving packet lands in the output exactly at its output position.
proof fn lemma_output_at(ms: Seq<MiddlewareModel>, inputs: Seq<PacketView>, now_ms: u64, i: int)
    requires
        0 <= i < inputs.len(),
        survives(ms, inputs, now_ms, i),
    ensures
        0 <= output_pos(ms, inputs, now_ms, i) < chain_outputs(ms, inputs, now_ms).len(),
        chain_outputs(ms, inputs, now_ms)[output_pos(ms, inputs, now_ms, i)] == inputs[i],
        output_pos(ms, inputs, now_ms, i + 1) == output_pos(ms, inputs, now_ms, i) + 1,
{
    lemma_output_take_step(ms, inputs, now_ms, i);
    lemma_outputs_of_prefix(ms, inputs, now_ms, i + 1);
    let pos = output_pos(ms, inputs, now_ms, i);
    assert(chain_outputs(ms, inputs.take(i + 1), now_ms)[pos] == inputs[i]);
}

/// Ordering law: of two packets submitted in order to the chain, both of
/// which survive it, the first is emitted, and so published to the
/// broadcaster, strictly before the second; each lands at its output
/// position unchanged.
pub proof fn lemma_chain_preserves_order(
    ms: Seq<MiddlewareModel>,
    inputs: Seq<PacketView>,
    now_ms: u64,
    i1: int,
    i2: int,
)
    requires
        0 <= i1 < i2 < inputs.len(),
        survives(ms, inputs, now_ms, i1),
        survives(ms, inputs, now_ms, i2),
    ensures
        0 <= output_pos(ms, inputs, now_ms, i1) < output_pos(ms, inputs, now_ms, i2)
            < chain_outputs(ms, inputs, now_ms).len(),
        chain_outputs(ms, inputs, now_ms)[output_pos(ms, inputs, now_ms, i1)] == inputs[i1],
        chain_outputs(ms, inputs, now_ms)[output_pos(ms, inputs, now_ms, i2)] == inputs[i2],
{
    lemma_output_at(ms, inputs, now_ms, i1);
    lemma_output_at(ms, inputs, now_ms, i2);
    lemma_output_pos_monotone(ms, inputs, now_ms, i1 + 1, i2);
}

proof fn lemma_chain_admits_index(
    ms: Seq<MiddlewareModel>,
    p: PacketView,
    now_ms: u64,
    i: int,
)
    requires
        chain_admits(ms, p, now_ms),
        0 <= i < ms.len(),
    ensures
        middleware_admits(ms[i], p, now_ms),
    decreases ms.len(),
{
    if i > 0 {
        assert(ms.drop_first()[i - 1] == ms[i]);
        lemma_chain_admits_index(ms.drop_first(), p, now_ms, i - 1);
    }
}

proof fn lemma_chain_after_keeps_blacklist(
    ms: Seq<MiddlewareModel>,
    p: PacketView,
    now_ms: u64,
    i: int,
)
    requires
        0 <= i < ms.len(),
        ms[i] is Blacklist,
    ensures
        chain_after(ms, p, now_ms).len() == ms.len(),
        chain_after(ms, p, now_ms)[i] == ms[i],
    decreases ms.len(),
{
    lemma_chain_after_len(ms, p, now_ms);
    let rest = ms.drop_first();
    if i == 0 {
        assert(chain_after(ms, p, now_ms)[0] == ms[0]);
    } else {
        assert(rest[i - 1] == ms[i]);
        if middleware_admits(ms[0], p, now_ms) {
            lemma_chain_after_keeps_blacklist(rest, p, now_ms, i - 1);
            assert(chain_after(ms, p, now_ms)[i] == chain_after(rest, p, now_ms)[i - 1]);
        } else {
            assert(chain_after(ms, p, now_ms)[i] == rest[i - 1]);
        }
    }
}

proof fn lemma_chain_after_len(ms: Seq<MiddlewareModel>, p: PacketView, now_ms: u64)
    ensures
        chain_after(ms, p, now_ms).len() == ms.len(),
    decreases ms.len(),
{
    if ms.len() > 0 {
        lemma_chain_after_len(ms.drop_first(), p, now_ms);
    }
}

proof fn lemma_states_keep_blacklist(
    ms: Seq<MiddlewareModel>,
    inputs: Seq<PacketView>,
    now_ms: u64,
    i: int,
)
    requires
        0 <= i < ms.len(),
        ms[i] is Blacklist,
    ensures
        chain_states_after(ms, inputs, now_ms).len() == ms.len(),
        chain_states_after(ms, inputs, now_ms)[i] == ms[i],
    decreases inputs.len(),
{
    if inputs.len() > 0 {
        lemma_chain_after_keeps_blacklist(ms, inputs[0], now_ms, i);
        lemma_states_keep_blacklist(
            chain_after(ms, inputs[0], now_ms),
            inputs.drop_first(),
            now_ms,
            i,
        );
    }
}

/// Blacklist law: when one of the chain's filters is the blacklist built
/// from `patterns`, no packet whose text matches one of those patterns
/// ever appears in the chain's output, whatever the other filters and
/// the input order; so no subscriber ever observes it.
pub proof fn lemma_blacklist_never_published(
    ms: Seq<MiddlewareModel>,
    inputs: Seq<PacketView>,
    now_ms: u64,
    i: int,
    patterns: Seq<Seq<char>>,
    j: int,
)
    requires
        0 <= i < ms.len(),
        ms[i] == (MiddlewareModel::Blacklist { patterns }),
        0 <= j < chain_outputs(ms, inputs, now_ms).len(),
    ensures
        !matches_any(patterns, chain_outputs(ms, inputs, now_ms)[j].danmaku.text),
    decreases inputs.len(),
{
    let out = chain_outputs(ms, inputs, now_ms);
    let after0 = chain_after(ms, inputs[0], now_ms);
    let rest = inputs.drop_first();
    lemma_chain_after_keeps_blacklist(ms, inputs[0], now_ms, i);
    if chain_admits(ms, inputs[0], now_ms) {
        if j == 0 {
            lemma_chain_admits_index(ms, inputs[0], now_ms, i);
            assert(out[0] == inputs[0]);
        } else {
            assert(out[j] == chain_outputs(after0, rest, now_ms)[j - 1]);
            lemma_blacklist_never_published(after0, rest, now_ms, i, patterns, j - 1);
        }
    } else {
        assert(out[j] == chain_outputs(after0, rest, now_ms)[j]);
        lemma_blacklist_never_published(after0, rest, now_ms, i, patterns, j);
    }
}

} // verus!
