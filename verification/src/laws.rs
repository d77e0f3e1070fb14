//! The laws of the runtime, proved from the public contracts alone.
//!
//! Each function here performs the calls its law speaks of and states the
//! law as its contract; the verifier derives it from what the runtime's
//! own contracts promise, exactly as any caller could.

use vstd::prelude::*;

use crate::runtime::EffectKey;
use crate::runtime::Host;
use crate::runtime::RtState;
use crate::runtime::Runtime;
use crate::runtime::Signal;
use crate::runtime::SignalKey;
use crate::nodes::Node;
use crate::runtime::bumped;
use crate::runtime::render_due;
use crate::runtime::render_scope;
use crate::runtime::create_memo;
use crate::runtime::create_signal;
use crate::runtime::memo_init;
use crate::runtime::quiet_write;
use crate::runtime::with_edge;
use crate::value::SignalValue;
use crate::value::Value;

verus! {

/// A write performed inside a batch window re-renders nothing and queues
/// nothing: no render pass runs and the pending-render set stays as it
/// was, until the window closes and the drain loop runs.
pub fn batched_set_defers_render<T: SignalValue, H: Host>(
    rt: &mut Runtime,
    host: &mut H,
    sig: Signal<T>,
    value: T,
)
    requires
        old(rt)@.batching,
    ensures
        final(rt)@.renders == old(rt)@.renders,
        final(rt)@.pending == old(rt)@.pending,
        final(rt)@.batching,
{
    sig.set(rt, host, value);
}

/// Writes inside one batch window accumulate in the store, last write
/// winning, and re-render nothing: after two batched writes the cell holds
/// the second value, no render pass has run, and nothing is queued beyond
/// what the writes' changes will queue when the window closes.
pub fn batched_writes_accumulate<H: Host>(
    rt: &mut Runtime,
    host: &mut H,
    sig: Signal<i32>,
    first: i32,
    second: i32,
)
    requires
        old(rt)@.batching,
        old(rt)@.signals.contains_key(sig.spec_key()),
        exists|x: i32| x.encodes(old(rt)@.signals[sig.spec_key()]),
    ensures
        second.encodes(final(rt)@.signals[sig.spec_key()]),
        final(rt)@.renders == old(rt)@.renders,
        final(rt)@.pending == old(rt)@.pending,
        final(rt)@.batching,
{
    sig.set(rt, host, first);
    sig.set(rt, host, second);
    proof {
        let k = sig.spec_key();
        let x = choose|x: i32| x.encodes(old(rt)@.signals[k]);
    }
}

/// A render of a scope that has a dependency record and no outstanding
/// relevant signal change is skipped: the tree is empty and the runtime is
/// untouched.
pub fn undue_render_is_skipped<H: Host>(rt: &mut Runtime, host: &mut H, scope: usize) -> (r: Node)
    requires
        old(rt)@.rendering_scope != scope,
        old(rt)@.scope_deps.dom().contains(scope),
        old(rt)@.changes == Set::<crate::runtime::SignalKey>::empty(),
    ensures
        r is Empty,
        final(rt)@ == old(rt)@,
{
    proof {
        assert(!render_due(old(rt)@, scope));
    }
    render_scope(rt, host, scope)
}

/// A write of a value equal to the current one (by the stored-value
/// equality) is a complete no-op: the signal is not marked changed, no
/// scope is queued, and no render or effect runs.
pub fn equal_set_changes_nothing<T: SignalValue, H: Host>(
    rt: &mut Runtime,
    host: &mut H,
    sig: Signal<T>,
    value: T,
)
    requires
        old(rt)@.signals.contains_key(sig.spec_key()) ==> value.encodes(
            old(rt)@.signals[sig.spec_key()],
        ),
    ensures
        final(rt)@ == old(rt)@,
{
    sig.set(rt, host, value);
}

/// Reading a freshly created signal returns the value it was created
/// with.
pub fn created_signal_reads_back(rt: &mut Runtime, v: i32) -> (r: i32)
    requires
        old(rt)@.current_scope matches Option::Some(c) && !old(rt)@.signals.contains_key(
            (c, bumped(old(rt)@.signal_counter, c)),
        ),
    ensures
        r == v,
{
    let sig = create_signal(rt, v);
    sig.get(rt)
}

/// A second memo lookup under the same key and scope reuses the cache:
/// the caller is not asked to run the computation again.
pub fn memo_second_lookup_skips_computation<T: SignalValue>(
    rt: &mut Runtime,
    key: &str,
    value: T,
) -> (recompute: bool)
    requires
        old(rt)@.current_scope is Some,
    ensures
        !recompute,
{
    let c: usize = match rt.get_current_scope() {
        Option::Some(c) => c,
        Option::None => vstd::pervasive::unreached(),
    };
    let ghost gvalue = value;
    let first: (Signal<T>, EffectKey, bool) = create_memo(rt, key);
    if first.2 {
        memo_init(rt, first.0, key, value);
        proof {
            let k = first.0.spec_key();
            crate::value::lemma_veq_sym(rt@.memo[(key@, c)], rt@.signals[k]);
            gvalue.encodes_respects_veq(rt@.signals[k], rt@.memo[(key@, c)]);
        }
    }
    let second: (Signal<T>, EffectKey, bool) = create_memo(rt, key);
    second.2
}

/// Appending to a list signal makes its reported length exactly one
/// longer.  Stated for a write that defers (a batch window or an executing
/// effect, no scope active), where the whole outcome is the store update.
pub fn pushed_list_reports_one_longer(
    rt: &mut Runtime,
    host: &mut impl Host,
    sig: Signal<Vec<i32>>,
    item: i32,
) -> (r: usize)
    requires
        quiet_write(old(rt)@),
        old(rt)@.signals.contains_key(sig.spec_key()),
        exists|v: Vec<i32>| v.encodes(old(rt)@.signals[sig.spec_key()]),
        old(rt)@.signals[sig.spec_key()] matches Value::List(es) && es@.len() < usize::MAX,
    ensures
        old(rt)@.signals[sig.spec_key()] matches Value::List(es) ==> r == es@.len() + 1,
{
    sig.push(rt, host, item);
    sig.len(rt)
}

/// Removing the last element of a list signal returns exactly the element
/// that was last, and in a deferring write leaves the list one shorter.
pub fn popped_value_is_previous_last(
    rt: &mut Runtime,
    host: &mut impl Host,
    sig: Signal<Vec<i32>>,
) -> (r: Option<i32>)
    requires
        quiet_write(old(rt)@),
        old(rt)@.signals.contains_key(sig.spec_key()),
        exists|v: Vec<i32>| v.encodes(old(rt)@.signals[sig.spec_key()]),
        old(rt)@.signals[sig.spec_key()] matches Value::List(es) && es@.len() > 0,
    ensures
        old(rt)@.signals[sig.spec_key()] matches Value::List(es) ==> {
            &&& r matches Option::Some(x) && x.encodes(es@.last())
            &&& final(rt)@.signals[sig.spec_key()] matches Value::List(es2) && es2@.len()
                == es@.len() - 1
        },
{
    sig.pop(rt, host)
}

/// Recording a read touches the dependency graph only at the reading
/// scope and the read signal: any edge present afterwards was either
/// present before or is exactly (reader, read signal).  This is what
/// keeps an unrelated signal's write from ever reaching a scope that
/// never read it.
pub proof fn lemma_edge_is_local(v: RtState, c: usize, k: SignalKey)
    ensures
        with_edge(v, c, k).signals == v.signals,
        with_edge(v, c, k).changes == v.changes,
        with_edge(v, c, k).pending == v.pending,
        with_edge(v, c, k).renders == v.renders,
        with_edge(v, c, k).signal_deps.dom() == v.signal_deps.dom().insert(k),
        forall|k2: SignalKey, s: usize|
            #![all_triggers]
            with_edge(v, c, k).signal_deps.dom().contains(k2) && with_edge(
                v,
                c,
                k,
            ).signal_deps[k2].contains(s) ==> ((v.signal_deps.dom().contains(k2)
                && v.signal_deps[k2].contains(s)) || (k2 == k && s == c)),
{
    assert(with_edge(v, c, k).signal_deps.dom() =~= v.signal_deps.dom().insert(k));
}

} // verus!
