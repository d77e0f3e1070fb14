//! The reactive runtime: signal store, dependency graph, scope and effect
//! registries, and the batching/drain scheduler.
//!
//! The runtime is one explicit object owning every table.  Reading a signal
//! while a scope renders records a dependency edge; writing a signal records
//! a change and either re-renders the owning scope at once or defers to the
//! drain loop.  Render bodies, effect bodies, and post-render callbacks are
//! supplied by the caller through the [`Host`] trait and dispatched by id.

use vstd::prelude::*;
use vstd::multiset::Multiset;

use crate::nodes::Node;
use crate::nodes::usize_to_string;
use crate::store::Table;
use crate::value::SignalValue;
use crate::value::Value;
use crate::value::value_clone;
use crate::value::value_eq;
use crate::value::veq;

verus! {

broadcast use vstd::seq_lib::group_to_multiset_ensures;

/// A signal key: the owning scope's id and the signal's ordinal within it.
pub type SignalKey = (usize, usize);

/// An effect key: the owning scope's id and the effect's ordinal within it.
pub type EffectKey = (usize, usize);

/// How the drain loop is capped: after this many re-renders in one wave,
/// propagation stops and the overrun counter is raised.
pub const MAX_DRAIN_ITERATIONS: usize = 100;

/// What kind of work a registered effect stands for.
#[derive(Clone, Copy)]
pub enum EffectKind {
    /// A host-run side effect.
    User,
    /// A host-run side effect holding a cleanup between runs.
    UserWithCleanup,
    /// The resource driver: reads the status signal and, when it is idle or
    /// pending, marks it loading and asks the host to start the fetch.
    ResourceDriver { status: SignalKey, value: SignalKey },
}

/// The runtime's abstract state: what every contract speaks of.
#[verifier::ext_equal]
pub struct RtState {
    /// The scope that is the current execution context, if any.
    pub current_scope: Option<usize>,
    /// The scope currently mid-render; `0` means none.
    pub rendering_scope: usize,
    /// The id the next created scope receives.
    pub next_scope_id: usize,
    /// Whether writes are being batched.
    pub batching: bool,
    /// The signal store: current value per signal key.
    pub signals: Map<SignalKey, Value>,
    /// Signal keys written (with an unequal value) and not yet propagated.
    pub changes: Set<SignalKey>,
    /// Which signals each scope read during its last render.
    pub scope_deps: Map<usize, Set<SignalKey>>,
    /// Which scopes read each signal.
    pub signal_deps: Map<SignalKey, Set<usize>>,
    /// Scopes queued for re-render.
    pub pending: Set<usize>,
    /// Effects currently executing (reentrancy guard).
    pub executing: Set<EffectKey>,
    /// Registered effects.
    pub effects: Map<EffectKey, EffectKind>,
    /// The highest effect ordinal ever registered per scope.
    pub effect_high: Map<usize, usize>,
    /// Cleanup-carrying effects whose previous run left a cleanup.
    pub cleanup_ready: Set<EffectKey>,
    /// Scopes registered with the host (their render bodies exist).
    pub scopes: Set<usize>,
    /// Per-scope ordinal counter for signal creation.
    pub signal_counter: Map<usize, usize>,
    /// Per-scope ordinal counter for effect creation.
    pub effect_counter: Map<usize, usize>,
    /// The memo cache: cached value per (key, scope).
    pub memo: Map<(Seq<char>, usize), Value>,
    /// How many render passes have begun.
    pub renders: usize,
    /// How many times the drain loop hit its iteration cap.
    pub overruns: usize,
}

/// The reactive runtime.  See the crate docs for the moving parts.
pub struct Runtime {
    current_scope: Option<usize>,
    rendering_scope: usize,
    next_scope_id: usize,
    batching: bool,
    signals: Table<Value>,
    signal_changes: Table<()>,
    scope_deps: Table<Table<()>>,
    signal_deps: Table<Table<()>>,
    pending: Table<()>,
    executing_effects: Table<()>,
    effects: Table<EffectKind>,
    effect_high: Table<usize>,
    cleanup_ready: Table<()>,
    scopes: Table<()>,
    signal_counters: Table<usize>,
    effect_counters: Table<usize>,
    memo: MemoTable,
    renders: usize,
    overruns: usize,
}

/// The key under which a scope id is stored in a `(usize, usize)`-keyed
/// table.
pub open spec fn skey(s: usize) -> (usize, usize) {
    (s, 0)
}

impl Runtime {
    /// The abstract state.
    pub closed spec fn view(&self) -> RtState {
        RtState {
            current_scope: self.current_scope,
            rendering_scope: self.rendering_scope,
            next_scope_id: self.next_scope_id,
            batching: self.batching,
            signals: Map::new(
                |k: SignalKey| self.signals.contains_key(k),
                |k: SignalKey| self.signals.value_at(k),
            ),
            changes: Set::new(|k: SignalKey| self.signal_changes.contains_key(k)),
            scope_deps: Map::new(
                |s: usize| self.scope_deps.contains_key(skey(s)),
                |s: usize| Set::new(|k: SignalKey| self.scope_deps.value_at(skey(s)).contains_key(k)),
            ),
            signal_deps: Map::new(
                |k: SignalKey| self.signal_deps.contains_key(k),
                |k: SignalKey| Set::new(|s: usize| self.signal_deps.value_at(k).contains_key(skey(s))),
            ),
            pending: Set::new(|s: usize| self.pending.contains_key(skey(s))),
            executing: Set::new(|e: EffectKey| self.executing_effects.contains_key(e)),
            effects: Map::new(
                |e: EffectKey| self.effects.contains_key(e),
                |e: EffectKey| self.effects.value_at(e),
            ),
            effect_high: Map::new(
                |s: usize| self.effect_high.contains_key(skey(s)),
                |s: usize| self.effect_high.value_at(skey(s)),
            ),
            cleanup_ready: Set::new(|e: EffectKey| self.cleanup_ready.contains_key(e)),
            scopes: Set::new(|s: usize| self.scopes.contains_key(skey(s))),
            signal_counter: Map::new(
                |s: usize| self.signal_counters.contains_key(skey(s)),
                |s: usize| self.signal_counters.value_at(skey(s)),
            ),
            effect_counter: Map::new(
                |s: usize| self.effect_counters.contains_key(skey(s)),
                |s: usize| self.effect_counters.value_at(skey(s)),
            ),
            memo: self.memo.view(),
            renders: self.renders,
            overruns: self.overruns,
        }
    }

    /// A fresh runtime: no scopes, no signals, nothing queued.
    pub fn new() -> (r: Self)
        ensures
            r@ == rt_empty(),
    {
        let r = Runtime {
            current_scope: Option::None,
            rendering_scope: 0,
            next_scope_id: 1,
            batching: false,
            signals: Table::new(),
            signal_changes: Table::new(),
            scope_deps: Table::new(),
            signal_deps: Table::new(),
            pending: Table::new(),
            executing_effects: Table::new(),
            effects: Table::new(),
            effect_high: Table::new(),
            cleanup_ready: Table::new(),
            scopes: Table::new(),
            signal_counters: Table::new(),
            effect_counters: Table::new(),
            memo: MemoTable::new(),
            renders: 0,
            overruns: 0,
        };
        proof {
            assert(r@.signals =~= rt_empty().signals);
            assert(r@.changes =~= rt_empty().changes);
            assert(r@.scope_deps =~= rt_empty().scope_deps);
            assert(r@.signal_deps =~= rt_empty().signal_deps);
            assert(r@.pending =~= rt_empty().pending);
            assert(r@.executing =~= rt_empty().executing);
            assert(r@.effects =~= rt_empty().effects);
            assert(r@.effect_high =~= rt_empty().effect_high);
            assert(r@.cleanup_ready =~= rt_empty().cleanup_ready);
            assert(r@.scopes =~= rt_empty().scopes);
            assert(r@.signal_counter =~= rt_empty().signal_counter);
            assert(r@.effect_counter =~= rt_empty().effect_counter);
            assert(r@.memo =~= rt_empty().memo);
            assert(r@ =~= rt_empty());
        }
        r
    }

    /// The scope that is the current execution context, if any.
    pub fn get_current_scope(&self) -> (r: Option<usize>)
        ensures
            r == self@.current_scope,
    {
        self.current_scope
    }

    /// Whether writes are currently batched.
    pub fn is_batching(&self) -> (r: bool)
        ensures
            r == self@.batching,
    {
        self.batching
    }

    /// How many render passes have begun.
    pub fn render_count(&self) -> (r: usize)
        ensures
            r == self@.renders,
    {
        self.renders
    }

    /// How many times the drain loop hit its iteration cap and gave up.
    pub fn overrun_count(&self) -> (r: usize)
        ensures
            r == self@.overruns,
    {
        self.overruns
    }
}

/// The abstract state of a fresh runtime.
pub open spec fn rt_empty() -> RtState {
    RtState {
        current_scope: Option::None,
        rendering_scope: 0,
        next_scope_id: 1,
        batching: false,
        signals: Map::empty(),
        changes: Set::empty(),
        scope_deps: Map::empty(),
        signal_deps: Map::empty(),
        pending: Set::empty(),
        executing: Set::empty(),
        effects: Map::empty(),
        effect_high: Map::empty(),
        cleanup_ready: Set::empty(),
        scopes: Set::empty(),
        signal_counter: Map::empty(),
        effect_counter: Map::empty(),
        memo: Map::empty(),
        renders: 0,
        overruns: 0,
    }
}

/// A typed handle to one signal cell: the key, and nothing else.  Copying
/// the handle never copies the value; a handle whose cell is gone or holds
/// another shape reads as "no value".
pub struct Signal<T> {
    scope: usize,
    id: usize,
    marker: core::marker::PhantomData<T>,
}

impl<T> Signal<T> {
    /// The signal key this handle stands for.
    pub closed spec fn spec_key(&self) -> SignalKey {
        (self.scope, self.id)
    }

    /// The signal key this handle stands for.
    pub fn key(&self) -> (r: SignalKey)
        ensures
            r == self.spec_key(),
    {
        (self.scope, self.id)
    }
}

impl<T> Clone for Signal<T> {
    fn clone(&self) -> (r: Self)
        ensures
            r.spec_key() == self.spec_key(),
    {
        Signal { scope: self.scope, id: self.id, marker: core::marker::PhantomData }
    }
}

impl<T> Copy for Signal<T> {

}

/// The next value of a per-scope ordinal counter.
pub open spec fn bumped(m: Map<usize, usize>, s: usize) -> usize {
    if m.dom().contains(s) {
        if m[s] < usize::MAX {
            (m[s] + 1) as usize
        } else {
            m[s]
        }
    } else {
        1
    }
}

/// The state after recording that scope `c` read signal `k`.
pub open spec fn with_edge(v: RtState, c: usize, k: SignalKey) -> RtState {
    RtState {
        scope_deps: v.scope_deps.insert(
            c,
            if v.scope_deps.dom().contains(c) {
                v.scope_deps[c].insert(k)
            } else {
                set![k]
            },
        ),
        signal_deps: v.signal_deps.insert(
            k,
            if v.signal_deps.dom().contains(k) {
                v.signal_deps[k].insert(c)
            } else {
                set![c]
            },
        ),
        ..v
    }
}

impl Runtime {
    /// Assigns the next signal ordinal for `scope`.
    fn get_next_signal_id_for_scope(&mut self, scope: usize) -> (r: usize)
        ensures
            r == bumped(old(self)@.signal_counter, scope),
            final(self)@ == (RtState {
                signal_counter: old(self)@.signal_counter.insert(scope, r),
                ..old(self)@
            }),
    {
        let cur: usize = match self.signal_counters.get(skey_exec(scope)) {
            Option::Some(c) => *c,
            Option::None => 0,
        };
        let next: usize = if cur < usize::MAX {
            cur + 1
        } else {
            cur
        };
        self.signal_counters.insert(skey_exec(scope), next);
        proof {
            assert(self@.signal_counter =~= old(self)@.signal_counter.insert(scope, next));
            assert(self@ =~~= RtState {
                signal_counter: old(self)@.signal_counter.insert(scope, next),
                ..old(self)@
            });
        }
        next
    }

    /// Assigns the next effect ordinal for `scope`.
    fn get_next_effect_id_for_scope(&mut self, scope: usize) -> (r: usize)
        ensures
            r == bumped(old(self)@.effect_counter, scope),
            final(self)@ == (RtState {
                effect_counter: old(self)@.effect_counter.insert(scope, r),
                ..old(self)@
            }),
    {
        let cur: usize = match self.effect_counters.get(skey_exec(scope)) {
            Option::Some(c) => *c,
            Option::None => 0,
        };
        let next: usize = if cur < usize::MAX {
            cur + 1
        } else {
            cur
        };
        self.effect_counters.insert(skey_exec(scope), next);
        proof {
            assert(self@.effect_counter =~= old(self)@.effect_counter.insert(scope, next));
            assert(self@ =~~= RtState {
                effect_counter: old(self)@.effect_counter.insert(scope, next),
                ..old(self)@
            });
        }
        next
    }

    /// Forgets the signal ordinal counter of `scope`, so the next render
    /// reproduces the same id sequence.
    fn reset_signal_counters(&mut self, scope: usize)
        ensures
            final(self)@ == (RtState {
                signal_counter: old(self)@.signal_counter.remove(scope),
                ..old(self)@
            }),
    {
        self.signal_counters.remove(skey_exec(scope));
        proof {
            assert(self@.signal_counter =~= old(self)@.signal_counter.remove(scope));
            assert(self@ =~~= RtState {
                signal_counter: old(self)@.signal_counter.remove(scope),
                ..old(self)@
            });
        }
    }

    /// Forgets the effect ordinal counter of `scope`.
    fn reset_effect_counters(&mut self, scope: usize)
        ensures
            final(self)@ == (RtState {
                effect_counter: old(self)@.effect_counter.remove(scope),
                ..old(self)@
            }),
    {
        self.effect_counters.remove(skey_exec(scope));
        proof {
            assert(self@.effect_counter =~= old(self)@.effect_counter.remove(scope));
            assert(self@ =~~= RtState {
                effect_counter: old(self)@.effect_counter.remove(scope),
                ..old(self)@
            });
        }
    }

    /// Records that the current scope (if any) read `k`.
    fn register_dependency(&mut self, k: SignalKey)
        ensures
            final(self)@ == (match old(self)@.current_scope {
                Option::Some(c) => with_edge(old(self)@, c, k),
                Option::None => old(self)@,
            }),
    {
        let c: usize = match self.current_scope {
            Option::Some(c) => c,
            Option::None => {
                return ;
            },
        };
        let mut dep_scopes: Table<()> = match self.signal_deps.take(k) {
            Option::Some(t) => t,
            Option::None => Table::new(),
        };
        dep_scopes.insert(skey_exec(c), ());
        self.signal_deps.insert(k, dep_scopes);
        let mut dep_keys: Table<()> = match self.scope_deps.take(skey_exec(c)) {
            Option::Some(t) => t,
            Option::None => Table::new(),
        };
        dep_keys.insert(k, ());
        self.scope_deps.insert(skey_exec(c), dep_keys);
        proof {
            let t = with_edge(old(self)@, c, k);
            assert forall|k2: SignalKey| #[trigger] self@.signal_deps.dom().contains(k2)
                == t.signal_deps.dom().contains(k2) && (t.signal_deps.dom().contains(k2)
                ==> self@.signal_deps[k2] =~= t.signal_deps[k2]) by {}
            assert(self@.signal_deps =~~= t.signal_deps);
            assert forall|s2: usize| #[trigger] self@.scope_deps.dom().contains(s2)
                == t.scope_deps.dom().contains(s2) && (t.scope_deps.dom().contains(s2)
                ==> self@.scope_deps[s2] =~= t.scope_deps[s2]) by {}
            assert(self@.scope_deps =~~= t.scope_deps);
            assert(self@ =~~= t);
        }
    }

    /// Writes `v` into the cell `k` if the cell exists and holds an unequal
    /// value; a write of an equal value, or to a missing cell, changes
    /// nothing at all.
    fn write_signal(&mut self, k: SignalKey, v: Value) -> (changed: bool)
        ensures
            changed == (old(self)@.signals.contains_key(k) && !veq(old(self)@.signals[k], v)),
            changed ==> final(self)@ == (RtState {
                signals: old(self)@.signals.insert(k, v),
                changes: old(self)@.changes.insert(k),
                ..old(self)@
            }),
            !changed ==> final(self)@ == old(self)@,
    {
        let is_changed: bool = match self.signals.get(k) {
            Option::Some(cur) => !value_eq(cur, &v),
            Option::None => false,
        };
        if is_changed {
            self.signals.insert(k, v);
            self.signal_changes.insert(k, ());
            proof {
                assert(self@.signals =~= old(self)@.signals.insert(k, v));
                assert(self@.changes =~= old(self)@.changes.insert(k));
                assert(self@ =~~= RtState {
                    signals: old(self)@.signals.insert(k, v),
                    changes: old(self)@.changes.insert(k),
                    ..old(self)@
                });
            }
        }
        is_changed
    }
}

/// Creates a signal in the current scope, bound to the next ordinal id.
/// If the cell already exists (the scope is re-rendering and the id
/// sequence repeats), the existing value is preserved and `initial` is
/// dropped.
pub fn create_signal<T: SignalValue>(rt: &mut Runtime, initial: T) -> (r: Signal<T>)
    requires
        old(rt)@.current_scope is Some,
    ensures
        old(rt)@.current_scope matches Option::Some(c) ==> {
            &&& r.spec_key() == (c, bumped(old(rt)@.signal_counter, c))
            &&& final(rt)@.signals.dom() == old(rt)@.signals.dom().insert(r.spec_key())
            &&& (old(rt)@.signals.contains_key(r.spec_key()) ==> final(rt)@ == (RtState {
                signal_counter: old(rt)@.signal_counter.insert(
                    c,
                    bumped(old(rt)@.signal_counter, c),
                ),
                ..old(rt)@
            }))
            &&& (!old(rt)@.signals.contains_key(r.spec_key()) ==> {
                &&& initial.encodes(final(rt)@.signals[r.spec_key()])
                &&& final(rt)@ == (RtState {
                    signals: old(rt)@.signals.insert(
                        r.spec_key(),
                        final(rt)@.signals[r.spec_key()],
                    ),
                    signal_counter: old(rt)@.signal_counter.insert(
                        c,
                        bumped(old(rt)@.signal_counter, c),
                    ),
                    ..old(rt)@
                })
            })
        },
{
    let c: usize = match rt.get_current_scope() {
        Option::Some(c) => c,
        Option::None => vstd::pervasive::unreached(),
    };
    let id = rt.get_next_signal_id_for_scope(c);
    let k = (c, id);
    let sig = Signal { scope: c, id, marker: core::marker::PhantomData };
    if !rt.signals.contains(k) {
        let v = initial.into_value();
        rt.signals.insert(k, v);
        proof {
            assert(rt@.signals.dom() =~= old(rt)@.signals.dom().insert(k));
            assert(rt@.signals =~= old(rt)@.signals.insert(k, rt@.signals[k]));
            assert(rt@ =~~= RtState {
                signals: old(rt)@.signals.insert(k, rt@.signals[k]),
                signal_counter: old(rt)@.signal_counter.insert(
                    c,
                    bumped(old(rt)@.signal_counter, c),
                ),
                ..old(rt)@
            });
        }
    } else {
        proof {
            assert(rt@.signals.dom() =~= old(rt)@.signals.dom().insert(k));
        }
    }
    sig
}

/// The host: render bodies, post-render callbacks, effect bodies, effect
/// cleanups, and the async-executor hand-off.  The runtime stores only ids;
/// the behavior behind each id lives in the host and is dispatched through
/// these methods.  The runtime assumes nothing about what a host method
/// does to it: every guarantee the runtime states is proved against an
/// arbitrary host.
pub trait Host {
    /// Runs the render body of `scope` and returns its tree.
    fn render(&mut self, rt: &mut Runtime, scope: usize) -> Node;

    /// Receives the tree a render of `scope` produced.
    fn on_render(&mut self, rt: &mut Runtime, scope: usize, node: &Node);

    /// Runs effect `effect` of `scope`; a cleanup-carrying effect stores
    /// its new cleanup here.
    fn effect(&mut self, rt: &mut Runtime, scope: usize, effect: usize);

    /// Runs the cleanup that the previous run of effect `effect` left.
    fn cleanup(&mut self, rt: &mut Runtime, scope: usize, effect: usize);

    /// Hands the fetch task of a resource to the async executor.  On
    /// completion the executor writes the payload into the value signal and
    /// resolves the status signal.
    fn fetch(&mut self, rt: &mut Runtime, scope: usize, effect: usize);
}

/// Whether the outstanding change of signal `k` is relevant to `scope`:
/// the signal belongs to the scope, or the scope depends on it.
pub open spec fn change_relevant(v: RtState, k: SignalKey, scope: usize) -> bool {
    v.changes.contains(k) && (k.0 == scope || (v.signal_deps.dom().contains(k)
        && v.signal_deps[k].contains(scope)))
}

/// The scopes a change-consuming step queues: every scope, other than the
/// excluded one, that depends on some signal with an outstanding change.
pub open spec fn queued_dependents(v: RtState, exclude: Option<usize>) -> Set<usize> {
    Set::new(
        |s: usize|
            exclude != Option::Some(s) && exists|k: SignalKey|
                #[trigger] v.changes.contains(k) && v.signal_deps.dom().contains(k)
                    && v.signal_deps[k].contains(s),
    )
}

/// Whether a render of `scope` is due: it never rendered (no dependency
/// record), or some outstanding signal change is relevant to it.
pub open spec fn render_due(v: RtState, scope: usize) -> bool {
    !v.scope_deps.dom().contains(scope) || exists|k: SignalKey|
        #[trigger] change_relevant(v, k, scope)
}

/// `render_due` reads only the dependency records and the change set.
proof fn lemma_render_due_same(a: RtState, b: RtState, scope: usize)
    requires
        a.scope_deps == b.scope_deps,
        a.changes == b.changes,
        a.signal_deps == b.signal_deps,
    ensures
        render_due(a, scope) == render_due(b, scope),
{
    if render_due(a, scope) && a.scope_deps.dom().contains(scope) {
        let k = choose|k: SignalKey| #[trigger] change_relevant(a, k, scope);
        assert(change_relevant(b, k, scope));
    }
    if render_due(b, scope) && b.scope_deps.dom().contains(scope) {
        let k = choose|k: SignalKey| #[trigger] change_relevant(b, k, scope);
        assert(change_relevant(a, k, scope));
    }
}

/// The next value of a per-scope effect high-water mark.
pub open spec fn raised(m: Map<usize, usize>, s: usize, id: usize) -> usize {
    if m.dom().contains(s) && m[s] >= id {
        m[s]
    } else {
        id
    }
}

impl Runtime {
    /// Registers an effect of the given kind under the next effect ordinal
    /// of the current scope.
    fn register_effect(&mut self, kind: EffectKind) -> (r: EffectKey)
        requires
            old(self)@.current_scope is Some,
        ensures
            old(self)@.current_scope matches Option::Some(c) ==> {
                &&& r == (c, bumped(old(self)@.effect_counter, c))
                &&& final(self)@ == (RtState {
                    effects: old(self)@.effects.insert(r, kind),
                    effect_high: old(self)@.effect_high.insert(
                        c,
                        raised(old(self)@.effect_high, c, r.1),
                    ),
                    effect_counter: old(self)@.effect_counter.insert(c, r.1),
                    ..old(self)@
                })
            },
    {
        let c: usize = match self.get_current_scope() {
            Option::Some(c) => c,
            Option::None => vstd::pervasive::unreached(),
        };
        let id = self.get_next_effect_id_for_scope(c);
        let ek = (c, id);
        self.effects.insert(ek, kind);
        let high: usize = match self.effect_high.get(skey_exec(c)) {
            Option::Some(h) => {
                if *h >= id {
                    *h
                } else {
                    id
                }
            },
            Option::None => id,
        };
        self.effect_high.insert(skey_exec(c), high);
        proof {
            assert(self@.effects =~= old(self)@.effects.insert(ek, kind));
            assert(self@.effect_high =~= old(self)@.effect_high.insert(
                c,
                raised(old(self)@.effect_high, c, id),
            ));
            assert(self@ =~~= (RtState {
                effects: old(self)@.effects.insert(ek, kind),
                effect_high: old(self)@.effect_high.insert(
                    c,
                    raised(old(self)@.effect_high, c, id),
                ),
                effect_counter: old(self)@.effect_counter.insert(c, id),
                ..old(self)@
            }));
        }
        ek
    }

    /// Whether some effect is currently executing.
    fn any_effect_executing(&self) -> (r: bool)
        ensures
            r == (self@.executing != Set::<EffectKey>::empty()),
    {
        let empty = self.executing_effects.is_empty();
        proof {
            if empty {
                assert(self@.executing =~= Set::<EffectKey>::empty());
            } else {
                let e = choose|e: EffectKey| self.executing_effects.contains_key(e);
                assert(self@.executing.contains(e));
            }
        }
        !empty
    }

    /// Whether a render of `scope` is due: always on the first render (no
    /// dependency record yet); afterwards only while an outstanding signal
    /// change is relevant to the scope — a change of one of the scope's own
    /// signals, or of a signal the scope depends on.  A scope queued by the
    /// drain loop had its relevance established when it was queued, so the
    /// drain renders it without re-asking.
    pub fn scope_has_signal_changes(&self, scope: usize) -> (r: bool)
        ensures
            r == render_due(self@, scope),
    {
        if !self.scope_deps.contains(skey_exec(scope)) {
            return true;
        }
        let keys = self.signal_changes.keys();
        let n: usize = keys.len();
        let mut i: usize = 0;
        while i < n
            invariant
                i <= n,
                n == keys@.len(),
                forall|j: int| 0 <= j < keys@.len() ==> self.signal_changes.contains_key(
                    #[trigger] keys@[j],
                ),
                forall|k: SignalKey|
                    self.signal_changes.contains_key(k) ==> exists|j: int|
                        0 <= j < keys@.len() && keys@[j] == k,
                forall|j: int|
                    0 <= j < i ==> !change_relevant(self@, #[trigger] keys@[j], scope),
            decreases n - i,
        {
            let k = keys[i];
            if k.0 == scope {
                proof {
                    assert(self@.changes.contains(keys@[i as int]));
                    assert(change_relevant(self@, keys@[i as int], scope));
                }
                return true;
            }
            let depends = match self.signal_deps.get(k) {
                Option::Some(t) => t.contains(skey_exec(scope)),
                Option::None => false,
            };
            if depends {
                proof {
                    assert(self@.changes.contains(keys@[i as int]));
                    assert(self@.signal_deps.dom().contains(keys@[i as int])
                        && self@.signal_deps[keys@[i as int]].contains(scope));
                    assert(change_relevant(self@, keys@[i as int], scope));
                }
                return true;
            }
            i += 1;
        }
        proof {
            assert forall|k: SignalKey| self@.changes.contains(k) implies !change_relevant(
                self@,
                k,
                scope,
            ) by {
                let j = choose|j: int| 0 <= j < keys@.len() && keys@[j] == k;
                assert(!change_relevant(self@, keys@[j], scope));
            }
        }
        false
    }

    /// Makes `scope` the current execution context.
    fn set_current_scope(&mut self, scope: Option<usize>)
        ensures
            final(self)@ == (RtState { current_scope: scope, ..old(self)@ }),
    {
        self.current_scope = scope;
        proof {
            assert(self@ =~~= (RtState { current_scope: scope, ..old(self)@ }));
        }
    }
}

/// Registers a side effect in the current scope and returns its key; the
/// host runs its body whenever the scope's render completes.
pub fn create_effect(rt: &mut Runtime) -> (r: EffectKey)
    requires
        old(rt)@.current_scope is Some,
    ensures
        old(rt)@.current_scope matches Option::Some(c) ==> {
            &&& r == (c, bumped(old(rt)@.effect_counter, c))
            &&& final(rt)@ == (RtState {
                effects: old(rt)@.effects.insert(r, EffectKind::User),
                effect_high: old(rt)@.effect_high.insert(
                    c,
                    raised(old(rt)@.effect_high, c, r.1),
                ),
                effect_counter: old(rt)@.effect_counter.insert(c, r.1),
                ..old(rt)@
            })
        },
{
    rt.register_effect(EffectKind::User)
}

/// Registers a cleanup-carrying side effect in the current scope and
/// returns its key.  Before each re-run the host is asked to run the
/// cleanup left by the previous run.
pub fn create_effect_with_cleanup(rt: &mut Runtime) -> (r: EffectKey)
    requires
        old(rt)@.current_scope is Some,
    ensures
        old(rt)@.current_scope matches Option::Some(c) ==> {
            &&& r == (c, bumped(old(rt)@.effect_counter, c))
            &&& final(rt)@ == (RtState {
                effects: old(rt)@.effects.insert(r, EffectKind::UserWithCleanup),
                effect_high: old(rt)@.effect_high.insert(
                    c,
                    raised(old(rt)@.effect_high, c, r.1),
                ),
                effect_counter: old(rt)@.effect_counter.insert(c, r.1),
                ..old(rt)@
            })
        },
{
    rt.register_effect(EffectKind::UserWithCleanup)
}

/// The idle-or-pending test of the resource driver.
pub open spec fn fetch_wanted(stored: Value) -> bool {
    crate::value::ResourceStatus::Idle.encodes(stored)
        || crate::value::ResourceStatus::Pending.encodes(stored)
}

/// The decision step of the resource driver: reads the status cell and,
/// when it holds idle or pending, marks it loading and reports that a
/// fetch must be started.  Anything else — loading, resolved, a missing or
/// mismatched cell — leaves the store untouched and starts nothing.
fn drive_resource(rt: &mut Runtime, status: SignalKey) -> (fetch: bool)
    ensures
        fetch == (old(rt)@.signals.contains_key(status) && fetch_wanted(
            old(rt)@.signals[status],
        )),
        fetch ==> crate::value::ResourceStatus::Loading.encodes(final(rt)@.signals[status])
            && final(rt)@ == (RtState {
            signals: old(rt)@.signals.insert(status, final(rt)@.signals[status]),
            changes: old(rt)@.changes.insert(status),
            ..old(rt)@
        }),
        !fetch ==> final(rt)@ == old(rt)@,
{
    let st: Option<crate::value::ResourceStatus> = match rt.signals.get(status) {
        Option::Some(v) => crate::value::ResourceStatus::from_value(v),
        Option::None => Option::None,
    };
    match st {
        Option::Some(crate::value::ResourceStatus::Idle)
        | Option::Some(crate::value::ResourceStatus::Pending) => {
            let changed = rt.write_signal(
                status,
                crate::value::ResourceStatus::Loading.into_value(),
            );
            proof {
                assert(changed);
            }
            true
        },
        _ => {
            proof {
                if rt@.signals.contains_key(status) && fetch_wanted(rt@.signals[status]) {
                    assert(false);
                }
            }
            false
        },
    }
}

/// Runs the effects registered for `scope`, in creation order, once each.
/// An effect already executing is skipped (the reentrancy guard); a
/// cleanup-carrying effect has its previous cleanup run first and a new
/// one recorded after; a resource driver takes its decision through
/// [`drive_resource`] and hands the fetch to the host.  The execution
/// context markers are restored when the pass is over.
pub fn run_scope_effects<H: Host>(rt: &mut Runtime, host: &mut H, scope: usize)
    ensures
        final(rt)@.current_scope == old(rt)@.current_scope,
        final(rt)@.rendering_scope == old(rt)@.rendering_scope,
{
    let saved_current = rt.current_scope;
    let saved_rendering = rt.rendering_scope;
    let high: usize = match rt.effect_high.get(skey_exec(scope)) {
        Option::Some(h) => *h,
        Option::None => 0,
    };
    let mut e: usize = 1;
    while e <= high && e < usize::MAX
        decreases high + 1 - e,
    {
        let ek = (scope, e);
        let kind: Option<EffectKind> = match rt.effects.get(ek) {
            Option::Some(k) => Option::Some(*k),
            Option::None => Option::None,
        };
        let running = rt.executing_effects.contains(ek);
        if !running {
            match kind {
                Option::None => {},
                Option::Some(EffectKind::User) => {
                    rt.executing_effects.insert(ek, ());
                    host.effect(rt, scope, e);
                    rt.executing_effects.remove(ek);
                },
                Option::Some(EffectKind::UserWithCleanup) => {
                    rt.executing_effects.insert(ek, ());
                    let had_cleanup = rt.cleanup_ready.contains(ek);
                    if had_cleanup {
                        rt.cleanup_ready.remove(ek);
                        host.cleanup(rt, scope, e);
                    }
                    host.effect(rt, scope, e);
                    rt.cleanup_ready.insert(ek, ());
                    rt.executing_effects.remove(ek);
                },
                Option::Some(EffectKind::ResourceDriver { status, value: _ }) => {
                    rt.executing_effects.insert(ek, ());
                    rt.register_dependency(status);
                    let fetch = drive_resource(rt, status);
                    if fetch {
                        host.fetch(rt, scope, e);
                    }
                    rt.executing_effects.remove(ek);
                },
            }
        }
        e += 1;
    }
    rt.set_current_scope(saved_current);
    rt.rendering_scope = saved_rendering;
}

/// The state a render body is invoked in: the scope is the current
/// execution context and the one mid-render, the render counter is up,
/// the changes belonging to the scope are cleared, and — on a top-level
/// render only — the scope's dependency edges are cleared in both
/// directions, so the body rebuilds a fresh set.
pub open spec fn render_setup(v: RtState, scope: usize) -> RtState {
    RtState {
        current_scope: Option::Some(scope),
        rendering_scope: scope,
        renders: if v.renders < usize::MAX {
            (v.renders + 1) as usize
        } else {
            v.renders
        },
        changes: Set::new(|k: SignalKey| v.changes.contains(k) && k.0 != scope),
        scope_deps: if v.rendering_scope == 0 {
            v.scope_deps.remove(scope)
        } else {
            v.scope_deps
        },
        signal_deps: if v.rendering_scope == 0 {
            Map::new(
                |k: SignalKey| v.signal_deps.dom().contains(k),
                |k: SignalKey|
                    if v.scope_deps.dom().contains(scope) && v.scope_deps[scope].contains(k) {
                        v.signal_deps[k].remove(scope)
                    } else {
                        v.signal_deps[k]
                    },
            )
        } else {
            v.signal_deps
        },
        ..v
    }
}

/// The steps before the host's render body runs: the reentrancy guard,
/// the render-due check, and — when the render proceeds — exactly the
/// hand-off state of [`render_setup`].  Returns the saved context markers,
/// or `None` when the render is skipped with nothing touched.
#[verifier::loop_isolation(false)]
fn begin_render(rt: &mut Runtime, scope: usize, forced: bool) -> (r: Option<(Option<usize>, usize)>)
    ensures
        r is None <==> (old(rt)@.rendering_scope == scope || (!forced && !render_due(
            old(rt)@,
            scope,
        ))),
        r is None ==> final(rt)@ == old(rt)@,
        r matches Option::Some(pw) ==> pw.0 == old(rt)@.current_scope && pw.1 == old(
            rt,
        )@.rendering_scope && final(rt)@ == render_setup(old(rt)@, scope),
{
    if rt.rendering_scope == scope {
        return Option::None;
    }
    let prev_scope = rt.current_scope;
    rt.set_current_scope(Option::Some(scope));
    proof {
        lemma_render_due_same(rt@, old(rt)@, scope);
    }
    let due = forced || rt.scope_has_signal_changes(scope);
    if !due {
        rt.set_current_scope(prev_scope);
        proof {
            assert(rt@ =~~= old(rt)@);
        }
        return Option::None;
    }
    let was_rendering = rt.rendering_scope;
    rt.rendering_scope = scope;
    if rt.renders < usize::MAX {
        rt.renders = rt.renders + 1;
    }
    rt.signal_changes.remove_first_component(scope);
    proof {
        assert(rt@.changes =~= Set::new(
            |k: SignalKey| old(rt)@.changes.contains(k) && k.0 != scope,
        ));
    }
    if was_rendering == 0 {
        let ghost deps0 = old(rt)@.signal_deps;
        let had_deps = rt.scope_deps.contains(skey_exec(scope));
        let dep_keys: Vec<(usize, usize)> = match rt.scope_deps.take(skey_exec(scope)) {
            Option::Some(t) => t.keys(),
            Option::None => Vec::new(),
        };
        proof {
            assert(rt@.scope_deps =~~= old(rt)@.scope_deps.remove(scope));
        }
        let n: usize = dep_keys.len();
        let mut i: usize = 0;
        while i < n
            invariant
                i <= n,
                rt@ == (RtState { signal_deps: rt@.signal_deps, ..render_setup(old(rt)@, scope) }),
                rt@.signal_deps.dom() == deps0.dom(),
                forall|k2: SignalKey|
                    deps0.dom().contains(k2) ==> #[trigger] rt@.signal_deps[k2] == (
                    if exists|j: int| 0 <= j < i && dep_keys@[j] == k2 {
                        deps0[k2].remove(scope)
                    } else {
                        deps0[k2]
                    }),
            decreases n - i,
        {
            let k = dep_keys[i];
            let ghost pre_deps = rt@.signal_deps;
            match rt.signal_deps.take(k) {
                Option::Some(mut dep_scopes) => {
                    dep_scopes.remove(skey_exec(scope));
                    rt.signal_deps.insert(k, dep_scopes);
                    proof {
                        assert(rt@.signal_deps.dom() =~= pre_deps.dom());
                        assert(rt@.signal_deps[k] =~= pre_deps[k].remove(scope));
                        assert(forall|k2: SignalKey|
                            k2 != k && pre_deps.dom().contains(k2)
                                ==> #[trigger] rt@.signal_deps[k2] == pre_deps[k2]);
                        assert(rt@ =~~= (RtState {
                            signal_deps: rt@.signal_deps,
                            ..render_setup(old(rt)@, scope)
                        }));
                        assert forall|k2: SignalKey| deps0.dom().contains(k2)
                            implies #[trigger] rt@.signal_deps[k2] == (
                        if exists|j: int| 0 <= j < i + 1 && dep_keys@[j] == k2 {
                            deps0[k2].remove(scope)
                        } else {
                            deps0[k2]
                        }) by {
                            if k2 == k {
                                if exists|j: int| 0 <= j < i && dep_keys@[j] == k2 {
                                    assert(pre_deps[k2] == deps0[k2].remove(scope));
                                    assert(deps0[k2].remove(scope).remove(scope)
                                        =~= deps0[k2].remove(scope));
                                }
                                assert(dep_keys@[i as int] == k2);
                            } else {
                                if exists|j: int| 0 <= j < i + 1 && dep_keys@[j] == k2 {
                                    let j = choose|j: int| 0 <= j < i + 1 && dep_keys@[j] == k2;
                                    assert(j < i);
                                    assert(exists|j2: int| 0 <= j2 < i && dep_keys@[j2] == k2);
                                }
                            }
                        }
                    }
                },
                Option::None => {
                    proof {
                        assert(!rt@.signal_deps.dom().contains(k));
                        assert(rt@.signal_deps.dom() =~= pre_deps.dom());
                        assert(forall|k2: SignalKey|
                            k2 != k && pre_deps.dom().contains(k2)
                                ==> #[trigger] rt@.signal_deps[k2] == pre_deps[k2]);
                        assert(rt@ =~~= (RtState {
                            signal_deps: rt@.signal_deps,
                            ..render_setup(old(rt)@, scope)
                        }));
                        assert forall|k2: SignalKey| deps0.dom().contains(k2)
                            implies #[trigger] rt@.signal_deps[k2] == (
                        if exists|j: int| 0 <= j < i + 1 && dep_keys@[j] == k2 {
                            deps0[k2].remove(scope)
                        } else {
                            deps0[k2]
                        }) by {
                            if k2 == k {
                                assert(false);
                            } else {
                                if exists|j: int| 0 <= j < i + 1 && dep_keys@[j] == k2 {
                                    let j = choose|j: int| 0 <= j < i + 1 && dep_keys@[j] == k2;
                                    assert(j < i);
                                    assert(exists|j2: int| 0 <= j2 < i && dep_keys@[j2] == k2);
                                }
                            }
                        }
                    }
                },
            }
            i += 1;
        }
        proof {
            assert forall|k2: SignalKey| deps0.dom().contains(k2)
                implies #[trigger] rt@.signal_deps[k2] == render_setup(
                old(rt)@,
                scope,
            ).signal_deps[k2] by {
                if old(rt)@.scope_deps.dom().contains(scope) && old(rt)@.scope_deps[scope].contains(
                    k2,
                ) {
                    assert(had_deps);
                    assert(exists|j: int| 0 <= j < dep_keys@.len() && dep_keys@[j] == k2);
                } else {
                    if exists|j: int| 0 <= j < n && dep_keys@[j] == k2 {
                        let j = choose|j: int| 0 <= j < n && dep_keys@[j] == k2;
                        assert(had_deps);
                        assert(old(rt)@.scope_deps[scope].contains(k2));
                        assert(false);
                    }
                }
            }
            assert(rt@.signal_deps =~~= render_setup(old(rt)@, scope).signal_deps);
            assert(rt@ =~~= render_setup(old(rt)@, scope));
        }
    } else {
        proof {
            assert(rt@ =~~= render_setup(old(rt)@, scope));
        }
    }
    Option::Some((prev_scope, was_rendering))
}

/// One render pass over `scope`: the reentrancy guard, the render-due
/// check (waived for `forced` calls from the drain loop, whose relevance
/// was established when the scope was queued), the top-level dependency
/// clearing, the host's render body and callback, counter resets, effects,
/// and the queuing of dependent scopes.  Returns the tree and whether
/// changes were recorded that a top-level caller should drain.
fn render_scope_inner<H: Host>(rt: &mut Runtime, host: &mut H, scope: usize, forced: bool) -> (r:
    (Node, bool))
    ensures
        final(rt)@.current_scope == old(rt)@.current_scope,
        final(rt)@.rendering_scope == old(rt)@.rendering_scope,
        old(rt)@.rendering_scope == scope ==> (r.0 is Empty && !r.1 && final(rt)@ == old(rt)@),
        old(rt)@.rendering_scope != scope && !forced && !render_due(old(rt)@, scope) ==> (r.0
            is Empty && !r.1 && final(rt)@ == old(rt)@),
        r.0 matches Node::Element(el) ==> el.key@ == crate::nodes::dec_rep(scope as nat),
        old(rt)@.rendering_scope != scope && (forced || render_due(old(rt)@, scope))
            ==> !final(rt)@.effect_counter.dom().contains(scope),
{
    let begun = begin_render(rt, scope, forced);
    let (prev_scope, was_rendering) = match begun {
        Option::Some(pw) => pw,
        Option::None => {
            return (Node::Empty, false);
        },
    };
    let node = host.render(rt, scope);
    let node = node.with_element_key(usize_to_string(scope));
    host.on_render(rt, scope, &node);
    rt.reset_signal_counters(scope);
    run_scope_effects(rt, host, scope);
    rt.reset_effect_counters(scope);
    rt.set_current_scope(prev_scope);
    rt.rendering_scope = was_rendering;
    proof {
        assert(rt@.current_scope == old(rt)@.current_scope);
        assert(rt@.rendering_scope == old(rt)@.rendering_scope);
    }
    let had_changes = !rt.signal_changes.is_empty();
    if had_changes {
        queue_dependents(rt, Option::Some(scope));
    }
    (node, had_changes)
}

/// Consumes the outstanding change set and queues every dependent of a
/// changed signal for re-render, except `exclude` (the scope whose own
/// render just recorded the changes).  This is the one step that turns
/// recorded changes into pending work.
#[verifier::loop_isolation(false)]
fn queue_dependents(rt: &mut Runtime, exclude: Option<usize>)
    ensures
        final(rt)@ == (RtState {
            changes: Set::<SignalKey>::empty(),
            pending: old(rt)@.pending.union(queued_dependents(old(rt)@, exclude)),
            ..old(rt)@
        }),
{
    let ghost target = queued_dependents(old(rt)@, exclude);
    let changed_keys = rt.signal_changes.keys();
    rt.signal_changes = Table::new();
    proof {
        assert(rt@.changes =~= Set::<SignalKey>::empty());
        assert(rt@ =~~= (RtState {
            changes: Set::<SignalKey>::empty(),
            pending: old(rt)@.pending,
            ..old(rt)@
        }));
    }
    let n: usize = changed_keys.len();
    let mut i: usize = 0;
    while i < n
        invariant
            i <= n,
            rt@ == (RtState {
                changes: Set::<SignalKey>::empty(),
                pending: rt@.pending,
                ..old(rt)@
            }),
            old(rt)@.pending.subset_of(rt@.pending),
            rt@.pending.subset_of(old(rt)@.pending.union(target)),
            forall|j: int, s: usize|
                0 <= j < i && exclude != Option::Some(s) && old(rt)@.signal_deps.dom().contains(
                    #[trigger] changed_keys@[j],
                ) && old(rt)@.signal_deps[changed_keys@[j]].contains(s)
                    ==> #[trigger] rt@.pending.contains(s),
        decreases n - i,
    {
        let k = changed_keys[i];
        let dep_scopes: Vec<(usize, usize)> = match rt.signal_deps.get(k) {
            Option::Some(t) => t.keys(),
            Option::None => Vec::new(),
        };
        let ghost deps_known = old(rt)@.signal_deps.dom().contains(k);
        let m: usize = dep_scopes.len();
        let mut j: usize = 0;
        while j < m
            invariant
                j <= m,
                rt@ == (RtState {
                    changes: Set::<SignalKey>::empty(),
                    pending: rt@.pending,
                    ..old(rt)@
                }),
                old(rt)@.pending.subset_of(rt@.pending),
                rt@.pending.subset_of(old(rt)@.pending.union(target)),
                forall|j2: int, s: usize|
                    0 <= j2 < i && exclude != Option::Some(s) && old(rt)@.signal_deps.dom().contains(#[trigger] changed_keys@[j2]) && old(rt)@.signal_deps[changed_keys@[j2]].contains(s)
                        ==> #[trigger] rt@.pending.contains(s),
                forall|j2: int|
                    0 <= j2 < j && (#[trigger] dep_scopes@[j2]).1 == 0 && exclude
                        != Option::Some(dep_scopes@[j2].0) ==> rt@.pending.contains(
                        dep_scopes@[j2].0,
                    ),
            decreases m - j,
    {
            let entry = dep_scopes[j];
            let skip = entry.1 != 0 || (match exclude {
                Option::Some(x) => entry.0 == x,
                Option::None => false,
            });
            if !skip {
                let s = entry.0;
                proof {
                    assert(old(rt)@.signal_deps[k].contains(s));
                    assert(old(rt)@.changes.contains(k));
                    assert(target.contains(s));
                }
                let ghost pend0 = rt@.pending;
                rt.pending.insert(skey_exec(s), ());
                proof {
                    assert(rt@.pending =~= pend0.insert(s));
                    assert(rt@ =~~= (RtState {
                        changes: Set::<SignalKey>::empty(),
                        pending: rt@.pending,
                        ..old(rt)@
                    }));
                }
            }
            j += 1;
        }
        proof {
            assert forall|j2: int, s: usize|
                0 <= j2 < i + 1 && exclude != Option::Some(s) && old(rt)@.signal_deps.dom().contains(#[trigger] changed_keys@[j2]) && old(rt)@.signal_deps[changed_keys@[j2]].contains(s) implies #[trigger] rt@.pending.contains(
                s,
            ) by {
                if j2 == i {
                    let j3 = choose|j3: int|
                        0 <= j3 < dep_scopes@.len() && dep_scopes@[j3] == skey(s);
                    assert(dep_scopes@[j3].1 == 0 && dep_scopes@[j3].0 == s);
                }
            }
        }
        i += 1;
    }
    proof {
        assert forall|s: usize| target.contains(s) implies rt@.pending.contains(s) by {
            let k = choose|k: SignalKey|
                #[trigger] old(rt)@.changes.contains(k) && old(rt)@.signal_deps.dom().contains(k)
                    && old(rt)@.signal_deps[k].contains(s);
            let j = choose|j: int| 0 <= j < changed_keys@.len() && changed_keys@[j] == k;
        }
        assert(rt@.pending =~= old(rt)@.pending.union(target));
        assert(rt@ =~~= (RtState {
            changes: Set::<SignalKey>::empty(),
            pending: old(rt)@.pending.union(target),
            ..old(rt)@
        }));
    }
}

/// Drains the pending-render set: repeatedly pops the lowest scope id and
/// re-renders it, for at most [`MAX_DRAIN_ITERATIONS`] renders.  If scopes
/// are still pending when the cap is hit, propagation stops and the
/// overrun counter is raised — the cap is the guard against reactive
/// cycles, and hitting it is observable through
/// [`Runtime::overrun_count`].
pub fn process_pending_renders<H: Host>(rt: &mut Runtime, host: &mut H)
    ensures
        final(rt)@.current_scope == old(rt)@.current_scope,
        final(rt)@.rendering_scope == old(rt)@.rendering_scope,
        final(rt)@.pending == Set::<usize>::empty() || final(rt)@.overruns >= 1,
{
    let mut i: usize = 0;
    let mut more = true;
    while i < MAX_DRAIN_ITERATIONS && more
        invariant
            rt@.current_scope == old(rt)@.current_scope,
            rt@.rendering_scope == old(rt)@.rendering_scope,
        decreases MAX_DRAIN_ITERATIONS - i,
    {
        match rt.pending.pop_min() {
            Option::Some(e) => {
                let _ = render_scope_inner(rt, host, e.0.0, true);
            },
            Option::None => {
                more = false;
            },
        }
        i += 1;
    }
    if !rt.pending.is_empty() {
        if rt.overruns < usize::MAX {
            rt.overruns = rt.overruns + 1;
        }
        proof {
            assert(rt@.overruns >= 1);
        }
    } else {
        proof {
            assert(rt@.pending =~= Set::<usize>::empty());
        }
    }
}

/// Renders `scope` and, when this is the outermost render, drains the
/// re-renders its changes queued.  A scope already mid-render, or one with
/// a dependency record and no relevant outstanding change, is skipped with
/// nothing touched; a produced element is tagged with the scope's id in
/// decimal.
pub fn render_scope<H: Host>(rt: &mut Runtime, host: &mut H, scope: usize) -> (r: Node)
    ensures
        final(rt)@.current_scope == old(rt)@.current_scope,
        final(rt)@.rendering_scope == old(rt)@.rendering_scope,
        old(rt)@.rendering_scope == scope ==> (r is Empty && final(rt)@ == old(rt)@),
        old(rt)@.rendering_scope != scope && !render_due(old(rt)@, scope) ==> (r is Empty
            && final(rt)@ == old(rt)@),
        r matches Node::Element(el) ==> el.key@ == crate::nodes::dec_rep(scope as nat),
        old(rt)@.rendering_scope != 0 && old(rt)@.rendering_scope != scope && render_due(
            old(rt)@,
            scope,
        ) ==> !final(rt)@.effect_counter.dom().contains(scope),
{
    let top = rt.rendering_scope == 0;
    let (node, had_changes) = render_scope_inner(rt, host, scope, false);
    if top && had_changes {
        process_pending_renders(rt, host);
    }
    node
}

/// Mounts a new scope: assigns the next scope id, records it, renders it
/// once, and returns the assigned id with the first tree.  The host keeps
/// the scope's render body and callback under that id; re-renders are
/// driven by the runtime from then on.
pub fn run_scope<H: Host>(rt: &mut Runtime, host: &mut H) -> (r: (usize, Node))
    ensures
        r.0 == old(rt)@.next_scope_id,
        final(rt)@.current_scope == old(rt)@.current_scope,
        final(rt)@.rendering_scope == old(rt)@.rendering_scope,
        r.1 matches Node::Element(el) ==> el.key@ == crate::nodes::dec_rep(r.0 as nat),
{
    let scope = rt.next_scope_id;
    if rt.next_scope_id < usize::MAX {
        rt.next_scope_id = rt.next_scope_id + 1;
    }
    rt.scopes.insert(skey_exec(scope), ());
    let node = render_scope(rt, host, scope);
    (scope, node)
}

/// Opens a batch window: writes defer their re-renders until the window
/// closes.
pub fn batch_begin(rt: &mut Runtime)
    ensures
        final(rt)@ == (RtState { batching: true, ..old(rt)@ }),
{
    rt.batching = true;
    proof {
        assert(rt@ =~~= (RtState { batching: true, ..old(rt)@ }));
    }
}

/// Closes the batch window and drains the renders the batched writes
/// queued: the deferred propagation happens here, in one bounded wave.
/// The window is closed when this returns — the batching flag ends false
/// — the recorded changes are consumed into the pending set, and one
/// drain pass (bounded by [`MAX_DRAIN_ITERATIONS`]) runs.
pub fn batch_end<H: Host>(rt: &mut Runtime, host: &mut H)
    ensures
        !final(rt)@.batching,
        final(rt)@.current_scope == old(rt)@.current_scope,
        final(rt)@.rendering_scope == old(rt)@.rendering_scope,
        final(rt)@.pending == Set::<usize>::empty() || final(rt)@.overruns >= 1,
{
    rt.batching = false;
    queue_dependents(rt, Option::None);
    process_pending_renders(rt, host);
    rt.batching = false;
}

impl<T: SignalValue> Signal<T> {
    /// Reads a snapshot of the current value; if a scope is the current
    /// execution context, a dependency edge from it to this signal is
    /// recorded.  `None` when the cell is absent or holds another shape.
    pub fn try_get(&self, rt: &mut Runtime) -> (r: Option<T>)
        ensures
            final(rt)@ == (match old(rt)@.current_scope {
                Option::Some(c) => with_edge(old(rt)@, c, self.spec_key()),
                Option::None => old(rt)@,
            }),
            r matches Option::Some(x) ==> old(rt)@.signals.contains_key(self.spec_key())
                && x.encodes(old(rt)@.signals[self.spec_key()]),
            r is None ==> (!old(rt)@.signals.contains_key(self.spec_key()) || (forall|x: T|
                !x.encodes(old(rt)@.signals[self.spec_key()]))),
    {
        let k = self.key();
        rt.register_dependency(k);
        match rt.signals.get(k) {
            Option::Some(v) => T::from_value(v),
            Option::None => Option::None,
        }
    }

    /// Reads the current value, which must be present with this handle's
    /// shape; registers a dependency edge like [`Signal::try_get`].
    pub fn get(&self, rt: &mut Runtime) -> (r: T)
        requires
            old(rt)@.signals.contains_key(self.spec_key()),
            exists|x: T| x.encodes(old(rt)@.signals[self.spec_key()]),
        ensures
            r.encodes(old(rt)@.signals[self.spec_key()]),
            final(rt)@ == (match old(rt)@.current_scope {
                Option::Some(c) => with_edge(old(rt)@, c, self.spec_key()),
                Option::None => old(rt)@,
            }),
    {
        match self.try_get(rt) {
            Option::Some(x) => x,
            Option::None => vstd::pervasive::unreached(),
        }
    }

    /// Applies `f` to the current value without handing out a clone; the
    /// dependency edge is recorded like [`Signal::try_get`].  `None` when
    /// the cell is absent or holds another shape.
    pub fn with<R, F: FnOnce(&T) -> R>(&self, rt: &mut Runtime, f: F) -> (r: Option<R>)
        requires
            forall|t: &T| #[trigger] call_requires(f, (t,)),
        ensures
            final(rt)@ == (match old(rt)@.current_scope {
                Option::Some(c) => with_edge(old(rt)@, c, self.spec_key()),
                Option::None => old(rt)@,
            }),
            r matches Option::Some(res) ==> (exists|x: T|
                x.encodes(old(rt)@.signals[self.spec_key()]) && call_ensures(f, (&x,), res)),
            r is None ==> (!old(rt)@.signals.contains_key(self.spec_key()) || (forall|x: T|
                !x.encodes(old(rt)@.signals[self.spec_key()]))),
    {
        match self.try_get(rt) {
            Option::Some(v) => Option::Some(f(&v)),
            Option::None => Option::None,
        }
    }

    /// Writes `value` into the cell.  A write of an equal value, or to a
    /// missing cell, changes nothing at all.  A changed write records the
    /// change; it re-renders the owning scope at once only outside a batch
    /// window, outside any rendering scope, and outside any executing
    /// effect — otherwise propagation is deferred to the drain loop.
    pub fn set<H: Host>(&self, rt: &mut Runtime, host: &mut H, value: T)
        ensures
            ({
                let k = self.spec_key();
                let was_changed = old(rt)@.signals.contains_key(k) && !value.encodes(
                    old(rt)@.signals[k],
                );
                let exec_set = old(rt)@.executing;
                let deferred = old(rt)@.batching || old(rt)@.current_scope is Some || exec_set
                    != Set::<EffectKey>::empty();
                &&& (!was_changed ==> final(rt)@ == old(rt)@)
                &&& (was_changed && deferred ==> value.encodes(final(rt)@.signals[k])
                    && final(rt)@ == (RtState {
                    signals: old(rt)@.signals.insert(k, final(rt)@.signals[k]),
                    changes: old(rt)@.changes.insert(k),
                    ..old(rt)@
                }))
                &&& final(rt)@.current_scope == old(rt)@.current_scope
                &&& final(rt)@.rendering_scope == old(rt)@.rendering_scope
            }),
    {
        let k = self.key();
        let ghost gvalue = value;
        let v = value.into_value();
        proof {
            if rt@.signals.contains_key(k) {
                if gvalue.encodes(rt@.signals[k]) {
                    gvalue.encodings_agree(v, rt@.signals[k]);
                    crate::value::lemma_veq_sym(v, rt@.signals[k]);
                } else {
                    if veq(rt@.signals[k], v) {
                        crate::value::lemma_veq_sym(rt@.signals[k], v);
                        gvalue.encodes_respects_veq(v, rt@.signals[k]);
                    }
                }
            }
        }
        let changed = rt.write_signal(k, v);
        if changed {
            let defer = rt.is_batching() || rt.get_current_scope().is_some()
                || rt.any_effect_executing();
            if !defer {
                let _ = render_scope(rt, host, k.0);
            }
        }
    }
}

/// Creates a derived signal seeded with `initial` (the first run of the
/// caller's computation) and registers the effect that keeps it live: the
/// host's body for the returned effect key must recompute and write the
/// signal back, which re-runs whenever a dependency of the computation
/// changes.
pub fn create_computed<T: SignalValue>(rt: &mut Runtime, initial: T) -> (r: (
    Signal<T>,
    EffectKey,
))
    requires
        old(rt)@.current_scope is Some,
    ensures
        old(rt)@.current_scope matches Option::Some(c) ==> {
            &&& r.0.spec_key() == (c, bumped(old(rt)@.signal_counter, c))
            &&& r.1 == (c, bumped(old(rt)@.effect_counter, c))
            &&& initial.encodes(final(rt)@.signals[r.0.spec_key()])
            &&& final(rt)@ == (RtState {
                signals: old(rt)@.signals.insert(r.0.spec_key(), final(rt)@.signals[r.0.spec_key()]),
                signal_counter: old(rt)@.signal_counter.insert(c, r.0.spec_key().1),
                effects: old(rt)@.effects.insert(r.1, EffectKind::User),
                effect_high: old(rt)@.effect_high.insert(
                    c,
                    raised(old(rt)@.effect_high, c, r.1.1),
                ),
                effect_counter: old(rt)@.effect_counter.insert(c, r.1.1),
                ..old(rt)@
            })
        },
{
    let c: usize = match rt.get_current_scope() {
        Option::Some(c) => c,
        Option::None => vstd::pervasive::unreached(),
    };
    let id = rt.get_next_signal_id_for_scope(c);
    let k = (c, id);
    let sig: Signal<T> = Signal { scope: c, id, marker: core::marker::PhantomData };
    let v = initial.into_value();
    rt.signals.insert(k, v);
    proof {
        assert(rt@.signals =~= old(rt)@.signals.insert(k, rt@.signals[k]));
    }
    let ek = rt.register_effect(EffectKind::User);
    proof {
        assert(rt@ =~~= (RtState {
            signals: old(rt)@.signals.insert(k, rt@.signals[k]),
            signal_counter: old(rt)@.signal_counter.insert(c, id),
            effects: old(rt)@.effects.insert(ek, EffectKind::User),
            effect_high: old(rt)@.effect_high.insert(c, raised(old(rt)@.effect_high, c, ek.1)),
            effect_counter: old(rt)@.effect_counter.insert(c, ek.1),
            ..old(rt)@
        }));
    }
    (sig, ek)
}

/// Begins a memoized computation under `key` in the current scope.
/// Returns the signal, the key of the effect that keeps it live, and
/// whether the caller must run the computation once: on a cache hit the
/// signal is seeded from the cache and the computation is not requested —
/// on a miss the caller computes and hands the result to [`memo_init`].
/// The host's body for the effect key recomputes and hands the result to
/// [`memo_write`].
pub fn create_memo<T: SignalValue>(rt: &mut Runtime, key: &str) -> (r: (
    Signal<T>,
    EffectKey,
    bool,
))
    requires
        old(rt)@.current_scope is Some,
    ensures
        old(rt)@.current_scope matches Option::Some(c) ==> {
            &&& r.0.spec_key() == (c, bumped(old(rt)@.signal_counter, c))
            &&& r.1 == (c, bumped(old(rt)@.effect_counter, c))
            &&& r.2 == !(old(rt)@.memo.dom().contains((key@, c)) && (exists|x: T|
                x.encodes(old(rt)@.memo[(key@, c)])))
            &&& (!r.2 ==> veq(final(rt)@.signals[r.0.spec_key()], old(rt)@.memo[(key@, c)])
                && final(rt)@ == (RtState {
                signals: old(rt)@.signals.insert(r.0.spec_key(), final(rt)@.signals[r.0.spec_key()]),
                signal_counter: old(rt)@.signal_counter.insert(c, r.0.spec_key().1),
                effects: old(rt)@.effects.insert(r.1, EffectKind::User),
                effect_high: old(rt)@.effect_high.insert(
                    c,
                    raised(old(rt)@.effect_high, c, r.1.1),
                ),
                effect_counter: old(rt)@.effect_counter.insert(c, r.1.1),
                ..old(rt)@
            }))
            &&& (r.2 ==> final(rt)@ == (RtState {
                signal_counter: old(rt)@.signal_counter.insert(c, r.0.spec_key().1),
                effects: old(rt)@.effects.insert(r.1, EffectKind::User),
                effect_high: old(rt)@.effect_high.insert(
                    c,
                    raised(old(rt)@.effect_high, c, r.1.1),
                ),
                effect_counter: old(rt)@.effect_counter.insert(c, r.1.1),
                ..old(rt)@
            }))
        },
{
    let c: usize = match rt.get_current_scope() {
        Option::Some(c) => c,
        Option::None => vstd::pervasive::unreached(),
    };
    let id = rt.get_next_signal_id_for_scope(c);
    let k = (c, id);
    let sig: Signal<T> = Signal { scope: c, id, marker: core::marker::PhantomData };
    let key_owned = key.to_owned();
    let cached: Option<Value> = match rt.memo.get(&key_owned, c) {
        Option::Some(v) => {
            match T::from_value(v) {
                Option::Some(_) => Option::Some(value_clone(v)),
                Option::None => Option::None,
            }
        },
        Option::None => Option::None,
    };
    let needs_init = match cached {
        Option::Some(seed) => {
            proof {
                let x = choose|x: T| x.encodes(old(rt)@.memo[(key@, c)]);
            }
            rt.signals.insert(k, seed);
            proof {
                assert(rt@.signals =~= old(rt)@.signals.insert(k, rt@.signals[k]));
            }
            false
        },
        Option::None => true,
    };
    let ek = rt.register_effect(EffectKind::User);
    proof {
        if needs_init {
            assert(rt@ =~~= (RtState {
                signal_counter: old(rt)@.signal_counter.insert(c, id),
                effects: old(rt)@.effects.insert(ek, EffectKind::User),
                effect_high: old(rt)@.effect_high.insert(c, raised(old(rt)@.effect_high, c, ek.1)),
                effect_counter: old(rt)@.effect_counter.insert(c, ek.1),
                ..old(rt)@
            }));
        } else {
            assert(rt@ =~~= (RtState {
                signals: old(rt)@.signals.insert(k, rt@.signals[k]),
                signal_counter: old(rt)@.signal_counter.insert(c, id),
                effects: old(rt)@.effects.insert(ek, EffectKind::User),
                effect_high: old(rt)@.effect_high.insert(c, raised(old(rt)@.effect_high, c, ek.1)),
                effect_counter: old(rt)@.effect_counter.insert(c, ek.1),
                ..old(rt)@
            }));
        }
    }
    (sig, ek, needs_init)
}

/// Seeds a fresh memo: caches the first computed value under (`key`, the
/// signal's scope) and stores it in the signal cell.
pub fn memo_init<T: SignalValue>(rt: &mut Runtime, sig: Signal<T>, key: &str, value: T)
    ensures
        value.encodes(final(rt)@.signals[sig.spec_key()]),
        veq(final(rt)@.memo[(key@, sig.spec_key().0)], final(rt)@.signals[sig.spec_key()]),
        final(rt)@ == (RtState {
            signals: old(rt)@.signals.insert(sig.spec_key(), final(rt)@.signals[sig.spec_key()]),
            memo: old(rt)@.memo.insert(
                (key@, sig.spec_key().0),
                final(rt)@.memo[(key@, sig.spec_key().0)],
            ),
            ..old(rt)@
        }),
{
    let k = sig.key();
    let key_owned = key.to_owned();
    let v = value.into_value();
    let cache_copy = value_clone(&v);
    proof {
        crate::value::lemma_veq_sym(cache_copy, v);
    }
    rt.memo.insert(&key_owned, k.0, cache_copy);
    rt.signals.insert(k, v);
    proof {
        assert(rt@.signals =~= old(rt)@.signals.insert(k, rt@.signals[k]));
        assert(rt@ =~~= (RtState {
            signals: old(rt)@.signals.insert(k, rt@.signals[k]),
            memo: old(rt)@.memo.insert((key@, k.0), rt@.memo[(key@, k.0)]),
            ..old(rt)@
        }));
    }
}

/// Refreshes a memo from its effect: caches the recomputed value and
/// writes it into the signal with the usual change check and deferral.
pub fn memo_write<T: SignalValue, H: Host>(
    rt: &mut Runtime,
    host: &mut H,
    sig: Signal<T>,
    key: &str,
    value: T,
)
    ensures
        ({
            let ks = (key@, sig.spec_key().0);
            let k = sig.spec_key();
            let was_changed = old(rt)@.signals.contains_key(k) && !value.encodes(
                old(rt)@.signals[k],
            );
            let deferred = write_defers(old(rt)@);
            &&& (!(was_changed && !deferred) ==> value.encodes(final(rt)@.memo[ks])
                && final(rt)@.memo == old(rt)@.memo.insert(ks, final(rt)@.memo[ks]))
            &&& (!was_changed ==> final(rt)@ == (RtState {
                memo: old(rt)@.memo.insert(ks, final(rt)@.memo[ks]),
                ..old(rt)@
            }))
            &&& (was_changed && deferred ==> value.encodes(final(rt)@.signals[k]) && final(rt)@
                == (RtState {
                signals: old(rt)@.signals.insert(k, final(rt)@.signals[k]),
                changes: old(rt)@.changes.insert(k),
                memo: old(rt)@.memo.insert(ks, final(rt)@.memo[ks]),
                ..old(rt)@
            }))
            &&& final(rt)@.current_scope == old(rt)@.current_scope
            &&& final(rt)@.rendering_scope == old(rt)@.rendering_scope
        }),
{
    let k = sig.key();
    let key_owned = key.to_owned();
    let ghost gvalue = value;
    let v = value.into_value();
    let cache_copy = value_clone(&v);
    proof {
        crate::value::lemma_veq_sym(cache_copy, v);
        gvalue.encodes_respects_veq(v, cache_copy);
        if rt@.signals.contains_key(k) {
            if gvalue.encodes(rt@.signals[k]) {
                gvalue.encodings_agree(v, rt@.signals[k]);
                crate::value::lemma_veq_sym(v, rt@.signals[k]);
            } else {
                if veq(rt@.signals[k], v) {
                    crate::value::lemma_veq_sym(rt@.signals[k], v);
                    gvalue.encodes_respects_veq(v, rt@.signals[k]);
                }
            }
        }
    }
    rt.memo.insert(&key_owned, k.0, cache_copy);
    let changed = rt.write_signal(k, v);
    if changed {
        let defer = rt.is_batching() || rt.get_current_scope().is_some()
            || rt.any_effect_executing();
        if !defer {
            let _ = render_scope(rt, host, k.0);
        }
    }
}

/// A status-and-payload pair modeling an asynchronous load.
pub struct Resource<T> {
    status: Signal<crate::value::ResourceStatus>,
    value: Signal<Option<T>>,
}

impl<T> Clone for Resource<T> {
    fn clone(&self) -> (r: Self)
        ensures
            r == *self,
    {
        Resource { status: self.status, value: self.value }
    }
}

impl<T> Copy for Resource<T> {

}

impl<T: SignalValue> Resource<T> {
    /// The key of the status signal.
    pub closed spec fn spec_status_key(&self) -> SignalKey {
        self.status.spec_key()
    }

    /// The key of the value signal.
    pub closed spec fn spec_value_key(&self) -> SignalKey {
        self.value.spec_key()
    }

    /// The status signal.
    pub fn status(&self) -> (r: Signal<crate::value::ResourceStatus>)
        ensures
            r.spec_key() == self.spec_status_key(),
    {
        self.status
    }

    /// A snapshot of the payload: `None` until the fetch resolved.
    pub fn get(&self, rt: &mut Runtime) -> (r: Option<T>)
        requires
            old(rt)@.signals.contains_key(self.spec_value_key()),
            exists|x: Option<T>| x.encodes(old(rt)@.signals[self.spec_value_key()]),
        ensures
            r.encodes(old(rt)@.signals[self.spec_value_key()]),
            final(rt)@ == (match old(rt)@.current_scope {
                Option::Some(c) => with_edge(old(rt)@, c, self.spec_value_key()),
                Option::None => old(rt)@,
            }),
    {
        self.value.get(rt)
    }

    /// Applies `f` to the payload when it is present: `Some` exactly when
    /// the value cell holds a decodable present payload.
    pub fn with<R, F: FnOnce(&T) -> R>(&self, rt: &mut Runtime, f: F) -> (r: Option<R>)
        requires
            forall|t: &T| #[trigger] call_requires(f, (t,)),
        ensures
            final(rt)@ == after_edge(old(rt)@, self.spec_value_key()),
            r matches Option::Some(res) ==> (exists|x: T, v: Option<T>|
                v == Option::Some(x) && v.encodes(old(rt)@.signals[self.spec_value_key()])
                    && call_ensures(f, (&x,), res)),
            old(rt)@.signals.contains_key(self.spec_value_key()) && (exists|x: T|
                Option::Some(x).encodes(old(rt)@.signals[self.spec_value_key()])) ==> r is Some,
    {
        let ghost stored = old(rt)@.signals[self.spec_value_key()];
        match self.value.try_get(rt) {
            Option::Some(Option::Some(t)) => Option::Some(f(&t)),
            Option::Some(Option::None) => {
                proof {
                    if exists|x: T| Option::Some(x).encodes(stored) {
                        let x = choose|x: T| Option::Some(x).encodes(stored);
                        assert(Option::<T>::None.encodes(stored));
                        assert(false);
                    }
                }
                Option::None
            },
            Option::None => {
                proof {
                    if old(rt)@.signals.contains_key(self.spec_value_key()) && (exists|x: T|
                        Option::Some(x).encodes(stored)) {
                        let x = choose|x: T| Option::Some(x).encodes(stored);
                        assert(false);
                    }
                }
                Option::None
            },
        }
    }

    /// The completion callback the async executor runs when the fetch is
    /// done: writes the payload into the value signal, then resolves the
    /// status signal.  A late completion of a superseded fetch writes the
    /// same way, last write winning.  In a deferring write the store
    /// afterwards holds the payload and the resolved status, every other
    /// cell untouched.
    pub fn resolve<H: Host>(&self, rt: &mut Runtime, host: &mut H, payload: T)
        ensures
            final(rt)@.current_scope == old(rt)@.current_scope,
            final(rt)@.rendering_scope == old(rt)@.rendering_scope,
            ({
                let vk = self.spec_value_key();
                let sk = self.spec_status_key();
                quiet_write(old(rt)@) && old(rt)@.signals.contains_key(vk) && old(
                    rt,
                )@.signals.contains_key(sk) && sk != vk ==> {
                    &&& Option::Some(payload).encodes(final(rt)@.signals[vk])
                    &&& final(rt)@.signals[sk] == Value::Status(
                        crate::value::ResourceStatus::Resolved,
                    )
                    &&& (forall|k: SignalKey|
                        k != vk && k != sk ==> final(rt)@.signals.contains_key(k) == old(
                            rt,
                        )@.signals.contains_key(k) && (old(rt)@.signals.contains_key(k)
                            ==> final(rt)@.signals[k] == old(rt)@.signals[k]))
                    &&& final(rt)@.pending == old(rt)@.pending
                    &&& final(rt)@.renders == old(rt)@.renders
                }
            }),
    {
        self.value.set(rt, host, Option::Some(payload));
        self.status.set(rt, host, crate::value::ResourceStatus::Resolved);
    }

    /// Resets the status to pending, so the scope's next effect run starts
    /// the fetch again.  No in-flight fetch is cancelled: a late completion
    /// still writes, last write winning.  In a deferring write the status
    /// cell ends pending and every other cell — the value included — is
    /// untouched.
    pub fn retry<H: Host>(&self, rt: &mut Runtime, host: &mut H)
        ensures
            final(rt)@.current_scope == old(rt)@.current_scope,
            final(rt)@.rendering_scope == old(rt)@.rendering_scope,
            ({
                let sk = self.spec_status_key();
                &&& (quiet_write(old(rt)@) && old(rt)@.signals.contains_key(sk)
                    && !crate::value::ResourceStatus::Pending.encodes(old(rt)@.signals[sk])
                    ==> final(rt)@ == (RtState {
                    signals: old(rt)@.signals.insert(
                        sk,
                        Value::Status(crate::value::ResourceStatus::Pending),
                    ),
                    changes: old(rt)@.changes.insert(sk),
                    ..old(rt)@
                }))
                &&& (quiet_write(old(rt)@) && !(old(rt)@.signals.contains_key(sk)
                    && !crate::value::ResourceStatus::Pending.encodes(old(rt)@.signals[sk]))
                    ==> final(rt)@ == old(rt)@)
            }),
    {
        self.status.set(rt, host, crate::value::ResourceStatus::Pending);
    }
}

/// Creates a resource in the current scope: a value signal seeded `None`,
/// a status signal seeded idle, and the driver effect that, whenever the
/// status reads idle or pending, marks it loading and asks the host to
/// start the fetch.  On completion the executor writes the payload and
/// resolves the status through the two signals.
pub fn create_resource<T: SignalValue>(rt: &mut Runtime) -> (r: Resource<T>)
    requires
        old(rt)@.current_scope is Some,
    ensures
        old(rt)@.current_scope matches Option::Some(c) ==> {
            &&& r.spec_value_key() == (c, bumped(old(rt)@.signal_counter, c))
            &&& r.spec_status_key() == (c, bumped(
                old(rt)@.signal_counter.insert(c, bumped(old(rt)@.signal_counter, c)),
                c,
            ))
            &&& final(rt)@.signals.dom() == old(rt)@.signals.dom().insert(
                r.spec_value_key(),
            ).insert(r.spec_status_key())
            &&& (!old(rt)@.signals.contains_key(r.spec_value_key())
                ==> Option::<T>::None.encodes(final(rt)@.signals[r.spec_value_key()]))
            &&& (!old(rt)@.signals.contains_key(r.spec_status_key()) && r.spec_status_key()
                != r.spec_value_key() ==> crate::value::ResourceStatus::Idle.encodes(
                final(rt)@.signals[r.spec_status_key()],
            ))
            &&& final(rt)@.effects == old(rt)@.effects.insert(
                (c, bumped(old(rt)@.effect_counter, c)),
                EffectKind::ResourceDriver {
                    status: r.spec_status_key(),
                    value: r.spec_value_key(),
                },
            )
            &&& final(rt)@.changes == old(rt)@.changes
            &&& final(rt)@.pending == old(rt)@.pending
            &&& final(rt)@.current_scope == old(rt)@.current_scope
            &&& final(rt)@.rendering_scope == old(rt)@.rendering_scope
            &&& final(rt)@.batching == old(rt)@.batching
        },
{
    let value: Signal<Option<T>> = create_signal(rt, Option::None);
    let status: Signal<crate::value::ResourceStatus> = create_signal(
        rt,
        crate::value::ResourceStatus::Idle,
    );
    let _ = rt.register_effect(
        EffectKind::ResourceDriver { status: status.key(), value: value.key() },
    );
    Resource { status, value }
}

impl<T: SignalValue> Signal<T> {
    /// Creates a signal derived from this one: plain composition over
    /// [`create_computed`].  `initial` is the first run of the caller's
    /// mapping applied to the current value; the host's body for the
    /// returned effect key recomputes the mapping and writes the derived
    /// signal back, so it re-runs whenever this signal changes.
    pub fn derive<U: SignalValue>(&self, rt: &mut Runtime, initial: U) -> (r: (
        Signal<U>,
        EffectKey,
    ))
        requires
            old(rt)@.current_scope is Some,
        ensures
            old(rt)@.current_scope matches Option::Some(c) ==> {
                &&& r.0.spec_key() == (c, bumped(old(rt)@.signal_counter, c))
                &&& r.1 == (c, bumped(old(rt)@.effect_counter, c))
                &&& initial.encodes(final(rt)@.signals[r.0.spec_key()])
            },
    {
        create_computed(rt, initial)
    }
}

/// Whether a write in state `v` defers its propagation: inside a batch
/// window, inside a rendering scope, or inside an executing effect.
pub open spec fn write_defers(v: RtState) -> bool {
    v.batching || v.current_scope is Some || v.executing != Set::<EffectKey>::empty()
}

/// A write made with no scope active and deferral on (a batch window or an
/// executing effect): the one situation where a mutator's whole outcome is
/// a plain store update, with no dependency edge and no render.
pub open spec fn quiet_write(v: RtState) -> bool {
    v.current_scope is None && write_defers(v)
}

/// The state after the dependency edge a read records: unchanged when no
/// scope is the current execution context.
pub open spec fn after_edge(v: RtState, k: SignalKey) -> RtState {
    match v.current_scope {
        Option::Some(c) => with_edge(v, c, k),
        Option::None => v,
    }
}

impl Signal<bool> {
    /// Runs `f` when the current value is `true`; the read registers a
    /// dependency edge like [`Signal::get`].
    pub fn then<R, F: FnOnce() -> R>(&self, rt: &mut Runtime, f: F) -> (r: Option<R>)
        requires
            old(rt)@.signals.contains_key(self.spec_key()),
            exists|b: bool| b.encodes(old(rt)@.signals[self.spec_key()]),
            call_requires(f, ()),
        ensures
            final(rt)@ == after_edge(old(rt)@, self.spec_key()),
            r matches Option::Some(res) ==> true.encodes(old(rt)@.signals[self.spec_key()])
                && call_ensures(f, (), res),
            r is None ==> false.encodes(old(rt)@.signals[self.spec_key()]),
    {
        let b = self.get(rt);
        if b {
            Option::Some(f())
        } else {
            Option::None
        }
    }

    /// Flips the value.  Always counts as a change; in a deferring write
    /// the whole outcome is the read's dependency edge plus the store
    /// update.
    pub fn toggle<H: Host>(&self, rt: &mut Runtime, host: &mut H)
        requires
            old(rt)@.signals.contains_key(self.spec_key()),
            exists|b: bool| b.encodes(old(rt)@.signals[self.spec_key()]),
        ensures
            final(rt)@.current_scope == old(rt)@.current_scope,
            final(rt)@.rendering_scope == old(rt)@.rendering_scope,
            write_defers(old(rt)@) ==> (forall|b: bool|
                b.encodes(old(rt)@.signals[self.spec_key()]) ==> final(rt)@ == (RtState {
                    signals: old(rt)@.signals.insert(self.spec_key(), Value::Bool(!b)),
                    changes: old(rt)@.changes.insert(self.spec_key()),
                    ..after_edge(old(rt)@, self.spec_key())
                })),
    {
        let b = self.get(rt);
        self.set(rt, host, !b);
        proof {
            if write_defers(old(rt)@) {
                let ae = after_edge(old(rt)@, self.spec_key());
                assert forall|b2: bool|
                    b2.encodes(old(rt)@.signals[self.spec_key()]) implies final(rt)@ == (RtState {
                    signals: old(rt)@.signals.insert(self.spec_key(), Value::Bool(!b2)),
                    changes: old(rt)@.changes.insert(self.spec_key()),
                    ..ae
                }) by {
                    assert(b2 == b);
                    assert(rt@ =~~= (RtState {
                        signals: old(rt)@.signals.insert(self.spec_key(), Value::Bool(!b2)),
                        changes: old(rt)@.changes.insert(self.spec_key()),
                        ..ae
                    }));
                }
            }
        }
    }

    /// Sets the value to `true`.  No read happens, so no dependency edge
    /// is recorded; in a deferring write the outcome is the plain store
    /// update, a no-op when the value already is `true`.
    pub fn turn_on<H: Host>(&self, rt: &mut Runtime, host: &mut H)
        ensures
            final(rt)@.current_scope == old(rt)@.current_scope,
            final(rt)@.rendering_scope == old(rt)@.rendering_scope,
            write_defers(old(rt)@) && old(rt)@.signals.contains_key(self.spec_key())
                && !true.encodes(old(rt)@.signals[self.spec_key()]) ==> final(rt)@ == (RtState {
                signals: old(rt)@.signals.insert(self.spec_key(), Value::Bool(true)),
                changes: old(rt)@.changes.insert(self.spec_key()),
                ..old(rt)@
            }),
            write_defers(old(rt)@) && !(old(rt)@.signals.contains_key(self.spec_key())
                && !true.encodes(old(rt)@.signals[self.spec_key()])) ==> final(rt)@ == old(rt)@,
    {
        self.set(rt, host, true);
    }

    /// Sets the value to `false`; otherwise as [`Signal::turn_on`].
    pub fn turn_off<H: Host>(&self, rt: &mut Runtime, host: &mut H)
        ensures
            final(rt)@.current_scope == old(rt)@.current_scope,
            final(rt)@.rendering_scope == old(rt)@.rendering_scope,
            write_defers(old(rt)@) && old(rt)@.signals.contains_key(self.spec_key())
                && !false.encodes(old(rt)@.signals[self.spec_key()]) ==> final(rt)@ == (RtState {
                signals: old(rt)@.signals.insert(self.spec_key(), Value::Bool(false)),
                changes: old(rt)@.changes.insert(self.spec_key()),
                ..old(rt)@
            }),
            write_defers(old(rt)@) && !(old(rt)@.signals.contains_key(self.spec_key())
                && !false.encodes(old(rt)@.signals[self.spec_key()])) ==> final(rt)@ == old(rt)@,
    {
        self.set(rt, host, false);
    }
}

impl<T: SignalValue> Signal<Vec<T>> {
    /// Appends `item`.  Always counts as a change; in a deferring write
    /// the outcome is the read's edge plus the one-longer list.
    pub fn push<H: Host>(&self, rt: &mut Runtime, host: &mut H, item: T)
        requires
            old(rt)@.signals.contains_key(self.spec_key()),
            exists|v: Vec<T>| v.encodes(old(rt)@.signals[self.spec_key()]),
        ensures
            final(rt)@.current_scope == old(rt)@.current_scope,
            final(rt)@.rendering_scope == old(rt)@.rendering_scope,
            write_defers(old(rt)@) ==> (exists|v: Vec<T>|
                v.encodes(old(rt)@.signals[self.spec_key()]) && crate::value::seq_encodes(
                    v@.push(item),
                    final(rt)@.signals[self.spec_key()],
                ) && final(rt)@ == (RtState {
                    signals: after_edge(old(rt)@, self.spec_key()).signals.insert(
                        self.spec_key(),
                        final(rt)@.signals[self.spec_key()],
                    ),
                    changes: old(rt)@.changes.insert(self.spec_key()),
                    ..after_edge(old(rt)@, self.spec_key())
                })),
    {
        let mut v = self.get(rt);
        let ghost v0 = v;
        v.push(item);
        let ghost gv = v;
        self.set(rt, host, v);
        proof {
            mutator_outcome_proof::<T>(old(rt)@, rt@, self.spec_key(), v0, gv);
        }
    }

    /// Removes and returns the last element; popping the empty list
    /// returns `None` and changes nothing.
    pub fn pop<H: Host>(&self, rt: &mut Runtime, host: &mut H) -> (r: Option<T>)
        requires
            old(rt)@.signals.contains_key(self.spec_key()),
            exists|v: Vec<T>| v.encodes(old(rt)@.signals[self.spec_key()]),
        ensures
            final(rt)@.current_scope == old(rt)@.current_scope,
            final(rt)@.rendering_scope == old(rt)@.rendering_scope,
            old(rt)@.signals[self.spec_key()] matches Value::List(es) ==> {
                &&& (es@.len() > 0 ==> (r matches Option::Some(x) && x.encodes(es@.last())))
                &&& (es@.len() == 0 ==> r is None)
            },
            write_defers(old(rt)@) ==> (exists|v: Vec<T>|
                v.encodes(old(rt)@.signals[self.spec_key()]) && crate::value::seq_encodes(
                    if v@.len() > 0 {
                        v@.drop_last()
                    } else {
                        v@
                    },
                    final(rt)@.signals[self.spec_key()],
                ) && final(rt)@ == (RtState {
                    signals: after_edge(old(rt)@, self.spec_key()).signals.insert(
                        self.spec_key(),
                        final(rt)@.signals[self.spec_key()],
                    ),
                    changes: final(rt)@.changes,
                    ..after_edge(old(rt)@, self.spec_key())
                }) && (final(rt)@.changes == old(rt)@.changes || final(rt)@.changes == old(rt)@.changes.insert(self.spec_key()))),
    {
        let mut v = self.get(rt);
        let ghost v0 = v;
        let r = v.pop();
        let ghost gv = v;
        self.set(rt, host, v);
        proof {
            mutator_outcome_proof::<T>(old(rt)@, rt@, self.spec_key(), v0, gv);
        }
        r
    }

    /// Inserts `item` at `index`, shifting what follows.
    pub fn insert<H: Host>(&self, rt: &mut Runtime, host: &mut H, index: usize, item: T)
        requires
            old(rt)@.signals.contains_key(self.spec_key()),
            exists|v: Vec<T>| v.encodes(old(rt)@.signals[self.spec_key()]),
            old(rt)@.signals[self.spec_key()] matches Value::List(es) && index <= es@.len(),
        ensures
            final(rt)@.current_scope == old(rt)@.current_scope,
            final(rt)@.rendering_scope == old(rt)@.rendering_scope,
            write_defers(old(rt)@) ==> (exists|v: Vec<T>|
                v.encodes(old(rt)@.signals[self.spec_key()]) && crate::value::seq_encodes(
                    v@.insert(index as int, item),
                    final(rt)@.signals[self.spec_key()],
                ) && final(rt)@ == (RtState {
                    signals: after_edge(old(rt)@, self.spec_key()).signals.insert(
                        self.spec_key(),
                        final(rt)@.signals[self.spec_key()],
                    ),
                    changes: old(rt)@.changes.insert(self.spec_key()),
                    ..after_edge(old(rt)@, self.spec_key())
                })),
    {
        let mut v = self.get(rt);
        let ghost v0 = v;
        v.insert(index, item);
        let ghost gv = v;
        self.set(rt, host, v);
        proof {
            mutator_outcome_proof::<T>(old(rt)@, rt@, self.spec_key(), v0, gv);
        }
    }

    /// Removes and returns the element at `index`, shifting what follows.
    pub fn remove<H: Host>(&self, rt: &mut Runtime, host: &mut H, index: usize) -> (r: T)
        requires
            old(rt)@.signals.contains_key(self.spec_key()),
            exists|v: Vec<T>| v.encodes(old(rt)@.signals[self.spec_key()]),
            old(rt)@.signals[self.spec_key()] matches Value::List(es) && index < es@.len(),
        ensures
            final(rt)@.current_scope == old(rt)@.current_scope,
            final(rt)@.rendering_scope == old(rt)@.rendering_scope,
            old(rt)@.signals[self.spec_key()] matches Value::List(es) ==> r.encodes(
                es@[index as int],
            ),
            write_defers(old(rt)@) ==> (exists|v: Vec<T>|
                v.encodes(old(rt)@.signals[self.spec_key()]) && crate::value::seq_encodes(
                    v@.remove(index as int),
                    final(rt)@.signals[self.spec_key()],
                ) && final(rt)@ == (RtState {
                    signals: after_edge(old(rt)@, self.spec_key()).signals.insert(
                        self.spec_key(),
                        final(rt)@.signals[self.spec_key()],
                    ),
                    changes: final(rt)@.changes,
                    ..after_edge(old(rt)@, self.spec_key())
                }) && (final(rt)@.changes == old(rt)@.changes || final(rt)@.changes == old(rt)@.changes.insert(self.spec_key()))),
    {
        let mut v = self.get(rt);
        let ghost v0 = v;
        let r = v.remove(index);
        let ghost gv = v;
        self.set(rt, host, v);
        proof {
            mutator_outcome_proof::<T>(old(rt)@, rt@, self.spec_key(), v0, gv);
        }
        r
    }

    /// Keeps only the elements the predicate accepts, in their original
    /// order.
    pub fn retain<H: Host, F: Fn(&T) -> bool>(&self, rt: &mut Runtime, host: &mut H, f: F)
        requires
            old(rt)@.signals.contains_key(self.spec_key()),
            exists|v: Vec<T>| v.encodes(old(rt)@.signals[self.spec_key()]),
            forall|t: &T| #[trigger] call_requires(f, (t,)),
        ensures
            final(rt)@.current_scope == old(rt)@.current_scope,
            final(rt)@.rendering_scope == old(rt)@.rendering_scope,
            write_defers(old(rt)@) ==> (exists|v: Vec<T>, picks: Seq<int>|
                v.encodes(old(rt)@.signals[self.spec_key()]) && picked_from(v, picks, f)
                    && list_of_picks(v, picks, final(rt)@.signals[self.spec_key()]) && final(rt)@ == (RtState {
                    signals: after_edge(old(rt)@, self.spec_key()).signals.insert(
                        self.spec_key(),
                        final(rt)@.signals[self.spec_key()],
                    ),
                    changes: final(rt)@.changes,
                    ..after_edge(old(rt)@, self.spec_key())
                }) && (final(rt)@.changes == old(rt)@.changes || final(rt)@.changes == old(rt)@.changes.insert(self.spec_key()))),
    {
        let v = self.get(rt);
        let ghost v0 = v;
        let mut items = v;
        let mut kept: Vec<T> = Vec::new();
        let ghost mut picks: Seq<int> = Seq::empty();
        let ghost mut idx: int = 0;
        while items.len() > 0
            invariant
                forall|t: &T| #[trigger] call_requires(f, (t,)),
                0 <= idx <= v0@.len(),
                items@ == v0@.subrange(idx, v0@.len() as int),
                kept@.len() == picks.len(),
                forall|i: int| 0 <= i < picks.len() ==> 0 <= #[trigger] picks[i] < idx,
                forall|i: int, j: int| 0 <= i < j < picks.len() ==> picks[i] < picks[j],
                forall|i: int|
                    0 <= i < picks.len() ==> kept@[i] == v0@[#[trigger] picks[i]]
                        && call_ensures(f, (&v0@[picks[i]],), true),
                forall|j: int|
                    0 <= j < idx && !picks.contains(j) ==> call_ensures(
                        f,
                        (&v0@[j],),
                        false,
                    ),
            decreases items@.len(),
        {
            let ghost before = items@;
            let x = items.remove(0);
            proof {
                assert(before == v0@.subrange(idx, v0@.len() as int));
                assert(x == before[0]);
                assert(x == v0@[idx]);
                assert(items@ =~= v0@.subrange(idx + 1, v0@.len() as int));
            }
            let ghost picks0 = picks;
            if f(&x) {
                kept.push(x);
                proof {
                    picks = picks.push(idx);
                    assert forall|j: int|
                        0 <= j < idx + 1 && !picks.contains(j) implies call_ensures(
                        f,
                        (&v0@[j],),
                        false,
                    ) by {
                        assert(picks[picks.len() - 1] == idx);
                        if j < idx {
                            if picks0.contains(j) {
                                let i = choose|i: int|
                                    0 <= i < picks0.len() && picks0[i] == j;
                                assert(picks[i] == j);
                                assert(picks.contains(j));
                            }
                        } else {
                            assert(picks.contains(idx));
                        }
                    }
                    assert forall|i: int, j: int|
                        0 <= i < j < picks.len() implies picks[i] < picks[j] by {
                        if j == picks.len() - 1 {
                            assert(picks[i] == picks0[i]);
                        }
                    }
                }
            } else {
                proof {
                    assert forall|j: int|
                        0 <= j < idx + 1 && !picks.contains(j) implies call_ensures(
                        f,
                        (&v0@[j],),
                        false,
                    ) by {}
                }
            }
            proof {
                idx = idx + 1;
            }
        }
        let ghost gpicks = picks;
        let ghost gkept = kept;
        self.set(rt, host, kept);
        proof {
            mutator_outcome_proof::<T>(old(rt)@, rt@, self.spec_key(), v0, gkept);
            if write_defers(old(rt)@) {
                assert(picked_from(v0, gpicks, f));
                assert(list_of_picks(v0, gpicks, rt@.signals[self.spec_key()])) by {
                    assert(gkept.encodes(rt@.signals[self.spec_key()]));
                }
            }
        }
    }

    /// The length of the stored list; `0` when the cell is absent or does
    /// not hold a list.  The read registers a dependency edge.
    pub fn len(&self, rt: &mut Runtime) -> (r: usize)
        ensures
            final(rt)@ == after_edge(old(rt)@, self.spec_key()),
            old(rt)@.signals[self.spec_key()] matches Value::List(es) ==> (old(rt)@.signals.contains_key(self.spec_key()) ==> r == es@.len()),
            !(old(rt)@.signals.contains_key(self.spec_key())
                && old(rt)@.signals[self.spec_key()] is List) ==> r == 0,
    {
        let k = self.key();
        rt.register_dependency(k);
        match rt.signals.get(k) {
            Option::Some(Value::List(es)) => es.len(),
            _ => 0,
        }
    }

    /// Whether the stored list is empty; `true` when the cell is absent or
    /// does not hold a list (absence reads as empty, never as an error).
    pub fn is_empty(&self, rt: &mut Runtime) -> (r: bool)
        ensures
            final(rt)@ == after_edge(old(rt)@, self.spec_key()),
            old(rt)@.signals[self.spec_key()] matches Value::List(es) ==> (old(rt)@.signals.contains_key(self.spec_key()) ==> r == (es@.len() == 0)),
            !(old(rt)@.signals.contains_key(self.spec_key())
                && old(rt)@.signals[self.spec_key()] is List) ==> r,
    {
        let n = self.len(rt);
        n == 0
    }

    /// Replaces the list with the empty list.  No read happens, so no
    /// dependency edge is recorded; clearing an already-empty list is a
    /// no-op by equality, so a second clear never marks a change.
    pub fn clear<H: Host>(&self, rt: &mut Runtime, host: &mut H)
        ensures
            final(rt)@.current_scope == old(rt)@.current_scope,
            final(rt)@.rendering_scope == old(rt)@.rendering_scope,
            write_defers(old(rt)@) && old(rt)@.signals.contains_key(self.spec_key()) && !(old(rt)@.signals[self.spec_key()] matches Value::List(es) && es@.len() == 0) ==> (
            crate::value::seq_encodes(Seq::<T>::empty(), final(rt)@.signals[self.spec_key()])
                && final(rt)@ == (RtState {
                signals: old(rt)@.signals.insert(
                    self.spec_key(),
                    final(rt)@.signals[self.spec_key()],
                ),
                changes: old(rt)@.changes.insert(self.spec_key()),
                ..old(rt)@
            })),
            write_defers(old(rt)@) && old(rt)@.signals.contains_key(self.spec_key()) && (old(rt)@.signals[self.spec_key()] matches Value::List(es) && es@.len() == 0) ==> final(rt)@ == old(rt)@,
    {
        let empty: Vec<T> = Vec::new();
        self.set(rt, host, empty);
        proof {
            if write_defers(old(rt)@) && old(rt)@.signals.contains_key(self.spec_key()) {
                let stored = old(rt)@.signals[self.spec_key()];
                if stored matches Value::List(es) && es@.len() == 0 {
                    assert(crate::value::seq_encodes(Seq::<T>::empty(), stored));
                }
            }
        }
    }

    /// A snapshot of the element at `index`: `Some` exactly when the cell
    /// holds a decodable list long enough; the read registers a dependency
    /// edge.
    pub fn get_at(&self, rt: &mut Runtime, index: usize) -> (r: Option<T>)
        ensures
            final(rt)@ == after_edge(old(rt)@, self.spec_key()),
            r matches Option::Some(x) ==> (old(rt)@.signals[self.spec_key()] matches Value::List(
                es,
            ) && index < es@.len() && x.encodes(es@[index as int])),
            old(rt)@.signals[self.spec_key()] matches Value::List(es) ==> ((old(rt)@.signals.contains_key(self.spec_key()) && (exists|v: Vec<T>|
                v.encodes(old(rt)@.signals[self.spec_key()])) && index < es@.len()) ==> r
                is Some),
    {
        let snapshot: Option<Vec<T>> = self.try_get(rt);
        match snapshot {
            Option::Some(mut v) => {
                if index < v.len() {
                    let x = v.remove(index);
                    Option::Some(x)
                } else {
                    Option::None
                }
            },
            Option::None => Option::None,
        }
    }

    /// Replaces the element at `index`; out of range, the list is written
    /// back unchanged (a no-op by equality).
    pub fn update_at<H: Host>(&self, rt: &mut Runtime, host: &mut H, index: usize, item: T)
        requires
            old(rt)@.signals.contains_key(self.spec_key()),
            exists|v: Vec<T>| v.encodes(old(rt)@.signals[self.spec_key()]),
        ensures
            final(rt)@.current_scope == old(rt)@.current_scope,
            final(rt)@.rendering_scope == old(rt)@.rendering_scope,
            write_defers(old(rt)@) ==> (exists|v: Vec<T>|
                v.encodes(old(rt)@.signals[self.spec_key()]) && crate::value::seq_encodes(
                    if index < v@.len() {
                        v@.update(index as int, item)
                    } else {
                        v@
                    },
                    final(rt)@.signals[self.spec_key()],
                ) && final(rt)@ == (RtState {
                    signals: after_edge(old(rt)@, self.spec_key()).signals.insert(
                        self.spec_key(),
                        final(rt)@.signals[self.spec_key()],
                    ),
                    changes: final(rt)@.changes,
                    ..after_edge(old(rt)@, self.spec_key())
                }) && (final(rt)@.changes == old(rt)@.changes || final(rt)@.changes == old(rt)@.changes.insert(self.spec_key()))),
    {
        let mut v = self.get(rt);
        let ghost v0 = v;
        if index < v.len() {
            let _ = v.remove(index);
            v.insert(index, item);
            proof {
                assert(v@ =~= v0@.update(index as int, item));
            }
        }
        let ghost gv = v;
        self.set(rt, host, v);
        proof {
            mutator_outcome_proof::<T>(old(rt)@, rt@, self.spec_key(), v0, gv);
        }
    }

    /// Reverses the order of the elements.
    pub fn reverse<H: Host>(&self, rt: &mut Runtime, host: &mut H)
        requires
            old(rt)@.signals.contains_key(self.spec_key()),
            exists|v: Vec<T>| v.encodes(old(rt)@.signals[self.spec_key()]),
        ensures
            final(rt)@.current_scope == old(rt)@.current_scope,
            final(rt)@.rendering_scope == old(rt)@.rendering_scope,
            write_defers(old(rt)@) ==> (exists|v: Vec<T>|
                v.encodes(old(rt)@.signals[self.spec_key()]) && crate::value::seq_encodes(
                    v@.reverse(),
                    final(rt)@.signals[self.spec_key()],
                ) && final(rt)@ == (RtState {
                    signals: after_edge(old(rt)@, self.spec_key()).signals.insert(
                        self.spec_key(),
                        final(rt)@.signals[self.spec_key()],
                    ),
                    changes: final(rt)@.changes,
                    ..after_edge(old(rt)@, self.spec_key())
                }) && (final(rt)@.changes == old(rt)@.changes || final(rt)@.changes == old(rt)@.changes.insert(self.spec_key()))),
    {
        let mut v = self.get(rt);
        let ghost v0 = v;
        let mut out: Vec<T> = Vec::new();
        while v.len() > 0
            invariant
                out@.len() + v@.len() == v0@.len(),
                v@ == v0@.subrange(0, v@.len() as int),
                forall|j: int| 0 <= j < out@.len() ==> out@[j] == v0@[v0@.len() - 1 - j],
            decreases v@.len(),
        {
            let x = match v.pop() {
                Option::Some(x) => x,
                Option::None => vstd::pervasive::unreached(),
            };
            out.push(x);
        }
        proof {
            assert(out@ =~= v0@.reverse());
        }
        let ghost gv = out;
        self.set(rt, host, out);
        proof {
            mutator_outcome_proof::<T>(old(rt)@, rt@, self.spec_key(), v0, gv);
        }
    }

    /// A snapshot of the whole list; the read registers a dependency edge.
    pub fn iter(&self, rt: &mut Runtime) -> (r: Vec<T>)
        requires
            old(rt)@.signals.contains_key(self.spec_key()),
            exists|v: Vec<T>| v.encodes(old(rt)@.signals[self.spec_key()]),
        ensures
            r.encodes(old(rt)@.signals[self.spec_key()]),
            final(rt)@ == after_edge(old(rt)@, self.spec_key()),
    {
        self.get(rt)
    }

    /// Applies `f` to a snapshot of each element and collects the results.
    pub fn map<R, F: Fn(T) -> R>(&self, rt: &mut Runtime, f: F) -> (r: Vec<R>)
        requires
            old(rt)@.signals.contains_key(self.spec_key()),
            exists|v: Vec<T>| v.encodes(old(rt)@.signals[self.spec_key()]),
            forall|t: T| #[trigger] call_requires(f, (t,)),
        ensures
            final(rt)@ == after_edge(old(rt)@, self.spec_key()),
            exists|v: Vec<T>|
                v.encodes(old(rt)@.signals[self.spec_key()]) && r@.len() == v@.len() && (forall|
                    i: int,
                |
                    0 <= i < v@.len() ==> call_ensures(f, (v@[i],), #[trigger] r@[i])),
    {
        let v = self.iter(rt);
        let ghost orig = v@;
        let mut items = v;
        let mut out: Vec<R> = Vec::new();
        while items.len() > 0
            invariant
                out@.len() + items@.len() == orig.len(),
                items@ == orig.subrange(out@.len() as int, orig.len() as int),
                forall|t: T| #[trigger] call_requires(f, (t,)),
                forall|j: int|
                    0 <= j < out@.len() ==> call_ensures(f, (orig[j],), #[trigger] out@[j]),
            decreases items@.len(),
        {
            let x = items.remove(0);
            proof {
                assert(x == orig[out@.len() as int]);
            }
            let y = f(x);
            out.push(y);
        }
        out
    }

    /// Collects a snapshot of the elements the predicate accepts, complete
    /// and in their original order.
    #[verifier::loop_isolation(false)]
    pub fn filter<F: Fn(&T) -> bool>(&self, rt: &mut Runtime, f: F) -> (r: Vec<T>)
        requires
            old(rt)@.signals.contains_key(self.spec_key()),
            exists|v: Vec<T>| v.encodes(old(rt)@.signals[self.spec_key()]),
            forall|t: &T| #[trigger] call_requires(f, (t,)),
        ensures
            final(rt)@ == after_edge(old(rt)@, self.spec_key()),
            exists|v: Vec<T>, picks: Seq<int>|
                v.encodes(old(rt)@.signals[self.spec_key()]) && #[trigger] picked_from(v, picks, f)
                    && r@.len() == picks.len() && (forall|i: int|
                    0 <= i < picks.len() ==> r@[i] == v@[#[trigger] picks[i]]),
    {
        let v = self.iter(rt);
        let ghost v0 = v;
        let mut items = v;
        let mut out: Vec<T> = Vec::new();
        let ghost mut picks: Seq<int> = Seq::empty();
        let ghost mut idx: int = 0;
        proof {
            assert(v0@.subrange(0, v0@.len() as int) =~= v0@);
        }
        while items.len() > 0
            invariant
                0 <= idx <= v0@.len(),
                items@ == v0@.subrange(idx, v0@.len() as int),
                out@.len() == picks.len(),
                forall|i: int| 0 <= i < picks.len() ==> 0 <= #[trigger] picks[i] < idx,
                forall|i: int, j: int| 0 <= i < j < picks.len() ==> picks[i] < picks[j],
                forall|i: int|
                    0 <= i < picks.len() ==> out@[i] == v0@[#[trigger] picks[i]]
                        && call_ensures(f, (&v0@[picks[i]],), true),
                forall|j: int|
                    0 <= j < idx && !picks.contains(j) ==> call_ensures(f, (&v0@[j],), false),
            decreases items@.len(),
        {
            let ghost before = items@;
            let x = items.remove(0);
            proof {
                assert(x == before[0]);
                assert(x == v0@[idx]);
                assert(items@ =~= v0@.subrange(idx + 1, v0@.len() as int));
            }
            let ghost picks0 = picks;
            if f(&x) {
                out.push(x);
                proof {
                    picks = picks.push(idx);
                    assert forall|j: int|
                        0 <= j < idx + 1 && !picks.contains(j) implies call_ensures(
                        f,
                        (&v0@[j],),
                        false,
                    ) by {
                        assert(picks[picks.len() - 1] == idx);
                        if j < idx {
                            if picks0.contains(j) {
                                let i = choose|i: int|
                                    0 <= i < picks0.len() && picks0[i] == j;
                                assert(picks[i] == j);
                                assert(picks.contains(j));
                            }
                        } else {
                            assert(picks.contains(idx));
                        }
                    }
                    assert forall|i: int, j: int|
                        0 <= i < j < picks.len() implies picks[i] < picks[j] by {
                        if j == picks.len() - 1 {
                            assert(picks[i] == picks0[i]);
                        }
                    }
                }
            }
            proof {
                idx = idx + 1;
            }
        }
        proof {
            assert(picked_from(v0, picks, f));
        }
        out
    }
}

/// Whether a sequence of integers is in non-decreasing order.
pub open spec fn int_sorted(s: Seq<i64>) -> bool {
    forall|i: int, j: int| 0 <= i < j < s.len() ==> s[i] <= s[j]
}

/// Inserts `x` into a sorted list, keeping it sorted and adding one
/// occurrence of `x` to its contents.
#[verifier::loop_isolation(false)]
fn sorted_insert(arr: &mut Vec<i64>, x: i64)
    requires
        int_sorted(old(arr)@),
    ensures
        int_sorted(final(arr)@),
        final(arr)@.to_multiset() == old(arr)@.to_multiset().insert(x),
{
    let n: usize = arr.len();
    let mut i: usize = 0;
    while i < n && arr[i] <= x
        invariant
            i <= n,
            forall|j: int| 0 <= j < i ==> arr@[j] <= x,
        decreases n - i,
    {
        i += 1;
    }
    let ghost s0 = arr@;
    arr.insert(i, x);
    proof {
        assert forall|a: int, b: int| 0 <= a < b < arr@.len() implies arr@[a] <= arr@[b] by {
            if b < i {
                assert(arr@[a] == s0[a] && arr@[b] == s0[b]);
            } else if a < i && b == i {
                assert(arr@[a] == s0[a] && arr@[b] == x);
            } else if a < i && b > i {
                assert(arr@[a] == s0[a] && arr@[b] == s0[b - 1]);
                assert(s0[a] <= x);
                if b - 1 < i {
                } else {
                    assert(s0[i as int] > x || i == s0.len());
                }
            } else if a == i {
                assert(arr@[a] == x && arr@[b] == s0[b - 1]);
                assert(b - 1 >= i);
                assert(s0[i as int] > x);
                assert(s0[i as int] <= s0[b - 1]);
            } else {
                assert(arr@[a] == s0[a - 1] && arr@[b] == s0[b - 1]);
            }
        }
        assert(arr@.remove(i as int) =~= s0);
        assert(arr@[i as int] == x);
        assert(arr@.remove(i as int).to_multiset() =~= arr@.to_multiset().remove(x));
        assert(arr@.contains(x));
        assert(arr@.to_multiset().count(x) > 0);
        assert(arr@.to_multiset() =~= s0.to_multiset().insert(x));
    }
}

/// Sorts a list of integers in non-decreasing order, keeping exactly the
/// same contents.
#[verifier::loop_isolation(false)]
fn sort_list(items: Vec<i64>) -> (r: Vec<i64>)
    ensures
        int_sorted(r@),
        r@.to_multiset() == items@.to_multiset(),
{
    let ghost orig = items@;
    let mut rest = items;
    let mut out: Vec<i64> = Vec::new();
    proof {
        assert(out@.to_multiset().add(rest@.to_multiset()) =~= orig.to_multiset());
    }
    while rest.len() > 0
        invariant
            int_sorted(out@),
            out@.to_multiset().add(rest@.to_multiset()) == orig.to_multiset(),
        decreases rest@.len(),
    {
        let ghost r0 = rest@;
        let ghost o0 = out@;
        let x = rest.remove(0);
        proof {
            assert(x == r0[0]);
            assert(rest@ =~= r0.remove(0));
            assert(rest@.to_multiset() =~= r0.to_multiset().remove(x));
            assert(r0.contains(x));
            assert(r0.to_multiset().count(x) > 0);
        }
        sorted_insert(&mut out, x);
        proof {
            assert(out@.to_multiset() =~= o0.to_multiset().insert(x));
            assert(out@.to_multiset().add(rest@.to_multiset()) =~= o0.to_multiset().add(
                r0.to_multiset(),
            ));
        }
    }
    proof {
        assert(rest@ =~= Seq::<i64>::empty());
        assert(rest@.to_multiset().len() == 0);
        assert(rest@.to_multiset() =~= Multiset::<i64>::empty());
        assert(out@.to_multiset().add(Multiset::<i64>::empty()) =~= out@.to_multiset());
    }
    out
}

impl Signal<Vec<i64>> {
    /// Sorts the stored list in non-decreasing order: afterwards the cell
    /// holds a sorted list with exactly the old contents.
    pub fn sort<H: Host>(&self, rt: &mut Runtime, host: &mut H)
        requires
            old(rt)@.signals.contains_key(self.spec_key()),
            exists|v: Vec<i64>| v.encodes(old(rt)@.signals[self.spec_key()]),
        ensures
            final(rt)@.current_scope == old(rt)@.current_scope,
            final(rt)@.rendering_scope == old(rt)@.rendering_scope,
            write_defers(old(rt)@) ==> (exists|v: Vec<i64>, w: Seq<i64>|
                v.encodes(old(rt)@.signals[self.spec_key()]) && int_sorted(w)
                    && w.to_multiset() == v@.to_multiset() && crate::value::seq_encodes(
                    w,
                    final(rt)@.signals[self.spec_key()],
                ) && final(rt)@ == (RtState {
                    signals: after_edge(old(rt)@, self.spec_key()).signals.insert(
                        self.spec_key(),
                        final(rt)@.signals[self.spec_key()],
                    ),
                    changes: final(rt)@.changes,
                    ..after_edge(old(rt)@, self.spec_key())
                }) && (final(rt)@.changes == old(rt)@.changes || final(rt)@.changes == old(
                    rt,
                )@.changes.insert(self.spec_key()))),
    {
        let v = self.get(rt);
        let ghost v0 = v;
        let sorted = sort_list(v);
        let ghost gv = sorted;
        self.set(rt, host, sorted);
        proof {
            mutator_outcome_proof::<i64>(old(rt)@, rt@, self.spec_key(), v0, gv);
        }
    }
}

/// Which elements a predicate pass selected: `picks` are the indices of
/// the accepted elements of the snapshot `v`, strictly increasing (order
/// preserved, nothing duplicated), complete (every index outside `picks`
/// was rejected).
pub open spec fn picked_from<T: SignalValue, F: Fn(&T) -> bool>(
    v: Vec<T>,
    picks: Seq<int>,
    f: F,
) -> bool {
    &&& forall|i: int| 0 <= i < picks.len() ==> 0 <= #[trigger] picks[i] < v@.len()
    &&& forall|i: int, j: int| 0 <= i < j < picks.len() ==> picks[i] < picks[j]
    &&& forall|i: int|
        0 <= i < picks.len() ==> call_ensures(f, (&v@[#[trigger] picks[i]],), true)
    &&& forall|j: int|
        0 <= j < v@.len() && !picks.contains(j) ==> call_ensures(f, (&v@[j],), false)
}

/// Whether the stored value is the list of the picked elements of `v`, in
/// pick order.
pub open spec fn list_of_picks<T: SignalValue>(v: Vec<T>, picks: Seq<int>, stored: Value) -> bool {
    stored matches Value::List(es) && es@.len() == picks.len() && (forall|i: int|
        0 <= i < picks.len() && 0 <= picks[i] < v@.len() ==> v@[#[trigger] picks[i]].encodes(
            es@[i],
        ))
}

/// The common tail of every read-modify-write list mutator: in a deferring
/// write, the final state is the read's edge, the store holding an
/// encoding of the written list, and at most the change mark added.
proof fn mutator_outcome_proof<T: SignalValue>(
    pre: RtState,
    post: RtState,
    k: SignalKey,
    v0: Vec<T>,
    gv: Vec<T>,
)
    requires
        pre.signals.contains_key(k),
        v0.encodes(pre.signals[k]),
        write_defers(pre) ==> {
            let ae = after_edge(pre, k);
            &&& (ae.signals.contains_key(k) && !gv.encodes(ae.signals[k]) ==> gv.encodes(
                post.signals[k],
            ) && post == (RtState {
                signals: ae.signals.insert(k, post.signals[k]),
                changes: ae.changes.insert(k),
                ..ae
            }))
            &&& (!(ae.signals.contains_key(k) && !gv.encodes(ae.signals[k])) ==> post == ae)
        },
    ensures
        write_defers(pre) ==> gv.encodes(post.signals[k]) && post == (RtState {
            signals: after_edge(pre, k).signals.insert(k, post.signals[k]),
            changes: post.changes,
            ..after_edge(pre, k)
        }) && (post.changes == pre.changes || post.changes == pre.changes.insert(k)),
{
    if write_defers(pre) {
        let ae = after_edge(pre, k);
        assert(ae.signals == pre.signals);
        assert(ae.changes == pre.changes);
        if ae.signals.contains_key(k) && !gv.encodes(ae.signals[k]) {
            assert(post =~~= (RtState {
                signals: ae.signals.insert(k, post.signals[k]),
                changes: post.changes,
                ..ae
            }));
        } else {
            assert(gv.encodes(ae.signals[k]));
            assert(post == ae);
            assert(ae.signals.insert(k, ae.signals[k]) =~= ae.signals);
            assert(post =~~= (RtState {
                signals: ae.signals.insert(k, post.signals[k]),
                changes: post.changes,
                ..ae
            }));
        }
    }
}


/// How a signal is seeded.
pub enum SignalInit<T> {
    /// Seed with this value.
    Value(T),
}

/// Why a creation call was refused.
pub enum SignalCreationError {
    /// No scope was the current execution context.
    OutsideScope,
}

impl SignalCreationError {
    /// The refusal, in words.
    pub fn message(&self) -> (r: &'static str) {
        "signals can only be created within a scope context"
    }
}

/// Creates a signal from a [`SignalInit`] in the current scope, with the
/// same outcome as [`create_signal`].
pub fn create_signal_from_init<T: SignalValue>(rt: &mut Runtime, init: SignalInit<T>) -> (r: Signal<
    T,
>)
    requires
        old(rt)@.current_scope is Some,
    ensures
        old(rt)@.current_scope matches Option::Some(c) ==> {
            &&& r.spec_key() == (c, bumped(old(rt)@.signal_counter, c))
            &&& final(rt)@.signals.dom() == old(rt)@.signals.dom().insert(r.spec_key())
            &&& (old(rt)@.signals.contains_key(r.spec_key()) ==> final(rt)@ == (RtState {
                signal_counter: old(rt)@.signal_counter.insert(
                    c,
                    bumped(old(rt)@.signal_counter, c),
                ),
                ..old(rt)@
            }))
            &&& (!old(rt)@.signals.contains_key(r.spec_key()) ==> (init matches SignalInit::Value(
                v,
            ) && v.encodes(final(rt)@.signals[r.spec_key()]) && final(rt)@ == (RtState {
                signals: old(rt)@.signals.insert(r.spec_key(), final(rt)@.signals[r.spec_key()]),
                signal_counter: old(rt)@.signal_counter.insert(
                    c,
                    bumped(old(rt)@.signal_counter, c),
                ),
                ..old(rt)@
            })))
        },
{
    match init {
        SignalInit::Value(v) => create_signal(rt, v),
    }
}

/// Assigns the next signal ordinal without seeding the cell: the lazy
/// variant of [`create_signal`].  Returns the handle and whether the cell
/// is fresh; on a fresh cell the caller runs its initializer once and
/// hands the result to [`init_signal`] — on a re-render the existing value
/// stands and the initializer is never run.
pub fn create_signal_slot<T: SignalValue>(rt: &mut Runtime) -> (r: (Signal<T>, bool))
    requires
        old(rt)@.current_scope is Some,
    ensures
        old(rt)@.current_scope matches Option::Some(c) ==> {
            &&& r.0.spec_key() == (c, bumped(old(rt)@.signal_counter, c))
            &&& r.1 == !old(rt)@.signals.contains_key(r.0.spec_key())
            &&& final(rt)@ == (RtState {
                signal_counter: old(rt)@.signal_counter.insert(
                    c,
                    bumped(old(rt)@.signal_counter, c),
                ),
                ..old(rt)@
            })
        },
{
    let c: usize = match rt.get_current_scope() {
        Option::Some(c) => c,
        Option::None => vstd::pervasive::unreached(),
    };
    let id = rt.get_next_signal_id_for_scope(c);
    let sig: Signal<T> = Signal { scope: c, id, marker: core::marker::PhantomData };
    let fresh = !rt.signals.contains((c, id));
    (sig, fresh)
}

/// Seeds the cell of a lazily created signal with the initializer's
/// result.
pub fn init_signal<T: SignalValue>(rt: &mut Runtime, sig: Signal<T>, value: T)
    ensures
        value.encodes(final(rt)@.signals[sig.spec_key()]),
        final(rt)@ == (RtState {
            signals: old(rt)@.signals.insert(sig.spec_key(), final(rt)@.signals[sig.spec_key()]),
            ..old(rt)@
        }),
{
    let k = sig.key();
    let v = value.into_value();
    rt.signals.insert(k, v);
    proof {
        assert(rt@.signals =~= old(rt)@.signals.insert(k, rt@.signals[k]));
        assert(rt@ =~~= (RtState {
            signals: old(rt)@.signals.insert(k, rt@.signals[k]),
            ..old(rt)@
        }));
    }
}

/// Creates a signal like [`create_signal`], but reports the missing scope
/// as an error instead of demanding it: `Err` exactly when no scope is the
/// current execution context, and then nothing changes.
pub fn try_create_signal<T: SignalValue>(rt: &mut Runtime, initial: T) -> (r: Result<
    Signal<T>,
    SignalCreationError,
>)
    ensures
        r is Err <==> old(rt)@.current_scope is None,
        old(rt)@.current_scope is None ==> final(rt)@ == old(rt)@,
        old(rt)@.current_scope matches Option::Some(c) ==> (r matches Result::Ok(sig) && {
            &&& sig.spec_key() == (c, bumped(old(rt)@.signal_counter, c))
            &&& final(rt)@.signals.dom() == old(rt)@.signals.dom().insert(sig.spec_key())
            &&& (old(rt)@.signals.contains_key(sig.spec_key()) ==> final(rt)@ == (RtState {
                signal_counter: old(rt)@.signal_counter.insert(
                    c,
                    bumped(old(rt)@.signal_counter, c),
                ),
                ..old(rt)@
            }))
            &&& (!old(rt)@.signals.contains_key(sig.spec_key()) ==> initial.encodes(
                final(rt)@.signals[sig.spec_key()],
            ) && final(rt)@ == (RtState {
                signals: old(rt)@.signals.insert(
                    sig.spec_key(),
                    final(rt)@.signals[sig.spec_key()],
                ),
                signal_counter: old(rt)@.signal_counter.insert(
                    c,
                    bumped(old(rt)@.signal_counter, c),
                ),
                ..old(rt)@
            }))
        }),
{
    if rt.get_current_scope().is_some() {
        Result::Ok(create_signal(rt, initial))
    } else {
        Result::Err(SignalCreationError::OutsideScope)
    }
}

/// The key under which a scope id is stored, at run time.
fn skey_exec(s: usize) -> (r: (usize, usize))
    ensures
        r == skey(s),
{
    (s, 0)
}

/// The memo cache entries folded into a map; a later entry for the same
/// (key, scope) shadows an earlier one.
spec fn memo_map(s: Seq<(String, usize, Value)>) -> Map<(Seq<char>, usize), Value>
    decreases s.len(),
{
    if s.len() == 0 {
        Map::empty()
    } else {
        memo_map(s.drop_last()).insert((s.last().0@, s.last().1), s.last().2)
    }
}

/// A sequence with no entry for `ks` folds to a map without `ks`.
proof fn lemma_memo_absent(s: Seq<(String, usize, Value)>, ks: (Seq<char>, usize))
    requires
        forall|i: int|
            0 <= i < s.len() ==> !((#[trigger] s[i]).0@ == ks.0 && s[i].1 == ks.1),
    ensures
        !memo_map(s).dom().contains(ks),
    decreases s.len(),
{
    if s.len() > 0 {
        lemma_memo_absent(s.drop_last(), ks);
    }
}

/// The fold returns the value of the last entry for `ks`.
proof fn lemma_memo_found(s: Seq<(String, usize, Value)>, ks: (Seq<char>, usize), i: int)
    requires
        0 <= i < s.len(),
        s[i].0@ == ks.0 && s[i].1 == ks.1,
        forall|j: int| i < j < s.len() ==> !((#[trigger] s[j]).0@ == ks.0 && s[j].1 == ks.1),
    ensures
        memo_map(s).dom().contains(ks),
        memo_map(s)[ks] == s[i].2,
    decreases s.len(),
{
    if i == s.len() - 1 {
    } else {
        lemma_memo_found(s.drop_last(), ks, i);
    }
}

/// The memo cache: one live cached value per (key, owning scope).
struct MemoTable {
    entries: Vec<(String, usize, Value)>,
}

impl MemoTable {
    /// The cache as a map from (key text, scope) to cached value.
    closed spec fn view(self) -> Map<(Seq<char>, usize), Value> {
        memo_map(self.entries@)
    }

    fn new() -> (r: Self)
        ensures
            r.view() == Map::<(Seq<char>, usize), Value>::empty(),
    {
        MemoTable { entries: Vec::new() }
    }

    /// Looks up the cached value for (`key`, `scope`).
    #[verifier::loop_isolation(false)]
    fn get(&self, key: &String, scope: usize) -> (r: Option<&Value>)
        ensures
            match r {
                Option::Some(v) => self.view().dom().contains((key@, scope)) && *v
                    == self.view()[(key@, scope)],
                Option::None => !self.view().dom().contains((key@, scope)),
            },
    {
        let n: usize = self.entries.len();
        let mut i: usize = n;
        while i > 0
            invariant
                i <= n,
                forall|j: int|
                    i <= j < n ==> !((#[trigger] self.entries@[j]).0@ == key@
                        && self.entries@[j].1 == scope),
            decreases i,
        {
            i = i - 1;
            let hit = self.entries[i].0 == *key && self.entries[i].1 == scope;
            if hit {
                proof {
                    lemma_memo_found(self.entries@, (key@, scope), i as int);
                }
                return Option::Some(&self.entries[i].2);
            }
        }
        proof {
            lemma_memo_absent(self.entries@, (key@, scope));
        }
        Option::None
    }

    /// Caches `v` under (`key`, `scope`).
    fn insert(&mut self, key: &String, scope: usize, v: Value)
        ensures
            final(self).view() == old(self).view().insert((key@, scope), v),
    {
        let entry = (key.clone(), scope, v);
        self.entries.push(entry);
        proof {
            assert(self.entries@.drop_last() =~= old(self).entries@);
        }
    }
}

} // verus!
