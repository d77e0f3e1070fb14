use momenta_core::nodes::Node;
use momenta_core::runtime::Host;
use momenta_core::runtime::Resource;
use momenta_core::runtime::Runtime;
use momenta_core::runtime::Signal;
use momenta_core::runtime::batch_begin;
use momenta_core::runtime::batch_end;
use momenta_core::runtime::create_effect;
use momenta_core::runtime::create_effect_with_cleanup;
use momenta_core::runtime::create_memo;
use momenta_core::runtime::create_resource;
use momenta_core::runtime::create_signal;
use momenta_core::runtime::create_signal_from_init;
use momenta_core::runtime::create_signal_slot;
use momenta_core::runtime::init_signal;
use momenta_core::runtime::try_create_signal;
use momenta_core::runtime::SignalInit;
use momenta_core::runtime::memo_init;
use momenta_core::runtime::memo_write;
use momenta_core::runtime::render_scope;
use momenta_core::runtime::run_scope;
use momenta_core::value::ResourceStatus;

struct NestedHost {
    outer: Option<Signal<i32>>,
}

impl Host for NestedHost {
    fn render(&mut self, rt: &mut Runtime, scope: usize) -> Node {
        match scope {
            1 => {
                let outer = create_signal(rt, 0i32);
                self.outer = Some(outer);
                let _ = run_scope(rt, self);
                assert_eq!(outer.get(rt), 42);
                Node::Empty
            }
            _ => {
                let inner = create_signal(rt, "hello");
                assert!(inner.get(rt) == "hello");
                let outer = self.outer.unwrap();
                outer.set(rt, self, 42);
                Node::Empty
            }
        }
    }
    fn on_render(&mut self, _rt: &mut Runtime, _scope: usize, _node: &Node) {}
    fn effect(&mut self, _rt: &mut Runtime, _scope: usize, _effect: usize) {}
    fn cleanup(&mut self, _rt: &mut Runtime, _scope: usize, _effect: usize) {}
    fn fetch(&mut self, _rt: &mut Runtime, _scope: usize, _effect: usize) {}
}

#[test]
fn test_nested_scopes() {
    let mut rt = Runtime::new();
    let mut host = NestedHost { outer: None };
    run_scope(&mut rt, &mut host);
}

struct SelfWriteHost {
    sig: Option<Signal<i32>>,
    effect_count: usize,
}

impl Host for SelfWriteHost {
    fn render(&mut self, rt: &mut Runtime, _scope: usize) -> Node {
        let sig = create_signal(rt, 0i32);
        self.sig = Some(sig);
        let _ = create_effect(rt);
        Node::Empty
    }
    fn on_render(&mut self, _rt: &mut Runtime, _scope: usize, _node: &Node) {}
    fn effect(&mut self, rt: &mut Runtime, _scope: usize, _effect: usize) {
        let sig = self.sig.unwrap();
        let _ = sig.get(rt);
        self.effect_count += 1;
        assert!(self.effect_count > 0);
        sig.set(rt, self, 1);
    }
    fn cleanup(&mut self, _rt: &mut Runtime, _scope: usize, _effect: usize) {}
    fn fetch(&mut self, _rt: &mut Runtime, _scope: usize, _effect: usize) {}
}

#[test]
fn test_signal_and_effect_in_scope() {
    let mut rt = Runtime::new();
    let mut host = SelfWriteHost { sig: None, effect_count: 0 };
    run_scope(&mut rt, &mut host);
}

struct MultiHost {
    s1: Option<Signal<&'static str>>,
    s2: Option<Signal<i32>>,
}

impl Host for MultiHost {
    fn render(&mut self, rt: &mut Runtime, _scope: usize) -> Node {
        let s1 = create_signal(rt, "hello");
        let s2 = create_signal(rt, 0i32);
        self.s1 = Some(s1);
        self.s2 = Some(s2);
        let _ = create_effect(rt);
        s1.set(rt, self, "world");
        s2.set(rt, self, 42);
        assert_eq!(s1.get(rt), "world");
        assert_eq!(s2.get(rt), 42);
        Node::Empty
    }
    fn on_render(&mut self, _rt: &mut Runtime, _scope: usize, _node: &Node) {}
    fn effect(&mut self, rt: &mut Runtime, _scope: usize, _effect: usize) {
        if let Some(s1) = self.s1 {
            let _ = s1.get(rt);
        }
        if let Some(s2) = self.s2 {
            let _ = s2.get(rt);
        }
    }
    fn cleanup(&mut self, _rt: &mut Runtime, _scope: usize, _effect: usize) {}
    fn fetch(&mut self, _rt: &mut Runtime, _scope: usize, _effect: usize) {}
}

#[test]
fn test_multiple_signals_and_dependencies() {
    let mut rt = Runtime::new();
    let mut host = MultiHost { s1: None, s2: None };
    run_scope(&mut rt, &mut host);
}

struct RoundTripHost;

impl Host for RoundTripHost {
    fn render(&mut self, rt: &mut Runtime, _scope: usize) -> Node {
        let s = create_signal(rt, 0i32);
        assert_eq!(s.get(rt), 0);
        s.set(rt, self, 5);
        assert_eq!(s.get(rt), 5);
        Node::Empty
    }
    fn on_render(&mut self, _rt: &mut Runtime, _scope: usize, _node: &Node) {}
    fn effect(&mut self, _rt: &mut Runtime, _scope: usize, _effect: usize) {}
    fn cleanup(&mut self, _rt: &mut Runtime, _scope: usize, _effect: usize) {}
    fn fetch(&mut self, _rt: &mut Runtime, _scope: usize, _effect: usize) {}
}

#[test]
fn signal_set_then_get_round_trip() {
    let mut rt = Runtime::new();
    let mut host = RoundTripHost;
    run_scope(&mut rt, &mut host);
}

struct CounterHost {
    a: Option<Signal<i32>>,
    runs: usize,
}

impl Host for CounterHost {
    fn render(&mut self, rt: &mut Runtime, _scope: usize) -> Node {
        let a = create_signal(rt, 1i32);
        self.a = Some(a);
        let _ = create_effect(rt);
        Node::Empty
    }
    fn on_render(&mut self, _rt: &mut Runtime, _scope: usize, _node: &Node) {}
    fn effect(&mut self, rt: &mut Runtime, _scope: usize, _effect: usize) {
        let a = self.a.unwrap();
        let _ = a.get(rt);
        self.runs += 1;
    }
    fn cleanup(&mut self, _rt: &mut Runtime, _scope: usize, _effect: usize) {}
    fn fetch(&mut self, _rt: &mut Runtime, _scope: usize, _effect: usize) {}
}

#[test]
fn effect_reruns_exactly_once_per_change() {
    let mut rt = Runtime::new();
    let mut host = CounterHost { a: None, runs: 0 };
    run_scope(&mut rt, &mut host);
    assert_eq!(host.runs, 1);
    let a = host.a.unwrap();
    a.set(&mut rt, &mut host, 2);
    assert_eq!(host.runs, 2);
    assert_eq!(a.get(&mut rt), 2);
}

struct BatchHost {
    a: Option<Signal<i32>>,
}

impl Host for BatchHost {
    fn render(&mut self, rt: &mut Runtime, _scope: usize) -> Node {
        let a = create_signal(rt, 0i32);
        self.a = Some(a);
        let _ = a.get(rt);
        Node::Empty
    }
    fn on_render(&mut self, _rt: &mut Runtime, _scope: usize, _node: &Node) {}
    fn effect(&mut self, _rt: &mut Runtime, _scope: usize, _effect: usize) {}
    fn cleanup(&mut self, _rt: &mut Runtime, _scope: usize, _effect: usize) {}
    fn fetch(&mut self, _rt: &mut Runtime, _scope: usize, _effect: usize) {}
}

#[test]
fn batch_defers_and_renders_once() {
    let mut rt = Runtime::new();
    let mut host = BatchHost { a: None };
    run_scope(&mut rt, &mut host);
    assert_eq!(rt.render_count(), 1);
    let a = host.a.unwrap();
    batch_begin(&mut rt);
    a.set(&mut rt, &mut host, 1);
    assert_eq!(rt.render_count(), 1);
    a.set(&mut rt, &mut host, 2);
    assert_eq!(rt.render_count(), 1);
    batch_end(&mut rt, &mut host);
    assert_eq!(a.get(&mut rt), 2);
    assert_eq!(rt.render_count(), 2);
}

struct ListHost {
    items: Option<Signal<Vec<i32>>>,
}

impl Host for ListHost {
    fn render(&mut self, rt: &mut Runtime, _scope: usize) -> Node {
        let items = create_signal(rt, vec![1i32, 2, 3]);
        self.items = Some(items);
        let _ = items.len(rt);
        Node::Empty
    }
    fn on_render(&mut self, _rt: &mut Runtime, _scope: usize, _node: &Node) {}
    fn effect(&mut self, _rt: &mut Runtime, _scope: usize, _effect: usize) {}
    fn cleanup(&mut self, _rt: &mut Runtime, _scope: usize, _effect: usize) {}
    fn fetch(&mut self, _rt: &mut Runtime, _scope: usize, _effect: usize) {}
}

#[test]
fn list_signal_push_and_pop() {
    let mut rt = Runtime::new();
    let mut host = ListHost { items: None };
    run_scope(&mut rt, &mut host);
    let items = host.items.unwrap();
    items.push(&mut rt, &mut host, 4);
    assert_eq!(items.len(&mut rt), 4);
    assert_eq!(items.pop(&mut rt, &mut host), Some(4));
    assert_eq!(items.len(&mut rt), 3);
    assert_eq!(items.get_at(&mut rt, 0), Some(1));
    assert_eq!(items.iter(&mut rt), vec![1, 2, 3]);
}

struct ResourceHost {
    res: Option<Resource<i32>>,
    fetches: usize,
}

impl Host for ResourceHost {
    fn render(&mut self, rt: &mut Runtime, _scope: usize) -> Node {
        let res = create_resource::<i32>(rt);
        if self.res.is_none() {
            assert_eq!(res.status().get(rt), ResourceStatus::Idle);
        }
        self.res = Some(res);
        Node::Empty
    }
    fn on_render(&mut self, _rt: &mut Runtime, _scope: usize, _node: &Node) {}
    fn effect(&mut self, _rt: &mut Runtime, _scope: usize, _effect: usize) {}
    fn cleanup(&mut self, _rt: &mut Runtime, _scope: usize, _effect: usize) {}
    fn fetch(&mut self, _rt: &mut Runtime, _scope: usize, _effect: usize) {
        self.fetches += 1;
    }
}

#[test]
fn resource_runs_idle_loading_resolved() {
    let mut rt = Runtime::new();
    let mut host = ResourceHost { res: None, fetches: 0 };
    run_scope(&mut rt, &mut host);
    let res = host.res.unwrap();
    assert_eq!(host.fetches, 1);
    assert_eq!(res.status().get(&mut rt), ResourceStatus::Loading);
    res.resolve(&mut rt, &mut host, 42);
    assert_eq!(res.status().get(&mut rt), ResourceStatus::Resolved);
    assert_eq!(res.get(&mut rt), Some(42));
    assert_eq!(res.with(&mut rt, |v| *v + 1), Some(43));
}

struct MutualHost {
    a: Option<Signal<i32>>,
    b: Option<Signal<i32>>,
    n: i32,
}

impl Host for MutualHost {
    fn render(&mut self, rt: &mut Runtime, scope: usize) -> Node {
        match scope {
            1 => {
                let a = create_signal(rt, 0i32);
                self.a = Some(a);
                let _ = a.get(rt);
                let _ = create_effect(rt);
            }
            _ => {
                let b = create_signal(rt, 0i32);
                self.b = Some(b);
                let _ = b.get(rt);
                let _ = create_effect(rt);
            }
        }
        Node::Empty
    }
    fn on_render(&mut self, _rt: &mut Runtime, _scope: usize, _node: &Node) {}
    fn effect(&mut self, rt: &mut Runtime, scope: usize, _effect: usize) {
        self.n += 1;
        let n = self.n;
        if scope == 1 {
            if let Some(b) = self.b {
                b.set(rt, self, n);
            }
        } else if let Some(a) = self.a {
            a.set(rt, self, n);
        }
    }
    fn cleanup(&mut self, _rt: &mut Runtime, _scope: usize, _effect: usize) {}
    fn fetch(&mut self, _rt: &mut Runtime, _scope: usize, _effect: usize) {}
}

#[test]
fn mutual_triggering_stops_at_the_cap() {
    let mut rt = Runtime::new();
    let mut host = MutualHost { a: None, b: None, n: 0 };
    run_scope(&mut rt, &mut host);
    run_scope(&mut rt, &mut host);
    assert!(rt.overrun_count() >= 1);
}

struct TwoScopeHost {
    a: Option<Signal<i32>>,
    b: Option<Signal<i32>>,
    runs: usize,
}

impl Host for TwoScopeHost {
    fn render(&mut self, rt: &mut Runtime, scope: usize) -> Node {
        match scope {
            1 => {
                let a = create_signal(rt, 1i32);
                self.a = Some(a);
                let _ = create_effect(rt);
            }
            _ => {
                let b = create_signal(rt, 10i32);
                self.b = Some(b);
                let _ = b.get(rt);
            }
        }
        Node::Empty
    }
    fn on_render(&mut self, _rt: &mut Runtime, _scope: usize, _node: &Node) {}
    fn effect(&mut self, rt: &mut Runtime, scope: usize, _effect: usize) {
        if scope == 1 {
            let a = self.a.unwrap();
            let _ = a.get(rt);
            self.runs += 1;
        }
    }
    fn cleanup(&mut self, _rt: &mut Runtime, _scope: usize, _effect: usize) {}
    fn fetch(&mut self, _rt: &mut Runtime, _scope: usize, _effect: usize) {}
}

#[test]
fn unrelated_signal_does_not_rerun_effect() {
    let mut rt = Runtime::new();
    let mut host = TwoScopeHost { a: None, b: None, runs: 0 };
    run_scope(&mut rt, &mut host);
    run_scope(&mut rt, &mut host);
    assert_eq!(host.runs, 1);
    let b = host.b.unwrap();
    b.set(&mut rt, &mut host, 20);
    assert_eq!(host.runs, 1);
    let a = host.a.unwrap();
    a.set(&mut rt, &mut host, 2);
    assert_eq!(host.runs, 2);
}

struct SelfRenderHost {
    attempted: bool,
}

impl Host for SelfRenderHost {
    fn render(&mut self, rt: &mut Runtime, scope: usize) -> Node {
        if !self.attempted {
            self.attempted = true;
            let inner = render_scope(rt, self, scope);
            assert!(matches!(inner, Node::Empty));
        }
        Node::Text(String::from("rendered"))
    }
    fn on_render(&mut self, _rt: &mut Runtime, _scope: usize, _node: &Node) {}
    fn effect(&mut self, _rt: &mut Runtime, _scope: usize, _effect: usize) {}
    fn cleanup(&mut self, _rt: &mut Runtime, _scope: usize, _effect: usize) {}
    fn fetch(&mut self, _rt: &mut Runtime, _scope: usize, _effect: usize) {}
}

#[test]
fn self_rerender_returns_empty() {
    let mut rt = Runtime::new();
    let mut host = SelfRenderHost { attempted: false };
    let (scope, node) = run_scope(&mut rt, &mut host);
    assert_eq!(scope, 1);
    assert!(host.attempted);
    assert!(matches!(node, Node::Text(_)));
}

struct MemoHost {
    count: Option<Signal<i32>>,
    trigger: Option<Signal<i32>>,
    memo: Option<Signal<i32>>,
    body_computes: usize,
}

impl Host for MemoHost {
    fn render(&mut self, rt: &mut Runtime, _scope: usize) -> Node {
        let count = create_signal(rt, 5i32);
        let trigger = create_signal(rt, 0i32);
        let _ = trigger.get(rt);
        self.count = Some(count);
        self.trigger = Some(trigger);
        let (memo, _effect, needs_init) = create_memo::<i32>(rt, "double_count");
        if needs_init {
            let c = count.get(rt);
            self.body_computes += 1;
            memo_init(rt, memo, "double_count", c * 2);
        }
        self.memo = Some(memo);
        Node::Empty
    }
    fn on_render(&mut self, _rt: &mut Runtime, _scope: usize, _node: &Node) {}
    fn effect(&mut self, rt: &mut Runtime, _scope: usize, _effect: usize) {
        let count = self.count.unwrap();
        let memo = self.memo.unwrap();
        let c = count.get(rt);
        memo_write(rt, self, memo, "double_count", c * 2);
    }
    fn cleanup(&mut self, _rt: &mut Runtime, _scope: usize, _effect: usize) {}
    fn fetch(&mut self, _rt: &mut Runtime, _scope: usize, _effect: usize) {}
}

#[test]
fn memo_reuses_cache_across_renders() {
    let mut rt = Runtime::new();
    let mut host = MemoHost { count: None, trigger: None, memo: None, body_computes: 0 };
    run_scope(&mut rt, &mut host);
    assert_eq!(host.body_computes, 1);
    assert_eq!(host.memo.unwrap().get(&mut rt), 10);
    let trigger = host.trigger.unwrap();
    trigger.set(&mut rt, &mut host, 1);
    assert_eq!(host.body_computes, 1);
    assert_eq!(host.memo.unwrap().get(&mut rt), 10);
    let count = host.count.unwrap();
    count.set(&mut rt, &mut host, 7);
    assert_eq!(host.memo.unwrap().get(&mut rt), 14);
}

struct TaggedHost;

impl Host for TaggedHost {
    fn render(&mut self, _rt: &mut Runtime, _scope: usize) -> Node {
        momenta_core::nodes::Element::parse_tag_with_attributes(
            "",
            "div",
            Vec::new(),
            Vec::new(),
            "",
            Vec::new(),
        )
    }
    fn on_render(&mut self, _rt: &mut Runtime, _scope: usize, _node: &Node) {}
    fn effect(&mut self, _rt: &mut Runtime, _scope: usize, _effect: usize) {}
    fn cleanup(&mut self, _rt: &mut Runtime, _scope: usize, _effect: usize) {}
    fn fetch(&mut self, _rt: &mut Runtime, _scope: usize, _effect: usize) {}
}

#[test]
fn rendered_element_is_tagged_with_scope_id() {
    let mut rt = Runtime::new();
    let mut host = TaggedHost;
    let (scope, node) = run_scope(&mut rt, &mut host);
    assert_eq!(scope, 1);
    let element = node.as_element().unwrap();
    assert_eq!(element.key(), "1");
    assert_eq!(element.tag(), "div");
}

struct BoolHost {
    flag: Option<Signal<bool>>,
}

impl Host for BoolHost {
    fn render(&mut self, rt: &mut Runtime, _scope: usize) -> Node {
        let flag = create_signal(rt, false);
        self.flag = Some(flag);
        Node::Empty
    }
    fn on_render(&mut self, _rt: &mut Runtime, _scope: usize, _node: &Node) {}
    fn effect(&mut self, _rt: &mut Runtime, _scope: usize, _effect: usize) {}
    fn cleanup(&mut self, _rt: &mut Runtime, _scope: usize, _effect: usize) {}
    fn fetch(&mut self, _rt: &mut Runtime, _scope: usize, _effect: usize) {}
}

#[test]
fn bool_signal_toggles() {
    let mut rt = Runtime::new();
    let mut host = BoolHost { flag: None };
    run_scope(&mut rt, &mut host);
    let flag = host.flag.unwrap();
    assert_eq!(flag.get(&mut rt), false);
    flag.toggle(&mut rt, &mut host);
    assert_eq!(flag.get(&mut rt), true);
    flag.turn_off(&mut rt, &mut host);
    assert_eq!(flag.get(&mut rt), false);
    flag.turn_on(&mut rt, &mut host);
    assert_eq!(flag.get(&mut rt), true);
    assert_eq!(flag.then(&mut rt, || 7), Some(7));
}

struct InitHost {
    late: Option<Signal<i32>>,
}

impl Host for InitHost {
    fn render(&mut self, rt: &mut Runtime, _scope: usize) -> Node {
        let sig = create_signal_from_init(rt, SignalInit::Value(3i32));
        assert_eq!(sig.get(rt), 3);
        let tried = try_create_signal(rt, 4i32);
        match tried {
            Ok(late) => {
                assert_eq!(late.get(rt), 4);
                self.late = Some(late);
            }
            Err(_) => panic!("creation inside a scope must succeed"),
        }
        Node::Empty
    }
    fn on_render(&mut self, _rt: &mut Runtime, _scope: usize, _node: &Node) {}
    fn effect(&mut self, _rt: &mut Runtime, _scope: usize, _effect: usize) {}
    fn cleanup(&mut self, _rt: &mut Runtime, _scope: usize, _effect: usize) {}
    fn fetch(&mut self, _rt: &mut Runtime, _scope: usize, _effect: usize) {}
}

#[test]
fn creation_outside_scope_is_an_error() {
    let mut rt = Runtime::new();
    let mut host = InitHost { late: None };
    let refused = try_create_signal(&mut rt, 1i32);
    match refused {
        Err(e) => assert_eq!(e.message(), "signals can only be created within a scope context"),
        Ok(_) => panic!("creation outside a scope must be refused"),
    }
    run_scope(&mut rt, &mut host);
    assert!(host.late.is_some());
}

struct EditListHost {
    items: Option<Signal<Vec<i32>>>,
}

impl Host for EditListHost {
    fn render(&mut self, rt: &mut Runtime, _scope: usize) -> Node {
        let items = create_signal(rt, vec![3i32, 1, 2]);
        self.items = Some(items);
        Node::Empty
    }
    fn on_render(&mut self, _rt: &mut Runtime, _scope: usize, _node: &Node) {}
    fn effect(&mut self, _rt: &mut Runtime, _scope: usize, _effect: usize) {}
    fn cleanup(&mut self, _rt: &mut Runtime, _scope: usize, _effect: usize) {}
    fn fetch(&mut self, _rt: &mut Runtime, _scope: usize, _effect: usize) {}
}

#[test]
fn list_signal_edits_in_place() {
    let mut rt = Runtime::new();
    let mut host = EditListHost { items: None };
    run_scope(&mut rt, &mut host);
    let items = host.items.unwrap();
    items.insert(&mut rt, &mut host, 0, 9);
    assert_eq!(items.iter(&mut rt), vec![9, 3, 1, 2]);
    assert_eq!(items.remove(&mut rt, &mut host, 1), 3);
    assert_eq!(items.iter(&mut rt), vec![9, 1, 2]);
    items.update_at(&mut rt, &mut host, 1, 5);
    assert_eq!(items.iter(&mut rt), vec![9, 5, 2]);
    items.reverse(&mut rt, &mut host);
    assert_eq!(items.iter(&mut rt), vec![2, 5, 9]);
    items.retain(&mut rt, &mut host, |v: &i32| *v > 2);
    assert_eq!(items.iter(&mut rt), vec![5, 9]);
    assert_eq!(items.map(&mut rt, |v: i32| v * 2), vec![10, 18]);
    assert_eq!(items.filter(&mut rt, |v: &i32| *v > 6), vec![9]);
    assert!(!items.is_empty(&mut rt));
    items.clear(&mut rt, &mut host);
    assert!(items.is_empty(&mut rt));
}

struct CleanupHost {
    a: Option<Signal<i32>>,
    effect_runs: usize,
    cleanup_runs: usize,
}

impl Host for CleanupHost {
    fn render(&mut self, rt: &mut Runtime, _scope: usize) -> Node {
        let a = create_signal(rt, 0i32);
        self.a = Some(a);
        let _ = a.get(rt);
        let _ = create_effect_with_cleanup(rt);
        Node::Empty
    }
    fn on_render(&mut self, _rt: &mut Runtime, _scope: usize, _node: &Node) {}
    fn effect(&mut self, _rt: &mut Runtime, _scope: usize, _effect: usize) {
        assert_eq!(self.cleanup_runs, self.effect_runs);
        self.effect_runs += 1;
    }
    fn cleanup(&mut self, _rt: &mut Runtime, _scope: usize, _effect: usize) {
        self.cleanup_runs += 1;
    }
    fn fetch(&mut self, _rt: &mut Runtime, _scope: usize, _effect: usize) {}
}

#[test]
fn cleanup_runs_before_each_rerun() {
    let mut rt = Runtime::new();
    let mut host = CleanupHost { a: None, effect_runs: 0, cleanup_runs: 0 };
    run_scope(&mut rt, &mut host);
    assert_eq!(host.effect_runs, 1);
    assert_eq!(host.cleanup_runs, 0);
    let a = host.a.unwrap();
    a.set(&mut rt, &mut host, 1);
    assert_eq!(host.effect_runs, 2);
    assert_eq!(host.cleanup_runs, 1);
    a.set(&mut rt, &mut host, 2);
    assert_eq!(host.effect_runs, 3);
    assert_eq!(host.cleanup_runs, 2);
}

struct QuietHost {
    a: Option<Signal<i32>>,
}

impl Host for QuietHost {
    fn render(&mut self, rt: &mut Runtime, _scope: usize) -> Node {
        let a = create_signal(rt, 0i32);
        self.a = Some(a);
        let _ = a.get(rt);
        Node::Empty
    }
    fn on_render(&mut self, _rt: &mut Runtime, _scope: usize, _node: &Node) {}
    fn effect(&mut self, _rt: &mut Runtime, _scope: usize, _effect: usize) {}
    fn cleanup(&mut self, _rt: &mut Runtime, _scope: usize, _effect: usize) {}
    fn fetch(&mut self, _rt: &mut Runtime, _scope: usize, _effect: usize) {}
}

#[test]
fn render_skipped_without_outstanding_changes() {
    let mut rt = Runtime::new();
    let mut host = QuietHost { a: None };
    let (scope, _node) = run_scope(&mut rt, &mut host);
    assert_eq!(rt.render_count(), 1);
    let again = render_scope(&mut rt, &mut host, scope);
    assert!(matches!(again, Node::Empty));
    assert_eq!(rt.render_count(), 1);
    let a = host.a.unwrap();
    a.set(&mut rt, &mut host, 7);
    assert_eq!(rt.render_count(), 2);
    assert_eq!(a.get(&mut rt), 7);
}

struct LazyHost {
    sig: Option<Signal<i32>>,
    trigger: Option<Signal<i32>>,
    inits: usize,
}

impl Host for LazyHost {
    fn render(&mut self, rt: &mut Runtime, _scope: usize) -> Node {
        let (sig, fresh) = create_signal_slot::<i32>(rt);
        if fresh {
            self.inits += 1;
            init_signal(rt, sig, 11);
        }
        self.sig = Some(sig);
        let trigger = create_signal(rt, 0i32);
        let _ = trigger.get(rt);
        self.trigger = Some(trigger);
        Node::Empty
    }
    fn on_render(&mut self, _rt: &mut Runtime, _scope: usize, _node: &Node) {}
    fn effect(&mut self, _rt: &mut Runtime, _scope: usize, _effect: usize) {}
    fn cleanup(&mut self, _rt: &mut Runtime, _scope: usize, _effect: usize) {}
    fn fetch(&mut self, _rt: &mut Runtime, _scope: usize, _effect: usize) {}
}

#[test]
fn lazy_signal_initializes_once() {
    let mut rt = Runtime::new();
    let mut host = LazyHost { sig: None, trigger: None, inits: 0 };
    run_scope(&mut rt, &mut host);
    assert_eq!(host.inits, 1);
    assert_eq!(host.sig.unwrap().get(&mut rt), 11);
    let trigger = host.trigger.unwrap();
    trigger.set(&mut rt, &mut host, 1);
    assert_eq!(host.inits, 1);
    assert_eq!(host.sig.unwrap().get(&mut rt), 11);
}

struct DeriveHost {
    base: Option<Signal<i32>>,
    doubled: Option<Signal<i32>>,
}

impl Host for DeriveHost {
    fn render(&mut self, rt: &mut Runtime, _scope: usize) -> Node {
        let base = create_signal(rt, 5i32);
        let first = base.get(rt);
        let (doubled, _effect) = base.derive(rt, first * 2);
        self.base = Some(base);
        self.doubled = Some(doubled);
        Node::Empty
    }
    fn on_render(&mut self, _rt: &mut Runtime, _scope: usize, _node: &Node) {}
    fn effect(&mut self, rt: &mut Runtime, _scope: usize, _effect: usize) {
        let base = self.base.unwrap();
        let doubled = self.doubled.unwrap();
        let current = base.get(rt);
        doubled.set(rt, self, current * 2);
    }
    fn cleanup(&mut self, _rt: &mut Runtime, _scope: usize, _effect: usize) {}
    fn fetch(&mut self, _rt: &mut Runtime, _scope: usize, _effect: usize) {}
}

#[test]
fn derived_signal_tracks_its_source() {
    let mut rt = Runtime::new();
    let mut host = DeriveHost { base: None, doubled: None };
    run_scope(&mut rt, &mut host);
    assert_eq!(host.doubled.unwrap().get(&mut rt), 10);
    let base = host.base.unwrap();
    base.set(&mut rt, &mut host, 6);
    assert_eq!(host.doubled.unwrap().get(&mut rt), 12);
}

struct SortHost {
    items: Option<Signal<Vec<i64>>>,
}

impl Host for SortHost {
    fn render(&mut self, rt: &mut Runtime, _scope: usize) -> Node {
        let items = create_signal(rt, vec![3i64, 1, 2, 1]);
        self.items = Some(items);
        Node::Empty
    }
    fn on_render(&mut self, _rt: &mut Runtime, _scope: usize, _node: &Node) {}
    fn effect(&mut self, _rt: &mut Runtime, _scope: usize, _effect: usize) {}
    fn cleanup(&mut self, _rt: &mut Runtime, _scope: usize, _effect: usize) {}
    fn fetch(&mut self, _rt: &mut Runtime, _scope: usize, _effect: usize) {}
}

#[test]
fn list_signal_sorts_ascending() {
    let mut rt = Runtime::new();
    let mut host = SortHost { items: None };
    run_scope(&mut rt, &mut host);
    let items = host.items.unwrap();
    items.sort(&mut rt, &mut host);
    assert_eq!(items.iter(&mut rt), vec![1i64, 1, 2, 3]);
}
