//! The type-erased value layer of the signal store.
//!
//! Every signal cell holds a [`Value`]: a tagged union covering the plain
//! data shapes the runtime can store.  A typed handle reads a cell back
//! through [`SignalValue::from_value`]; a shape mismatch reads as "no
//! value", never as an error.

use vstd::prelude::*;

verus! {

broadcast use vstd::std_specs::vec::group_vec_axioms;

/// Load state of an asynchronous resource.
#[derive(Clone, Copy, Debug, PartialEq, Eq, Structural)]
pub enum ResourceStatus {
    Idle,
    Pending,
    Loading,
    Resolved,
}

/// The type-erased current value of one signal cell.
#[derive(Debug)]
pub enum Value {
    Unit,
    Bool(bool),
    Int(i128),
    UInt(u128),
    Ch(char),
    Text(String),
    StaticText(&'static str),
    List(Vec<Value>),
    Maybe(Option<Box<Value>>),
    Status(ResourceStatus),
}

/// Equality of stored values: structural, with strings compared by their
/// character contents.  This is the change check a write performs: a write
/// of a `veq`-equal value never counts as a change.
pub open spec fn veq(a: Value, b: Value) -> bool
    decreases a,
{
    match (a, b) {
        (Value::Unit, Value::Unit) => true,
        (Value::Bool(x), Value::Bool(y)) => x == y,
        (Value::Int(x), Value::Int(y)) => x == y,
        (Value::UInt(x), Value::UInt(y)) => x == y,
        (Value::Ch(x), Value::Ch(y)) => x == y,
        (Value::Text(x), Value::Text(y)) => x@ == y@,
        (Value::StaticText(x), Value::StaticText(y)) => x@ == y@,
        (Value::List(x), Value::List(y)) => {
            &&& x@.len() == y@.len()
            &&& forall|i: int| 0 <= i < x@.len() ==> veq(#[trigger] x@[i], y@[i])
        },
        (Value::Maybe(x), Value::Maybe(y)) => match (x, y) {
            (Option::None, Option::None) => true,
            (Option::Some(bx), Option::Some(by)) => veq(*bx, *by),
            _ => false,
        },
        (Value::Status(x), Value::Status(y)) => x == y,
        _ => false,
    }
}

/// `veq` is reflexive.
pub proof fn lemma_veq_refl(a: Value)
    ensures
        veq(a, a),
    decreases a,
{
    match a {
        Value::List(x) => {
            assert forall|i: int| 0 <= i < x@.len() implies veq(#[trigger] x@[i], x@[i]) by {
                lemma_veq_refl(x@[i]);
            }
        },
        Value::Maybe(o) => {
            if let Option::Some(bx) = o {
                lemma_veq_refl(*bx);
            }
        },
        _ => {},
    }
}

/// `veq` is symmetric.
pub proof fn lemma_veq_sym(a: Value, b: Value)
    requires
        veq(a, b),
    ensures
        veq(b, a),
    decreases a,
{
    match (a, b) {
        (Value::List(x), Value::List(y)) => {
            assert forall|i: int| 0 <= i < y@.len() implies veq(#[trigger] y@[i], x@[i]) by {
                lemma_veq_sym(x@[i], y@[i]);
            }
        },
        (Value::Maybe(x), Value::Maybe(y)) => {
            if let (Option::Some(bx), Option::Some(by)) = (x, y) {
                lemma_veq_sym(*bx, *by);
            }
        },
        _ => {},
    }
}

/// `veq` is transitive.
pub proof fn lemma_veq_trans(a: Value, b: Value, c: Value)
    requires
        veq(a, b),
        veq(b, c),
    ensures
        veq(a, c),
    decreases a,
{
    match (a, b) {
        (Value::List(x), Value::List(y)) => {
            if let Value::List(z) = c {
                assert forall|i: int| 0 <= i < x@.len() implies veq(#[trigger] x@[i], z@[i]) by {
                    lemma_veq_trans(x@[i], y@[i], z@[i]);
                }
            }
        },
        (Value::Maybe(x), Value::Maybe(y)) => {
            if let (Option::Some(bx), Option::Some(by)) = (x, y) {
                if let Value::Maybe(Option::Some(bz)) = c {
                    lemma_veq_trans(*bx, *by, *bz);
                }
            }
        },
        _ => {},
    }
}

/// Decides [`veq`] on two stored values.
#[verifier::loop_isolation(false)]
pub fn value_eq(a: &Value, b: &Value) -> (r: bool)
    ensures
        r == veq(*a, *b),
    decreases *a,
{
    match (a, b) {
        (Value::Unit, Value::Unit) => true,
        (Value::Bool(x), Value::Bool(y)) => *x == *y,
        (Value::Int(x), Value::Int(y)) => *x == *y,
        (Value::UInt(x), Value::UInt(y)) => *x == *y,
        (Value::Ch(x), Value::Ch(y)) => *x == *y,
        (Value::Text(x), Value::Text(y)) => *x == *y,
        (Value::StaticText(x), Value::StaticText(y)) => {
            let xo: String = (*x).to_owned();
            let yo: String = (*y).to_owned();
            xo == yo
        },
        (Value::List(x), Value::List(y)) => {
            if x.len() != y.len() {
                false
            } else {
                let mut i: usize = 0;
                let mut same: bool = true;
                while i < x.len() && same
                    invariant
                        i <= x.len(),
                        x@.len() == y@.len(),
                        same == forall|j: int| 0 <= j < i ==> veq(#[trigger] x@[j], y@[j]),
                    decreases x.len() - i,
                {
                    if !value_eq(&x[i], &y[i]) {
                        same = false;
                    }
                    i += 1;
                }
                same && i == x.len()
            }
        },
        (Value::Maybe(x), Value::Maybe(y)) => match (x, y) {
            (Option::None, Option::None) => true,
            (Option::Some(bx), Option::Some(by)) => value_eq(bx, by),
            _ => false,
        },
        (Value::Status(x), Value::Status(y)) => *x == *y,
        _ => false,
    }
}

/// Copies a stored value; the copy is `veq`-equal to the original.
#[verifier::loop_isolation(false)]
pub fn value_clone(v: &Value) -> (r: Value)
    ensures
        veq(r, *v),
    decreases *v,
{
    match v {
        Value::Unit => Value::Unit,
        Value::Bool(x) => Value::Bool(*x),
        Value::Int(x) => Value::Int(*x),
        Value::UInt(x) => Value::UInt(*x),
        Value::Ch(x) => Value::Ch(*x),
        Value::Text(x) => Value::Text(x.clone()),
        Value::StaticText(x) => Value::StaticText(*x),
        Value::List(x) => {
            let mut out: Vec<Value> = Vec::new();
            let mut i: usize = 0;
            while i < x.len()
                invariant
                    i <= x.len(),
                    out@.len() == i,
                    forall|j: int| 0 <= j < i ==> veq(#[trigger] out@[j], x@[j]),
                decreases x.len() - i,
            {
                let c = value_clone(&x[i]);
                out.push(c);
                i += 1;
            }
            Value::List(out)
        },
        Value::Maybe(x) => match x {
            Option::None => Value::Maybe(Option::None),
            Option::Some(bx) => Value::Maybe(Option::Some(Box::new(value_clone(bx)))),
        },
        Value::Status(x) => Value::Status(*x),
    }
}

/// Types storable in a signal cell.
///
/// `encodes` relates a typed value to the stored shapes that represent it;
/// `into_value` builds such a shape and `from_value` reads one back,
/// returning `None` on any mismatch (the runtime treats that as "value
/// absent", never as an error).
pub trait SignalValue: Sized {
    /// Whether the stored value `v` represents `self`.
    spec fn encodes(self, v: Value) -> bool;

    /// Encode `self` into a stored value.
    fn into_value(self) -> (v: Value)
        ensures
            self.encodes(v),
    ;

    /// Decode a stored value; `None` exactly when `v` represents no value
    /// of `Self`.
    fn from_value(v: &Value) -> (r: Option<Self>)
        ensures
            r matches Option::Some(x) ==> x.encodes(*v),
            r is None ==> forall|x: Self| !x.encodes(*v),
    ;

    /// Encodings are stable under [`veq`]: `veq`-equal stored values
    /// represent the same typed values.
    proof fn encodes_respects_veq(self, v1: Value, v2: Value)
        requires
            self.encodes(v1),
            veq(v1, v2),
        ensures
            self.encodes(v2),
    ;

    /// Any two stored shapes representing the same value are `veq`-equal,
    /// so "writing an equal value" does not depend on the chosen shape.
    proof fn encodings_agree(self, v1: Value, v2: Value)
        requires
            self.encodes(v1),
            self.encodes(v2),
        ensures
            veq(v1, v2),
    ;
}

impl SignalValue for bool {
    open spec fn encodes(self, v: Value) -> bool {
        v == Value::Bool(self)
    }

    fn into_value(self) -> (v: Value) {
        Value::Bool(self)
    }

    fn from_value(v: &Value) -> (r: Option<Self>) {
        match v {
            Value::Bool(x) => Option::Some(*x),
            _ => Option::None,
        }
    }

    proof fn encodes_respects_veq(self, v1: Value, v2: Value) {
    }

    proof fn encodings_agree(self, v1: Value, v2: Value) {
    }
}

impl SignalValue for i32 {
    open spec fn encodes(self, v: Value) -> bool {
        v == Value::Int(self as i128)
    }

    fn into_value(self) -> (v: Value) {
        Value::Int(self as i128)
    }

    fn from_value(v: &Value) -> (r: Option<Self>) {
        match v {
            Value::Int(x) => {
                if i32::MIN as i128 <= *x && *x <= i32::MAX as i128 {
                    Option::Some(*x as i32)
                } else {
                    Option::None
                }
            },
            _ => Option::None,
        }
    }

    proof fn encodes_respects_veq(self, v1: Value, v2: Value) {
    }

    proof fn encodings_agree(self, v1: Value, v2: Value) {
    }
}

impl SignalValue for i64 {
    open spec fn encodes(self, v: Value) -> bool {
        v == Value::Int(self as i128)
    }

    fn into_value(self) -> (v: Value) {
        Value::Int(self as i128)
    }

    fn from_value(v: &Value) -> (r: Option<Self>) {
        match v {
            Value::Int(x) => {
                if i64::MIN as i128 <= *x && *x <= i64::MAX as i128 {
                    Option::Some(*x as i64)
                } else {
                    Option::None
                }
            },
            _ => Option::None,
        }
    }

    proof fn encodes_respects_veq(self, v1: Value, v2: Value) {
    }

    proof fn encodings_agree(self, v1: Value, v2: Value) {
    }
}

impl SignalValue for u32 {
    open spec fn encodes(self, v: Value) -> bool {
        v == Value::UInt(self as u128)
    }

    fn into_value(self) -> (v: Value) {
        Value::UInt(self as u128)
    }

    fn from_value(v: &Value) -> (r: Option<Self>) {
        match v {
            Value::UInt(x) => {
                if *x <= u32::MAX as u128 {
                    Option::Some(*x as u32)
                } else {
                    Option::None
                }
            },
            _ => Option::None,
        }
    }

    proof fn encodes_respects_veq(self, v1: Value, v2: Value) {
    }

    proof fn encodings_agree(self, v1: Value, v2: Value) {
    }
}

impl SignalValue for u64 {
    open spec fn encodes(self, v: Value) -> bool {
        v == Value::UInt(self as u128)
    }

    fn into_value(self) -> (v: Value) {
        Value::UInt(self as u128)
    }

    fn from_value(v: &Value) -> (r: Option<Self>) {
        match v {
            Value::UInt(x) => {
                if *x <= u64::MAX as u128 {
                    Option::Some(*x as u64)
                } else {
                    Option::None
                }
            },
            _ => Option::None,
        }
    }

    proof fn encodes_respects_veq(self, v1: Value, v2: Value) {
    }

    proof fn encodings_agree(self, v1: Value, v2: Value) {
    }
}

impl SignalValue for usize {
    open spec fn encodes(self, v: Value) -> bool {
        v == Value::UInt(self as u128)
    }

    fn into_value(self) -> (v: Value) {
        Value::UInt(self as u128)
    }

    fn from_value(v: &Value) -> (r: Option<Self>) {
        match v {
            Value::UInt(x) => {
                if *x <= usize::MAX as u128 {
                    Option::Some(*x as usize)
                } else {
                    Option::None
                }
            },
            _ => Option::None,
        }
    }

    proof fn encodes_respects_veq(self, v1: Value, v2: Value) {
    }

    proof fn encodings_agree(self, v1: Value, v2: Value) {
    }
}

impl SignalValue for char {
    open spec fn encodes(self, v: Value) -> bool {
        v == Value::Ch(self)
    }

    fn into_value(self) -> (v: Value) {
        Value::Ch(self)
    }

    fn from_value(v: &Value) -> (r: Option<Self>) {
        match v {
            Value::Ch(x) => Option::Some(*x),
            _ => Option::None,
        }
    }

    proof fn encodes_respects_veq(self, v1: Value, v2: Value) {
    }

    proof fn encodings_agree(self, v1: Value, v2: Value) {
    }
}

impl SignalValue for () {
    open spec fn encodes(self, v: Value) -> bool {
        v == Value::Unit
    }

    fn into_value(self) -> (v: Value) {
        Value::Unit
    }

    fn from_value(v: &Value) -> (r: Option<Self>) {
        match v {
            Value::Unit => Option::Some(()),
            _ => Option::None,
        }
    }

    proof fn encodes_respects_veq(self, v1: Value, v2: Value) {
    }

    proof fn encodings_agree(self, v1: Value, v2: Value) {
    }
}

impl SignalValue for ResourceStatus {
    open spec fn encodes(self, v: Value) -> bool {
        v == Value::Status(self)
    }

    fn into_value(self) -> (v: Value) {
        Value::Status(self)
    }

    fn from_value(v: &Value) -> (r: Option<Self>) {
        match v {
            Value::Status(x) => Option::Some(*x),
            _ => Option::None,
        }
    }

    proof fn encodes_respects_veq(self, v1: Value, v2: Value) {
    }

    proof fn encodings_agree(self, v1: Value, v2: Value) {
    }
}

impl SignalValue for String {
    open spec fn encodes(self, v: Value) -> bool {
        v matches Value::Text(s) && s@ == self@
    }

    fn into_value(self) -> (v: Value) {
        Value::Text(self)
    }

    fn from_value(v: &Value) -> (r: Option<Self>) {
        match v {
            Value::Text(s) => Option::Some(s.clone()),
            _ => Option::None,
        }
    }

    proof fn encodes_respects_veq(self, v1: Value, v2: Value) {
    }

    proof fn encodings_agree(self, v1: Value, v2: Value) {
    }
}

impl SignalValue for u8 {
    open spec fn encodes(self, v: Value) -> bool {
        v == Value::UInt(self as u128)
    }

    fn into_value(self) -> (v: Value) {
        Value::UInt(self as u128)
    }

    fn from_value(v: &Value) -> (r: Option<Self>) {
        match v {
            Value::UInt(x) => {
                if *x <= u8::MAX as u128 {
                    Option::Some(*x as u8)
                } else {
                    Option::None
                }
            },
            _ => Option::None,
        }
    }

    proof fn encodes_respects_veq(self, v1: Value, v2: Value) {
    }

    proof fn encodings_agree(self, v1: Value, v2: Value) {
    }
}

impl SignalValue for isize {
    open spec fn encodes(self, v: Value) -> bool {
        v == Value::Int(self as i128)
    }

    fn into_value(self) -> (v: Value) {
        Value::Int(self as i128)
    }

    fn from_value(v: &Value) -> (r: Option<Self>) {
        match v {
            Value::Int(x) => {
                if isize::MIN as i128 <= *x && *x <= isize::MAX as i128 {
                    Option::Some(*x as isize)
                } else {
                    Option::None
                }
            },
            _ => Option::None,
        }
    }

    proof fn encodes_respects_veq(self, v1: Value, v2: Value) {
    }

    proof fn encodings_agree(self, v1: Value, v2: Value) {
    }
}

impl SignalValue for i8 {
    open spec fn encodes(self, v: Value) -> bool {
        v == Value::Int(self as i128)
    }

    fn into_value(self) -> (v: Value) {
        Value::Int(self as i128)
    }

    fn from_value(v: &Value) -> (r: Option<Self>) {
        match v {
            Value::Int(x) => {
                if i8::MIN as i128 <= *x && *x <= i8::MAX as i128 {
                    Option::Some(*x as i8)
                } else {
                    Option::None
                }
            },
            _ => Option::None,
        }
    }

    proof fn encodes_respects_veq(self, v1: Value, v2: Value) {
    }

    proof fn encodings_agree(self, v1: Value, v2: Value) {
    }
}

impl SignalValue for i16 {
    open spec fn encodes(self, v: Value) -> bool {
        v == Value::Int(self as i128)
    }

    fn into_value(self) -> (v: Value) {
        Value::Int(self as i128)
    }

    fn from_value(v: &Value) -> (r: Option<Self>) {
        match v {
            Value::Int(x) => {
                if i16::MIN as i128 <= *x && *x <= i16::MAX as i128 {
                    Option::Some(*x as i16)
                } else {
                    Option::None
                }
            },
            _ => Option::None,
        }
    }

    proof fn encodes_respects_veq(self, v1: Value, v2: Value) {
    }

    proof fn encodings_agree(self, v1: Value, v2: Value) {
    }
}

impl SignalValue for u16 {
    open spec fn encodes(self, v: Value) -> bool {
        v == Value::UInt(self as u128)
    }

    fn into_value(self) -> (v: Value) {
        Value::UInt(self as u128)
    }

    fn from_value(v: &Value) -> (r: Option<Self>) {
        match v {
            Value::UInt(x) => {
                if *x <= u16::MAX as u128 {
                    Option::Some(*x as u16)
                } else {
                    Option::None
                }
            },
            _ => Option::None,
        }
    }

    proof fn encodes_respects_veq(self, v1: Value, v2: Value) {
    }

    proof fn encodings_agree(self, v1: Value, v2: Value) {
    }
}

impl SignalValue for i128 {
    open spec fn encodes(self, v: Value) -> bool {
        v == Value::Int(self)
    }

    fn into_value(self) -> (v: Value) {
        Value::Int(self)
    }

    fn from_value(v: &Value) -> (r: Option<Self>) {
        match v {
            Value::Int(x) => Option::Some(*x),
            _ => Option::None,
        }
    }

    proof fn encodes_respects_veq(self, v1: Value, v2: Value) {
    }

    proof fn encodings_agree(self, v1: Value, v2: Value) {
    }
}

impl SignalValue for u128 {
    open spec fn encodes(self, v: Value) -> bool {
        v == Value::UInt(self)
    }

    fn into_value(self) -> (v: Value) {
        Value::UInt(self)
    }

    fn from_value(v: &Value) -> (r: Option<Self>) {
        match v {
            Value::UInt(x) => Option::Some(*x),
            _ => Option::None,
        }
    }

    proof fn encodes_respects_veq(self, v1: Value, v2: Value) {
    }

    proof fn encodings_agree(self, v1: Value, v2: Value) {
    }
}

impl SignalValue for &'static str {
    open spec fn encodes(self, v: Value) -> bool {
        v matches Value::StaticText(s) && s@ == self@
    }

    fn into_value(self) -> (v: Value) {
        Value::StaticText(self)
    }

    fn from_value(v: &Value) -> (r: Option<Self>) {
        match v {
            Value::StaticText(s) => Option::Some(*s),
            _ => Option::None,
        }
    }

    proof fn encodes_respects_veq(self, v1: Value, v2: Value) {
    }

    proof fn encodings_agree(self, v1: Value, v2: Value) {
    }
}

/// Whether the stored value `v` is a list representing the sequence `s`.
pub open spec fn seq_encodes<T: SignalValue>(s: Seq<T>, v: Value) -> bool {
    v matches Value::List(elems) && {
        &&& s.len() == elems@.len()
        &&& forall|i: int| 0 <= i < s.len() ==> (#[trigger] s[i]).encodes(elems@[i])
    }
}

impl<T: SignalValue> SignalValue for Vec<T> {
    open spec fn encodes(self, v: Value) -> bool {
        seq_encodes(self@, v)
    }

    #[verifier::loop_isolation(false)]
    fn into_value(self) -> (v: Value) {
        let ghost orig = self@;
        let mut items = self;
        let mut out: Vec<Value> = Vec::new();
        while items.len() > 0
            invariant
                out@.len() + items@.len() == orig.len(),
                items@ == orig.subrange(out@.len() as int, orig.len() as int),
                forall|j: int| 0 <= j < out@.len() ==> (#[trigger] orig[j]).encodes(out@[j]),
            decreases items@.len(),
        {
            let x = items.remove(0);
            proof {
                assert(x == orig[out@.len() as int]);
            }
            let xv = x.into_value();
            out.push(xv);
        }
        Value::List(out)
    }

    #[verifier::loop_isolation(false)]
    fn from_value(v: &Value) -> (r: Option<Self>) {
        match v {
            Value::List(elems) => {
                let mut out: Vec<T> = Vec::new();
                let mut i: usize = 0;
                while i < elems.len()
                    invariant
                        i == out@.len(),
                        i <= elems@.len(),
                        forall|j: int| 0 <= j < i ==> (#[trigger] out@[j]).encodes(elems@[j]),
                    decreases elems@.len() - i,
                {
                    match T::from_value(&elems[i]) {
                        Option::Some(x) => {
                            out.push(x);
                        },
                        Option::None => {
                            proof {
                                assert forall|xs: Vec<T>| !xs.encodes(*v) by {
                                    if xs.encodes(*v) {
                                        assert((xs@[i as int]).encodes(elems@[i as int]));
                                    }
                                }
                            }
                            return Option::None;
                        },
                    }
                    i += 1;
                }
                Option::Some(out)
            },
            _ => Option::None,
        }
    }

    proof fn encodes_respects_veq(self, v1: Value, v2: Value) {
        if let Value::List(e1) = v1 {
            if let Value::List(e2) = v2 {
                assert forall|i: int| 0 <= i < self@.len() implies (#[trigger] self@[i]).encodes(
                    e2@[i],
                ) by {
                    self@[i].encodes_respects_veq(e1@[i], e2@[i]);
                }
            }
        }
    }

    proof fn encodings_agree(self, v1: Value, v2: Value) {
        if let Value::List(e1) = v1 {
            if let Value::List(e2) = v2 {
                assert forall|i: int| 0 <= i < e1@.len() implies veq(
                    #[trigger] e1@[i],
                    e2@[i],
                ) by {
                    self@[i].encodings_agree(e1@[i], e2@[i]);
                }
            }
        }
    }
}

impl<T: SignalValue> SignalValue for Option<T> {
    open spec fn encodes(self, v: Value) -> bool {
        v matches Value::Maybe(o) && match (self, o) {
            (Option::None, Option::None) => true,
            (Option::Some(t), Option::Some(b)) => t.encodes(*b),
            _ => false,
        }
    }

    fn into_value(self) -> (v: Value) {
        match self {
            Option::None => Value::Maybe(Option::None),
            Option::Some(t) => Value::Maybe(Option::Some(Box::new(t.into_value()))),
        }
    }

    fn from_value(v: &Value) -> (r: Option<Self>) {
        match v {
            Value::Maybe(o) => match o {
                Option::None => Option::Some(Option::None),
                Option::Some(b) => match T::from_value(b) {
                    Option::Some(t) => Option::Some(Option::Some(t)),
                    Option::None => {
                        proof {
                            assert forall|x: Option<T>| !x.encodes(*v) by {
                                if x.encodes(*v) {
                                    if let Option::Some(t) = x {
                                        assert(t.encodes(**b));
                                    }
                                }
                            }
                        }
                        Option::None
                    },
                },
            },
            _ => Option::None,
        }
    }

    proof fn encodes_respects_veq(self, v1: Value, v2: Value) {
        if let Option::Some(t) = self {
            if let Value::Maybe(Option::Some(b1)) = v1 {
                if let Value::Maybe(Option::Some(b2)) = v2 {
                    t.encodes_respects_veq(*b1, *b2);
                }
            }
        }
    }

    proof fn encodings_agree(self, v1: Value, v2: Value) {
        if let Option::Some(t) = self {
            if let Value::Maybe(Option::Some(b1)) = v1 {
                if let Value::Maybe(Option::Some(b2)) = v2 {
                    t.encodings_agree(*b1, *b2);
                }
            }
        }
    }
}

} // verus!
