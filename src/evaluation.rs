use vstd::prelude::*;
use crate::data::{Coord, DataGame, DataNode};
use crate::scope::Scope;

verus! {

/// The mathematical value that a runtime value stands for: a piece type is
/// known by its name.
pub enum Val {
    Bool(bool),
    Num(int),
    Node(Option<Seq<char>>),
    Arr(Seq<Val>),
}

/// A runtime value of the rule language.
#[derive(Debug)]
pub enum EvalValue {
    Bool(bool),
    Number(i64),
    Node(Option<DataNode>),
    Array(Vec<EvalValue>),
}

/// The name of an optional piece type.
pub open spec fn node_view(n: Option<DataNode>) -> Option<Seq<char>> {
    match n {
        Some(x) => Some(x@),
        None => None,
    }
}

/// The value `v` stands for.
pub open spec fn value_view(v: EvalValue) -> Val
    decreases v,
{
    match v {
        EvalValue::Bool(b) => Val::Bool(b),
        EvalValue::Number(n) => Val::Num(n as int),
        EvalValue::Node(n) => Val::Node(node_view(n)),
        EvalValue::Array(items) => Val::Arr(
            Seq::new(
                items.len() as nat,
                |i: int|
                    if 0 <= i < items.len() {
                        value_view(items[i])
                    } else {
                        Val::Bool(false)
                    },
            ),
        ),
    }
}

/// What an array value stands for, element by element.
pub proof fn lemma_array_view(items: Vec<EvalValue>)
    ensures
        value_view(EvalValue::Array(items)) matches Val::Arr(s) && s.len() == items@.len()
            && forall|j: int| 0 <= j < items@.len() ==> #[trigger] s[j] == value_view(items@[j]),
{
}

impl View for EvalValue {
    type V = Val;

    open spec fn view(&self) -> Val {
        value_view(*self)
    }
}


impl EvalValue {
    /// A copy of this value.
    pub fn copy(&self) -> (r: EvalValue)
        ensures
            r@ == self@,
        decreases self,
    {
        match self {
            EvalValue::Bool(b) => EvalValue::Bool(*b),
            EvalValue::Number(n) => EvalValue::Number(*n),
            EvalValue::Node(None) => EvalValue::Node(None),
            EvalValue::Node(Some(n)) => EvalValue::Node(Some(n.copy())),
            EvalValue::Array(items) => {
                let mut out: Vec<EvalValue> = Vec::new();
                let mut i: usize = 0;
                while i < items.len()
                    invariant
                        *self == EvalValue::Array(*items),
                        i <= items.len(),
                        out.len() == i,
                        forall|j: int| 0 <= j < i ==> value_view(#[trigger] out@[j]) == value_view(items@[j]),
                    decreases items.len() - i,
                {
                    proof {
                        vstd::std_specs::vec::axiom_vec_index_decreases(*items, i as int);
                        assert(*self == EvalValue::Array(*items));
                        assert(decreases_to!(*self => self->Array_0));
                        assert(decreases_to!(*self => items[i as int]));
                    }
                    out.push(items[i].copy());
                    i = i + 1;
                }
                let r = EvalValue::Array(out);
                proof {
                    lemma_array_view(out);
                    lemma_array_view(*items);
                    assert(r@->Arr_0 =~= self@->Arr_0);
                }
                r
            },
        }
    }

    /// Whether the two values are structurally equal.
    pub fn same(&self, o: &EvalValue) -> (r: bool)
        ensures
            r == (self@ == o@),
        decreases self,
    {
        match (self, o) {
            (EvalValue::Bool(a), EvalValue::Bool(b)) => *a == *b,
            (EvalValue::Number(a), EvalValue::Number(b)) => *a == *b,
            (EvalValue::Node(None), EvalValue::Node(None)) => true,
            (EvalValue::Node(Some(a)), EvalValue::Node(Some(b))) => *a == *b,
            (EvalValue::Node(_), EvalValue::Node(_)) => false,
            (EvalValue::Array(a), EvalValue::Array(b)) => {
                proof {
                    lemma_array_view(*a);
                    lemma_array_view(*b);
                }
                let ghost sa = self@->Arr_0;
                let ghost sb = o@->Arr_0;
                if a.len() != b.len() {
                    assert(sa.len() != sb.len());
                    return false;
                }
                let mut i: usize = 0;
                while i < a.len()
                    invariant
                        *self == EvalValue::Array(*a),
                        *o == EvalValue::Array(*b),
                        sa == self@->Arr_0,
                        sb == o@->Arr_0,
                        self@ is Arr && o@ is Arr,
                        sa.len() == a.len() && sb.len() == b.len(),
                        forall|j: int| 0 <= j < a.len() ==> #[trigger] sa[j] == value_view(a@[j]),
                        forall|j: int| 0 <= j < b.len() ==> #[trigger] sb[j] == value_view(b@[j]),
                        i <= a.len(),
                        a.len() == b.len(),
                        forall|j: int| 0 <= j < i ==> value_view(#[trigger] a@[j]) == value_view(b@[j]),
                    decreases a.len() - i,
                {
                    proof {
                        vstd::std_specs::vec::axiom_vec_index_decreases(*a, i as int);
                        assert(decreases_to!(*self => a[i as int]));
                    }
                    if !a[i].same(&b[i]) {
                        assert(sa[i as int] != sb[i as int]);
                        return false;
                    }
                    i = i + 1;
                }
                assert(sa =~= sb);
                true
            },
            _ => false,
        }
    }

    /// A short name of the value's kind.
    pub fn kind(&self) -> &'static str {
        match self {
            EvalValue::Bool(_) => "boolean",
            EvalValue::Number(_) => "number",
            EvalValue::Node(_) => "node",
            EvalValue::Array(_) => "array",
        }
    }

    /// The boolean this value holds.
    pub fn as_bool(self) -> (r: Result<bool, String>)
        ensures
            match r {
                Ok(b) => self@ == Val::Bool(b),
                Err(_) => !(self@ is Bool),
            },
    {
        match self {
            EvalValue::Bool(b) => Ok(b),
            _ => Err(expected("boolean", &self)),
        }
    }

    /// The integer this value holds.
    pub fn as_int(self) -> (r: Result<i64, String>)
        ensures
            match r {
                Ok(n) => self@ == Val::Num(n as int),
                Err(_) => !(self@ is Num),
            },
    {
        match self {
            EvalValue::Number(n) => Ok(n),
            _ => Err(expected("number", &self)),
        }
    }

    /// The optional piece type this value holds.
    pub fn as_node(self) -> (r: Result<Option<DataNode>, String>)
        ensures
            match r {
                Ok(n) => self@ == Val::Node(node_view(n)),
                Err(_) => !(self@ is Node),
            },
    {
        match self {
            EvalValue::Node(n) => Ok(n),
            _ => Err(expected("node", &self)),
        }
    }
}

/// The message for a value of another kind than `want`.
fn expected(want: &str, got: &EvalValue) -> String {
    let mut msg = String::from_str("Expected ");
    msg.append(want);
    msg.append(", got ");
    msg.append(got.kind());
    msg
}

/// What an evaluation reads: the board position under evaluation, the game,
/// and the scope of bindings.
pub struct EvalContext<'a> {
    pub pos: Coord,
    pub game: &'a DataGame,
    pub scope: Scope<EvalValue>,
}

/// A constant that evaluates to `val`.
pub fn eval_const(val: EvalValue) -> (r: crate::condition::Expr)
    ensures
        r == crate::condition::Expr::Const(val),
{
    crate::condition::Expr::Const(val)
}

} // verus!
