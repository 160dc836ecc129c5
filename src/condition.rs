use vstd::prelude::*;
use crate::data::{Coord, DataGame, Identifier, assoc, coord_in_range, hex_neighbors, neighbors_of, qualified, separator_count};
use crate::json::{Json, JsonV, field, get_field, jsons_view, lemma_field_decreases, lemma_json_view};
use crate::evaluation::{EvalContext, EvalValue, Val, lemma_array_view};
use crate::scope::lookup;

verus! {

/// A compiled expression of the rule language.
#[derive(Debug)]
pub enum Expr {
    /// A value fixed at compile time.
    Const(EvalValue),
    /// The value bound to a name in the scope.
    Var(String),
    /// The values of the elements, evaluated left to right.
    Array(Vec<Expr>),
    /// The `then` branch when the condition holds, else the `else` branch.
    If(Box<Expr>, Box<Expr>, Box<Expr>),
    /// Short-circuit conjunction.
    And(Vec<Expr>),
    /// Short-circuit disjunction.
    Or(Vec<Expr>),
    /// Whether all the values are equal.
    Equals(Vec<Expr>),
    /// Whether the position under evaluation has at least this many
    /// consecutive empty neighbours.
    Neighbors(Box<Expr>),
}

/// What a compiled expression stands for.
pub enum ExprV {
    Const(Val),
    Var(Seq<char>),
    Array(Seq<ExprV>),
    If(Box<ExprV>, Box<ExprV>, Box<ExprV>),
    And(Seq<ExprV>),
    Or(Seq<ExprV>),
    Equals(Seq<ExprV>),
    Neighbors(Box<ExprV>),
}

/// The views of a list of expressions.
pub open spec fn exprs_view(es: Vec<Expr>) -> Seq<ExprV>
    decreases es, 0nat,
{
    Seq::new(
        es.len() as nat,
        |i: int|
            if 0 <= i < es.len() {
                expr_view(es[i])
            } else {
                ExprV::Const(Val::Bool(false))
            },
    )
}

/// The expression `e` stands for.
pub open spec fn expr_view(e: Expr) -> ExprV
    decreases e, 1nat,
{
    match e {
        Expr::Const(v) => ExprV::Const(v@),
        Expr::Var(n) => ExprV::Var(n@),
        Expr::Array(es) => ExprV::Array(exprs_view(es)),
        Expr::If(c, t, f) => ExprV::If(
            Box::new(expr_view(*c)),
            Box::new(expr_view(*t)),
            Box::new(expr_view(*f)),
        ),
        Expr::And(es) => ExprV::And(exprs_view(es)),
        Expr::Or(es) => ExprV::Or(exprs_view(es)),
        Expr::Equals(es) => ExprV::Equals(exprs_view(es)),
        Expr::Neighbors(v) => ExprV::Neighbors(Box::new(expr_view(*v))),
    }
}

impl View for Expr {
    type V = ExprV;

    open spec fn view(&self) -> ExprV {
        expr_view(*self)
    }
}

/// The views of a list of expressions, element by element.
pub proof fn lemma_exprs_view(es: Vec<Expr>)
    ensures
        exprs_view(es).len() == es@.len(),
        forall|k: int| 0 <= k < es@.len() ==> #[trigger] exprs_view(es)[k] == expr_view(es@[k]),
{
}

/// The number of consecutive empty cells among `nb`, going round from index
/// `i + l`, plus `l`; at most six.
pub open spec fn empty_run(g: DataGame, nb: Seq<Coord>, i: int, l: nat) -> nat
    decreases 6 - l,
{
    if l >= 6 {
        6
    } else if g.piece_at(nb[(i + l) % 6]) is Some {
        l
    } else {
        empty_run(g, nb, i, l + 1)
    }
}

/// The longest stretch of consecutive empty cells among `nb` starting at one of
/// the first `k` of them, going round.
pub open spec fn longest_run(g: DataGame, nb: Seq<Coord>, k: nat) -> nat
    decreases k,
{
    if k == 0 {
        0
    } else {
        let a = longest_run(g, nb, (k - 1) as nat);
        let b = empty_run(g, nb, k - 1, 0);
        if a >= b { a } else { b }
    }
}

/// The longest stretch of consecutive empty neighbours of `pos`, going round
/// the six of them; six when none is occupied.
pub open spec fn open_run(g: DataGame, pos: Coord) -> nat {
    longest_run(g, neighbors_of(pos), 6)
}

/// The values of `es`, evaluated left to right; `None` at the first error.
pub open spec fn eval_all(es: Seq<ExprV>, fr: Seq<Map<Seq<char>, EvalValue>>, g: DataGame, pos: Coord) -> Option<Seq<Val>>
    decreases es, 0nat,
{
    if es.len() == 0 {
        Some(Seq::empty())
    } else {
        match eval(es[0], fr, g, pos) {
            Some(v) => match eval_all(es.drop_first(), fr, g, pos) {
                Some(vs) => Some(seq![v] + vs),
                None => None,
            },
            None => None,
        }
    }
}

/// Short-circuit conjunction of `es`, left to right.
pub open spec fn eval_and(es: Seq<ExprV>, fr: Seq<Map<Seq<char>, EvalValue>>, g: DataGame, pos: Coord) -> Option<Val>
    decreases es, 0nat,
{
    if es.len() == 0 {
        Some(Val::Bool(true))
    } else {
        match eval(es[0], fr, g, pos) {
            Some(Val::Bool(true)) => eval_and(es.drop_first(), fr, g, pos),
            Some(Val::Bool(false)) => Some(Val::Bool(false)),
            _ => None,
        }
    }
}

/// Short-circuit disjunction of `es`, left to right.
pub open spec fn eval_or(es: Seq<ExprV>, fr: Seq<Map<Seq<char>, EvalValue>>, g: DataGame, pos: Coord) -> Option<Val>
    decreases es, 0nat,
{
    if es.len() == 0 {
        Some(Val::Bool(false))
    } else {
        match eval(es[0], fr, g, pos) {
            Some(Val::Bool(true)) => Some(Val::Bool(true)),
            Some(Val::Bool(false)) => eval_or(es.drop_first(), fr, g, pos),
            _ => None,
        }
    }
}

/// Whether the values of `es`, left to right, all equal `prev`; evaluation
/// stops at the first that differs.
pub open spec fn eval_equal_to(es: Seq<ExprV>, prev: Val, fr: Seq<Map<Seq<char>, EvalValue>>, g: DataGame, pos: Coord) -> Option<Val>
    decreases es, 0nat,
{
    if es.len() == 0 {
        Some(Val::Bool(true))
    } else {
        match eval(es[0], fr, g, pos) {
            Some(v) => if v != prev {
                Some(Val::Bool(false))
            } else {
                eval_equal_to(es.drop_first(), v, fr, g, pos)
            },
            None => None,
        }
    }
}

/// The value of `e` under the frames `fr`, on the board of `g`, at `pos`;
/// `None` when evaluation fails.
pub open spec fn eval(e: ExprV, fr: Seq<Map<Seq<char>, EvalValue>>, g: DataGame, pos: Coord) -> Option<Val>
    decreases e, 1nat,
{
    match e {
        ExprV::Const(v) => Some(v),
        ExprV::Var(n) => match lookup(fr, n) {
            Some(v) => Some(v@),
            None => None,
        },
        ExprV::Array(es) => match eval_all(es, fr, g, pos) {
            Some(vs) => Some(Val::Arr(vs)),
            None => None,
        },
        ExprV::If(c, t, f) => match eval(*c, fr, g, pos) {
            Some(Val::Bool(b)) => if b {
                eval(*t, fr, g, pos)
            } else {
                eval(*f, fr, g, pos)
            },
            _ => None,
        },
        ExprV::And(es) => eval_and(es, fr, g, pos),
        ExprV::Or(es) => eval_or(es, fr, g, pos),
        ExprV::Equals(es) => if es.len() == 0 {
            Some(Val::Bool(true))
        } else {
            match eval(es[0], fr, g, pos) {
                Some(h) => eval_equal_to(es.drop_first(), h, fr, g, pos),
                None => None,
            }
        },
        ExprV::Neighbors(v) => match eval(*v, fr, g, pos) {
            Some(Val::Num(n)) => if coord_in_range(pos) {
                Some(Val::Bool(n <= open_run(g, pos)))
            } else {
                None
            },
            _ => None,
        },
    }
}


/// The longest stretch of consecutive empty neighbours of `pos`, going round.
fn count_open(game: &DataGame, pos: Coord) -> (r: u64)
    requires
        coord_in_range(pos),
    ensures
        r == open_run(*game, pos),
{
    let nb = hex_neighbors(pos);
    let ghost nbs = neighbors_of(pos);
    let mut best: u64 = 0;
    let mut i: u64 = 0;
    while i < 6
        invariant
            nb@ == nbs,
            nbs == neighbors_of(pos),
            i <= 6,
            best == longest_run(*game, nbs, i as nat),
            best <= 6,
        decreases 6 - i,
    {
        let mut l: u64 = 0;
        while l < 6 && game.get_node(nb[((i + l) % 6) as usize]).is_none()
            invariant
                nb@ == nbs,
                nbs.len() == 6,
                i < 6,
                l <= 6,
                empty_run(*game, nbs, i as int, 0) == empty_run(*game, nbs, i as int, l as nat),
            decreases 6 - l,
        {
            l = l + 1;
        }
        proof {
            if l < 6 {
                assert(((i + l) % 6) as int == (i as int + l as int) % 6);
            }
        }
        assert(empty_run(*game, nbs, i as int, l as nat) == l as nat);
        if l > best {
            best = l;
        }
        i = i + 1;
    }
    best
}

/// `pre` in front of the values in `rest`, when there are any.
pub open spec fn prepend(pre: Seq<Val>, rest: Option<Seq<Val>>) -> Option<Seq<Val>> {
    match rest {
        Some(r) => Some(pre + r),
        None => None,
    }
}

impl Expr {
    /// Evaluates the expression in `ctx`. An unbound name, or a value of the
    /// wrong kind where a boolean or a number is needed, is an error.
    pub fn evaluate(&self, ctx: &EvalContext) -> (r: Result<EvalValue, String>)
        requires
            ctx.scope.wf(),
        ensures
            match r {
                Ok(v) => eval(self@, ctx.scope@, *ctx.game, ctx.pos) == Some(v@),
                Err(_) => eval(self@, ctx.scope@, *ctx.game, ctx.pos) is None,
            },
        decreases self,
    {
        let ghost fr = ctx.scope@;
        let ghost g = *ctx.game;
        let ghost pos = ctx.pos;
        match self {
            Expr::Const(v) => Ok(v.copy()),
            Expr::Var(n) => match ctx.scope.get(n.as_str()) {
                Some(v) => Ok(v.copy()),
                None => {
                    let mut msg = String::from_str("Binding ");
                    msg.append(n.as_str());
                    msg.append(" doesn't exist in the current context");
                    Err(msg)
                },
            },
            Expr::Array(es) => {
                proof {
                    lemma_exprs_view(*es);
                }
                let ghost ev = exprs_view(*es);
                let mut out: Vec<EvalValue> = Vec::new();
                let mut i: usize = 0;
                assert(ev.subrange(0, ev.len() as int) =~= ev);
                while i < es.len()
                    invariant
                        *self == Expr::Array(*es),
                        ev == exprs_view(*es),
                        ev.len() == es@.len(),
                        forall|k: int| 0 <= k < es@.len() ==> #[trigger] ev[k] == expr_view(es@[k]),
                        ctx.scope.wf(),
                        fr == ctx.scope@,
                        g == *ctx.game,
                        pos == ctx.pos,
                        i <= es.len(),
                        out.len() == i,
                        eval_all(ev, fr, g, pos) == prepend(
                            Seq::new(i as nat, |k: int| out@[k]@),
                            eval_all(ev.subrange(i as int, ev.len() as int), fr, g, pos),
                        ),
                    decreases es.len() - i,
                {
                    proof {
                        vstd::std_specs::vec::axiom_vec_index_decreases(*es, i as int);
                        assert(decreases_to!(*self => self->Array_0));
                    }
                    let ghost sub = ev.subrange(i as int, ev.len() as int);
                    assert(sub.drop_first() =~= ev.subrange(i as int + 1, ev.len() as int));
                    assert(sub[0] == es@[i as int]@);
                    let v = es[i].evaluate(ctx)?;
                    let ghost before = Seq::new(i as nat, |k: int| out@[k]@);
                    out.push(v);
                    proof {
                        let after = Seq::new((i + 1) as nat, |k: int| out@[k]@);
                        assert(after =~= before + seq![out@[i as int]@]);
                        match eval_all(ev.subrange(i as int + 1, ev.len() as int), fr, g, pos) {
                            Some(r) => {
                                assert(before + (seq![out@[i as int]@] + r) =~= after + r);
                            },
                            None => {},
                        }
                    }
                    i = i + 1;
                }
                let r = EvalValue::Array(out);
                proof {
                    assert(ev.subrange(i as int, ev.len() as int) =~= Seq::<ExprV>::empty());
                    lemma_array_view(out);
                    assert(r@->Arr_0 =~= Seq::new(i as nat, |k: int| out@[k]@));
                    assert(Seq::new(i as nat, |k: int| out@[k]@) + Seq::<Val>::empty() =~= Seq::new(i as nat, |k: int| out@[k]@));
                }
                Ok(r)
            },
            Expr::If(c, t, f) => {
                let cv = c.evaluate(ctx)?;
                if cv.as_bool()? {
                    t.evaluate(ctx)
                } else {
                    f.evaluate(ctx)
                }
            },
            Expr::And(es) => {
                proof {
                    lemma_exprs_view(*es);
                }
                let ghost ev = exprs_view(*es);
                let mut i: usize = 0;
                assert(ev.subrange(0, ev.len() as int) =~= ev);
                while i < es.len()
                    invariant
                        *self == Expr::And(*es),
                        ev == exprs_view(*es),
                        ev.len() == es@.len(),
                        forall|k: int| 0 <= k < es@.len() ==> #[trigger] ev[k] == expr_view(es@[k]),
                        ctx.scope.wf(),
                        fr == ctx.scope@,
                        g == *ctx.game,
                        pos == ctx.pos,
                        i <= es.len(),
                        eval_and(ev, fr, g, pos) == eval_and(ev.subrange(i as int, ev.len() as int), fr, g, pos),
                    decreases es.len() - i,
                {
                    proof {
                        vstd::std_specs::vec::axiom_vec_index_decreases(*es, i as int);
                        assert(decreases_to!(*self => self->And_0));
                    }
                    let ghost sub = ev.subrange(i as int, ev.len() as int);
                    assert(sub.drop_first() =~= ev.subrange(i as int + 1, ev.len() as int));
                    assert(sub[0] == es@[i as int]@);
                    let v = es[i].evaluate(ctx)?;
                    if !v.as_bool()? {
                        return Ok(EvalValue::Bool(false));
                    }
                    i = i + 1;
                }
                assert(ev.subrange(i as int, ev.len() as int) =~= Seq::<ExprV>::empty());
                Ok(EvalValue::Bool(true))
            },
            Expr::Or(es) => {
                proof {
                    lemma_exprs_view(*es);
                }
                let ghost ev = exprs_view(*es);
                let mut i: usize = 0;
                assert(ev.subrange(0, ev.len() as int) =~= ev);
                while i < es.len()
                    invariant
                        *self == Expr::Or(*es),
                        ev == exprs_view(*es),
                        ev.len() == es@.len(),
                        forall|k: int| 0 <= k < es@.len() ==> #[trigger] ev[k] == expr_view(es@[k]),
                        ctx.scope.wf(),
                        fr == ctx.scope@,
                        g == *ctx.game,
                        pos == ctx.pos,
                        i <= es.len(),
                        eval_or(ev, fr, g, pos) == eval_or(ev.subrange(i as int, ev.len() as int), fr, g, pos),
                    decreases es.len() - i,
                {
                    proof {
                        vstd::std_specs::vec::axiom_vec_index_decreases(*es, i as int);
                        assert(decreases_to!(*self => self->Or_0));
                    }
                    let ghost sub = ev.subrange(i as int, ev.len() as int);
                    assert(sub.drop_first() =~= ev.subrange(i as int + 1, ev.len() as int));
                    assert(sub[0] == es@[i as int]@);
                    let v = es[i].evaluate(ctx)?;
                    if v.as_bool()? {
                        return Ok(EvalValue::Bool(true));
                    }
                    i = i + 1;
                }
                assert(ev.subrange(i as int, ev.len() as int) =~= Seq::<ExprV>::empty());
                Ok(EvalValue::Bool(false))
            },
            Expr::Equals(es) => {
                proof {
                    lemma_exprs_view(*es);
                }
                let ghost ev = exprs_view(*es);
                if es.len() == 0 {
                    return Ok(EvalValue::Bool(true));
                }
                proof {
                    vstd::std_specs::vec::axiom_vec_index_decreases(*es, 0);
                    assert(decreases_to!(*self => self->Equals_0));
                }
                let mut head = es[0].evaluate(ctx)?;
                let mut i: usize = 1;
                assert(ev.subrange(1, ev.len() as int) =~= ev.drop_first());
                while i < es.len()
                    invariant
                        *self == Expr::Equals(*es),
                        ev == exprs_view(*es),
                        ev.len() == es@.len(),
                        forall|k: int| 0 <= k < es@.len() ==> #[trigger] ev[k] == expr_view(es@[k]),
                        ctx.scope.wf(),
                        fr == ctx.scope@,
                        g == *ctx.game,
                        pos == ctx.pos,
                        1 <= i <= es.len(),
                        eval(self@, fr, g, pos) == eval_equal_to(ev.subrange(i as int, ev.len() as int), head@, fr, g, pos),
                    decreases es.len() - i,
                {
                    proof {
                        vstd::std_specs::vec::axiom_vec_index_decreases(*es, i as int);
                        assert(decreases_to!(*self => self->Equals_0));
                    }
                    let ghost sub = ev.subrange(i as int, ev.len() as int);
                    assert(sub.drop_first() =~= ev.subrange(i as int + 1, ev.len() as int));
                    assert(sub[0] == es@[i as int]@);
                    let next = es[i].evaluate(ctx)?;
                    if !head.same(&next) {
                        return Ok(EvalValue::Bool(false));
                    }
                    head = next;
                    i = i + 1;
                }
                assert(ev.subrange(i as int, ev.len() as int) =~= Seq::<ExprV>::empty());
                Ok(EvalValue::Bool(true))
            },
            Expr::Neighbors(v) => {
                let target = v.evaluate(ctx)?.as_int()?;
                if !(i32::MIN < ctx.pos.x && ctx.pos.x < i32::MAX && i32::MIN < ctx.pos.y && ctx.pos.y < i32::MAX) {
                    return Err(String::from_str("Position is too close to the edge of the coordinate range"));
                }
                let run = count_open(ctx.game, ctx.pos);
                Ok(EvalValue::Bool(target <= 0 || (target as u64) <= run))
            },
        }
    }
}


/// The builtin functions that an expression object can name.
#[derive(Clone, Copy, Debug, PartialEq, Eq, Structural)]
pub enum Builtin {
    If,
    And,
    Or,
    Equals,
    ContiguousNeighbors,
}

/// The table from identifiers to builtin functions that the expression
/// compiler dispatches objects through. A name is registered at most once.
pub struct ConditionMap {
    entries: Vec<(Identifier, Builtin)>,
}

impl ConditionMap {
    /// The builtin registered under `id`.
    pub closed spec fn builtin_of(&self, id: Seq<char>) -> Option<Builtin> {
        assoc(self.entries@, id)
    }

    /// An empty table.
    pub fn new() -> (r: ConditionMap)
        ensures
            forall|id: Seq<char>| r.builtin_of(id) is None,
    {
        ConditionMap { entries: Vec::new() }
    }

    /// Registers `b` under `name`, unless that name is taken; tells whether it was registered.
    pub fn insert(&mut self, name: Identifier, b: Builtin) -> (r: bool)
        ensures
            r == old(self).builtin_of(name@) is None,
            final(self).builtin_of(name@) == if r { Some(b) } else { old(self).builtin_of(name@) },
            forall|id: Seq<char>| id != name@ ==> final(self).builtin_of(id) == old(self).builtin_of(id),
    {
        if self.lookup(&name).is_some() {
            return false;
        }
        self.entries.insert(0, (name, b));
        assert(self.entries@.drop_first() =~= old(self).entries@);
        true
    }

    /// The builtin registered under `id`.
    pub fn lookup(&self, id: &Identifier) -> (r: Option<Builtin>)
        ensures
            r == self.builtin_of(id@),
    {
        let mut i: usize = 0;
        assert(self.entries@.subrange(0, self.entries@.len() as int) =~= self.entries@);
        while i < self.entries.len()
            invariant
                i <= self.entries@.len(),
                assoc(self.entries@, id@) == assoc(self.entries@.subrange(i as int, self.entries@.len() as int), id@),
            decreases self.entries.len() - i,
        {
            assert(self.entries@.subrange(i as int, self.entries@.len() as int).drop_first()
                =~= self.entries@.subrange(i as int + 1, self.entries@.len() as int));
            if self.entries[i].0 == *id {
                return Some(self.entries[i].1);
            }
            i = i + 1;
        }
        None
    }
}

/// After registering `b` under `name`: `name` holds `b`, unless it was taken.
pub open spec fn registered(before: ConditionMap, after: ConditionMap, name: Seq<char>, b: Builtin) -> bool {
    after.builtin_of(name) == match before.builtin_of(name) {
        Some(x) => Some(x),
        None => Some(b),
    }
}

/// Registers the builtins of the `engine` namespace: `if`, `and`, `or`,
/// `equals` and `contiguous-neighbors`.
pub fn register(map: &mut ConditionMap)
    ensures
        registered(*old(map), *final(map), "engine:if"@, Builtin::If),
        registered(*old(map), *final(map), "engine:and"@, Builtin::And),
        registered(*old(map), *final(map), "engine:or"@, Builtin::Or),
        registered(*old(map), *final(map), "engine:equals"@, Builtin::Equals),
        registered(*old(map), *final(map), "engine:contiguous-neighbors"@, Builtin::ContiguousNeighbors),
        forall|id: Seq<char>|
            id != "engine:if"@ && id != "engine:and"@ && id != "engine:or"@ && id != "engine:equals"@
                && id != "engine:contiguous-neighbors"@ ==> final(map).builtin_of(id) == old(map).builtin_of(id),
{
    proof {
        reveal_strlit("engine:if");
        reveal_strlit("engine:and");
        reveal_strlit("engine:or");
        reveal_strlit("engine:equals");
        reveal_strlit("engine:contiguous-neighbors");
        reveal_with_fuel(separator_count, 30);
    }
    map.insert(named("engine:if"), Builtin::If);
    map.insert(named("engine:and"), Builtin::And);
    map.insert(named("engine:or"), Builtin::Or);
    map.insert(named("engine:equals"), Builtin::Equals);
    map.insert(named("engine:contiguous-neighbors"), Builtin::ContiguousNeighbors);
}

/// The identifier whose text is `s`, which has exactly one separator.
pub(crate) fn named(s: &str) -> (r: Identifier)
    requires
        separator_count(s@) == 1,
    ensures
        r@ == s@,
{
    Identifier::parse(s, "engine").unwrap()
}

/// What the string `s` compiles to: a reference to the name after an `@`, or
/// else the registered piece type that `s` names in the game's namespace.
pub open spec fn compile_string(s: Seq<char>, g: DataGame) -> Option<ExprV> {
    if s.len() > 0 && s[0] == '@' {
        Some(ExprV::Var(s.drop_first()))
    } else if separator_count(s) <= 1 && g.node_of(qualified(s, g.spec_id())) is Some {
        Some(ExprV::Const(Val::Node(Some(qualified(s, g.spec_id())))))
    } else {
        None
    }
}

#[via_fn]
proof fn compile_decreases(j: JsonV, g: DataGame, t: ConditionMap) {
    match j {
        JsonV::Obj(fields) => {
            lemma_field_decreases(fields, "type"@);
            lemma_field_decreases(fields, "cond"@);
            lemma_field_decreases(fields, "then"@);
            lemma_field_decreases(fields, "else"@);
            lemma_field_decreases(fields, "values"@);
            lemma_field_decreases(fields, "value"@);
        },
        _ => {},
    }
}

/// What the elements of `items` compile to, left to right; `None` at the first failure.
pub open spec fn compile_all(items: Seq<JsonV>, g: DataGame, t: ConditionMap) -> Option<Seq<ExprV>>
    decreases items, 0nat,
{
    if items.len() == 0 {
        Some(Seq::empty())
    } else {
        match compile(items[0], g, t) {
            Some(e) => match compile_all(items.drop_first(), g, t) {
                Some(es) => Some(seq![e] + es),
                None => None,
            },
            None => None,
        }
    }
}

/// Compiling a list gives one expression per element.
pub proof fn lemma_compile_all_len(items: Seq<JsonV>, g: DataGame, t: ConditionMap)
    ensures
        compile_all(items, g, t) matches Some(es) ==> es.len() == items.len(),
    decreases items.len(),
{
    if items.len() > 0 {
        lemma_compile_all_len(items.drop_first(), g, t);
    }
}

/// What the JSON document `j` compiles to, with the piece types of `g` and the
/// builtins of `t`; `None` when it does not compile.
pub open spec fn compile(j: JsonV, g: DataGame, t: ConditionMap) -> Option<ExprV>
    decreases j, 1nat,
    via compile_decreases
{
    match j {
        JsonV::Null => Some(ExprV::Const(Val::Node(None))),
        JsonV::Bool(b) => Some(ExprV::Const(Val::Bool(b))),
        JsonV::Num(n) => Some(ExprV::Const(Val::Num(n))),
        JsonV::Str(s) => compile_string(s, g),
        JsonV::Arr(items) => match compile_all(items, g, t) {
            Some(es) => Some(ExprV::Array(es)),
            None => None,
        },
        JsonV::Obj(fields) => match field(fields, "type"@) {
            Some(JsonV::Str(ts)) => if separator_count(ts) <= 1 {
                match t.builtin_of(qualified(ts, g.spec_id())) {
                    Some(Builtin::If) => match (field(fields, "cond"@), field(fields, "then"@), field(fields, "else"@)) {
                        (Some(c), Some(th), Some(el)) => match (compile(c, g, t), compile(th, g, t), compile(el, g, t)) {
                            (Some(ce), Some(te), Some(ee)) => Some(ExprV::If(Box::new(ce), Box::new(te), Box::new(ee))),
                            _ => None,
                        },
                        _ => None,
                    },
                    Some(Builtin::ContiguousNeighbors) => match field(fields, "value"@) {
                        Some(v) => match compile(v, g, t) {
                            Some(ve) => Some(ExprV::Neighbors(Box::new(ve))),
                            None => None,
                        },
                        None => None,
                    },
                    Some(b) => match field(fields, "values"@) {
                        Some(JsonV::Arr(items)) => match compile_all(items, g, t) {
                            Some(es) => Some(
                                if b == Builtin::And {
                                    ExprV::And(es)
                                } else if b == Builtin::Or {
                                    ExprV::Or(es)
                                } else {
                                    ExprV::Equals(es)
                                },
                            ),
                            None => None,
                        },
                        _ => None,
                    },
                    None => None,
                }
            } else {
                None
            },
            _ => None,
        },
    }
}


/// Compiles JSON documents into expressions, resolving piece names in `game`
/// and object types through `functions`.
pub struct ConditionParser<'a> {
    pub game: &'a DataGame,
    pub functions: &'a ConditionMap,
}

/// What the field `key` of `j` compiles to, when it is there.
pub open spec fn compile_field(j: JsonV, key: Seq<char>, g: DataGame, t: ConditionMap) -> Option<ExprV> {
    match get_field(j, key) {
        Some(v) => compile(v, g, t),
        None => None,
    }
}

impl<'a> ConditionParser<'a> {
    /// A compiler over the given game and builtin table.
    pub fn new(game: &'a DataGame, functions: &'a ConditionMap) -> (r: ConditionParser<'a>)
        ensures
            *r.game == *game,
            *r.functions == *functions,
    {
        ConditionParser { game, functions }
    }

    /// Compiles the field `key` of the object `map`; a missing field is an error.
    pub fn parse_key(&self, map: &Json, key: &str) -> (r: Result<Expr, String>)
        ensures
            match r {
                Ok(e) => compile_field(map@, key@, *self.game, *self.functions) == Some(e@),
                Err(_) => compile_field(map@, key@, *self.game, *self.functions) is None,
            },
        decreases map, 1nat,
    {
        match map.get(key) {
            Some(v) => self.parse(v),
            None => {
                let mut msg = String::from_str("Missing ");
                msg.append(key);
                msg.append(" in Condition JSON object");
                Err(msg)
            },
        }
    }

    /// Compiles each element of `list`, left to right.
    pub fn parse_list(&self, list: &Vec<Json>) -> (r: Result<Vec<Expr>, String>)
        ensures
            match r {
                Ok(es) => compile_all(jsons_view(list@), *self.game, *self.functions) == Some(exprs_view(es)),
                Err(_) => compile_all(jsons_view(list@), *self.game, *self.functions) is None,
            },
        decreases list, 0nat,
    {
        let ghost jv = jsons_view(list@);
        let ghost g = *self.game;
        let ghost t = *self.functions;
        let mut out: Vec<Expr> = Vec::new();
        let mut i: usize = 0;
        assert(jv.subrange(0, jv.len() as int) =~= jv);
        while i < list.len()
            invariant
                jv == jsons_view(list@),
                g == *self.game,
                t == *self.functions,
                i <= list.len(),
                out.len() == i,
                compile_all(jv, g, t) == match compile_all(jv.subrange(i as int, jv.len() as int), g, t) {
                    Some(rest) => Some(exprs_view(out) + rest),
                    None => None,
                },
            decreases list.len() - i,
        {
            proof {
                vstd::std_specs::vec::axiom_vec_index_decreases(*list, i as int);
                lemma_exprs_view(out);
            }
            let ghost sub = jv.subrange(i as int, jv.len() as int);
            assert(sub.drop_first() =~= jv.subrange(i as int + 1, jv.len() as int));
            assert(sub[0] == list@[i as int]@);
            let e = self.parse(&list[i])?;
            let ghost before = exprs_view(out);
            out.push(e);
            proof {
                lemma_exprs_view(out);
                assert(exprs_view(out) =~= before + seq![e@]);
                match compile_all(jv.subrange(i as int + 1, jv.len() as int), g, t) {
                    Some(r) => {
                        assert(before + (seq![e@] + r) =~= exprs_view(out) + r);
                    },
                    None => {},
                }
            }
            i = i + 1;
        }
        proof {
            assert(jv.subrange(i as int, jv.len() as int) =~= Seq::<JsonV>::empty());
            assert(exprs_view(out) + Seq::<ExprV>::empty() =~= exprs_view(out));
        }
        Ok(out)
    }

    /// Compiles a JSON document into an expression.
    pub fn parse(&self, value: &Json) -> (r: Result<Expr, String>)
        ensures
            match r {
                Ok(e) => compile(value@, *self.game, *self.functions) == Some(e@),
                Err(_) => compile(value@, *self.game, *self.functions) is None,
            },
        decreases value, 3nat,
    {
        match value {
            Json::Null => Ok(Expr::Const(EvalValue::Node(None))),
            Json::Bool(b) => Ok(Expr::Const(EvalValue::Bool(*b))),
            Json::Number(n) => Ok(Expr::Const(EvalValue::Number(*n))),
            Json::String(s) => self.parse_string(s.as_str()),
            Json::Array(items) => {
                proof {
                    lemma_json_view(*value);
                    assert(value@->Arr_0 =~= jsons_view(items@));
                }
                let es = self.parse_list(items)?;
                Ok(Expr::Array(es))
            },
            Json::Object(_) => self.parse_object(value),
        }
    }

    /// Compiles a string: a reference to a bound name after `@`, or else the
    /// piece type it names.
    fn parse_string(&self, string: &str) -> (r: Result<Expr, String>)
        ensures
            match r {
                Ok(e) => compile_string(string@, *self.game) == Some(e@),
                Err(_) => compile_string(string@, *self.game) is None,
            },
    {
        let n = string.unicode_len();
        if n > 0 && string.get_char(0) == '@' {
            let rest = string.substring_char(1, n);
            assert(rest@ =~= string@.drop_first());
            return Ok(Expr::Var(String::from_str(rest)));
        }
        let id = Identifier::parse(string, self.game.id())?;
        match self.game.lookup_node(&id) {
            Some(node) => {
                Ok(Expr::Const(EvalValue::Node(Some(node))))
            },
            None => {
                let mut msg = String::from_str("No such node as ");
                msg.append(id.as_str());
                msg.append(" exists");
                Err(msg)
            },
        }
    }

    /// Compiles an object through the builtin that its `type` names.
    fn parse_object(&self, value: &Json) -> (r: Result<Expr, String>)
        requires
            value is Object,
        ensures
            match r {
                Ok(e) => compile(value@, *self.game, *self.functions) == Some(e@),
                Err(_) => compile(value@, *self.game, *self.functions) is None,
            },
        decreases value, 2nat,
    {
        proof {
            lemma_json_view(*value);
        }
        let type_val = match value.get("type") {
            Some(t) => t,
            None => {
                return Err(String::from_str("Missing type in Condition JSON object"));
            },
        };
        let type_str = match type_val.as_str() {
            Some(s) => s,
            None => {
                return Err(String::from_str("Type of JSON object isn't a string"));
            },
        };
        let type_id = Identifier::parse(type_str, self.game.id())?;
        let b = match self.functions.lookup(&type_id) {
            Some(b) => b,
            None => {
                let mut msg = String::from_str("No such function with identifier ");
                msg.append(type_id.as_str());
                return Err(msg);
            },
        };
        match b {
            Builtin::If => {
                let c = self.parse_key(value, "cond")?;
                let t = self.parse_key(value, "then")?;
                let e = self.parse_key(value, "else")?;
                Ok(Expr::If(Box::new(c), Box::new(t), Box::new(e)))
            },
            Builtin::ContiguousNeighbors => {
                let v = self.parse_key(value, "value")?;
                Ok(Expr::Neighbors(Box::new(v)))
            },
            _ => {
                let es = self.get_values(value)?;
                Ok(
                    if b == Builtin::And {
                        Expr::And(es)
                    } else if b == Builtin::Or {
                        Expr::Or(es)
                    } else {
                        Expr::Equals(es)
                    },
                )
            },
        }
    }

    /// Compiles the `values` array of an object.
    fn get_values(&self, value: &Json) -> (r: Result<Vec<Expr>, String>)
        ensures
            match r {
                Ok(es) => get_field(value@, "values"@) matches Some(JsonV::Arr(items))
                    && compile_all(items, *self.game, *self.functions) == Some(exprs_view(es)),
                Err(_) => !(get_field(value@, "values"@) matches Some(JsonV::Arr(items))
                    && compile_all(items, *self.game, *self.functions) is Some),
            },
        decreases value, 1nat,
    {
        let values = match value.get("values") {
            Some(v) => v,
            None => {
                return Err(String::from_str("Missing values array"));
            },
        };
        let array = match values.as_array() {
            Some(a) => a,
            None => {
                return Err(String::from_str("values must be an array"));
            },
        };
        proof {
            lemma_json_view(*values);
            assert(values@->Arr_0 =~= jsons_view(array@));
            assert(decreases_to!(*values => *array));
        }
        self.parse_list(array)
    }
}

} // verus!
