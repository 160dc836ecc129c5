use vstd::prelude::*;
use crate::condition::{ConditionParser, Expr, ExprV, compile, compile_all, eval, exprs_view, lemma_exprs_view};
use crate::data::{Coord, DataGame, DataNode, Identifier, assoc, qualified, separator_count};
use crate::json::{Json, JsonV, field, get_field, jsons_view, lemma_field_decreases, lemma_json_view};
use crate::evaluation::{EvalContext, EvalValue, Val, node_view};
use crate::nodes::PartialResult;
use crate::order::{key_le, lemma_key_le_total_ordering, lemma_name_le_total, name_le, names_le};
use crate::matcher::{
    Classified, Matcher, Pred, accept_table, add_bindings, classify, contains, ints, lemma_add_bindings_frames,
    lemma_search_exact, names, slot_binds, slot_count, valid_from,
};

verus! {

/// A link of a rule: a pattern, a guard, one result expression per slot, and
/// the link that takes the candidates left over.
pub struct Checker {
    pub predicate: Matcher,
    pub guard: Option<Expr>,
    pub result: Vec<Expr>,
    pub child: Option<Box<Checker>>,
    /// The number of links of the chain from this one on.
    pub links: usize,
}

/// What evaluating a rule on a selection gives.
pub enum Outcome {
    /// Evaluation failed.
    Error,
    Continue,
    Failure,
    /// The replacement of each matched position.
    Success(Map<int, Option<Seq<char>>>),
}

/// Each link has one result expression per slot.
pub open spec fn checker_wf(c: Checker) -> bool
    decreases c,
{
    &&& c.result@.len() == slot_count(c.predicate)
    &&& match c.child {
        Some(ch) => checker_wf(*ch) && c.links == ch.links + 1,
        None => c.links == 1,
    }
}

/// The positions of `live` that the assignment `a` (indices into `live`) leaves over, in order.
pub open spec fn unmatched(live: Seq<int>, a: Seq<int>) -> Seq<int>
    decreases live.len(),
{
    if live.len() == 0 {
        Seq::empty()
    } else if a.contains(live.len() - 1) {
        unmatched(live.drop_last(), a)
    } else {
        unmatched(live.drop_last(), a).push(live.last())
    }
}

/// The frames after the first `k` slots of `m` made their bindings for the
/// candidates that the assignment `a` gives them.
pub open spec fn bind_matched(
    fr: Seq<Map<Seq<char>, EvalValue>>,
    m: Matcher,
    cands: Seq<DataNode>,
    a: Seq<int>,
    k: nat,
) -> Seq<Map<Seq<char>, EvalValue>>
    decreases k,
{
    if k == 0 {
        fr
    } else {
        add_bindings(bind_matched(fr, m, cands, a, (k - 1) as nat), slot_binds(m, k - 1, cands[a[k - 1]]))
    }
}

/// Whether the guard holds; `None` when its evaluation fails or gives no boolean.
pub open spec fn guard_value(guard: Option<Expr>, fr: Seq<Map<Seq<char>, EvalValue>>, g: DataGame, pos: Coord) -> Option<bool> {
    match guard {
        None => Some(true),
        Some(e) => match eval(e@, fr, g, pos) {
            Some(Val::Bool(b)) => Some(b),
            _ => None,
        },
    }
}

/// `m` with the replacements of the first `k` slots added: slot `i` replaces
/// the position `live[a[i]]` by the piece its result expression evaluates to.
pub open spec fn add_results(
    m: Map<int, Option<Seq<char>>>,
    res: Seq<Expr>,
    a: Seq<int>,
    live: Seq<int>,
    fr: Seq<Map<Seq<char>, EvalValue>>,
    g: DataGame,
    pos: Coord,
    k: nat,
) -> Option<Map<int, Option<Seq<char>>>>
    decreases k,
{
    if k == 0 {
        Some(m)
    } else {
        match add_results(m, res, a, live, fr, g, pos, (k - 1) as nat) {
            Some(m2) => match eval(res[k - 1]@, fr, g, pos) {
                Some(Val::Node(n)) => Some(m2.insert(live[a[k - 1]], n)),
                _ => None,
            },
            None => None,
        }
    }
}

/// Once a result expression fails, the results fail.
pub proof fn lemma_add_results_stuck(
    m: Map<int, Option<Seq<char>>>,
    res: Seq<Expr>,
    a: Seq<int>,
    live: Seq<int>,
    fr: Seq<Map<Seq<char>, EvalValue>>,
    g: DataGame,
    pos: Coord,
    k: nat,
    k2: nat,
)
    requires
        k <= k2,
        add_results(m, res, a, live, fr, g, pos, k) is None,
    ensures
        add_results(m, res, a, live, fr, g, pos, k2) is None,
    decreases k2 - k,
{
    if k < k2 {
        lemma_add_results_stuck(m, res, a, live, fr, g, pos, k + 1, k2);
    }
}

/// The pieces at the positions `live`.
pub open spec fn pieces_at(against: Seq<DataNode>, live: Seq<int>) -> Seq<DataNode> {
    Seq::new(live.len(), |j: int| against[live[j]])
}

/// The outcome of the chain `c` on the positions `live` of `against`, under
/// the frames `fr`, with the frames after it. Each link opens a frame, binds
/// what its slots bind, checks its guard, hands the positions it left over
/// to its child, and once the child succeeded evaluates its result
/// expressions in the frames as the whole chain left them.
pub open spec fn chain(
    c: Checker,
    fr: Seq<Map<Seq<char>, EvalValue>>,
    g: DataGame,
    pos: Coord,
    against: Seq<DataNode>,
    live: Seq<int>,
) -> (Outcome, Seq<Map<Seq<char>, EvalValue>>)
    decreases c,
{
    let fr1 = fr.push(Map::empty());
    let cands = pieces_at(against, live);
    match classify(c.predicate, cands) {
        Classified::Continue => (Outcome::Continue, fr1),
        Classified::Failure => (Outcome::Failure, fr1),
        Classified::Success(a) => {
            let fr2 = bind_matched(fr1, c.predicate, cands, a, a.len());
            match guard_value(c.guard, fr2, g, pos) {
                None => (Outcome::Error, fr2),
                Some(false) => (Outcome::Failure, fr2),
                Some(true) => {
                    let (co, fr3) = match c.child {
                        Some(ch) => chain(*ch, fr2, g, pos, against, unmatched(live, a)),
                        None => (Outcome::Success(Map::empty()), fr2),
                    };
                    match co {
                        Outcome::Success(cm) => match add_results(cm, c.result@, a, live, fr3, g, pos, a.len()) {
                            Some(m) => (Outcome::Success(m), fr3),
                            None => (Outcome::Error, fr3),
                        },
                        other => (other, fr3),
                    }
                },
            }
        },
    }
}


/// Binding for the first `k` slots only changes the innermost frame.
pub proof fn lemma_bind_matched_frames(
    fr: Seq<Map<Seq<char>, EvalValue>>,
    m: Matcher,
    cands: Seq<DataNode>,
    a: Seq<int>,
    k: nat,
)
    requires
        fr.len() >= 1,
    ensures
        bind_matched(fr, m, cands, a, k).len() == fr.len(),
        bind_matched(fr, m, cands, a, k).subrange(0, fr.len() - 1) == fr.subrange(0, fr.len() - 1),
    decreases k,
{
    if k > 0 {
        lemma_bind_matched_frames(fr, m, cands, a, (k - 1) as nat);
        let f0 = bind_matched(fr, m, cands, a, (k - 1) as nat);
        lemma_add_bindings_frames(f0, slot_binds(m, k - 1, cands[a[k - 1]]));
    }
}

/// The replacements recorded in `out`, by position.
pub open spec fn replacements(out: Seq<Option<Option<DataNode>>>) -> Map<int, Option<Seq<char>>> {
    Map::new(|p: int| 0 <= p < out.len() && out[p] is Some, |p: int| node_view(out[p]->Some_0))
}

/// The first `n` positions, in order.
pub open spec fn positions(n: nat) -> Seq<int> {
    Seq::new(n, |i: int| i)
}

/// The positions of `live` that the assignment `a` leaves over, in order.
fn unmatched_exec(live: &Vec<usize>, a: &Vec<usize>) -> (r: Vec<usize>)
    ensures
        ints(r@) == unmatched(ints(live@), ints(a@)),
        forall|j: int| 0 <= j < r@.len() ==> exists|k: int| 0 <= k < live@.len() && live@[k] == #[trigger] r@[j],
{
    let mut r: Vec<usize> = Vec::new();
    let mut j: usize = 0;
    while j < live.len()
        invariant
            j <= live.len(),
            ints(r@) == unmatched(ints(live@).subrange(0, j as int), ints(a@)),
            forall|q: int| 0 <= q < r@.len() ==> exists|k: int| 0 <= k < live@.len() && live@[k] == #[trigger] r@[q],
        decreases live.len() - j,
    {
        assert(ints(live@).subrange(0, j as int + 1).drop_last() =~= ints(live@).subrange(0, j as int));
        if !contains(a, j) {
            r.push(live[j]);
            assert(ints(r@) =~= unmatched(ints(live@).subrange(0, j as int), ints(a@)).push(live@[j as int] as int));
            assert(live@[j as int] == r@[r@.len() - 1]);
        }
        j = j + 1;
    }
    assert(ints(live@).subrange(0, j as int) =~= ints(live@));
    r
}

impl Checker {
    /// The pattern of this link.
    pub open spec fn pattern(&self) -> Matcher {
        self.predicate
    }

    /// The guard of this link.
    pub open spec fn guard_expr(&self) -> Option<Expr> {
        self.guard
    }

    /// The number of links of the chain from this one on.
    pub open spec fn links(&self) -> nat {
        self.links as nat
    }

    /// Whether each link has one result expression per slot.
    pub open spec fn wf(&self) -> bool {
        checker_wf(*self)
    }

    /// Runs the chain from this link on over the positions `live` of
    /// `against`. Each link opens a frame and leaves it open, counted in
    /// `depth`; the replacements of a success are written to `out`.
    pub fn test_rec(
        &self,
        ctx: &mut EvalContext,
        against: &[DataNode],
        live: &Vec<usize>,
        depth: &mut usize,
        out: &mut Vec<Option<Option<DataNode>>>,
    ) -> (r: Result<PartialResult<()>, String>)
        requires
            checker_wf(*self),
            old(ctx).scope.wf(),
            *old(depth) + self.links() <= usize::MAX,
            forall|j: int| 0 <= j < live@.len() ==> #[trigger] live@[j] < against@.len(),
            old(out)@.len() == against@.len(),
            forall|p: int| 0 <= p < old(out)@.len() ==> #[trigger] old(out)@[p] is None,
        ensures
            final(ctx).game == old(ctx).game,
            final(ctx).pos == old(ctx).pos,
            final(ctx).scope.wf(),
            *old(depth) < *final(depth) <= *old(depth) + self.links(),
            final(ctx).scope@.len() == old(ctx).scope@.len() + (*final(depth) - *old(depth)),
            final(ctx).scope@.subrange(0, old(ctx).scope@.len() as int) == old(ctx).scope@,
            final(out)@.len() == against@.len(),
            ({
                let (o, fr) = chain(*self, old(ctx).scope@, *old(ctx).game, old(ctx).pos, against@, ints(live@));
                match r {
                    Err(_) => o is Error,
                    Ok(PartialResult::Continue) => o is Continue,
                    Ok(PartialResult::Failure) => o is Failure,
                    Ok(PartialResult::Success(_)) => o matches Outcome::Success(m) && replacements(final(out)@) == m
                        && final(ctx).scope@ == fr,
                }
            }),
        decreases self,
    {
        let ghost fr0 = ctx.scope@;
        let ghost g = *ctx.game;
        let ghost pos = ctx.pos;
        let ghost live_i = ints(live@);
        assert(self.links() >= 1) by {
            match self.child {
                Some(ch) => {},
                None => {},
            }
        }
        ctx.scope.push();
        *depth = *depth + 1;
        let ghost fr1 = ctx.scope@;
        assert(fr1.subrange(0, fr0.len() as int) =~= fr0);
        let mut cands: Vec<DataNode> = Vec::new();
        let mut j: usize = 0;
        while j < live.len()
            invariant
                j <= live.len(),
                forall|q: int| 0 <= q < live@.len() ==> #[trigger] live@[q] < against@.len(),
                live_i == ints(live@),
                cands@ == pieces_at(against@, live_i).subrange(0, j as int),
            decreases live.len() - j,
        {
            cands.push(against[live[j]].copy());
            assert(cands@ =~= pieces_at(against@, live_i).subrange(0, j as int + 1));
            j = j + 1;
        }
        assert(cands@ =~= pieces_at(against@, live_i));
        let ghost cl = classify(self.predicate, cands@);
        let a = match self.predicate.test(&cands) {
            PartialResult::Continue => {
                return Ok(PartialResult::Continue);
            },
            PartialResult::Failure => {
                return Ok(PartialResult::Failure);
            },
            PartialResult::Success(a) => a,
        };
        let ghost t = accept_table(self.predicate, cands@);
        proof {
            lemma_search_exact(t, cands@.len());
        }
        let ghost ai = ints(a@);
        assert(valid_from(t, cands@.len(), Seq::empty(), ai));
        assert(forall|i: int| 0 <= i < a@.len() ==> 0 <= #[trigger] ai[i] < cands@.len());
        let mut k: usize = 0;
        while k < a.len()
            invariant
                ai == ints(a@),
                ai.len() == slot_count(self.predicate),
                forall|i: int| 0 <= i < a@.len() ==> 0 <= #[trigger] ai[i] < cands@.len(),
                k <= a.len(),
                ctx.scope.wf(),
                ctx.game == old(ctx).game,
                ctx.pos == old(ctx).pos,
                ctx.scope@ == bind_matched(fr1, self.predicate, cands@, ai, k as nat),
                *depth == *old(depth) + 1,
                self.links() >= 1,
                *old(depth) + self.links() <= usize::MAX,
                fr1.len() == fr0.len() + 1,
                fr1.subrange(0, fr0.len() as int) == fr0,
                fr0 == old(ctx).scope@,
            decreases a.len() - k,
        {
            assert(ai[k as int] == a@[k as int] as int);
            self.predicate.bind_slot(k, &cands[a[k]], &mut ctx.scope);
            k = k + 1;
        }
        let ghost fr2 = ctx.scope@;
        proof {
            lemma_bind_matched_frames(fr1, self.predicate, cands@, ai, ai.len());
            assert(fr2.subrange(0, fr0.len() as int) =~= fr0) by {
                assert(fr2.subrange(0, fr1.len() - 1) == fr1.subrange(0, fr1.len() - 1));
                assert forall|q: int| 0 <= q < fr0.len() implies fr2[q] == fr0[q] by {
                    assert(fr2.subrange(0, fr1.len() - 1)[q] == fr1.subrange(0, fr1.len() - 1)[q]);
                }
            }
        }
        match &self.guard {
            Some(gd) => {
                let v = gd.evaluate(ctx)?;
                if !v.as_bool()? {
                    return Ok(PartialResult::Failure);
                }
            },
            None => {},
        }
        match &self.child {
            Some(ch) => {
                let rest = unmatched_exec(live, &a);
                let cr = ch.test_rec(ctx, against, &rest, depth, out)?;
                proof {
                    assert(ctx.scope@.subrange(0, fr0.len() as int) =~= fr0) by {
                        assert forall|q: int| 0 <= q < fr0.len() implies ctx.scope@[q] == fr0[q] by {
                            assert(ctx.scope@.subrange(0, fr2.len() as int)[q] == fr2[q]);
                            assert(fr2.subrange(0, fr0.len() as int)[q] == fr0[q]);
                        }
                    }
                }
                match cr {
                    PartialResult::Success(_) => {},
                    PartialResult::Continue => {
                        return Ok(PartialResult::Continue);
                    },
                    PartialResult::Failure => {
                        return Ok(PartialResult::Failure);
                    },
                }
            },
            None => {
                assert(replacements(out@) =~= Map::empty());
            },
        }
        let ghost fr3 = ctx.scope@;
        let ghost cm = replacements(out@);
        let ghost whole = (match add_results(cm, self.result@, ai, live_i, fr3, g, pos, ai.len()) {
            Some(m) => Outcome::Success(m),
            None => Outcome::Error,
        }, fr3);
        assert(chain(*self, fr0, g, pos, against@, live_i) == whole);
        let mut k: usize = 0;
        while k < a.len()
            invariant
                ai == ints(a@),
                ai.len() == slot_count(self.predicate),
                self.result@.len() == slot_count(self.predicate),
                forall|i: int| 0 <= i < a@.len() ==> 0 <= #[trigger] ai[i] < cands@.len(),
                cands@.len() == live@.len(),
                forall|q: int| 0 <= q < live@.len() ==> #[trigger] live@[q] < against@.len(),
                live_i == ints(live@),
                out@.len() == against@.len(),
                k <= a.len(),
                ctx.scope.wf(),
                ctx.scope@ == fr3,
                ctx.game == old(ctx).game,
                ctx.pos == old(ctx).pos,
                add_results(cm, self.result@, ai, live_i, fr3, g, pos, k as nat) == Some(replacements(out@)),
                chain(*self, fr0, g, pos, against@, live_i) == whole,
                whole == (match add_results(cm, self.result@, ai, live_i, fr3, g, pos, ai.len()) {
                    Some(m) => Outcome::Success(m),
                    None => Outcome::Error,
                }, fr3),
                g == *ctx.game,
                pos == ctx.pos,
                *old(depth) < *depth <= *old(depth) + self.links(),
                ctx.scope@.len() == fr0.len() + (*depth - *old(depth)),
                ctx.scope@.subrange(0, fr0.len() as int) == fr0,
                fr0 == old(ctx).scope@,
            decreases a.len() - k,
        {
            let ev = self.result[k].evaluate(ctx);
            proof {
                if ev is Err || !(ev->Ok_0@ is Node) {
                    lemma_add_results_stuck(cm, self.result@, ai, live_i, fr3, g, pos, (k + 1) as nat, ai.len());
                }
            }
            let v = ev?.as_node()?;
            let p = live[a[k]];
            let ghost before = replacements(out@);
            let ghost vv = node_view(v);
            out.set(p, Some(v));
            assert(replacements(out@) =~= before.insert(p as int, vv));
            k = k + 1;
        }
        Ok(PartialResult::Success(()))
    }

    /// Evaluates the rule on the selection `against`: `Success` with each
    /// position's replacement (a position the rule did not match keeps its
    /// piece), `Continue` while the selection can still grow into a match,
    /// `Failure` otherwise. An evaluation error is returned as an error. The
    /// scope is left as it was.
    pub fn test(&self, ctx: &mut EvalContext, against: &[DataNode]) -> (r: Result<PartialResult<Vec<Option<DataNode>>>, String>)
        requires
            checker_wf(*self),
            old(ctx).scope.wf(),
        ensures
            final(ctx).game == old(ctx).game,
            final(ctx).pos == old(ctx).pos,
            final(ctx).scope.wf(),
            final(ctx).scope@ == old(ctx).scope@,
            match (r, chain(*self, old(ctx).scope@, *old(ctx).game, old(ctx).pos, against@, positions(against@.len())).0) {
                (Err(_), Outcome::Error) => true,
                (Ok(PartialResult::Continue), Outcome::Continue) => true,
                (Ok(PartialResult::Failure), Outcome::Failure) => true,
                (Ok(PartialResult::Success(v)), Outcome::Success(m)) => v@.len() == against@.len()
                    && forall|p: int| 0 <= p < against@.len() ==> #[trigger] node_view(v@[p]) == if m.contains_key(p) {
                        m[p]
                    } else {
                        Some(against@[p]@)
                    },
                _ => false,
            },
    {
        let ghost fr0 = ctx.scope@;
        proof {
            ctx.scope.lemma_wf_len();
        }
        let mut live: Vec<usize> = Vec::new();
        let mut out: Vec<Option<Option<DataNode>>> = Vec::new();
        let mut i: usize = 0;
        while i < against.len()
            invariant
                i <= against@.len(),
                live@.len() == i,
                out@.len() == i,
                forall|q: int| 0 <= q < i ==> #[trigger] live@[q] == q,
                forall|q: int| 0 <= q < i ==> #[trigger] out@[q] is None,
            decreases against.len() - i,
        {
            live.push(i);
            out.push(None);
            i = i + 1;
        }
        assert(ints(live@) =~= positions(against@.len()));
        let mut depth: usize = 0;
        let res = self.test_rec(ctx, against, &live, &mut depth, &mut out);
        let mut d = depth;
        let ghost fr_end = ctx.scope@;
        proof {
            ctx.scope.lemma_wf_len();
        }
        while d > 0
            invariant
                fr0.len() >= 1,
                fr_end.len() == fr0.len() + depth,
                fr_end.subrange(0, fr0.len() as int) == fr0,
                d <= depth,
                ctx.scope.wf(),
                ctx.scope@ == fr_end.subrange(0, fr0.len() + d),
                ctx.game == old(ctx).game,
                ctx.pos == old(ctx).pos,
            decreases d,
        {
            ctx.scope.pop();
            assert(fr_end.subrange(0, fr0.len() + d).drop_last() =~= fr_end.subrange(0, fr0.len() + d - 1));
            d = d - 1;
        }
        let r = res?;
        match r {
            PartialResult::Success(_) => {
                let mut v: Vec<Option<DataNode>> = Vec::new();
                let mut p: usize = 0;
                while p < against.len()
                    invariant
                        p <= against@.len(),
                        out@.len() == against@.len(),
                        v@.len() == p,
                        forall|q: int| 0 <= q < p ==> #[trigger] node_view(v@[q]) == if replacements(out@).contains_key(q) {
                            replacements(out@)[q]
                        } else {
                            Some(against@[q]@)
                        },
                    decreases against.len() - p,
                {
                    match &out[p] {
                        Some(x) => {
                            let y = match x {
                                Some(n) => Some(n.copy()),
                                None => None,
                            };
                            v.push(y);
                        },
                        None => {
                            v.push(Some(against[p].copy()));
                        },
                    }
                    p = p + 1;
                }
                Ok(PartialResult::Success(v))
            },
            PartialResult::Continue => Ok(PartialResult::Continue),
            PartialResult::Failure => Ok(PartialResult::Failure),
        }
    }
}


/// A matched pattern whose guard evaluates to false makes the link fail: it
/// neither continues nor tries anything else.
pub proof fn law_guard_refusal(
    c: Checker,
    fr: Seq<Map<Seq<char>, EvalValue>>,
    g: DataGame,
    pos: Coord,
    against: Seq<DataNode>,
    live: Seq<int>,
)
    requires
        classify(c.pattern(), pieces_at(against, live)) is Success,
        guard_value(
            c.guard_expr(),
            bind_matched(
                fr.push(Map::empty()),
                c.pattern(),
                pieces_at(against, live),
                classify(c.pattern(), pieces_at(against, live))->Success_0,
                classify(c.pattern(), pieces_at(against, live))->Success_0.len(),
            ),
            g,
            pos,
        ) == Some(false),
    ensures
        chain(c, fr, g, pos, against, live).0 is Failure,
{
}

/// Chain composition: when a link's pattern matches with the assignment `a`
/// and its guard holds, its child runs on the positions the link left over,
/// under the frames that hold the link's bindings. When the child succeeds,
/// the chain succeeds with the child's replacements plus this link's result
/// for each position it matched, evaluated in the frames the child left.
pub proof fn law_chain_composition(
    c: Checker,
    fr: Seq<Map<Seq<char>, EvalValue>>,
    g: DataGame,
    pos: Coord,
    against: Seq<DataNode>,
    live: Seq<int>,
    a: Seq<int>,
    ch: Box<Checker>,
)
    requires
        classify(c.predicate, pieces_at(against, live)) == Classified::Success(a),
        guard_value(c.guard, bind_matched(fr.push(Map::empty()), c.predicate, pieces_at(against, live), a, a.len()), g, pos)
            == Some(true),
        c.child == Some(ch),
    ensures
        chain(c, fr, g, pos, against, live) == match chain(
            *ch,
            bind_matched(fr.push(Map::empty()), c.predicate, pieces_at(against, live), a, a.len()),
            g,
            pos,
            against,
            unmatched(live, a),
        ) {
            (Outcome::Success(cm), fr3) => match add_results(cm, c.result@, a, live, fr3, g, pos, a.len()) {
                Some(m) => (Outcome::Success(m), fr3),
                None => (Outcome::Error, fr3),
            },
            other => other,
        },
{
}

/// A frame that binds nothing hides nothing: a name bound by an outer link is
/// still seen inside the frame its child opens.
pub proof fn law_empty_frame_hides_nothing(fr: Seq<Map<Seq<char>, EvalValue>>, k: Seq<char>)
    ensures
        crate::scope::lookup(fr.push(Map::empty()), k) == crate::scope::lookup(fr, k),
{
    assert(fr.push(Map::<Seq<char>, EvalValue>::empty()).drop_last() =~= fr);
}

/// The outcome of the rules `cs`, tried in order on the whole selection:
/// the first error or success ends it; else `Continue` if any rule, or an
/// earlier one (`seen`), continued; else `Failure`.
pub open spec fn tree_outcome(
    cs: Seq<Checker>,
    fr: Seq<Map<Seq<char>, EvalValue>>,
    g: DataGame,
    pos: Coord,
    against: Seq<DataNode>,
    seen: bool,
) -> Outcome
    decreases cs.len(),
{
    if cs.len() == 0 {
        if seen {
            Outcome::Continue
        } else {
            Outcome::Failure
        }
    } else {
        match chain(cs[0], fr, g, pos, against, positions(against.len())).0 {
            Outcome::Error => Outcome::Error,
            Outcome::Success(m) => Outcome::Success(m),
            Outcome::Continue => tree_outcome(cs.drop_first(), fr, g, pos, against, true),
            Outcome::Failure => tree_outcome(cs.drop_first(), fr, g, pos, against, seen),
        }
    }
}

/// A rule that succeeds wins over every rule before it that only continued
/// or failed: the rule set succeeds with its replacements.
pub proof fn law_first_success_wins(
    cs: Seq<Checker>,
    fr: Seq<Map<Seq<char>, EvalValue>>,
    g: DataGame,
    pos: Coord,
    against: Seq<DataNode>,
    seen: bool,
    i: int,
)
    requires
        0 <= i < cs.len(),
        forall|j: int| 0 <= j < i ==> {
            let o = #[trigger] chain(cs[j], fr, g, pos, against, positions(against.len())).0;
            o is Continue || o is Failure
        },
        chain(cs[i], fr, g, pos, against, positions(against.len())).0 is Success,
    ensures
        tree_outcome(cs, fr, g, pos, against, seen) == chain(cs[i], fr, g, pos, against, positions(against.len())).0,
    decreases i,
{
    if i > 0 {
        let o = chain(cs[0], fr, g, pos, against, positions(against.len())).0;
        assert forall|j: int| 0 <= j < i - 1 implies {
            let o2 = #[trigger] chain(cs.drop_first()[j], fr, g, pos, against, positions(against.len())).0;
            o2 is Continue || o2 is Failure
        } by {
            assert(cs.drop_first()[j] == cs[j + 1]);
            let o3 = chain(cs[j + 1], fr, g, pos, against, positions(against.len())).0;
        }
        assert(cs.drop_first()[i - 1] == cs[i]);
        law_first_success_wins(cs.drop_first(), fr, g, pos, against, o is Continue || seen, i - 1);
    }
}

/// A rule set: alternative rules, tried in order.
pub struct ChangeTree {
    pub checkers: Vec<Checker>,
}

impl ChangeTree {
    /// The rules, in order.
    pub open spec fn rules(&self) -> Seq<Checker> {
        self.checkers@
    }

    /// Whether each rule is well formed.
    pub open spec fn wf(&self) -> bool {
        forall|i: int| 0 <= i < self.rules().len() ==> checker_wf(#[trigger] self.rules()[i])
    }

    /// A rule set of the given rules.
    pub fn new(checkers: Vec<Checker>) -> (r: ChangeTree)
        ensures
            r.rules() == checkers@,
    {
        ChangeTree { checkers }
    }

    /// Tries the rules in order on the selection `against`: the first success
    /// wins; else `Continue` if some rule continued; else `Failure`. An
    /// evaluation error ends the attempt. The scope is left as it was.
    pub fn test(&self, ctx: &mut EvalContext, against: &[DataNode]) -> (r: Result<PartialResult<Vec<Option<DataNode>>>, String>)
        requires
            self.wf(),
            old(ctx).scope.wf(),
        ensures
            final(ctx).game == old(ctx).game,
            final(ctx).pos == old(ctx).pos,
            final(ctx).scope.wf(),
            final(ctx).scope@ == old(ctx).scope@,
            match (r, tree_outcome(self.rules(), old(ctx).scope@, *old(ctx).game, old(ctx).pos, against@, false)) {
                (Err(_), Outcome::Error) => true,
                (Ok(PartialResult::Continue), Outcome::Continue) => true,
                (Ok(PartialResult::Failure), Outcome::Failure) => true,
                (Ok(PartialResult::Success(v)), Outcome::Success(m)) => v@.len() == against@.len()
                    && forall|p: int| 0 <= p < against@.len() ==> #[trigger] node_view(v@[p]) == if m.contains_key(p) {
                        m[p]
                    } else {
                        Some(against@[p]@)
                    },
                _ => false,
            },
    {
        let ghost fr = ctx.scope@;
        let ghost g = *ctx.game;
        let ghost pos = ctx.pos;
        let mut seen = false;
        let mut i: usize = 0;
        assert(self.checkers@.subrange(0, self.checkers@.len() as int) =~= self.checkers@);
        while i < self.checkers.len()
            invariant
                self.wf(),
                i <= self.checkers@.len(),
                ctx.scope.wf(),
                ctx.scope@ == fr,
                *ctx.game == g,
                ctx.game == old(ctx).game,
                ctx.pos == pos,
                fr == old(ctx).scope@,
                g == *old(ctx).game,
                pos == old(ctx).pos,
                tree_outcome(self.checkers@, fr, g, pos, against@, false)
                    == tree_outcome(self.checkers@.subrange(i as int, self.checkers@.len() as int), fr, g, pos, against@, seen),
            decreases self.checkers.len() - i,
        {
            let ghost rest = self.checkers@.subrange(i as int, self.checkers@.len() as int);
            assert(rest.drop_first() =~= self.checkers@.subrange(i as int + 1, self.checkers@.len() as int));
            assert(rest[0] == self.checkers@[i as int]);
            assert(checker_wf(self.rules()[i as int]));
            match self.checkers[i].test(ctx, against)? {
                PartialResult::Success(v) => {
                    return Ok(PartialResult::Success(v));
                },
                PartialResult::Continue => {
                    seen = true;
                },
                PartialResult::Failure => {},
            }
            i = i + 1;
        }
        if seen {
            Ok(PartialResult::Continue)
        } else {
            Ok(PartialResult::Failure)
        }
    }
}


/// The builtin predicates that an input object can name.
#[derive(Clone, Copy, Debug, PartialEq, Eq, Structural)]
pub enum PredBuiltin {
    /// Membership of a tag, with an optional binding of the candidate.
    MappingKey,
    /// Being a key of a value mapping, with optional bindings of key and value.
    Tag,
}

/// The table from identifiers to builtin predicates. A name is registered at most once.
pub struct PredicateMap {
    entries: Vec<(Identifier, PredBuiltin)>,
}

impl PredicateMap {
    /// The builtin registered under `id`.
    pub closed spec fn builtin_of(&self, id: Seq<char>) -> Option<PredBuiltin> {
        assoc(self.entries@, id)
    }

    /// An empty table.
    pub fn new() -> (r: PredicateMap)
        ensures
            forall|id: Seq<char>| r.builtin_of(id) is None,
    {
        PredicateMap { entries: Vec::new() }
    }

    /// Registers `b` under `name`, unless that name is taken; tells whether it was registered.
    pub fn insert(&mut self, name: Identifier, b: PredBuiltin) -> (r: bool)
        ensures
            r == old(self).builtin_of(name@) is None,
            final(self).builtin_of(name@) == if r { Some(b) } else { old(self).builtin_of(name@) },
            forall|id: Seq<char>| id != name@ ==> final(self).builtin_of(id) == old(self).builtin_of(id),
    {
        if self.lookup(&name).is_some() {
            return false;
        }
        self.entries.insert(0, (name, b));
        assert(self.entries@.drop_first() =~= old(self).entries@);
        true
    }

    /// The builtin registered under `id`.
    pub fn lookup(&self, id: &Identifier) -> (r: Option<PredBuiltin>)
        ensures
            r == self.builtin_of(id@),
    {
        let mut i: usize = 0;
        assert(self.entries@.subrange(0, self.entries@.len() as int) =~= self.entries@);
        while i < self.entries.len()
            invariant
                i <= self.entries@.len(),
                assoc(self.entries@, id@) == assoc(self.entries@.subrange(i as int, self.entries@.len() as int), id@),
            decreases self.entries.len() - i,
        {
            assert(self.entries@.subrange(i as int, self.entries@.len() as int).drop_first()
                =~= self.entries@.subrange(i as int + 1, self.entries@.len() as int));
            if self.entries[i].0 == *id {
                return Some(self.entries[i].1);
            }
            i = i + 1;
        }
        None
    }
}

/// Registers the builtin predicates of the `engine` namespace: `mapping-key`
/// (tag membership) and `tag` (value-mapping keys).
pub fn register(map: &mut PredicateMap)
    ensures
        final(map).builtin_of("engine:mapping-key"@) == match old(map).builtin_of("engine:mapping-key"@) {
            Some(x) => Some(x),
            None => Some(PredBuiltin::MappingKey),
        },
        final(map).builtin_of("engine:tag"@) == match old(map).builtin_of("engine:tag"@) {
            Some(x) => Some(x),
            None => Some(PredBuiltin::Tag),
        },
        forall|id: Seq<char>|
            id != "engine:mapping-key"@ && id != "engine:tag"@ ==> final(map).builtin_of(id) == old(map).builtin_of(id),
{
    proof {
        reveal_strlit("engine:mapping-key");
        reveal_strlit("engine:tag");
        reveal_with_fuel(separator_count, 30);
    }
    map.insert(crate::condition::named("engine:mapping-key"), PredBuiltin::MappingKey);
    map.insert(crate::condition::named("engine:tag"), PredBuiltin::Tag);
}

/// What a compiled predicate stands for.
pub enum PredV {
    Exact(Seq<char>),
    Tagged(Seq<Seq<char>>, Option<Seq<char>>),
    Mapped(Seq<(Seq<char>, Seq<char>)>, Option<Seq<char>>, Option<Seq<char>>),
}

/// What the slots of a pattern stand for.
pub enum SlotsV {
    Simple(Seq<Seq<char>>),
    Complex(Seq<PredV>),
}

/// What a compiled rule stands for.
pub struct RuleV {
    pub slots: SlotsV,
    pub guard: Option<ExprV>,
    pub result: Seq<ExprV>,
    pub next: Option<Box<RuleV>>,
}

/// The text of an optional name.
pub open spec fn opt_view(o: Option<String>) -> Option<Seq<char>> {
    match o {
        Some(s) => Some(s@),
        None => None,
    }
}

/// The names in the pairs `v`.
pub open spec fn pairs_view(v: Seq<(DataNode, DataNode)>) -> Seq<(Seq<char>, Seq<char>)> {
    Seq::new(v.len(), |i: int| (v[i].0@, v[i].1@))
}

/// What the predicate `p` stands for.
pub open spec fn pred_view(p: Pred) -> PredV {
    match p {
        Pred::Exact(d) => PredV::Exact(d@),
        Pred::Tagged { members, bind } => PredV::Tagged(names(members@), opt_view(bind)),
        Pred::Mapped { table, bind_key, bind_val } => PredV::Mapped(pairs_view(table@), opt_view(bind_key), opt_view(bind_val)),
    }
}

/// What the pattern `m` stands for.
pub open spec fn matcher_view(m: Matcher) -> SlotsV {
    match m {
        Matcher::Simple(v) => SlotsV::Simple(names(v@)),
        Matcher::Complex(v) => SlotsV::Complex(Seq::new(v@.len(), |i: int| pred_view(v@[i]))),
    }
}

/// What the rule `c` stands for.
pub open spec fn rule_view(c: Checker) -> RuleV
    decreases c,
{
    RuleV {
        slots: matcher_view(c.predicate),
        guard: match c.guard {
            Some(e) => Some(e@),
            None => None,
        },
        result: exprs_view(c.result),
        next: match c.child {
            Some(ch) => Some(Box::new(rule_view(*ch))),
            None => None,
        },
    }
}

/// The number of links of a rule.
pub open spec fn rule_links(r: RuleV) -> nat
    decreases r,
{
    1 + match r.next {
        Some(n) => rule_links(*n),
        None => 0,
    }
}

/// The number of slots of a pattern.
pub open spec fn slots_len(s: SlotsV) -> nat {
    match s {
        SlotsV::Simple(v) => v.len(),
        SlotsV::Complex(v) => v.len(),
    }
}

/// The piece type that the literal `s` names in `g`, if it is registered.
pub open spec fn literal_node(s: Seq<char>, g: DataGame) -> Option<Seq<char>> {
    if separator_count(s) <= 1 && g.node_of(qualified(s, g.spec_id())) is Some {
        Some(qualified(s, g.spec_id()))
    } else {
        None
    }
}

/// What an optional binding field compiles to: absent is no binding, a string is one.
pub open spec fn compile_bind(f: Option<JsonV>) -> Option<Option<Seq<char>>> {
    match f {
        None => Some(None),
        Some(JsonV::Str(b)) => Some(Some(b)),
        _ => None,
    }
}

/// What a predicate object compiles to.
pub open spec fn compile_pred(fields: Seq<(Seq<char>, JsonV)>, g: DataGame, pt: PredicateMap) -> Option<PredV> {
    match field(fields, "type"@) {
        Some(JsonV::Str(ts)) => if separator_count(ts) <= 1 {
            match pt.builtin_of(qualified(ts, g.spec_id())) {
                Some(PredBuiltin::MappingKey) => match field(fields, "tag"@) {
                    Some(JsonV::Str(t)) => match g.tag_of(t) {
                        Some(ms) => match compile_bind(field(fields, "bind"@)) {
                            Some(b) => Some(PredV::Tagged(names(ms@), b)),
                            None => None,
                        },
                        None => None,
                    },
                    _ => None,
                },
                Some(PredBuiltin::Tag) => match field(fields, "mapping"@) {
                    Some(JsonV::Str(mn)) => match g.mapping_of(mn) {
                        Some(tb) => match (compile_bind(field(fields, "bind-key"@)), compile_bind(field(fields, "bind-val"@))) {
                            (Some(bk), Some(bv)) => Some(PredV::Mapped(pairs_view(tb@), bk, bv)),
                            _ => None,
                        },
                        None => None,
                    },
                    _ => None,
                },
                None => None,
            }
        } else {
            None
        },
        _ => None,
    }
}

/// What one element of an `input` array compiles to: a literal piece name or
/// a predicate object.
pub open spec fn compile_item(item: JsonV, g: DataGame, pt: PredicateMap) -> Option<PredV> {
    match item {
        JsonV::Str(s) => match literal_node(s, g) {
            Some(n) => Some(PredV::Exact(n)),
            None => None,
        },
        JsonV::Obj(fields) => compile_pred(fields, g, pt),
        _ => None,
    }
}

/// What the elements of an `input` array compile to, left to right.
pub open spec fn compile_items(items: Seq<JsonV>, g: DataGame, pt: PredicateMap) -> Option<Seq<PredV>>
    decreases items.len(),
{
    if items.len() == 0 {
        Some(Seq::empty())
    } else {
        match (compile_item(items[0], g, pt), compile_items(items.drop_first(), g, pt)) {
            (Some(p), Some(ps)) => Some(seq![p] + ps),
            _ => None,
        }
    }
}

/// The slots that an `input` array compiles to, in the array's order: piece
/// names when every element is a literal, else a list of predicates.
pub open spec fn compile_slots(items: Seq<JsonV>, g: DataGame, pt: PredicateMap) -> Option<SlotsV> {
    match compile_items(items, g, pt) {
        Some(ps) => if forall|i: int| 0 <= i < items.len() ==> #[trigger] items[i] is Str {
            Some(SlotsV::Simple(Seq::new(ps.len(), |i: int| ps[i]->Exact_0)))
        } else {
            Some(SlotsV::Complex(ps))
        },
        None => None,
    }
}

/// The slots named `ns`, each with its position in the input, in the order
/// of slots: by name, and slots of one name in input order.
pub open spec fn slot_order(ns: Seq<Seq<char>>) -> Seq<(Seq<char>, int)> {
    Seq::new(ns.len(), |i: int| (ns[i], i)).sort_by(|a: (Seq<char>, int), b: (Seq<char>, int)| key_le(a, b))
}

/// The canonical form of the slots `s`: a fixed multiset is sorted by name; a
/// list of predicates keeps its order.
pub open spec fn canonical_slots(s: SlotsV) -> SlotsV {
    match s {
        SlotsV::Simple(ns) => SlotsV::Simple(slot_order(ns).map_values(|e: (Seq<char>, int)| e.0)),
        SlotsV::Complex(ps) => SlotsV::Complex(ps),
    }
}

/// For each slot of `canonical_slots(s)`, the input position it came from.
pub open spec fn slot_source(s: SlotsV) -> Seq<int> {
    match s {
        SlotsV::Simple(ns) => slot_order(ns).map_values(|e: (Seq<char>, int)| e.1),
        SlotsV::Complex(ps) => Seq::new(ps.len(), |i: int| i),
    }
}

/// What an `input` array compiles to: a fixed multiset, sorted by name, when
/// every element is a literal, else a list of predicates in input order.
pub open spec fn compile_inputs(items: Seq<JsonV>, g: DataGame, pt: PredicateMap) -> Option<SlotsV> {
    match compile_slots(items, g, pt) {
        Some(raw) => Some(canonical_slots(raw)),
        None => None,
    }
}

/// `res` (one per input position) moved with the slots: slot `k` takes the
/// expression of the input position it came from.
pub open spec fn move_results(res: Seq<ExprV>, source: Seq<int>) -> Seq<ExprV> {
    Seq::new(source.len(), |k: int| res[source[k]])
}

/// What the `result` field compiles to for `n` slots: absent or null clears
/// each slot; an array must have one expression per slot.
pub open spec fn compile_result(f: Option<JsonV>, n: nat, g: DataGame, ct: crate::condition::ConditionMap) -> Option<Seq<ExprV>> {
    match f {
        None => Some(Seq::new(n, |i: int| ExprV::Const(Val::Node(None)))),
        Some(JsonV::Null) => Some(Seq::new(n, |i: int| ExprV::Const(Val::Node(None)))),
        Some(JsonV::Arr(items)) => if items.len() == n {
            compile_all(items, g, ct)
        } else {
            None
        },
        _ => None,
    }
}

/// What the `guard` field compiles to: absent or null is no guard.
pub open spec fn compile_guard(f: Option<JsonV>, g: DataGame, ct: crate::condition::ConditionMap) -> Option<Option<ExprV>> {
    match f {
        None => Some(None),
        Some(JsonV::Null) => Some(None),
        Some(j) => match compile(j, g, ct) {
            Some(e) => Some(Some(e)),
            None => None,
        },
    }
}

#[via_fn]
proof fn compile_rule_decreases(j: JsonV, eg: DataGame, ct: crate::condition::ConditionMap, g: DataGame, pt: PredicateMap) {
    match j {
        JsonV::Obj(fields) => {
            lemma_field_decreases(fields, "next"@);
        },
        _ => {},
    }
}

/// What a rule object compiles to: literal pieces are resolved in `g` and
/// predicate objects through `pt`; the guard and result expressions are
/// compiled with the piece types of `eg` and the builtins of `ct`.
pub open spec fn compile_rule(j: JsonV, eg: DataGame, ct: crate::condition::ConditionMap, g: DataGame, pt: PredicateMap) -> Option<RuleV>
    decreases j,
    via compile_rule_decreases
{
    match j {
        JsonV::Obj(fields) => match field(fields, "input"@) {
            Some(JsonV::Arr(items)) => match compile_slots(items, g, pt) {
                Some(raw) => match compile_result(field(fields, "result"@), slots_len(raw), eg, ct) {
                    Some(res0) => match compile_guard(field(fields, "guard"@), eg, ct) {
                        Some(gd) => {
                        let slots = canonical_slots(raw);
                        let res = move_results(res0, slot_source(raw));
                        match field(fields, "next"@) {
                            None => Some(RuleV { slots, guard: gd, result: res, next: None }),
                            Some(JsonV::Null) => Some(RuleV { slots, guard: gd, result: res, next: None }),
                            Some(nj) => match compile_rule(nj, eg, ct, g, pt) {
                                Some(nr) => if rule_links(nr) < usize::MAX {
                                    Some(RuleV { slots, guard: gd, result: res, next: Some(Box::new(nr)) })
                                } else {
                                    None
                                },
                                None => None,
                            },
                        }
                        },
                        None => None,
                    },
                    None => None,
                },
                None => None,
            },
            _ => None,
        },
        _ => None,
    }
}

/// The stored count of links is the count of links of what the rule stands for.
pub proof fn lemma_links(c: Checker)
    requires
        checker_wf(c),
    ensures
        c.links() == rule_links(rule_view(c)),
    decreases c,
{
    match c.child {
        Some(ch) => lemma_links(*ch),
        None => {},
    }
}


/// The slots of a pattern, each with its input position, in slot order.
pub open spec fn work_keys(w: Seq<(DataNode, usize, Expr)>) -> Seq<(Seq<char>, int)> {
    Seq::new(w.len(), |k: int| (w[k].0@, w[k].1 as int))
}

/// Whether the piece `a` comes strictly before the piece `b` by name.
fn name_lt(a: &DataNode, b: &DataNode) -> (r: bool)
    ensures
        r == (name_le(a@, b@) && a@ != b@),
{
    names_le(a.name().as_str(), b.name().as_str()) && !(*a == *b)
}

/// Sorts a fixed multiset by name, keeping slots of one name in input order,
/// and moves each slot's result expression with it.
fn sort_slots(ns: Vec<DataNode>, rs: Vec<Expr>) -> (r: (Vec<DataNode>, Vec<Expr>))
    requires
        ns@.len() == rs@.len(),
    ensures
        r.0@.len() == ns@.len(),
        r.1@.len() == ns@.len(),
        names(r.0@) == slot_order(names(ns@)).map_values(|e: (Seq<char>, int)| e.0),
        exprs_view(r.1) == move_results(exprs_view(rs), slot_order(names(ns@)).map_values(|e: (Seq<char>, int)| e.1)),
{
    let n = ns.len();
    let ghost kle = |a: (Seq<char>, int), b: (Seq<char>, int)| key_le(a, b);
    let ghost keys_in = Seq::new(n as nat, |i: int| (names(ns@)[i], i));
    let ghost ev = exprs_view(rs);
    proof {
        lemma_key_le_total_ordering();
        lemma_exprs_view(rs);
    }
    let mut rest = rs;
    let mut w: Vec<(DataNode, usize, Expr)> = Vec::new();
    let mut i: usize = 0;
    assert(keys_in.subrange(0, 0) =~= Seq::<(Seq<char>, int)>::empty());
    assert(work_keys(w@) =~= Seq::<(Seq<char>, int)>::empty());
    while i < n
        invariant
            n == ns@.len(),
            keys_in == Seq::new(n as nat, |q: int| (names(ns@)[q], q)),
            ev.len() == n,
            vstd::relations::total_ordering(kle),
            kle == (|a: (Seq<char>, int), b: (Seq<char>, int)| key_le(a, b)),
            i <= n,
            rest@.len() == n - i,
            forall|k: int| 0 <= k < rest@.len() ==> (#[trigger] rest@[k])@ == ev[i + k],
            w@.len() == i,
            forall|k: int| 0 <= k < w@.len() ==> (#[trigger] w@[k]).1 < i && w@[k].2@ == ev[w@[k].1 as int],
            vstd::relations::sorted_by(work_keys(w@), kle),
            work_keys(w@).to_multiset() == keys_in.subrange(0, i as int).to_multiset(),
        decreases n - i,
    {
        let e = rest.remove(0);
        let node = ns[i].copy();
        let mut pos: usize = 0;
        while pos < w.len() && !name_lt(&node, &w[pos].0)
            invariant
                pos <= w@.len(),
                forall|k: int| 0 <= k < pos ==> !(name_le(node@, (#[trigger] w@[k]).0@) && node@ != w@[k].0@),
            decreases w.len() - pos,
        {
            pos = pos + 1;
        }
        let ghost x = (node@, i as int);
        let ghost old_keys = work_keys(w@);
        proof {
            assert(node@ == names(ns@)[i as int]);
            assert forall|k: int| 0 <= k < pos implies key_le(#[trigger] old_keys[k], x) by {
                lemma_name_le_total(node@, w@[k].0@);
            }
            if pos < w@.len() {
                assert forall|k: int| pos <= k < old_keys.len() implies key_le(x, #[trigger] old_keys[k]) by {
                    if k > pos {
                        assert(kle(old_keys[pos as int], old_keys[k]));
                        assert(kle(x, old_keys[pos as int]));
                    }
                }
            }
        }
        w.insert(pos, (node, i, e));
        proof {
            let nk = work_keys(w@);
            assert(nk =~= old_keys.insert(pos as int, x));
            assert(vstd::relations::sorted_by(nk, kle)) by {
                assert forall|a: int, b: int| 0 <= a < b < nk.len() implies #[trigger] kle(nk[a], nk[b]) by {
                    if a < pos && b > pos {
                        assert(kle(old_keys[a], x));
                        assert(kle(x, old_keys[b - 1]));
                    } else if a < pos && b < pos {
                    } else if a > pos {
                        assert(kle(old_keys[a - 1], old_keys[b - 1]));
                    }
                }
            }
            broadcast use vstd::seq_lib::group_to_multiset_ensures;
            vstd::seq_lib::to_multiset_insert(old_keys, pos as int, x);
            assert(keys_in.subrange(0, i as int + 1) =~= keys_in.subrange(0, i as int).push(x));
        }
        i = i + 1;
    }
    proof {
        assert(keys_in.subrange(0, n as int) =~= keys_in);
        keys_in.lemma_sort_by_ensures(kle);
        vstd::seq_lib::lemma_sorted_unique(work_keys(w@), keys_in.sort_by(kle), kle);
        assert(names(ns@) == names(ns@));
        assert(keys_in == Seq::new(names(ns@).len(), |q: int| (names(ns@)[q], q)));
    }
    let ghost sorted = work_keys(w@);
    assert(sorted == slot_order(names(ns@)));
    let ghost w0 = w@;
    let mut out_n: Vec<DataNode> = Vec::new();
    let mut out_r: Vec<Expr> = Vec::new();
    let mut k: usize = 0;
    while k < n
        invariant
            n == w0.len(),
            sorted == work_keys(w0),
            ev.len() == n,
            forall|q: int| 0 <= q < w0.len() ==> (#[trigger] w0[q]).1 < n && w0[q].2@ == ev[w0[q].1 as int],
            k <= n,
            w@ == w0.subrange(k as int, n as int),
            out_n@.len() == k,
            out_r@.len() == k,
            forall|q: int| 0 <= q < k ==> (#[trigger] out_n@[q])@ == w0[q].0@ && out_r@[q]@ == w0[q].2@,
        decreases n - k,
    {
        let (a, _, b) = w.remove(0);
        out_n.push(a);
        out_r.push(b);
        assert(w@ =~= w0.subrange(k as int + 1, n as int));
        k = k + 1;
    }
    proof {
        lemma_exprs_view(out_r);
        assert(names(out_n@) =~= sorted.map_values(|e: (Seq<char>, int)| e.0));
        let src = sorted.map_values(|e: (Seq<char>, int)| e.1);
        assert forall|q: int| 0 <= q < n implies #[trigger] exprs_view(out_r)[q] == move_results(ev, src)[q] by {
            assert(out_n@[q]@ == w0[q].0@);
            assert(w0[q].2@ == ev[w0[q].1 as int]);
            assert(exprs_view(out_r)[q] == out_r@[q]@);
            assert(src[q] == w0[q].1 as int);
        }
        assert(exprs_view(out_r) =~= move_results(ev, src));
    }
    (out_n, out_r)
}

/// A pattern in canonical form, with its result expressions moved along.
fn canonicalize(m: Matcher, rs: Vec<Expr>) -> (r: (Matcher, Vec<Expr>))
    requires
        rs@.len() == slot_count(m),
    ensures
        matcher_view(r.0) == canonical_slots(matcher_view(m)),
        exprs_view(r.1) == move_results(exprs_view(rs), slot_source(matcher_view(m))),
        r.1@.len() == slot_count(r.0),
{
    proof {
        lemma_exprs_view(rs);
    }
    match m {
        Matcher::Simple(ns) => {
            let (ns2, rs2) = sort_slots(ns, rs);
            proof {
                lemma_exprs_view(rs2);
            }
            (Matcher::Simple(ns2), rs2)
        },
        Matcher::Complex(ps) => {
            assert(exprs_view(rs) =~= move_results(exprs_view(rs), Seq::new(ps@.len(), |i: int| i)));
            (Matcher::Complex(ps), rs)
        },
    }
}

/// Mapping two sequences with the same elements gives sequences with the
/// same elements.
pub proof fn lemma_map_multiset<A, B>(a: Seq<A>, b: Seq<A>, f: spec_fn(A) -> B)
    requires
        a.to_multiset() == b.to_multiset(),
    ensures
        a.map_values(f).to_multiset() == b.map_values(f).to_multiset(),
    decreases a.len(),
{
    broadcast use vstd::seq_lib::group_to_multiset_ensures;

    if a.len() == 0 {
        assert(a.to_multiset().len() == a.len());
        assert(b.to_multiset().len() == b.len());
        assert(b.len() == 0);
        assert(a.map_values(f) =~= b.map_values(f));
    } else {
        let x = a.last();
        let a1 = a.drop_last();
        assert(a1.push(x) =~= a);
        assert(b.to_multiset().count(x) > 0);
        assert(b.contains(x));
        let j = choose|j: int| 0 <= j < b.len() && b[j] == x;
        let b1 = b.remove(j);
        assert(a1.to_multiset() =~= b1.to_multiset());
        lemma_map_multiset(a1, b1, f);
        assert(a.map_values(f) =~= a1.map_values(f).push(f(x)));
        assert(b.map_values(f).remove(j) =~= b1.map_values(f));
        assert(b.map_values(f)[j] == f(x));
    }
}

/// Order of the literals does not matter: two `input` arrays of literals with
/// the same piece names, in any order, compile to the same fixed multiset,
/// and that multiset lists the names in order.
pub proof fn law_literal_order(a: Seq<Seq<char>>, b: Seq<Seq<char>>)
    requires
        a.to_multiset() == b.to_multiset(),
    ensures
        canonical_slots(SlotsV::Simple(a)) == canonical_slots(SlotsV::Simple(b)),
        canonical_slots(SlotsV::Simple(a)) matches SlotsV::Simple(ns) && vstd::relations::sorted_by(
            ns,
            |x: Seq<char>, y: Seq<char>| name_le(x, y),
        ),
{
    let kle = |p: (Seq<char>, int), q: (Seq<char>, int)| key_le(p, q);
    let nle = |x: Seq<char>, y: Seq<char>| name_le(x, y);
    let fst = |e: (Seq<char>, int)| e.0;
    lemma_key_le_total_ordering();
    assert(vstd::relations::total_ordering(nle)) by {
        assert forall|x: Seq<char>| #[trigger] nle(x, x) by {
            crate::order::lemma_name_le_refl(x);
        }
        assert forall|x: Seq<char>, y: Seq<char>| #[trigger] nle(x, y) && #[trigger] nle(y, x) implies x == y by {
            crate::order::lemma_name_le_antisym(x, y);
        }
        assert forall|x: Seq<char>, y: Seq<char>, z: Seq<char>| #[trigger] nle(x, y) && #[trigger] nle(y, z) implies nle(x, z) by {
            crate::order::lemma_name_le_trans(x, y, z);
        }
        assert forall|x: Seq<char>, y: Seq<char>| #[trigger] nle(x, y) || #[trigger] nle(y, x) by {
            lemma_name_le_total(x, y);
        }
    }
    let ka = Seq::new(a.len(), |i: int| (a[i], i));
    let kb = Seq::new(b.len(), |i: int| (b[i], i));
    ka.lemma_sort_by_ensures(kle);
    kb.lemma_sort_by_ensures(kle);
    let sa = ka.sort_by(kle);
    let sb = kb.sort_by(kle);
    lemma_map_multiset(sa, ka, fst);
    lemma_map_multiset(sb, kb, fst);
    assert(ka.map_values(fst) =~= a);
    assert(kb.map_values(fst) =~= b);
    let na = sa.map_values(fst);
    let nb = sb.map_values(fst);
    assert forall|i: int, j: int| 0 <= i < j < na.len() implies #[trigger] nle(na[i], na[j]) by {
        assert(kle(sa[i], sa[j]));
        if sa[i].0 == sa[j].0 {
            crate::order::lemma_name_le_refl(sa[i].0);
        }
    }
    assert forall|i: int, j: int| 0 <= i < j < nb.len() implies #[trigger] nle(nb[i], nb[j]) by {
        assert(kle(sb[i], sb[j]));
        if sb[i].0 == sb[j].0 {
            crate::order::lemma_name_le_refl(sb[i].0);
        }
    }
    vstd::seq_lib::lemma_sorted_unique(na, nb, nle);
}

/// Compiles rule objects into checkers.
pub struct ChangeParser<'a> {
    pub game: &'a DataGame,
    pub cond_parser: &'a ConditionParser<'a>,
    pub functions: &'a PredicateMap,
}

/// A string field of an object: `None` when absent, an error when not a string.
fn bind_field(map: &Json, key: &str) -> (r: Result<Option<String>, String>)
    ensures
        match r {
            Ok(b) => compile_bind(get_field(map@, key@)) == Some(opt_view(b)),
            Err(_) => compile_bind(get_field(map@, key@)) is None,
        },
{
    match map.get(key) {
        None => Ok(None),
        Some(v) => match v.as_str() {
            Some(b) => Ok(Some(String::from_str(b))),
            None => {
                let mut msg = String::from_str("Binding ");
                msg.append(key);
                msg.append(" must be a string!");
                Err(msg)
            },
        },
    }
}

impl<'a> ChangeParser<'a> {
    /// A rule compiler over the given game, expression compiler and predicate table.
    pub fn new(game: &'a DataGame, cond_parser: &'a ConditionParser<'a>, functions: &'a PredicateMap) -> (r: ChangeParser<'a>)
        ensures
            *r.game == *game,
            *r.cond_parser == *cond_parser,
            *r.functions == *functions,
    {
        ChangeParser { game, cond_parser, functions }
    }

    /// The rule this compiler reads `j` as.
    pub open spec fn spec_compile(&self, j: JsonV) -> Option<RuleV> {
        compile_rule(j, *self.cond_parser.game, *self.cond_parser.functions, *self.game, *self.functions)
    }

    /// Compiles a rule object: its `input` pattern, optional `guard`, `result`
    /// expressions (one per input; absent or null clears every slot) and
    /// optional `next` link. A pattern of literals is sorted by name, and each
    /// result expression moves with the input it belongs to.
    pub fn parse(&self, value: &Json) -> (r: Result<Checker, String>)
        ensures
            match r {
                Ok(c) => checker_wf(c) && self.spec_compile(value@) == Some(rule_view(c)),
                Err(_) => self.spec_compile(value@) is None,
            },
        decreases value,
    {
        proof {
            lemma_json_view(*value);
        }
        if !matches!(value, Json::Object(_)) {
            return Err(String::from_str("All changes must be objects!"));
        }
        let inputs = match value.get("input") {
            Some(v) => match v.as_array() {
                Some(a) => {
                    proof {
                        lemma_json_view(*v);
                        assert(v@->Arr_0 =~= jsons_view(a@));
                    }
                    a
                },
                None => {
                    return Err(String::from_str("Input to a change must be an array!"));
                },
            },
            None => {
                return Err(String::from_str("Input to a change must be an array!"));
            },
        };
        let raw = self.parse_inputs(inputs)?;
        let n = raw.len();
        let raw_result = self.parse_result(value, n)?;
        let (predicate, result) = canonicalize(raw, raw_result);
        let guard = match value.get("guard") {
            None => None,
            Some(g) => if g.is_null() {
                None
            } else {
                Some(self.cond_parser.parse(g)?)
            },
        };
        let child = match value.get("next") {
            None => None,
            Some(nx) => if nx.is_null() {
                None
            } else {
                let c = self.parse(nx)?;
                proof {
                    lemma_links(c);
                }
                if c.links == usize::MAX {
                    return Err(String::from_str("Rule chain is too long!"));
                }
                Some(Box::new(c))
            },
        };
        let links = match &child {
            Some(c) => c.links + 1,
            None => 1,
        };
        let r = Checker { predicate, guard, result, child, links };
        proof {
            if r.child is Some {
                lemma_links(*r.child->Some_0);
            }
        }
        Ok(r)
    }

    /// Compiles the `result` field for `expect_len` slots.
    fn parse_result(&self, map: &Json, expect_len: usize) -> (r: Result<Vec<Expr>, String>)
        ensures
            match r {
                Ok(es) => es@.len() == expect_len && compile_result(get_field(map@, "result"@), expect_len as nat,
                    *self.cond_parser.game, *self.cond_parser.functions) == Some(exprs_view(es)),
                Err(_) => compile_result(get_field(map@, "result"@), expect_len as nat,
                    *self.cond_parser.game, *self.cond_parser.functions) is None,
            },
    {
        let result = map.get("result");
        let is_default = match result {
            None => true,
            Some(v) => v.is_null(),
        };
        if is_default {
            let mut out: Vec<Expr> = Vec::new();
            let mut i: usize = 0;
            while i < expect_len
                invariant
                    i <= expect_len,
                    out@.len() == i,
                    forall|k: int| 0 <= k < i ==> (#[trigger] out@[k])@ == ExprV::Const(Val::Node(None)),
                decreases expect_len - i,
            {
                out.push(Expr::Const(EvalValue::Node(None)));
                i = i + 1;
            }
            proof {
                lemma_exprs_view(out);
                assert(exprs_view(out) =~= Seq::new(expect_len as nat, |i: int| ExprV::Const(Val::Node(None))));
            }
            return Ok(out);
        }
        let v = result.unwrap();
        let outputs = match v.as_array() {
            Some(a) => a,
            None => {
                return Err(String::from_str("Outputs to a change must be an array!"));
            },
        };
        proof {
            lemma_json_view(*v);
            assert(v@->Arr_0 =~= jsons_view(outputs@));
        }
        if outputs.len() != expect_len {
            return Err(String::from_str("Expected one output for each input!"));
        }
        let es = self.cond_parser.parse_list(outputs)?;
        proof {
            lemma_exprs_view(es);
            crate::condition::lemma_compile_all_len(jsons_view(outputs@), *self.cond_parser.game, *self.cond_parser.functions);
        }
        Ok(es)
    }

    /// Compiles an `input` array, in the array's order: piece types when every
    /// element is a literal piece name, else a list of predicates in which
    /// literals test for that exact piece type.
    fn parse_inputs(&self, inputs: &Vec<Json>) -> (r: Result<Matcher, String>)
        ensures
            match r {
                Ok(m) => compile_slots(jsons_view(inputs@), *self.game, *self.functions) == Some(matcher_view(m)),
                Err(_) => compile_slots(jsons_view(inputs@), *self.game, *self.functions) is None,
            },
    {
        let ghost jv = jsons_view(inputs@);
        let mut preds: Vec<Pred> = Vec::new();
        let mut all_literal = true;
        let mut i: usize = 0;
        assert(jv.subrange(0, jv.len() as int) =~= jv);
        while i < inputs.len()
            invariant
                jv == jsons_view(inputs@),
                i <= inputs.len(),
                preds@.len() == i,
                all_literal == forall|k: int| 0 <= k < i ==> #[trigger] jv[k] is Str,
                forall|k: int| 0 <= k < i ==> #[trigger] jv[k] is Str ==> preds@[k] is Exact,
                compile_items(jv, *self.game, *self.functions) == match compile_items(
                    jv.subrange(i as int, jv.len() as int),
                    *self.game,
                    *self.functions,
                ) {
                    Some(rest) => Some(Seq::new(i as nat, |k: int| pred_view(preds@[k])) + rest),
                    None => None,
                },
            decreases inputs.len() - i,
        {
            let ghost sub = jv.subrange(i as int, jv.len() as int);
            assert(sub.drop_first() =~= jv.subrange(i as int + 1, jv.len() as int));
            assert(sub[0] == inputs@[i as int]@);
            let p = self.parse_item(&inputs[i])?;
            if !matches!(inputs[i], Json::String(_)) {
                all_literal = false;
            }
            let ghost before = Seq::new(i as nat, |k: int| pred_view(preds@[k]));
            preds.push(p);
            proof {
                let after = Seq::new((i + 1) as nat, |k: int| pred_view(preds@[k]));
                assert(after =~= before + seq![pred_view(p)]);
                match compile_items(jv.subrange(i as int + 1, jv.len() as int), *self.game, *self.functions) {
                    Some(r) => {
                        assert(before + (seq![pred_view(p)] + r) =~= after + r);
                    },
                    None => {},
                }
            }
            i = i + 1;
        }
        proof {
            assert(jv.subrange(i as int, jv.len() as int) =~= Seq::<JsonV>::empty());
            let pv = Seq::new(i as nat, |k: int| pred_view(preds@[k]));
            assert(pv + Seq::<PredV>::empty() =~= pv);
        }
        if all_literal {
            assert forall|q: int| 0 <= q < preds@.len() implies #[trigger] preds@[q] is Exact by {
                assert(jv[q] is Str);
            }
            let mut nodes: Vec<DataNode> = Vec::new();
            let mut k: usize = 0;
            while k < preds.len()
                invariant
                    k <= preds@.len(),
                    nodes@.len() == k,
                    forall|q: int| 0 <= q < preds@.len() ==> #[trigger] preds@[q] is Exact,
                    forall|q: int| 0 <= q < k ==> (#[trigger] nodes@[q])@ == preds@[q]->Exact_0@,
                decreases preds.len() - k,
            {
                match &preds[k] {
                    Pred::Exact(d) => {
                        nodes.push(d.copy());
                    },
                    _ => {},
                }
                k = k + 1;
            }
            assert(names(nodes@) =~= Seq::new(preds@.len(), |q: int| Seq::new(i as nat, |k: int| pred_view(preds@[k]))[q]->Exact_0));
            Ok(Matcher::Simple(nodes))
        } else {
            assert(Seq::new(preds@.len(), |q: int| pred_view(preds@[q])) =~= Seq::new(i as nat, |k: int| pred_view(preds@[k])));
            Ok(Matcher::Complex(preds))
        }
    }

    /// Compiles one element of an `input` array.
    fn parse_item(&self, value: &Json) -> (r: Result<Pred, String>)
        ensures
            match r {
                Ok(p) => compile_item(value@, *self.game, *self.functions) == Some(pred_view(p))
                    && (value@ is Str ==> p is Exact),
                Err(_) => compile_item(value@, *self.game, *self.functions) is None,
            },
    {
        match self.parse_literal(value)? {
            Some(node) => Ok(Pred::Exact(node)),
            None => self.parse_predicate(value),
        }
    }

    /// The piece type that a string element names; `None` for another kind of element.
    fn parse_literal(&self, value: &Json) -> (r: Result<Option<DataNode>, String>)
        ensures
            match r {
                Ok(Some(n)) => value@ matches JsonV::Str(s) && literal_node(s, *self.game) == Some(n@),
                Ok(None) => !(value@ is Str),
                Err(_) => value@ matches JsonV::Str(s) && literal_node(s, *self.game) is None,
            },
    {
        match value.as_str() {
            Some(val) => {
                let id = Identifier::parse(val, self.game.id())?;
                match self.game.lookup_node(&id) {
                    Some(node) => Ok(Some(node)),
                    None => {
                        let mut msg = String::from_str("Unknown node type ");
                        msg.append(id.as_str());
                        Err(msg)
                    },
                }
            },
            None => Ok(None),
        }
    }

    /// Compiles a predicate object through the builtin that its `type` names.
    fn parse_predicate(&self, value: &Json) -> (r: Result<Pred, String>)
        requires
            !(value@ is Str),
        ensures
            match r {
                Ok(p) => compile_item(value@, *self.game, *self.functions) == Some(pred_view(p)),
                Err(_) => compile_item(value@, *self.game, *self.functions) is None,
            },
    {
        proof {
            lemma_json_view(*value);
        }
        if !matches!(value, Json::Object(_)) {
            return Err(String::from_str("Mapping input must be map or string!"));
        }
        let type_val = match value.get("type") {
            Some(t) => t,
            None => {
                return Err(String::from_str("Missing type in Mapping JSON object"));
            },
        };
        let type_str = match type_val.as_str() {
            Some(s) => s,
            None => {
                return Err(String::from_str("Type of JSON object isn't a string"));
            },
        };
        let type_id = Identifier::parse(type_str, self.game.id())?;
        let b = match self.functions.lookup(&type_id) {
            Some(b) => b,
            None => {
                let mut msg = String::from_str("No such function with identifier ");
                msg.append(type_id.as_str());
                return Err(msg);
            },
        };
        match b {
            PredBuiltin::MappingKey => {
                let tag = match value.get("tag") {
                    Some(t) => match t.as_str() {
                        Some(s) => s,
                        None => {
                            return Err(String::from_str("Tag key needs to be a string!"));
                        },
                    },
                    None => {
                        return Err(String::from_str("Tag key needs to be a string!"));
                    },
                };
                let members = match self.game.lookup_tag(tag) {
                    Some(m) => m,
                    None => {
                        let mut msg = String::from_str("Tag ");
                        msg.append(tag);
                        msg.append(" doesn't exist!");
                        return Err(msg);
                    },
                };
                let bind = bind_field(value, "bind")?;
                Ok(Pred::Tagged { members, bind })
            },
            PredBuiltin::Tag => {
                let mapping = match value.get("mapping") {
                    Some(t) => match t.as_str() {
                        Some(s) => s,
                        None => {
                            return Err(String::from_str("Mapping key needs to be a string!"));
                        },
                    },
                    None => {
                        return Err(String::from_str("Mapping key needs to be a string!"));
                    },
                };
                let table = match self.game.lookup_mapping(mapping) {
                    Some(t) => t,
                    None => {
                        let mut msg = String::from_str("Mapping ");
                        msg.append(mapping);
                        msg.append(" doesn't exist!");
                        return Err(msg);
                    },
                };
                let bind_key = bind_field(value, "bind-key")?;
                let bind_val = bind_field(value, "bind-val")?;
                Ok(Pred::Mapped { table, bind_key, bind_val })
            },
        }
    }
}

} // verus!
