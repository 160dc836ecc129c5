use vstd::prelude::*;
use crate::data::{DataNode, assoc};
use crate::evaluation::EvalValue;
use crate::nodes::PartialResult;
use crate::scope::Scope;

verus! {
/// A compiled predicate on a candidate piece.
#[derive(Debug)]
pub enum Pred {
    /// The candidate is this piece type.
    Exact(DataNode),
    /// The candidate is a member of a tag; on a match it may be bound to a name.
    Tagged { members: Vec<DataNode>, bind: Option<String> },
    /// The candidate is a key of a value mapping; on a match the key and the
    /// value it maps to may be bound to names.
    Mapped { table: Vec<(DataNode, DataNode)>, bind_key: Option<String>, bind_val: Option<String> },
}

/// Whether a piece named `n` is among `members`.
pub open spec fn is_member(members: Seq<DataNode>, n: Seq<char>) -> bool {
    exists|k: int| 0 <= k < members.len() && (#[trigger] members[k])@ == n
}

/// Whether the predicate `p` accepts a candidate named `n`.
pub open spec fn pred_accepts(p: Pred, n: Seq<char>) -> bool {
    match p {
        Pred::Exact(d) => d@ == n,
        Pred::Tagged { members, .. } => is_member(members@, n),
        Pred::Mapped { table, .. } => assoc(table@, n) is Some,
    }
}

/// A binding of `name`, if there is one, to the piece `n`.
pub open spec fn bind_to(name: Option<String>, n: DataNode) -> Seq<(Seq<char>, EvalValue)> {
    match name {
        Some(b) => seq![(b@, EvalValue::Node(Some(n)))],
        None => Seq::empty(),
    }
}

/// The bindings that `p` makes when it accepts the candidate `n`.
pub open spec fn pred_binds(p: Pred, n: DataNode) -> Seq<(Seq<char>, EvalValue)> {
    match p {
        Pred::Exact(_) => Seq::empty(),
        Pred::Tagged { bind, .. } => bind_to(bind, n),
        Pred::Mapped { table, bind_key, bind_val } => bind_to(bind_key, n) + match assoc(table@, n@) {
            Some(v) => bind_to(bind_val, v),
            None => Seq::empty(),
        },
    }
}

/// The frames `fr` with `k` bound to `v` in the innermost one.
pub open spec fn add_binding(fr: Seq<Map<Seq<char>, EvalValue>>, k: Seq<char>, v: EvalValue) -> Seq<Map<Seq<char>, EvalValue>> {
    fr.update(fr.len() - 1, fr.last().insert(k, v))
}

/// The frames `fr` with the bindings `bs` made in order in the innermost one.
pub open spec fn add_bindings(fr: Seq<Map<Seq<char>, EvalValue>>, bs: Seq<(Seq<char>, EvalValue)>) -> Seq<Map<Seq<char>, EvalValue>>
    decreases bs.len(),
{
    if bs.len() == 0 {
        fr
    } else {
        add_binding(add_bindings(fr, bs.drop_last()), bs.last().0, bs.last().1)
    }
}

/// The pattern of one link of a rule.
#[derive(Debug)]
pub enum Matcher {
    /// A fixed multiset of piece types; a compiled rule lists them sorted by name.
    Simple(Vec<DataNode>),
    /// A list of predicates, each to be met by a distinct candidate.
    Complex(Vec<Pred>),
}

/// The number of slots of the pattern.
pub open spec fn slot_count(m: Matcher) -> nat {
    match m {
        Matcher::Simple(v) => v@.len(),
        Matcher::Complex(v) => v@.len(),
    }
}

/// Whether slot `i` of the pattern accepts a candidate named `n`.
pub open spec fn slot_accepts(m: Matcher, i: int, n: Seq<char>) -> bool {
    match m {
        Matcher::Simple(v) => v@[i]@ == n,
        Matcher::Complex(v) => pred_accepts(v@[i], n),
    }
}

/// The bindings that slot `i` makes when it takes the candidate `n`.
pub open spec fn slot_binds(m: Matcher, i: int, n: DataNode) -> Seq<(Seq<char>, EvalValue)> {
    match m {
        Matcher::Simple(_) => Seq::empty(),
        Matcher::Complex(v) => pred_binds(v@[i], n),
    }
}

/// The table of which slot accepts which candidate.
pub open spec fn accept_table(m: Matcher, cands: Seq<DataNode>) -> Seq<Seq<bool>> {
    Seq::new(slot_count(m), |i: int| Seq::new(cands.len(), |j: int| slot_accepts(m, i, cands[j]@)))
}

/// The same table with rows and columns swapped.
pub open spec fn transpose(t: Seq<Seq<bool>>, rows: nat, cols: nat) -> Seq<Seq<bool>> {
    Seq::new(cols, |j: int| Seq::new(rows, |i: int| t[i][j]))
}

/// Depth-first search for an assignment of a distinct column to each row
/// from `used.len()` on, extending `used`, where row `i` may take column `j`
/// when `t[i][j]`; columns are tried in increasing order and the first
/// complete assignment found is the result.
pub open spec fn search(t: Seq<Seq<bool>>, cols: nat, used: Seq<int>) -> Option<Seq<int>>
    decreases t.len() - used.len(), cols + 1,
{
    if used.len() >= t.len() {
        Some(used)
    } else {
        try_from(t, cols, used, 0)
    }
}

/// The search of `search` for the row `used.len()`, from column `j` on.
pub open spec fn try_from(t: Seq<Seq<bool>>, cols: nat, used: Seq<int>, j: int) -> Option<Seq<int>>
    decreases t.len() - used.len(), cols - j,
{
    if used.len() >= t.len() || j >= cols || j < 0 {
        None
    } else if !used.contains(j) && t[used.len() as int][j] {
        match search(t, cols, used.push(j)) {
            Some(r) => Some(r),
            None => try_from(t, cols, used, j + 1),
        }
    } else {
        try_from(t, cols, used, j + 1)
    }
}

/// The names of the pieces `v`.
pub open spec fn names(v: Seq<DataNode>) -> Seq<Seq<char>> {
    Seq::new(v.len(), |i: int| v[i]@)
}

/// The table of which of the names `a` equals which of the names `b`.
pub open spec fn eq_table(a: Seq<Seq<char>>, b: Seq<Seq<char>>) -> Seq<Seq<bool>> {
    Seq::new(a.len(), |i: int| Seq::new(b.len(), |j: int| a[i] == b[j]))
}

/// When the names `a` are a sub-multiset of the names `b`, each of `a` can
/// take a distinct equal one of `b`.
pub proof fn lemma_subset_assignable(a: Seq<Seq<char>>, b: Seq<Seq<char>>)
    requires
        a.to_multiset().subset_of(b.to_multiset()),
    ensures
        assignable(eq_table(a, b), b.len()),
        a.len() <= b.len(),
    decreases a.len(),
{
    broadcast use vstd::seq_lib::group_to_multiset_ensures;

    let t = eq_table(a, b);
    if a.len() == 0 {
        let r = Seq::<int>::empty();
        assert(r.subrange(0, 0) =~= Seq::<int>::empty());
        assert(valid_from(t, b.len(), Seq::empty(), r));
    } else {
        let x = a.last();
        let a1 = a.drop_last();
        assert(a1.push(x) =~= a);
        assert(a.to_multiset().count(x) >= 1);
        assert(b.to_multiset().count(x) >= 1);
        assert(b.contains(x));
        let j0 = choose|j: int| 0 <= j < b.len() && b[j] == x;
        let b1 = b.remove(j0);
        assert forall|y: Seq<char>| a1.to_multiset().count(y) <= b1.to_multiset().count(y) by {
            assert(a.to_multiset().count(y) <= b.to_multiset().count(y));
        }
        lemma_subset_assignable(a1, b1);
        let r1 = choose|r: Seq<int>| valid_from(eq_table(a1, b1), b1.len(), Seq::empty(), r);
        let r = Seq::new(r1.len(), |i: int| if r1[i] < j0 { r1[i] } else { r1[i] + 1 }).push(j0);
        assert(r.subrange(0, 0) =~= Seq::<int>::empty());
        assert forall|i: int| 0 <= i < r.len() implies 0 <= #[trigger] r[i] < b.len() && t[i][r[i]] by {
            if i < a1.len() {
                assert(eq_table(a1, b1)[i][r1[i]]);
                assert(b1[r1[i]] == b[r[i]]);
                assert(a1[i] == a[i]);
            }
        }
        assert forall|i: int, k: int| 0 <= k < r.len() && 0 <= i < r.len() && k != i implies #[trigger] r[k] != #[trigger] r[i] by {
            if i < a1.len() && k < a1.len() {
                assert(r1[k] != r1[i]);
            }
        }
        assert(valid_from(t, b.len(), Seq::empty(), r));
    }
}

/// When each of the names `a` takes a distinct equal one of `b`, `a` is a
/// sub-multiset of `b`.
pub proof fn lemma_assignable_subset(a: Seq<Seq<char>>, b: Seq<Seq<char>>, r: Seq<int>)
    requires
        valid_from(eq_table(a, b), b.len(), Seq::empty(), r),
    ensures
        a.to_multiset().subset_of(b.to_multiset()),
    decreases a.len(),
{
    broadcast use vstd::seq_lib::group_to_multiset_ensures;

    let t = eq_table(a, b);
    if a.len() == 0 {
        assert forall|y: Seq<char>| a.to_multiset().count(y) <= b.to_multiset().count(y) by {
            assert(a.to_multiset().len() == 0);
        }
    } else {
        let n = a.len() - 1;
        let x = a.last();
        let a1 = a.drop_last();
        assert(a1.push(x) =~= a);
        let j0 = r[n];
        assert(0 <= j0 < b.len() && t[n][j0]);
        assert(b[j0] == x);
        let b1 = b.remove(j0);
        let r1 = Seq::new(n as nat, |i: int| if r[i] < j0 { r[i] } else { r[i] - 1 });
        assert forall|i: int| 0 <= i < n implies r[i] != j0 by {
            assert(r[i] != r[n]);
        }
        assert(r1.subrange(0, 0) =~= Seq::<int>::empty());
        assert forall|i: int| 0 <= i < r1.len() implies 0 <= #[trigger] r1[i] < b1.len() && eq_table(a1, b1)[i][r1[i]] by {
            assert(r[i] != j0);
            assert(t[i][r[i]]);
            assert(b1[r1[i]] == b[r[i]]);
        }
        assert forall|i: int, k: int| 0 <= k < r1.len() && 0 <= i < r1.len() && k != i implies #[trigger] r1[k] != #[trigger] r1[i] by {
            assert(r[k] != r[i]);
            assert(r[i] != j0);
            assert(r[k] != j0);
        }
        lemma_assignable_subset(a1, b1, r1);
        assert forall|y: Seq<char>| a.to_multiset().count(y) <= b.to_multiset().count(y) by {
            assert(a1.to_multiset().count(y) <= b1.to_multiset().count(y));
        }
    }
}

/// A fixed-multiset pattern with the piece names `p` matches the candidates
/// named `c` exactly when `p` is a sub-multiset of `c`; a selection that does
/// not match can still grow into one exactly when it has no more pieces than
/// the pattern and is a sub-multiset of it.
pub proof fn law_simple_matcher(v: Vec<DataNode>, cands: Seq<DataNode>)
    ensures
        ({
            let p = names(v@);
            let c = names(cands);
            &&& classify(Matcher::Simple(v), cands) is Success <==> p.to_multiset().subset_of(c.to_multiset())
            &&& classify(Matcher::Simple(v), cands) is Continue <==> !p.to_multiset().subset_of(c.to_multiset())
                && p.len() >= c.len() && c.to_multiset().subset_of(p.to_multiset())
        }),
{
    broadcast use vstd::seq_lib::group_to_multiset_ensures;

    let m = Matcher::Simple(v);
    let p = names(v@);
    let c = names(cands);
    let t = accept_table(m, cands);
    assert(t =~~= eq_table(p, c));
    assert(transpose(t, p.len(), c.len()) =~~= eq_table(c, p));
    if assignable(eq_table(p, c), c.len()) {
        let r = choose|r: Seq<int>| valid_from(eq_table(p, c), c.len(), Seq::empty(), r);
        lemma_assignable_subset(p, c, r);
    }
    if p.to_multiset().subset_of(c.to_multiset()) {
        lemma_subset_assignable(p, c);
    }
    if assignable(eq_table(c, p), p.len()) {
        let r = choose|r: Seq<int>| valid_from(eq_table(c, p), p.len(), Seq::empty(), r);
        lemma_assignable_subset(c, p, r);
    }
    if c.to_multiset().subset_of(p.to_multiset()) {
        lemma_subset_assignable(c, p);
    }
}

/// How a pattern relates to a set of candidates.
pub enum Classified {
    /// Every slot has a distinct candidate: the candidate index of each slot.
    Success(Seq<int>),
    /// The candidates can still grow into a match.
    Continue,
    /// They cannot.
    Failure,
}

/// The classification of the candidates `cands` against the pattern `m`.
pub open spec fn classify(m: Matcher, cands: Seq<DataNode>) -> Classified {
    let t = accept_table(m, cands);
    let rows = slot_count(m);
    let cols = cands.len();
    if rows <= cols && assignable(t, cols) {
        Classified::Success(search(t, cols, Seq::empty())->Some_0)
    } else if rows >= cols && assignable(transpose(t, rows, cols), rows) {
        Classified::Continue
    } else {
        Classified::Failure
    }
}


/// The integers that the indices of `s` stand for.
pub open spec fn ints(s: Seq<usize>) -> Seq<int> {
    s.map_values(|x: usize| x as int)
}

/// The rows of a table of booleans.
pub open spec fn table_view(t: Seq<Vec<bool>>) -> Seq<Seq<bool>> {
    Seq::new(t.len(), |i: int| t[i]@)
}

/// Whether `j` is among `used`.
pub(crate) fn contains(used: &Vec<usize>, j: usize) -> (r: bool)
    ensures
        r == ints(used@).contains(j as int),
{
    let mut k: usize = 0;
    while k < used.len()
        invariant
            k <= used.len(),
            forall|m: int| 0 <= m < k ==> used@[m] != j,
        decreases used.len() - k,
    {
        if used[k] == j {
            assert(ints(used@)[k as int] == j as int);
            return true;
        }
        k = k + 1;
    }
    assert(!ints(used@).contains(j as int)) by {
        if ints(used@).contains(j as int) {
            let m = choose|m: int| 0 <= m < ints(used@).len() && ints(used@)[m] == j as int;
            assert(used@[m] == j);
        }
    }
    false
}

/// Runs `search` on the table `t`: on success `used` is extended to the
/// assignment found, else it is left as it was.
fn search_exec(t: &Vec<Vec<bool>>, cols: usize, used: &mut Vec<usize>) -> (r: bool)
    requires
        forall|i: int| 0 <= i < t@.len() ==> (#[trigger] t@[i])@.len() == cols,
        old(used)@.len() <= t@.len(),
    ensures
        r == search(table_view(t@), cols as nat, ints(old(used)@)) is Some,
        r ==> ints(final(used)@) == search(table_view(t@), cols as nat, ints(old(used)@))->Some_0,
        !r ==> final(used)@ == old(used)@,
    decreases t@.len() - old(used)@.len(), cols + 1,
{
    let ghost tv = table_view(t@);
    if used.len() >= t.len() {
        return true;
    }
    let row = used.len();
    let ghost u0 = used@;
    let mut j: usize = 0;
    while j < cols
        invariant
            forall|i: int| 0 <= i < t@.len() ==> (#[trigger] t@[i])@.len() == cols,
            tv == table_view(t@),
            used@ == u0,
            u0 == old(used)@,
            row == u0.len(),
            row < t@.len(),
            j <= cols,
            search(tv, cols as nat, ints(u0)) == try_from(tv, cols as nat, ints(u0), j as int),
        decreases cols - j,
    {
        assert(tv[row as int] == t@[row as int]@);
        if !contains(used, j) && t[row][j] {
            used.push(j);
            assert(ints(used@) =~= ints(u0).push(j as int));
            if search_exec(t, cols, used) {
                return true;
            }
            used.pop();
            assert(used@ =~= u0);
        }
        j = j + 1;
    }
    false
}

impl Pred {
    /// The value that `n` maps to in `table`.
    fn lookup(table: &Vec<(DataNode, DataNode)>, n: &DataNode) -> (r: Option<DataNode>)
        ensures
            r == assoc(table@, n@),
    {
        let mut i: usize = 0;
        assert(table@.subrange(0, table@.len() as int) =~= table@);
        while i < table.len()
            invariant
                i <= table@.len(),
                assoc(table@, n@) == assoc(table@.subrange(i as int, table@.len() as int), n@),
            decreases table.len() - i,
        {
            assert(table@.subrange(i as int, table@.len() as int).drop_first()
                =~= table@.subrange(i as int + 1, table@.len() as int));
            if table[i].0 == *n {
                return Some(table[i].1.copy());
            }
            i = i + 1;
        }
        None
    }

    /// Whether the predicate accepts the candidate `n`.
    pub fn accepts(&self, n: &DataNode) -> (r: bool)
        ensures
            r == pred_accepts(*self, n@),
    {
        match self {
            Pred::Exact(d) => *d == *n,
            Pred::Tagged { members, bind } => {
                let mut k: usize = 0;
                while k < members.len()
                    invariant
                        *self == (Pred::Tagged { members: *members, bind: *bind }),
                        k <= members.len(),
                        forall|m: int| 0 <= m < k ==> (#[trigger] members@[m])@ != n@,
                    decreases members.len() - k,
                {
                    if members[k] == *n {
                        assert((members@[k as int])@ == n@);
                        assert(is_member(members@, n@));
                        return true;
                    }
                    k = k + 1;
                }
                false
            },
            Pred::Mapped { table, .. } => Pred::lookup(table, n).is_some(),
        }
    }
}

impl Matcher {
    /// The number of slots of the pattern.
    pub fn len(&self) -> (r: usize)
        ensures
            r == slot_count(*self),
    {
        match self {
            Matcher::Simple(nodes) => nodes.len(),
            Matcher::Complex(preds) => preds.len(),
        }
    }

    /// Whether slot `i` accepts the candidate `n`.
    fn slot_accepts(&self, i: usize, n: &DataNode) -> (r: bool)
        requires
            i < slot_count(*self),
        ensures
            r == slot_accepts(*self, i as int, n@),
    {
        match self {
            Matcher::Simple(nodes) => nodes[i] == *n,
            Matcher::Complex(preds) => preds[i].accepts(n),
        }
    }

    /// Classifies the candidates `against`: `Success` with the candidate index
    /// of each slot when every slot can take a distinct candidate it accepts,
    /// else `Continue` when every candidate can take a distinct slot that
    /// accepts it, else `Failure`.
    pub fn test(&self, against: &Vec<DataNode>) -> (r: PartialResult<Vec<usize>>)
        ensures
            match (r, classify(*self, against@)) {
                (PartialResult::Success(a), Classified::Success(b)) => ints(a@) == b,
                (PartialResult::Continue, Classified::Continue) => true,
                (PartialResult::Failure, Classified::Failure) => true,
                _ => false,
            },
    {
        let rows = self.len();
        let cols = against.len();
        let ghost at = accept_table(*self, against@);
        let mut t: Vec<Vec<bool>> = Vec::new();
        let mut i: usize = 0;
        while i < rows
            invariant
                rows == slot_count(*self),
                cols == against@.len(),
                at == accept_table(*self, against@),
                i <= rows,
                t@.len() == i,
                forall|k: int| 0 <= k < i ==> (#[trigger] t@[k])@ == at[k],
            decreases rows - i,
        {
            let mut row: Vec<bool> = Vec::new();
            let mut j: usize = 0;
            while j < cols
                invariant
                    rows == slot_count(*self),
                    cols == against@.len(),
                    i < rows,
                    j <= cols,
                    row@.len() == j,
                    forall|k: int| 0 <= k < j ==> row@[k] == slot_accepts(*self, i as int, against@[k]@),
                decreases cols - j,
            {
                row.push(self.slot_accepts(i, &against[j]));
                j = j + 1;
            }
            assert(row@ =~= at[i as int]);
            t.push(row);
            i = i + 1;
        }
        assert(table_view(t@) =~= at);
        proof {
            lemma_search_exact(at, cols as nat);
            lemma_search_exact(transpose(at, rows as nat, cols as nat), rows as nat);
        }
        let mut used: Vec<usize> = Vec::new();
        assert(ints(used@) =~= Seq::<int>::empty());
        if rows <= cols && search_exec(&t, cols, &mut used) {
            return PartialResult::Success(used);
        }
        let ghost tt = transpose(at, rows as nat, cols as nat);
        let mut tr: Vec<Vec<bool>> = Vec::new();
        let mut j: usize = 0;
        while j < cols
            invariant
                rows == slot_count(*self),
                cols == against@.len(),
                at == accept_table(*self, against@),
                tt == transpose(at, rows as nat, cols as nat),
                t@.len() == rows,
                forall|k: int| 0 <= k < rows ==> (#[trigger] t@[k])@ == at[k],
                j <= cols,
                tr@.len() == j,
                forall|k: int| 0 <= k < j ==> (#[trigger] tr@[k])@ == tt[k],
            decreases cols - j,
        {
            let mut col: Vec<bool> = Vec::new();
            let mut i2: usize = 0;
            while i2 < rows
                invariant
                    rows == slot_count(*self),
                    cols == against@.len(),
                    at == accept_table(*self, against@),
                    t@.len() == rows,
                    forall|k: int| 0 <= k < rows ==> (#[trigger] t@[k])@ == at[k],
                    j < cols,
                    i2 <= rows,
                    col@.len() == i2,
                    forall|k: int| 0 <= k < i2 ==> col@[k] == at[k][j as int],
                decreases rows - i2,
            {
                col.push(t[i2][j]);
                i2 = i2 + 1;
            }
            assert(col@ =~= tt[j as int]);
            tr.push(col);
            j = j + 1;
        }
        assert(table_view(tr@) =~= tt);
        let mut used2: Vec<usize> = Vec::new();
        assert(ints(used2@) =~= Seq::<int>::empty());
        if rows >= cols && search_exec(&tr, rows, &mut used2) {
            PartialResult::Continue
        } else {
            PartialResult::Failure
        }
    }
}


/// An assignment that `search` finds extends `used` to one distinct, accepted
/// column for each row.
pub proof fn lemma_search_sound(t: Seq<Seq<bool>>, cols: nat, used: Seq<int>)
    requires
        used.len() <= t.len(),
    ensures
        search(t, cols, used) matches Some(r) ==> valid_from(t, cols, used, r),
    decreases t.len() - used.len(), cols + 1,
{
    if used.len() < t.len() {
        lemma_try_from_sound(t, cols, used, 0);
    } else {
        assert(used.subrange(0, used.len() as int) =~= used);
    }
}

/// `r` extends `used` to all rows of `t`, each new row with a column that
/// accepts it, distinct from every other column of `r`.
pub open spec fn valid_from(t: Seq<Seq<bool>>, cols: nat, used: Seq<int>, r: Seq<int>) -> bool {
    &&& r.len() == t.len()
    &&& r.subrange(0, used.len() as int) == used
    &&& forall|i: int| used.len() <= i < r.len() ==> 0 <= #[trigger] r[i] < cols && t[i][r[i]]
    &&& forall|i: int, k: int| 0 <= k < r.len() && used.len() <= i < r.len() && k != i ==> #[trigger] r[k] != #[trigger] r[i]
}

/// Whether each row of `t` can take a distinct column that accepts it.
pub open spec fn assignable(t: Seq<Seq<bool>>, cols: nat) -> bool {
    exists|r: Seq<int>| valid_from(t, cols, Seq::empty(), r)
}

/// When `used` extends to a complete assignment, `search` finds one.
pub proof fn lemma_search_complete(t: Seq<Seq<bool>>, cols: nat, used: Seq<int>, r: Seq<int>)
    requires
        used.len() <= t.len(),
        valid_from(t, cols, used, r),
    ensures
        search(t, cols, used) is Some,
    decreases t.len() - used.len(), cols + 1,
{
    if used.len() < t.len() {
        lemma_try_from_complete(t, cols, used, 0, r);
    }
}

proof fn lemma_try_from_complete(t: Seq<Seq<bool>>, cols: nat, used: Seq<int>, j: int, r: Seq<int>)
    requires
        used.len() < t.len(),
        valid_from(t, cols, used, r),
        0 <= j <= r[used.len() as int],
    ensures
        try_from(t, cols, used, j) is Some,
    decreases t.len() - used.len(), cols - j,
{
    let k = used.len() as int;
    assert(0 <= r[k] < cols && t[k][r[k]]);
    if j == r[k] {
        assert(!used.contains(j)) by {
            if used.contains(j) {
                let m = choose|m: int| 0 <= m < used.len() && used[m] == j;
                assert(r.subrange(0, k)[m] == r[m]);
                assert(r[m] != r[k]);
            }
        }
        let u2 = used.push(j);
        assert(r.subrange(0, k + 1) =~= u2) by {
            assert forall|m: int| 0 <= m < k implies r[m] == u2[m] by {
                assert(r.subrange(0, k)[m] == r[m]);
            }
        }
        assert(valid_from(t, cols, u2, r));
        lemma_search_complete(t, cols, u2, r);
    } else {
        if !used.contains(j) && t[k][j] {
            if search(t, cols, used.push(j)) is None {
                lemma_try_from_complete(t, cols, used, j + 1, r);
            }
        } else {
            lemma_try_from_complete(t, cols, used, j + 1, r);
        }
    }
}

/// `search` from no assignment finds one exactly when there is one.
pub proof fn lemma_search_exact(t: Seq<Seq<bool>>, cols: nat)
    ensures
        search(t, cols, Seq::empty()) is Some <==> assignable(t, cols),
        search(t, cols, Seq::empty()) matches Some(r) ==> valid_from(t, cols, Seq::empty(), r),
{
    lemma_search_sound(t, cols, Seq::empty());
    if assignable(t, cols) {
        let r = choose|r: Seq<int>| valid_from(t, cols, Seq::empty(), r);
        lemma_search_complete(t, cols, Seq::empty(), r);
    }
}

proof fn lemma_try_from_sound(t: Seq<Seq<bool>>, cols: nat, used: Seq<int>, j: int)
    requires
        used.len() < t.len(),
        j >= 0,
    ensures
        try_from(t, cols, used, j) matches Some(r) ==> valid_from(t, cols, used, r),
    decreases t.len() - used.len(), cols - j,
{
    if j < cols {
        if !used.contains(j) && t[used.len() as int][j] {
            lemma_search_sound(t, cols, used.push(j));
            match search(t, cols, used.push(j)) {
                Some(r) => {
                    let u2 = used.push(j);
                    assert(r.subrange(0, u2.len() as int) == u2);
                    assert(r.subrange(0, used.len() as int) =~= used) by {
                        assert forall|i: int| 0 <= i < used.len() implies r[i] == used[i] by {
                            assert(r.subrange(0, u2.len() as int)[i] == u2[i]);
                        }
                    }
                    assert(r[used.len() as int] == j) by {
                        assert(r.subrange(0, u2.len() as int)[used.len() as int] == u2[used.len() as int]);
                    }
                    assert forall|i: int, k: int| 0 <= k < r.len() && used.len() <= i < r.len() && k != i implies #[trigger] r[k] != #[trigger] r[i] by {
                        if i == used.len() && k < used.len() {
                            assert(r.subrange(0, u2.len() as int)[k] == u2[k]);
                            assert(used[k] == r[k]);
                            if r[k] == j {
                                assert(used.contains(j));
                            }
                        }
                    }
                },
                None => {
                    lemma_try_from_sound(t, cols, used, j + 1);
                },
            }
        } else {
            lemma_try_from_sound(t, cols, used, j + 1);
        }
    }
}

/// The bindings `s1` and then `s2` are the bindings `s1 + s2`.
pub proof fn lemma_add_bindings_concat(
    fr: Seq<Map<Seq<char>, EvalValue>>,
    s1: Seq<(Seq<char>, EvalValue)>,
    s2: Seq<(Seq<char>, EvalValue)>,
)
    ensures
        add_bindings(fr, s1 + s2) == add_bindings(add_bindings(fr, s1), s2),
    decreases s2.len(),
{
    if s2.len() == 0 {
        assert(s1 + s2 =~= s1);
    } else {
        assert((s1 + s2).drop_last() =~= s1 + s2.drop_last());
        lemma_add_bindings_concat(fr, s1, s2.drop_last());
    }
}

/// Binding only changes the innermost frame, and keeps the number of frames.
pub proof fn lemma_add_bindings_frames(fr: Seq<Map<Seq<char>, EvalValue>>, bs: Seq<(Seq<char>, EvalValue)>)
    requires
        fr.len() >= 1,
    ensures
        add_bindings(fr, bs).len() == fr.len(),
        add_bindings(fr, bs).subrange(0, fr.len() - 1) == fr.subrange(0, fr.len() - 1),
    decreases bs.len(),
{
    if bs.len() > 0 {
        lemma_add_bindings_frames(fr, bs.drop_last());
        let f0 = add_bindings(fr, bs.drop_last());
        assert(add_binding(f0, bs.last().0, bs.last().1).subrange(0, fr.len() - 1) =~= f0.subrange(0, fr.len() - 1));
    }
}

impl Pred {
    /// Makes the bindings of this predicate for the candidate `n`.
    fn bind(&self, n: &DataNode, scope: &mut Scope<EvalValue>)
        requires
            old(scope).wf(),
        ensures
            final(scope).wf(),
            final(scope)@ == add_bindings(old(scope)@, pred_binds(*self, *n)),
    {
        let ghost fr = scope@;
        assert(add_bindings(fr, Seq::empty()) == fr);
        match self {
            Pred::Exact(_) => {},
            Pred::Tagged { bind, .. } => {
                if let Some(b) = bind {
                    scope.add(b.clone(), EvalValue::Node(Some(n.copy())));
                    assert(add_bindings(fr, seq![(b@, EvalValue::Node(Some(*n)))]) == add_binding(
                        add_bindings(fr, Seq::empty()), b@, EvalValue::Node(Some(*n)))) by {
                        assert(seq![(b@, EvalValue::Node(Some(*n)))].drop_last() =~= Seq::empty());
                    }
                }
            },
            Pred::Mapped { table, bind_key, bind_val } => {
                let ghost s1 = bind_to(*bind_key, *n);
                if let Some(b) = bind_key {
                    scope.add(b.clone(), EvalValue::Node(Some(n.copy())));
                    assert(s1.drop_last() =~= Seq::empty());
                }
                let ghost fr1 = scope@;
                if bind_key.is_some() {
                    assert(s1.drop_last() =~= Seq::empty());
                    assert(add_bindings(fr, s1) == add_binding(add_bindings(fr, s1.drop_last()), s1.last().0, s1.last().1));
                } else {
                    assert(s1 =~= Seq::empty());
                }
                assert(fr1 == add_bindings(fr, s1));
                let found = Pred::lookup(table, n);
                match found {
                    Some(v) => {
                        let ghost s2 = bind_to(*bind_val, v);
                        assert(add_bindings(fr1, Seq::empty()) == fr1);
                        if let Some(b) = bind_val {
                            scope.add(b.clone(), EvalValue::Node(Some(v)));
                            assert(s2.drop_last() =~= Seq::empty());
                            assert(add_bindings(fr1, s2) == add_binding(add_bindings(fr1, s2.drop_last()), s2.last().0, s2.last().1));
                        } else {
                            assert(s2 =~= Seq::empty());
                        }
                        proof {
                            lemma_add_bindings_concat(fr, s1, s2);
                        }
                    },
                    None => {
                        assert(s1 + Seq::empty() =~= s1);
                    },
                }
            },
        }
    }
}

impl Matcher {
    /// Makes the bindings of slot `i` for the candidate `n`.
    pub(crate) fn bind_slot(&self, i: usize, n: &DataNode, scope: &mut Scope<EvalValue>)
        requires
            i < slot_count(*self),
            old(scope).wf(),
        ensures
            final(scope).wf(),
            final(scope)@ == add_bindings(old(scope)@, slot_binds(*self, i as int, *n)),
    {
        match self {
            Matcher::Simple(_) => {},
            Matcher::Complex(preds) => preds[i].bind(n, scope),
        }
    }
}

} // verus!
