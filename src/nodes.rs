use vstd::prelude::*;
use vstd::relations::sorted_by;
use itertools::Itertools;

verus! {

/// A success, a failure, or a need for more input.
#[derive(Debug)]
pub enum PartialResult<T> {
    Success(T),
    Continue,
    Failure,
}

impl<T> PartialResult<T> {
    /// Is this a success or a need for more input?
    pub fn is_valid(&self) -> (r: bool)
        ensures
            r == !(self is Failure),
    {
        !matches!(self, PartialResult::Failure)
    }
}


/// One of the marbles on the game board.
#[derive(Clone, Copy, Debug, PartialEq, Eq, Structural, PartialOrd, Ord, Hash)]
pub enum Node {
    Wood,
    Fire,
    Earth,
    Metal,
    Water,
    Heavenly,
    Earthly,
    Human,
    Yin,
    Yang,
    Creation,
    Destruction,
    Qi,
}

/// Whether `n` is one of the five elements.
pub open spec fn elemental(n: Node) -> bool {
    n is Wood || n is Fire || n is Earth || n is Metal || n is Water
}

/// The partner that `n` cancels with as a pair, if any.
pub open spec fn partner(n: Node) -> Option<Node> {
    match n {
        Node::Fire => Some(Node::Metal),
        Node::Metal => Some(Node::Wood),
        Node::Wood => Some(Node::Earth),
        Node::Earth => Some(Node::Water),
        Node::Water => Some(Node::Fire),
        Node::Heavenly => Some(Node::Yang),
        Node::Yang => Some(Node::Heavenly),
        Node::Earthly => Some(Node::Yin),
        Node::Yin => Some(Node::Earthly),
        Node::Qi => Some(Node::Qi),
        Node::Creation => Some(Node::Creation),
        _ => None,
    }
}

/// What a Creation marble turns `n` into, if anything.
pub open spec fn changed(n: Node) -> Option<Node> {
    match n {
        Node::Wood => Some(Node::Fire),
        Node::Fire => Some(Node::Earth),
        Node::Earth => Some(Node::Metal),
        Node::Metal => Some(Node::Water),
        Node::Water => Some(Node::Wood),
        Node::Heavenly => Some(Node::Earthly),
        Node::Earthly => Some(Node::Human),
        Node::Human => Some(Node::Heavenly),
        _ => None,
    }
}

impl Node {
    /// Is this one of the five elements?
    pub fn is_elemental(&self) -> (r: bool)
        ensures
            r == elemental(*self),
    {
        matches!(self, Node::Wood | Node::Fire | Node::Earth | Node::Metal | Node::Water)
    }

    /// The number of contiguous open neighbours needed to be selectable.
    pub fn freeness_req(&self) -> (r: usize)
        ensures
            r == if *self is Qi { 5usize } else { 3usize },
    {
        match self {
            Node::Qi => 5,
            _ => 3,
        }
    }

    /// Does this cancel as a pair with `other`?
    pub fn cancels_with(&self, other: &Node) -> (r: bool)
        ensures
            r == (partner(*self) == Some(*other)),
    {
        let expect = match self {
            Node::Fire => Some(Node::Metal),
            Node::Metal => Some(Node::Wood),
            Node::Wood => Some(Node::Earth),
            Node::Earth => Some(Node::Water),
            Node::Water => Some(Node::Fire),
            Node::Heavenly => Some(Node::Yang),
            Node::Yang => Some(Node::Heavenly),
            Node::Earthly => Some(Node::Yin),
            Node::Yin => Some(Node::Earthly),
            Node::Qi => Some(Node::Qi),
            Node::Creation => Some(Node::Creation),
            _ => None,
        };
        match expect {
            Some(o) => o == *other,
            None => false,
        }
    }

    /// What a Creation marble turns this into, if anything.
    pub fn change(&self) -> (r: Option<Node>)
        ensures
            r == changed(*self),
    {
        match self {
            Node::Wood => Some(Node::Fire),
            Node::Fire => Some(Node::Earth),
            Node::Earth => Some(Node::Metal),
            Node::Metal => Some(Node::Water),
            Node::Water => Some(Node::Wood),
            Node::Heavenly => Some(Node::Earthly),
            Node::Earthly => Some(Node::Human),
            Node::Human => Some(Node::Heavenly),
            _ => None,
        }
    }

    /// Can a Creation marble change this?
    pub fn can_change(&self) -> (r: bool)
        ensures
            r == changed(*self) is Some,
    {
        self.change().is_some()
    }
}

/// Whether no two neighbours in `items` are equal.
pub fn all_unique(items: &[Node]) -> (r: bool)
    ensures
        r == forall|i: int| 0 <= i < items@.len() - 1 ==> items@[i] != #[trigger] items@[i + 1],
{
    let mut i: usize = 1;
    while i < items.len()
        invariant
            1 <= i,
            i <= items@.len() || items@.len() == 0,
            forall|k: int| 0 <= k < i - 1 && k < items@.len() - 1 ==> items@[k] != #[trigger] items@[k + 1],
        decreases items.len() - i,
    {
        if items[i - 1] == items[i] {
            assert(items@[(i - 1) as int] == items@[(i - 1) as int + 1]);
            return false;
        }
        i = i + 1;
    }
    true
}


/// `k` copies of `n`.
pub open spec fn copies(n: Node, k: nat) -> Seq<Node> {
    Seq::new(k, |i: int| n)
}

/// The marbles of a standard game, less the Destruction that goes in the
/// centre and the three Qi around it: seven of each element, four of each of
/// Heavenly, Earthly and Human, one Yin, one Yang and three Qi.
pub open spec fn standard_bank() -> Seq<Node> {
    copies(Node::Wood, 7) + copies(Node::Fire, 7) + copies(Node::Earth, 7) + copies(Node::Metal, 7)
        + copies(Node::Water, 7) + copies(Node::Heavenly, 4) + copies(Node::Earthly, 4) + copies(Node::Human, 4)
        + seq![Node::Yin, Node::Yang] + copies(Node::Qi, 3)
}

/// Appends `k` copies of `n` to `v`.
fn push_copies(v: &mut Vec<Node>, n: Node, k: usize)
    ensures
        final(v)@ == old(v)@ + copies(n, k as nat),
{
    let mut i: usize = 0;
    while i < k
        invariant
            i <= k,
            v@ == old(v)@ + copies(n, i as nat),
        decreases k - i,
    {
        v.push(n);
        i = i + 1;
        assert(v@ =~= old(v)@ + copies(n, i as nat));
    }
}

/// The marbles of a standard game, less the Destruction for the centre and
/// the three Qi around it.
pub fn standard_game() -> (r: Vec<Node>)
    ensures
        r@ == standard_bank(),
{
    let mut game: Vec<Node> = Vec::new();
    push_copies(&mut game, Node::Wood, 7);
    push_copies(&mut game, Node::Fire, 7);
    push_copies(&mut game, Node::Earth, 7);
    push_copies(&mut game, Node::Metal, 7);
    push_copies(&mut game, Node::Water, 7);
    push_copies(&mut game, Node::Heavenly, 4);
    push_copies(&mut game, Node::Earthly, 4);
    push_copies(&mut game, Node::Human, 4);
    let ghost before = game@;
    game.push(Node::Yin);
    game.push(Node::Yang);
    assert(game@ =~= before + seq![Node::Yin, Node::Yang]);
    push_copies(&mut game, Node::Qi, 3);
    game
}

/// The position of `n` in the order of the marbles.
pub open spec fn rank(n: Node) -> u8 {
    match n {
        Node::Wood => 0,
        Node::Fire => 1,
        Node::Earth => 2,
        Node::Metal => 3,
        Node::Water => 4,
        Node::Heavenly => 5,
        Node::Earthly => 6,
        Node::Human => 7,
        Node::Yin => 8,
        Node::Yang => 9,
        Node::Creation => 10,
        Node::Destruction => 11,
        Node::Qi => 12,
    }
}

/// The ranks of the marbles `s`, in order.
pub open spec fn ranks(s: Seq<Node>) -> Seq<u8> {
    s.map_values(|n: Node| rank(n))
}

/// The ranks of the marbles `s`, in non-decreasing order.
pub open spec fn sorted_ranks(s: Seq<Node>) -> Seq<u8> {
    ranks(s).sort_by(|x: u8, y: u8| x <= y)
}

/// Whether the sorted ranks `t` are a Destruction above distinct elements.
pub open spec fn destruction_set(t: Seq<u8>) -> bool {
    &&& t.len() >= 1
    &&& t.last() == 11
    &&& forall|i: int| 0 <= i < t.len() - 1 ==> #[trigger] t[i] <= 4
    &&& forall|i: int| 0 <= i < t.len() - 2 ==> t[i] != #[trigger] t[i + 1]
}

/// What selecting the marbles `s` together does.
pub open spec fn select_spec(s: Seq<Node>) -> PartialResult<Seq<Option<Node>>> {
    let t = sorted_ranks(s);
    if s.len() == 1 {
        PartialResult::Continue
    } else if s.len() == 2 && partner(s[0]) == Some(s[1]) {
        PartialResult::Success(seq![None, None])
    } else if destruction_set(t) {
        if t.len() == 6 {
            PartialResult::Success(Seq::new(6, |i: int| None))
        } else {
            PartialResult::Continue
        }
    } else if t == seq![8u8, 9u8] {
        PartialResult::Success(seq![Some(Node::Creation), Some(Node::Creation)])
    } else if t == seq![5u8, 6u8] || t == seq![5u8, 7u8] || t == seq![6u8, 7u8] {
        PartialResult::Continue
    } else if t == seq![5u8, 6u8, 7u8] {
        PartialResult::Success(seq![None, None, None])
    } else if t.len() == 2 && t[1] == 7 && t[0] <= 4 {
        PartialResult::Success(
            if s[0] is Human {
                seq![Some(s[1]), None]
            } else {
                seq![None, Some(s[0])]
            },
        )
    } else if t.len() == 2 && t[1] == 10 && t[0] <= 7 {
        PartialResult::Success(
            if s[0] is Creation {
                seq![None, changed(s[1])]
            } else {
                seq![changed(s[0]), None]
            },
        )
    } else {
        PartialResult::Failure
    }
}

/// Relies on itertools::Itertools::sorted_unstable: the same items, in
/// non-decreasing order.
#[verifier::external_body]
pub(crate) fn sort_ranks(v: Vec<u8>) -> (r: Vec<u8>)
    ensures
        r@.to_multiset() == v@.to_multiset(),
        sorted_by(r@, |x: u8, y: u8| x <= y),
{
    v.into_iter().sorted_unstable().collect()
}

impl Node {
    /// The position of this marble in the order of the marbles.
    pub fn rank(&self) -> (r: u8)
        ensures
            r == rank(*self),
    {
        match self {
            Node::Wood => 0,
            Node::Fire => 1,
            Node::Earth => 2,
            Node::Metal => 3,
            Node::Water => 4,
            Node::Heavenly => 5,
            Node::Earthly => 6,
            Node::Human => 7,
            Node::Yin => 8,
            Node::Yang => 9,
            Node::Creation => 10,
            Node::Destruction => 11,
            Node::Qi => 12,
        }
    }

    /// Whether the marbles `nodes` may be selected together, and if they
    /// complete a pattern, what each turns into (`None`: it is removed).
    pub fn select(nodes: &[Node]) -> (r: PartialResult<Vec<Option<Node>>>)
        requires
            nodes@.len() > 0,
        ensures
            match (r, select_spec(nodes@)) {
                (PartialResult::Success(v), PartialResult::Success(w)) => v@ == w,
                (PartialResult::Continue, PartialResult::Continue) => true,
                (PartialResult::Failure, PartialResult::Failure) => true,
                _ => false,
            },
    {
        let ghost s = nodes@;
        if nodes.len() == 1 {
            return PartialResult::Continue;
        }
        if nodes.len() == 2 && nodes[0].cancels_with(&nodes[1]) {
            let v: Vec<Option<Node>> = vec![None, None];
            assert(v@ =~= seq![None, None]);
            return PartialResult::Success(v);
        }
        let mut rs: Vec<u8> = Vec::new();
        let mut i: usize = 0;
        while i < nodes.len()
            invariant
                i <= nodes@.len(),
                rs@ == ranks(nodes@).subrange(0, i as int),
            decreases nodes.len() - i,
        {
            rs.push(nodes[i].rank());
            assert(rs@ =~= ranks(nodes@).subrange(0, i as int + 1));
            i = i + 1;
        }
        assert(rs@ =~= ranks(nodes@));
        let t = sort_ranks(rs);
        proof {
            let leq = |x: u8, y: u8| x <= y;
            assert(vstd::relations::total_ordering(leq));
            ranks(s).lemma_sort_by_ensures(leq);
            vstd::seq_lib::lemma_sorted_unique(t@, ranks(s).sort_by(leq), leq);
        }
        assert(t@ == sorted_ranks(s));
        let n = t.len();
        if n >= 1 && t[n - 1] == 11 {
            let mut ok = true;
            let mut k: usize = 0;
            while k + 1 < n
                invariant
                    n == t@.len(),
                    n >= 1,
                    k < n,
                    ok == ((forall|q: int| 0 <= q < k && q < n - 1 ==> #[trigger] t@[q] <= 4)
                        && (forall|q: int| 0 <= q < k - 1 && q < n - 2 ==> t@[q] != #[trigger] t@[q + 1])),
                decreases n - k,
            {
                if t[k] > 4 {
                    ok = false;
                }
                if k >= 1 && t[k - 1] == t[k] {
                    ok = false;
                    assert(t@[(k - 1) as int] == t@[(k - 1) as int + 1]);
                }
                k = k + 1;
            }
            if ok {
                if n == 6 {
                    let v: Vec<Option<Node>> = vec![None, None, None, None, None, None];
                    assert(v@ =~= Seq::new(6, |i: int| None::<Node>));
                    return PartialResult::Success(v);
                } else {
                    return PartialResult::Continue;
                }
            }
        }
        if n == 2 && t[0] == 8 && t[1] == 9 {
            let v: Vec<Option<Node>> = vec![Some(Node::Creation), Some(Node::Creation)];
            assert(t@ =~= seq![8u8, 9u8]);
            assert(v@ =~= seq![Some(Node::Creation), Some(Node::Creation)]);
            return PartialResult::Success(v);
        }
        if n == 2 && ((t[0] == 5 && t[1] == 6) || (t[0] == 5 && t[1] == 7) || (t[0] == 6 && t[1] == 7)) {
            assert(t@ =~= seq![5u8, 6u8] || t@ =~= seq![5u8, 7u8] || t@ =~= seq![6u8, 7u8]);
            return PartialResult::Continue;
        }
        if n == 3 && t[0] == 5 && t[1] == 6 && t[2] == 7 {
            let v: Vec<Option<Node>> = vec![None, None, None];
            assert(t@ =~= seq![5u8, 6u8, 7u8]);
            assert(v@ =~= seq![None, None, None]);
            return PartialResult::Success(v);
        }
        assert(n == 2 ==> t@ != seq![8u8, 9u8] && t@ != seq![5u8, 6u8] && t@ != seq![5u8, 7u8] && t@ != seq![6u8, 7u8]);
        assert(n == 3 ==> t@ != seq![5u8, 6u8, 7u8]);
        if n == 2 && t[1] == 7 && t[0] <= 4 {
            let v: Vec<Option<Node>> = if matches!(nodes[0], Node::Human) {
                vec![Some(nodes[1]), None]
            } else {
                vec![None, Some(nodes[0])]
            };
            assert(v@ =~= (if s[0] is Human { seq![Some(s[1]), None] } else { seq![None, Some(s[0])] }));
            return PartialResult::Success(v);
        }
        if n == 2 && t[1] == 10 && t[0] <= 7 {
            let v: Vec<Option<Node>> = if matches!(nodes[0], Node::Creation) {
                vec![None, nodes[1].change()]
            } else {
                vec![nodes[0].change(), None]
            };
            assert(v@ =~= (if s[0] is Creation { seq![None, changed(s[1])] } else { seq![changed(s[0]), None] }));
            return PartialResult::Success(v);
        }
        PartialResult::Failure
    }
}

} // verus!
