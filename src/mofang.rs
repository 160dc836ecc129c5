use vstd::prelude::*;
use crate::nodes::{Node, PartialResult, select_spec};

verus! {

/// One of the marbles of the Mofang game.
#[derive(Clone, Copy, Debug, PartialEq, Eq, Structural, PartialOrd, Ord, Hash)]
pub enum MofangNode {
    Wood,
    Fire,
    Earth,
    Metal,
    Water,
    Heavenly,
    Earthly,
    Human,
    Yin,
    Yang,
    Creation,
    Destruction,
    Qi,
}

/// `k` copies of `n`.
pub open spec fn copies(n: MofangNode, k: nat) -> Seq<MofangNode> {
    Seq::new(k, |i: int| n)
}

/// The marbles of a standard game, less the Destruction that goes in the
/// centre and the three Qi around it: seven of each element, four of each of
/// Heavenly, Earthly and Human, one Yin, one Yang and three Qi.
pub open spec fn standard_bank() -> Seq<MofangNode> {
    copies(MofangNode::Wood, 7) + copies(MofangNode::Fire, 7) + copies(MofangNode::Earth, 7)
        + copies(MofangNode::Metal, 7) + copies(MofangNode::Water, 7) + copies(MofangNode::Heavenly, 4)
        + copies(MofangNode::Earthly, 4) + copies(MofangNode::Human, 4) + seq![MofangNode::Yin, MofangNode::Yang]
        + copies(MofangNode::Qi, 3)
}

/// Appends `k` copies of `n` to `v`.
fn push_copies(v: &mut Vec<MofangNode>, n: MofangNode, k: usize)
    ensures
        final(v)@ == old(v)@ + copies(n, k as nat),
{
    let mut i: usize = 0;
    while i < k
        invariant
            i <= k,
            v@ == old(v)@ + copies(n, i as nat),
        decreases k - i,
    {
        v.push(n);
        i = i + 1;
        assert(v@ =~= old(v)@ + copies(n, i as nat));
    }
}

/// The engine marble of the same name.
pub open spec fn as_node(m: MofangNode) -> Node {
    match m {
        MofangNode::Wood => Node::Wood,
        MofangNode::Fire => Node::Fire,
        MofangNode::Earth => Node::Earth,
        MofangNode::Metal => Node::Metal,
        MofangNode::Water => Node::Water,
        MofangNode::Heavenly => Node::Heavenly,
        MofangNode::Earthly => Node::Earthly,
        MofangNode::Human => Node::Human,
        MofangNode::Yin => Node::Yin,
        MofangNode::Yang => Node::Yang,
        MofangNode::Creation => Node::Creation,
        MofangNode::Destruction => Node::Destruction,
        MofangNode::Qi => Node::Qi,
    }
}

/// The Mofang marble of the same name.
pub open spec fn from_node(n: Node) -> MofangNode {
    match n {
        Node::Wood => MofangNode::Wood,
        Node::Fire => MofangNode::Fire,
        Node::Earth => MofangNode::Earth,
        Node::Metal => MofangNode::Metal,
        Node::Water => MofangNode::Water,
        Node::Heavenly => MofangNode::Heavenly,
        Node::Earthly => MofangNode::Earthly,
        Node::Human => MofangNode::Human,
        Node::Yin => MofangNode::Yin,
        Node::Yang => MofangNode::Yang,
        Node::Creation => MofangNode::Creation,
        Node::Destruction => MofangNode::Destruction,
        Node::Qi => MofangNode::Qi,
    }
}

/// The Mofang marble, if any, of the same name as the engine marble `n`.
pub open spec fn from_opt(n: Option<Node>) -> Option<MofangNode> {
    match n {
        Some(x) => Some(from_node(x)),
        None => None,
    }
}

impl MofangNode {
    /// The engine marble of the same name.
    pub fn to_node(&self) -> (r: Node)
        ensures
            r == as_node(*self),
    {
        match self {
            MofangNode::Wood => Node::Wood,
            MofangNode::Fire => Node::Fire,
            MofangNode::Earth => Node::Earth,
            MofangNode::Metal => Node::Metal,
            MofangNode::Water => Node::Water,
            MofangNode::Heavenly => Node::Heavenly,
            MofangNode::Earthly => Node::Earthly,
            MofangNode::Human => Node::Human,
            MofangNode::Yin => Node::Yin,
            MofangNode::Yang => Node::Yang,
            MofangNode::Creation => Node::Creation,
            MofangNode::Destruction => Node::Destruction,
            MofangNode::Qi => Node::Qi,
        }
    }

    /// The Mofang marble of the same name as `n`.
    pub fn from_node(n: &Node) -> (r: MofangNode)
        ensures
            r == from_node(*n),
    {
        match n {
            Node::Wood => MofangNode::Wood,
            Node::Fire => MofangNode::Fire,
            Node::Earth => MofangNode::Earth,
            Node::Metal => MofangNode::Metal,
            Node::Water => MofangNode::Water,
            Node::Heavenly => MofangNode::Heavenly,
            Node::Earthly => MofangNode::Earthly,
            Node::Human => MofangNode::Human,
            Node::Yin => MofangNode::Yin,
            Node::Yang => MofangNode::Yang,
            Node::Creation => MofangNode::Creation,
            Node::Destruction => MofangNode::Destruction,
            Node::Qi => MofangNode::Qi,
        }
    }

    /// Whether the marbles `nodes` may be selected together, and if they
    /// complete a pattern, what each turns into: the same rules as for the
    /// engine's marbles of the same names.
    pub fn select(nodes: &[MofangNode]) -> (r: PartialResult<Vec<Option<MofangNode>>>)
        requires
            nodes@.len() > 0,
        ensures
            match (r, select_spec(nodes@.map_values(|m: MofangNode| as_node(m)))) {
                (PartialResult::Success(v), PartialResult::Success(w)) => v@ == w.map_values(|n: Option<Node>| from_opt(n)),
                (PartialResult::Continue, PartialResult::Continue) => true,
                (PartialResult::Failure, PartialResult::Failure) => true,
                _ => false,
            },
    {
        let mut ns: Vec<Node> = Vec::new();
        let mut i: usize = 0;
        while i < nodes.len()
            invariant
                i <= nodes@.len(),
                ns@ == nodes@.map_values(|m: MofangNode| as_node(m)).subrange(0, i as int),
            decreases nodes.len() - i,
        {
            ns.push(nodes[i].to_node());
            assert(ns@ =~= nodes@.map_values(|m: MofangNode| as_node(m)).subrange(0, i as int + 1));
            i = i + 1;
        }
        assert(ns@ =~= nodes@.map_values(|m: MofangNode| as_node(m)));
        match Node::select(ns.as_slice()) {
            PartialResult::Success(v) => {
                let mut out: Vec<Option<MofangNode>> = Vec::new();
                let mut k: usize = 0;
                while k < v.len()
                    invariant
                        k <= v@.len(),
                        out@ == v@.map_values(|n: Option<Node>| from_opt(n)).subrange(0, k as int),
                    decreases v.len() - k,
                {
                    let m = match &v[k] {
                        Some(n) => Some(MofangNode::from_node(n)),
                        None => None,
                    };
                    out.push(m);
                    assert(out@ =~= v@.map_values(|n: Option<Node>| from_opt(n)).subrange(0, k as int + 1));
                    k = k + 1;
                }
                assert(out@ =~= v@.map_values(|n: Option<Node>| from_opt(n)));
                PartialResult::Success(out)
            },
            PartialResult::Continue => PartialResult::Continue,
            PartialResult::Failure => PartialResult::Failure,
        }
    }

    /// The name of the game.
    pub fn name() -> &'static str {
        "mofang"
    }

    /// The name of the texture this marble is drawn with.
    pub fn texture_name(&self) -> &'static str {
        match self {
            MofangNode::Wood => "wood",
            MofangNode::Fire => "fire",
            MofangNode::Earth => "earth",
            MofangNode::Metal => "metal",
            MofangNode::Water => "water",
            MofangNode::Heavenly => "heavenly",
            MofangNode::Earthly => "earthly",
            MofangNode::Human => "human",
            MofangNode::Yin => "yin",
            MofangNode::Yang => "yang",
            MofangNode::Creation => "creation",
            MofangNode::Destruction => "destruction",
            MofangNode::Qi => "qi",
        }
    }

    /// The number of contiguous open neighbours needed to be selectable.
    pub fn freeness_req(&self) -> (r: usize)
        ensures
            r == if *self is Qi { 5usize } else { 3usize },
    {
        match self {
            MofangNode::Qi => 5,
            _ => 3,
        }
    }

    /// Is this one of the five elements?
    pub fn is_elemental(&self) -> (r: bool)
        ensures
            r == (*self is Wood || *self is Fire || *self is Earth || *self is Metal || *self is Water),
    {
        matches!(self, MofangNode::Wood | MofangNode::Fire | MofangNode::Earth | MofangNode::Metal | MofangNode::Water)
    }

    /// Does this cancel as a pair with `other`?
    pub fn cancels_with(&self, other: &MofangNode) -> (r: bool)
        ensures
            r == match *self {
                MofangNode::Fire => *other is Metal,
                MofangNode::Metal => *other is Wood,
                MofangNode::Wood => *other is Earth,
                MofangNode::Earth => *other is Water,
                MofangNode::Water => *other is Fire,
                MofangNode::Heavenly => *other is Yang,
                MofangNode::Yang => *other is Heavenly,
                MofangNode::Earthly => *other is Yin,
                MofangNode::Yin => *other is Earthly,
                MofangNode::Qi => *other is Qi,
                MofangNode::Creation => *other is Creation,
                _ => false,
            },
    {
        let expect = match self {
            MofangNode::Fire => Some(MofangNode::Metal),
            MofangNode::Metal => Some(MofangNode::Wood),
            MofangNode::Wood => Some(MofangNode::Earth),
            MofangNode::Earth => Some(MofangNode::Water),
            MofangNode::Water => Some(MofangNode::Fire),
            MofangNode::Heavenly => Some(MofangNode::Yang),
            MofangNode::Yang => Some(MofangNode::Heavenly),
            MofangNode::Earthly => Some(MofangNode::Yin),
            MofangNode::Yin => Some(MofangNode::Earthly),
            MofangNode::Qi => Some(MofangNode::Qi),
            MofangNode::Creation => Some(MofangNode::Creation),
            _ => None,
        };
        match expect {
            Some(o) => o == *other,
            None => false,
        }
    }

    /// What a Creation marble turns this into, if anything.
    pub fn change(&self) -> (r: Option<MofangNode>)
        ensures
            r == match *self {
                MofangNode::Wood => Some(MofangNode::Fire),
                MofangNode::Fire => Some(MofangNode::Earth),
                MofangNode::Earth => Some(MofangNode::Metal),
                MofangNode::Metal => Some(MofangNode::Water),
                MofangNode::Water => Some(MofangNode::Wood),
                MofangNode::Heavenly => Some(MofangNode::Earthly),
                MofangNode::Earthly => Some(MofangNode::Human),
                MofangNode::Human => Some(MofangNode::Heavenly),
                _ => None,
            },
    {
        match self {
            MofangNode::Wood => Some(MofangNode::Fire),
            MofangNode::Fire => Some(MofangNode::Earth),
            MofangNode::Earth => Some(MofangNode::Metal),
            MofangNode::Metal => Some(MofangNode::Water),
            MofangNode::Water => Some(MofangNode::Wood),
            MofangNode::Heavenly => Some(MofangNode::Earthly),
            MofangNode::Earthly => Some(MofangNode::Human),
            MofangNode::Human => Some(MofangNode::Heavenly),
            _ => None,
        }
    }

    /// Can a Creation marble change this?
    pub fn can_change(&self) -> (r: bool)
        ensures
            r == (*self is Wood || *self is Fire || *self is Earth || *self is Metal || *self is Water
                || *self is Heavenly || *self is Earthly || *self is Human),
    {
        self.change().is_some()
    }

    /// The marbles of a standard game, less the Destruction for the centre
    /// and the three Qi around it.
    pub fn standard_game() -> (r: Vec<MofangNode>)
        ensures
            r@ == standard_bank(),
    {
        let mut game: Vec<MofangNode> = Vec::new();
        push_copies(&mut game, MofangNode::Wood, 7);
        push_copies(&mut game, MofangNode::Fire, 7);
        push_copies(&mut game, MofangNode::Earth, 7);
        push_copies(&mut game, MofangNode::Metal, 7);
        push_copies(&mut game, MofangNode::Water, 7);
        push_copies(&mut game, MofangNode::Heavenly, 4);
        push_copies(&mut game, MofangNode::Earthly, 4);
        push_copies(&mut game, MofangNode::Human, 4);
        let ghost before = game@;
        game.push(MofangNode::Yin);
        game.push(MofangNode::Yang);
        assert(game@ =~= before + seq![MofangNode::Yin, MofangNode::Yang]);
        push_copies(&mut game, MofangNode::Qi, 3);
        game
    }
}

} // verus!
