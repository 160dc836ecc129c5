use vstd::prelude::*;
use vstd::relations::sorted_by;
use crate::nodes::{PartialResult, sort_ranks};

verus! {

/// One of the marbles of the Sigmar game.
#[derive(Clone, Copy, Debug, PartialEq, Eq, Structural, PartialOrd, Ord, Hash)]
pub enum SigmarNode {
    Salt,
    Aether,
    Water,
    Earth,
    Fire,
    Air,
    Quicksilver,
    Lead,
    Tin,
    Iron,
    Copper,
    Silver,
    Gold,
    Vitae,
    Mors,
}

/// Whether `n` is one of the four prime elements.
pub open spec fn prime(n: SigmarNode) -> bool {
    n is Water || n is Earth || n is Fire || n is Air
}

/// The metal one step below `n` in the chain Lead, Tin, Iron, Copper, Silver, Gold.
pub open spec fn lower(n: SigmarNode) -> Option<SigmarNode> {
    match n {
        SigmarNode::Tin => Some(SigmarNode::Lead),
        SigmarNode::Iron => Some(SigmarNode::Tin),
        SigmarNode::Copper => Some(SigmarNode::Iron),
        SigmarNode::Silver => Some(SigmarNode::Copper),
        SigmarNode::Gold => Some(SigmarNode::Silver),
        _ => None,
    }
}

/// The metal one step above `n` in the chain Lead, Tin, Iron, Copper, Silver, Gold.
pub open spec fn higher(n: SigmarNode) -> Option<SigmarNode> {
    match n {
        SigmarNode::Lead => Some(SigmarNode::Tin),
        SigmarNode::Tin => Some(SigmarNode::Iron),
        SigmarNode::Iron => Some(SigmarNode::Copper),
        SigmarNode::Copper => Some(SigmarNode::Silver),
        SigmarNode::Silver => Some(SigmarNode::Gold),
        _ => None,
    }
}

/// `k` copies of `n`.
pub open spec fn copies(n: SigmarNode, k: nat) -> Seq<SigmarNode> {
    Seq::new(k, |i: int| n)
}

/// The marbles of a standard game, less the Gold for the centre: eight of
/// each prime element, four Salt, two Aether when asked for, and each of
/// Lead to Silver followed by a Quicksilver.
pub open spec fn standard_bank(aether: bool) -> Seq<SigmarNode> {
    copies(SigmarNode::Water, 8) + copies(SigmarNode::Earth, 8) + copies(SigmarNode::Fire, 8)
        + copies(SigmarNode::Air, 8) + copies(SigmarNode::Salt, 4) + copies(SigmarNode::Aether, if aether { 2 } else { 0 })
        + seq![
        SigmarNode::Lead,
        SigmarNode::Quicksilver,
        SigmarNode::Tin,
        SigmarNode::Quicksilver,
        SigmarNode::Iron,
        SigmarNode::Quicksilver,
        SigmarNode::Copper,
        SigmarNode::Quicksilver,
        SigmarNode::Silver,
        SigmarNode::Quicksilver,
    ]
}

/// Appends `k` copies of `n` to `v`.
fn push_copies(v: &mut Vec<SigmarNode>, n: SigmarNode, k: usize)
    ensures
        final(v)@ == old(v)@ + copies(n, k as nat),
{
    let mut i: usize = 0;
    while i < k
        invariant
            i <= k,
            v@ == old(v)@ + copies(n, i as nat),
        decreases k - i,
    {
        v.push(n);
        i = i + 1;
        assert(v@ =~= old(v)@ + copies(n, i as nat));
    }
}

/// The position of `n` in the order of the marbles.
pub open spec fn rank(n: SigmarNode) -> u8 {
    match n {
        SigmarNode::Salt => 0,
        SigmarNode::Aether => 1,
        SigmarNode::Water => 2,
        SigmarNode::Earth => 3,
        SigmarNode::Fire => 4,
        SigmarNode::Air => 5,
        SigmarNode::Quicksilver => 6,
        SigmarNode::Lead => 7,
        SigmarNode::Tin => 8,
        SigmarNode::Iron => 9,
        SigmarNode::Copper => 10,
        SigmarNode::Silver => 11,
        SigmarNode::Gold => 12,
        SigmarNode::Vitae => 13,
        SigmarNode::Mors => 14,
    }
}

/// The marble at position `r` in the order of the marbles.
pub open spec fn of_rank(r: u8) -> SigmarNode {
    if r == 0 { SigmarNode::Salt }
    else if r == 1 { SigmarNode::Aether }
    else if r == 2 { SigmarNode::Water }
    else if r == 3 { SigmarNode::Earth }
    else if r == 4 { SigmarNode::Fire }
    else if r == 5 { SigmarNode::Air }
    else if r == 6 { SigmarNode::Quicksilver }
    else if r == 7 { SigmarNode::Lead }
    else if r == 8 { SigmarNode::Tin }
    else if r == 9 { SigmarNode::Iron }
    else if r == 10 { SigmarNode::Copper }
    else if r == 11 { SigmarNode::Silver }
    else if r == 12 { SigmarNode::Gold }
    else if r == 13 { SigmarNode::Vitae }
    else { SigmarNode::Mors }
}

/// The ranks of the marbles `s`, in non-decreasing order.
pub open spec fn sorted_ranks(s: Seq<SigmarNode>) -> Seq<u8> {
    s.map_values(|n: SigmarNode| rank(n)).sort_by(|x: u8, y: u8| x <= y)
}

/// Whether `a` cancels with `b` as a pair.
pub open spec fn cancels(a: SigmarNode, b: SigmarNode) -> bool {
    match a {
        SigmarNode::Salt => prime(b),
        SigmarNode::Quicksilver => higher(b) is Some,
        SigmarNode::Vitae => b is Mors,
        _ => prime(a) && a == b,
    }
}

/// What selecting the marbles `s` together does, read off their sorted order
/// `t`: a cancelling pair goes, and Aether with four distinct prime elements
/// goes, fewer of them wait for more.
pub open spec fn select_spec(s: Seq<SigmarNode>) -> PartialResult<Seq<Option<SigmarNode>>> {
    let t = sorted_ranks(s);
    if t.len() == 1 {
        PartialResult::Continue
    } else if t.len() == 2 && cancels(of_rank(t[0]), of_rank(t[1])) {
        PartialResult::Success(seq![None, None])
    } else if t.len() >= 1 && t[0] == 1 && (forall|i: int| 1 <= i < t.len() ==> 2 <= #[trigger] t[i] <= 5)
        && (forall|i: int| 1 <= i < t.len() - 1 ==> t[i] != #[trigger] t[i + 1]) {
        if t.len() == 5 {
            PartialResult::Success(Seq::new(5, |i: int| None))
        } else {
            PartialResult::Continue
        }
    } else {
        PartialResult::Failure
    }
}

impl SigmarNode {
    /// The position of this marble in the order of the marbles.
    pub fn rank(&self) -> (r: u8)
        ensures
            r == rank(*self),
    {
        match self {
            SigmarNode::Salt => 0,
            SigmarNode::Aether => 1,
            SigmarNode::Water => 2,
            SigmarNode::Earth => 3,
            SigmarNode::Fire => 4,
            SigmarNode::Air => 5,
            SigmarNode::Quicksilver => 6,
            SigmarNode::Lead => 7,
            SigmarNode::Tin => 8,
            SigmarNode::Iron => 9,
            SigmarNode::Copper => 10,
            SigmarNode::Silver => 11,
            SigmarNode::Gold => 12,
            SigmarNode::Vitae => 13,
            SigmarNode::Mors => 14,
        }
    }

    /// The marble at position `r` in the order of the marbles.
    pub fn of_rank(r: u8) -> (n: SigmarNode)
        ensures
            n == of_rank(r),
    {
        if r == 0 { SigmarNode::Salt }
        else if r == 1 { SigmarNode::Aether }
        else if r == 2 { SigmarNode::Water }
        else if r == 3 { SigmarNode::Earth }
        else if r == 4 { SigmarNode::Fire }
        else if r == 5 { SigmarNode::Air }
        else if r == 6 { SigmarNode::Quicksilver }
        else if r == 7 { SigmarNode::Lead }
        else if r == 8 { SigmarNode::Tin }
        else if r == 9 { SigmarNode::Iron }
        else if r == 10 { SigmarNode::Copper }
        else if r == 11 { SigmarNode::Silver }
        else if r == 12 { SigmarNode::Gold }
        else if r == 13 { SigmarNode::Vitae }
        else { SigmarNode::Mors }
    }

    /// Whether the marbles `nodes` may be selected together, and if they
    /// complete a pattern, what each turns into (`None`: it is removed).
    pub fn select(nodes: &[SigmarNode]) -> (r: PartialResult<Vec<Option<SigmarNode>>>)
        requires
            nodes@.len() > 0,
        ensures
            match (r, select_spec(nodes@)) {
                (PartialResult::Success(v), PartialResult::Success(w)) => v@ == w,
                (PartialResult::Continue, PartialResult::Continue) => true,
                (PartialResult::Failure, PartialResult::Failure) => true,
                _ => false,
            },
    {
        let ghost s = nodes@;
        let ghost rk = s.map_values(|n: SigmarNode| rank(n));
        let mut rs: Vec<u8> = Vec::new();
        let mut i: usize = 0;
        while i < nodes.len()
            invariant
                i <= nodes@.len(),
                rk == nodes@.map_values(|n: SigmarNode| rank(n)),
                rs@ == rk.subrange(0, i as int),
            decreases nodes.len() - i,
        {
            rs.push(nodes[i].rank());
            assert(rs@ =~= rk.subrange(0, i as int + 1));
            i = i + 1;
        }
        assert(rs@ =~= rk);
        let t = sort_ranks(rs);
        proof {
            let leq = |x: u8, y: u8| x <= y;
            assert(vstd::relations::total_ordering(leq));
            rk.lemma_sort_by_ensures(leq);
            vstd::seq_lib::lemma_sorted_unique(t@, rk.sort_by(leq), leq);
            assert(t@.len() == rk.len()) by {
                assert(t@.to_multiset().len() == rk.to_multiset().len());
                vstd::seq_lib::to_multiset_len(t@);
                vstd::seq_lib::to_multiset_len(rk);
            }
        }
        assert(t@ == sorted_ranks(s));
        let n = t.len();
        if n == 1 {
            return PartialResult::Continue;
        }
        if n == 2 && SigmarNode::of_rank(t[0]).cancels_with(&SigmarNode::of_rank(t[1])) {
            let v: Vec<Option<SigmarNode>> = vec![None, None];
            assert(v@ =~= seq![None, None]);
            return PartialResult::Success(v);
        }
        if n >= 1 && t[0] == 1 {
            let mut ok = true;
            let mut k: usize = 1;
            while k < n
                invariant
                    n == t@.len(),
                    1 <= k <= n,
                    ok == ((forall|q: int| 1 <= q < k ==> 2 <= #[trigger] t@[q] <= 5)
                        && (forall|q: int| 1 <= q < k - 1 ==> t@[q] != #[trigger] t@[q + 1])),
                decreases n - k,
            {
                if t[k] < 2 || t[k] > 5 {
                    ok = false;
                }
                if k >= 2 && t[k - 1] == t[k] {
                    ok = false;
                    assert(t@[(k - 1) as int] == t@[(k - 1) as int + 1]);
                }
                k = k + 1;
            }
            if ok {
                if n == 5 {
                    let v: Vec<Option<SigmarNode>> = vec![None, None, None, None, None];
                    assert(v@ =~= Seq::new(5, |i: int| None::<SigmarNode>));
                    return PartialResult::Success(v);
                } else {
                    return PartialResult::Continue;
                }
            }
        }
        PartialResult::Failure
    }

    /// The name of the game.
    pub fn name() -> &'static str {
        "sigmar"
    }

    /// The name of the texture this marble is drawn with.
    pub fn texture_name(&self) -> &'static str {
        match self {
            SigmarNode::Salt => "salt",
            SigmarNode::Aether => "aether",
            SigmarNode::Water => "water",
            SigmarNode::Earth => "earth",
            SigmarNode::Fire => "fire",
            SigmarNode::Air => "air",
            SigmarNode::Quicksilver => "quicksilver",
            SigmarNode::Lead => "lead",
            SigmarNode::Tin => "tin",
            SigmarNode::Iron => "iron",
            SigmarNode::Copper => "copper",
            SigmarNode::Silver => "silver",
            SigmarNode::Gold => "gold",
            SigmarNode::Vitae => "vitae",
            SigmarNode::Mors => "mors",
        }
    }

    /// Is this one of the four prime elements?
    pub fn is_prime(&self) -> (r: bool)
        ensures
            r == prime(*self),
    {
        matches!(self, SigmarNode::Water | SigmarNode::Earth | SigmarNode::Fire | SigmarNode::Air)
    }

    /// The metal one step below this one.
    pub fn downgrade(&self) -> (r: Option<SigmarNode>)
        ensures
            r == lower(*self),
    {
        match self {
            SigmarNode::Tin => Some(SigmarNode::Lead),
            SigmarNode::Iron => Some(SigmarNode::Tin),
            SigmarNode::Copper => Some(SigmarNode::Iron),
            SigmarNode::Silver => Some(SigmarNode::Copper),
            SigmarNode::Gold => Some(SigmarNode::Silver),
            _ => None,
        }
    }

    /// The metal one step above this one.
    pub fn upgrade(&self) -> (r: Option<SigmarNode>)
        ensures
            r == higher(*self),
    {
        match self {
            SigmarNode::Lead => Some(SigmarNode::Tin),
            SigmarNode::Tin => Some(SigmarNode::Iron),
            SigmarNode::Iron => Some(SigmarNode::Copper),
            SigmarNode::Copper => Some(SigmarNode::Silver),
            SigmarNode::Silver => Some(SigmarNode::Gold),
            _ => None,
        }
    }

    /// Does this cancel as a pair with `other`? Salt takes any prime element,
    /// Quicksilver any metal below Gold, Vitae takes Mors, and a prime
    /// element takes its like.
    pub fn cancels_with(&self, other: &SigmarNode) -> (r: bool)
        ensures
            r == match *self {
                SigmarNode::Salt => prime(*other),
                SigmarNode::Quicksilver => higher(*other) is Some,
                SigmarNode::Vitae => *other is Mors,
                _ => prime(*self) && *self == *other,
            },
    {
        match self {
            SigmarNode::Salt => other.is_prime(),
            SigmarNode::Quicksilver => other.upgrade().is_some(),
            SigmarNode::Vitae => matches!(other, SigmarNode::Mors),
            _ => self.is_prime() && *self == *other,
        }
    }

    /// The marbles of a standard game, less the Gold for the centre.
    pub fn standard_game(aether: bool) -> (r: Vec<SigmarNode>)
        ensures
            r@ == standard_bank(aether),
    {
        let mut game: Vec<SigmarNode> = Vec::new();
        push_copies(&mut game, SigmarNode::Water, 8);
        push_copies(&mut game, SigmarNode::Earth, 8);
        push_copies(&mut game, SigmarNode::Fire, 8);
        push_copies(&mut game, SigmarNode::Air, 8);
        push_copies(&mut game, SigmarNode::Salt, 4);
        push_copies(&mut game, SigmarNode::Aether, if aether { 2 } else { 0 });
        let ghost before = game@;
        game.push(SigmarNode::Lead);
        game.push(SigmarNode::Quicksilver);
        game.push(SigmarNode::Tin);
        game.push(SigmarNode::Quicksilver);
        game.push(SigmarNode::Iron);
        game.push(SigmarNode::Quicksilver);
        game.push(SigmarNode::Copper);
        game.push(SigmarNode::Quicksilver);
        game.push(SigmarNode::Silver);
        game.push(SigmarNode::Quicksilver);
        assert(game@ =~= standard_bank(aether));
        game
    }
}

} // verus!
