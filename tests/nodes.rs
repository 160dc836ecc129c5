use mofang_engine::mofang::MofangNode;
use mofang_engine::nodes::{all_unique, Node, PartialResult};
use mofang_engine::sigmar::SigmarNode;

#[test]
fn node_cancellations() {
    assert!(Node::Fire.cancels_with(&Node::Metal));
    assert!(!Node::Metal.cancels_with(&Node::Fire));
    assert!(Node::Qi.cancels_with(&Node::Qi));
    assert!(!Node::Human.cancels_with(&Node::Human));
}

#[test]
fn node_changes() {
    assert_eq!(Node::Water.change(), Some(Node::Wood));
    assert_eq!(Node::Human.change(), Some(Node::Heavenly));
    assert_eq!(Node::Qi.change(), None);
    assert!(Node::Earthly.can_change());
    assert!(!Node::Yin.can_change());
    assert_eq!(Node::Qi.freeness_req(), 5);
    assert_eq!(Node::Wood.freeness_req(), 3);
    assert!(Node::Metal.is_elemental());
    assert!(!Node::Yang.is_elemental());
}

#[test]
fn all_unique_checks_neighbours() {
    assert!(all_unique(&[]));
    assert!(all_unique(&[Node::Wood, Node::Fire, Node::Wood]));
    assert!(!all_unique(&[Node::Wood, Node::Fire, Node::Fire]));
}

#[test]
fn partial_result_validity() {
    assert!(PartialResult::<u8>::Continue.is_valid());
    assert!(PartialResult::Success(1u8).is_valid());
    assert!(!PartialResult::<u8>::Failure.is_valid());
}

#[test]
fn mofang_tables() {
    let bank = MofangNode::standard_game();
    assert_eq!(bank.len(), 52);
    assert_eq!(bank.iter().filter(|n| **n == MofangNode::Qi).count(), 3);
    assert!(MofangNode::Wood.cancels_with(&MofangNode::Earth));
    assert_eq!(MofangNode::Earth.change(), Some(MofangNode::Metal));
    assert!(MofangNode::Water.is_elemental());
    assert_eq!(MofangNode::Qi.freeness_req(), 5);
    assert_eq!(MofangNode::Yin.texture_name(), "yin");
}

#[test]
fn sigmar_tables() {
    assert_eq!(SigmarNode::standard_game(false).len(), 46);
    assert_eq!(SigmarNode::standard_game(true).len(), 48);
    assert!(SigmarNode::Salt.cancels_with(&SigmarNode::Air));
    assert!(SigmarNode::Quicksilver.cancels_with(&SigmarNode::Silver));
    assert!(!SigmarNode::Quicksilver.cancels_with(&SigmarNode::Gold));
    assert!(SigmarNode::Fire.cancels_with(&SigmarNode::Fire));
    assert!(!SigmarNode::Gold.cancels_with(&SigmarNode::Gold));
    assert_eq!(SigmarNode::Gold.downgrade(), Some(SigmarNode::Silver));
    assert_eq!(SigmarNode::Lead.upgrade(), Some(SigmarNode::Tin));
    assert!(SigmarNode::Air.is_prime());
}

fn success(r: PartialResult<Vec<Option<Node>>>) -> Vec<Option<Node>> {
    match r {
        PartialResult::Success(v) => v,
        _ => panic!("expected a success"),
    }
}

#[test]
fn select_pairs() {
    assert_eq!(success(Node::select(&[Node::Fire, Node::Metal])), vec![None, None]);
    assert_eq!(success(Node::select(&[Node::Yang, Node::Yin])), vec![Some(Node::Creation), Some(Node::Creation)]);
    assert_eq!(success(Node::select(&[Node::Human, Node::Fire])), vec![Some(Node::Fire), None]);
    assert_eq!(success(Node::select(&[Node::Fire, Node::Human])), vec![None, Some(Node::Fire)]);
    assert_eq!(success(Node::select(&[Node::Creation, Node::Wood])), vec![None, Some(Node::Fire)]);
    assert_eq!(success(Node::select(&[Node::Human, Node::Creation])), vec![Some(Node::Heavenly), None]);
    assert!(matches!(Node::select(&[Node::Qi, Node::Wood]), PartialResult::Failure));
    assert!(matches!(Node::select(&[Node::Qi]), PartialResult::Continue));
}

#[test]
fn select_cycle_and_destruction() {
    assert!(matches!(Node::select(&[Node::Human, Node::Heavenly]), PartialResult::Continue));
    assert_eq!(success(Node::select(&[Node::Human, Node::Earthly, Node::Heavenly])), vec![None, None, None]);
    assert!(matches!(Node::select(&[Node::Destruction, Node::Wood, Node::Fire]), PartialResult::Continue));
    assert!(matches!(Node::select(&[Node::Destruction, Node::Wood, Node::Wood]), PartialResult::Failure));
    assert!(matches!(Node::select(&[Node::Destruction, Node::Qi]), PartialResult::Failure));
    let all = [Node::Water, Node::Destruction, Node::Wood, Node::Metal, Node::Fire, Node::Earth];
    assert_eq!(success(Node::select(&all)), vec![None; 6]);
}

#[test]
fn mofang_select_follows_the_engine_table() {
    match MofangNode::select(&[MofangNode::Human, MofangNode::Water]) {
        PartialResult::Success(v) => assert_eq!(v, vec![Some(MofangNode::Water), None]),
        _ => panic!("expected a success"),
    }
    assert!(matches!(MofangNode::select(&[MofangNode::Heavenly, MofangNode::Earthly]), PartialResult::Continue));
    assert!(matches!(MofangNode::select(&[MofangNode::Qi, MofangNode::Fire]), PartialResult::Failure));
}

#[test]
fn sigmar_select() {
    match SigmarNode::select(&[SigmarNode::Water, SigmarNode::Salt]) {
        PartialResult::Success(v) => assert_eq!(v, vec![None, None]),
        _ => panic!("expected a success"),
    }
    match SigmarNode::select(&[SigmarNode::Lead, SigmarNode::Quicksilver]) {
        PartialResult::Success(v) => assert_eq!(v.len(), 2),
        _ => panic!("expected a success"),
    }
    assert!(matches!(SigmarNode::select(&[SigmarNode::Gold]), PartialResult::Continue));
    assert!(matches!(SigmarNode::select(&[SigmarNode::Fire, SigmarNode::Aether, SigmarNode::Air]), PartialResult::Continue));
    let five = [SigmarNode::Air, SigmarNode::Fire, SigmarNode::Aether, SigmarNode::Earth, SigmarNode::Water];
    match SigmarNode::select(&five) {
        PartialResult::Success(v) => assert_eq!(v, vec![None; 5]),
        _ => panic!("expected a success"),
    }
    assert!(matches!(SigmarNode::select(&[SigmarNode::Fire, SigmarNode::Aether, SigmarNode::Fire]), PartialResult::Failure));
    assert!(matches!(SigmarNode::select(&[SigmarNode::Gold, SigmarNode::Gold]), PartialResult::Failure));
}
