use mofang_engine::change::{self, ChangeParser, ChangeTree, Checker, PredicateMap};
use mofang_engine::condition::{self, ConditionMap, ConditionParser};
use mofang_engine::data::{Coord, DataGame, DataNode, Identifier};
use mofang_engine::evaluation::{EvalContext, EvalValue};
use mofang_engine::json::Json;
use mofang_engine::nodes::PartialResult;
use mofang_engine::scope::Scope;

fn s(x: &str) -> Json {
    Json::String(x.to_string())
}

fn arr(v: Vec<Json>) -> Json {
    Json::Array(v)
}

fn obj(fields: Vec<(&str, Json)>) -> Json {
    Json::Object(fields.into_iter().map(|(k, v)| (k.to_string(), v)).collect())
}

fn node(name: &str) -> DataNode {
    DataNode::new(Identifier::parse(name, "game").unwrap())
}

fn game() -> DataGame {
    let mut g = DataGame::new("game");
    for n in ["wood", "fire", "earth", "metal", "water", "iron", "copper", "a", "b", "ash"] {
        g.add_node(node(n));
    }
    g.add_tag("metal", vec![node("iron"), node("copper")]);
    g.add_mapping("burns", vec![(node("wood"), node("ash"))]);
    g
}

fn tables() -> (ConditionMap, PredicateMap) {
    let mut cm = ConditionMap::new();
    condition::register(&mut cm);
    let mut pm = PredicateMap::new();
    change::register(&mut pm);
    (cm, pm)
}

fn parse_rule(g: &DataGame, cm: &ConditionMap, pm: &PredicateMap, rule: &Json) -> Result<Checker, String> {
    let cp = ConditionParser::new(g, cm);
    let parser = ChangeParser::new(g, &cp, pm);
    parser.parse(rule)
}

fn ctx(g: &DataGame) -> EvalContext<'_> {
    EvalContext { pos: Coord { x: 0, y: 0 }, game: g, scope: Scope::new(Vec::new()) }
}

fn names(v: &[Option<DataNode>]) -> Vec<Option<String>> {
    v.iter().map(|n| n.as_ref().map(|d| d.name().as_str().to_string())).collect()
}

#[test]
fn identifier_bare_name_takes_ambient_namespace() {
    assert_eq!(Identifier::parse("foo", "game").unwrap().as_str(), "game:foo");
}

#[test]
fn identifier_qualified_name_is_kept() {
    assert_eq!(Identifier::parse("other:foo", "game").unwrap().as_str(), "other:foo");
}

#[test]
fn identifier_with_two_separators_is_refused() {
    assert!(Identifier::parse("a:b:c", "game").is_err());
}

#[test]
fn scope_binding_lives_until_its_frame_is_popped() {
    let mut sc: Scope<i64> = Scope::new(Vec::new());
    sc.push();
    sc.add("x".to_string(), 1);
    assert_eq!(sc.get("x"), Some(&1));
    sc.pop();
    assert_eq!(sc.get("x"), None);
}

#[test]
fn scope_empty_pushes_balance() {
    let mut sc: Scope<i64> = Scope::new(vec![("y".to_string(), 7)]);
    sc.push();
    sc.push();
    sc.pop();
    sc.pop();
    assert_eq!(sc.get("y"), Some(&7));
    sc.add("z".to_string(), 3);
    assert_eq!(sc.get("z"), Some(&3));
    sc.pop();
    assert_eq!(sc.get("z"), Some(&3));
}

#[test]
fn scope_inner_binding_shadows_outer() {
    let mut sc: Scope<i64> = Scope::new(vec![("x".to_string(), 1)]);
    sc.push();
    sc.push();
    sc.add("x".to_string(), 2);
    assert_eq!(sc.get("x"), Some(&2));
    sc.pop();
    assert_eq!(sc.get("x"), Some(&1));
}

#[test]
fn simple_matcher_classifies() {
    let g = game();
    let (cm, pm) = tables();
    let rule = parse_rule(&g, &cm, &pm, &obj(vec![("input", arr(vec![s("wood"), s("wood"), s("fire")]))])).unwrap();
    let mut c = ctx(&g);
    assert!(matches!(rule.test(&mut c, &[node("fire"), node("wood")]).unwrap(), PartialResult::Continue));
    match rule.test(&mut c, &[node("wood"), node("wood"), node("fire")]).unwrap() {
        PartialResult::Success(v) => assert_eq!(names(&v), vec![None, None, None]),
        _ => panic!("expected a match"),
    }
    assert!(matches!(rule.test(&mut c, &[node("fire"), node("fire")]).unwrap(), PartialResult::Failure));
}

#[test]
fn complex_matcher_classifies() {
    let g = game();
    let (cm, pm) = tables();
    let metal = || obj(vec![("type", s("engine:mapping-key")), ("tag", s("metal"))]);
    let rule = parse_rule(&g, &cm, &pm, &obj(vec![("input", arr(vec![metal(), metal()]))])).unwrap();
    let mut c = ctx(&g);
    assert!(matches!(rule.test(&mut c, &[node("iron")]).unwrap(), PartialResult::Continue));
    assert!(matches!(rule.test(&mut c, &[node("iron"), node("copper")]).unwrap(), PartialResult::Success(_)));
    assert!(matches!(rule.test(&mut c, &[node("wood")]).unwrap(), PartialResult::Failure));
    assert!(matches!(rule.test(&mut c, &[node("wood"), node("fire")]).unwrap(), PartialResult::Failure));
    // An empty selection can still grow into a match.
    assert!(matches!(rule.test(&mut c, &[]).unwrap(), PartialResult::Continue));
}

#[test]
fn guard_false_is_failure() {
    let g = game();
    let (cm, pm) = tables();
    let rule = parse_rule(
        &g,
        &cm,
        &pm,
        &obj(vec![("input", arr(vec![s("wood"), s("fire")])), ("guard", Json::Bool(false))]),
    )
    .unwrap();
    let mut c = ctx(&g);
    assert!(matches!(rule.test(&mut c, &[node("wood"), node("fire")]).unwrap(), PartialResult::Failure));
}

#[test]
fn chain_bindings_reach_the_child_link() {
    let g = game();
    let (cm, pm) = tables();
    let tagged = obj(vec![("type", s("engine:mapping-key")), ("tag", s("metal")), ("bind", s("m"))]);
    let child = obj(vec![
        ("input", arr(vec![s("b")])),
        ("guard", obj(vec![("type", s("engine:equals")), ("values", arr(vec![s("@m"), s("iron")]))])),
        ("result", arr(vec![s("@m")])),
    ]);
    let rule = parse_rule(
        &g,
        &cm,
        &pm,
        &obj(vec![
            ("input", arr(vec![tagged, s("a")])),
            ("result", arr(vec![s("fire"), Json::Null])),
            ("next", child),
        ]),
    )
    .unwrap();
    let mut c = ctx(&g);
    match rule.test(&mut c, &[node("a"), node("iron"), node("b")]).unwrap() {
        PartialResult::Success(v) => assert_eq!(
            names(&v),
            vec![None, Some("game:fire".to_string()), Some("game:iron".to_string())]
        ),
        _ => panic!("expected a match"),
    }
    assert!(matches!(rule.test(&mut c, &[node("a"), node("copper"), node("b")]).unwrap(), PartialResult::Failure));
    assert!(c.scope.get("m").is_none());
}

#[test]
fn two_same_then_child_chain() {
    let g = game();
    let (cm, pm) = tables();
    let child = obj(vec![("input", arr(vec![s("b")]))]);
    let rule = parse_rule(&g, &cm, &pm, &obj(vec![("input", arr(vec![s("a"), s("a")])), ("next", child)])).unwrap();
    let mut c = ctx(&g);
    match rule.test(&mut c, &[node("a"), node("a"), node("b")]).unwrap() {
        PartialResult::Success(v) => assert_eq!(v.len(), 3),
        _ => panic!("expected a match"),
    }
    assert!(matches!(rule.test(&mut c, &[node("a"), node("a")]).unwrap(), PartialResult::Continue));
}

#[test]
fn change_tree_first_success_wins() {
    let g = game();
    let (cm, pm) = tables();
    let r1 = parse_rule(&g, &cm, &pm, &obj(vec![("input", arr(vec![s("wood"), s("wood"), s("fire")]))])).unwrap();
    let r2 = parse_rule(
        &g,
        &cm,
        &pm,
        &obj(vec![("input", arr(vec![s("wood"), s("fire")])), ("result", arr(vec![s("ash"), Json::Null]))]),
    )
    .unwrap();
    let tree = ChangeTree::new(vec![r1, r2]);
    let mut c = ctx(&g);
    match tree.test(&mut c, &[node("wood"), node("fire")]).unwrap() {
        PartialResult::Success(v) => assert_eq!(names(&v), vec![Some("game:ash".to_string()), None]),
        _ => panic!("expected a match"),
    }
    assert!(matches!(tree.test(&mut c, &[node("wood")]).unwrap(), PartialResult::Continue));
    assert!(matches!(tree.test(&mut c, &[node("metal")]).unwrap(), PartialResult::Failure));
}

#[test]
fn mapping_predicate_binds_key_and_value() {
    let g = game();
    let (cm, pm) = tables();
    let burns = obj(vec![("type", s("engine:tag")), ("mapping", s("burns")), ("bind-key", s("k")), ("bind-val", s("v"))]);
    let rule = parse_rule(&g, &cm, &pm, &obj(vec![("input", arr(vec![burns])), ("result", arr(vec![s("@v")]))])).unwrap();
    let mut c = ctx(&g);
    match rule.test(&mut c, &[node("wood")]).unwrap() {
        PartialResult::Success(v) => assert_eq!(names(&v), vec![Some("game:ash".to_string())]),
        _ => panic!("expected a match"),
    }
    assert!(matches!(rule.test(&mut c, &[node("fire")]).unwrap(), PartialResult::Failure));
}

#[test]
fn rule_errors() {
    let g = game();
    let (cm, pm) = tables();
    assert!(parse_rule(&g, &cm, &pm, &obj(vec![("input", arr(vec![s("nothing")]))])).is_err());
    assert!(parse_rule(&g, &cm, &pm, &obj(vec![("input", arr(vec![s("a:b:c")]))])).is_err());
    assert!(parse_rule(&g, &cm, &pm, &s("wood")).is_err());
    assert!(parse_rule(&g, &cm, &pm, &obj(vec![("input", s("wood"))])).is_err());
    assert!(parse_rule(
        &g,
        &cm,
        &pm,
        &obj(vec![("input", arr(vec![s("wood"), s("fire")])), ("result", arr(vec![Json::Null]))])
    )
    .is_err());
    assert!(parse_rule(&g, &cm, &pm, &obj(vec![("input", arr(vec![obj(vec![("type", s("nope"))])]))])).is_err());
    assert!(parse_rule(
        &g,
        &cm,
        &pm,
        &obj(vec![("input", arr(vec![obj(vec![("type", s("engine:mapping-key")), ("tag", s("nope"))])]))])
    )
    .is_err());
}

#[test]
fn unbound_name_is_an_evaluation_error() {
    let g = game();
    let (cm, pm) = tables();
    let rule = parse_rule(&g, &cm, &pm, &obj(vec![("input", arr(vec![s("wood")])), ("result", arr(vec![s("@nope")]))])).unwrap();
    let mut c = ctx(&g);
    assert!(rule.test(&mut c, &[node("wood")]).is_err());
    assert!(c.scope.get("nope").is_none());
}

#[test]
fn guard_of_wrong_kind_is_an_error() {
    let g = game();
    let (cm, pm) = tables();
    let rule = parse_rule(&g, &cm, &pm, &obj(vec![("input", arr(vec![s("wood")])), ("guard", Json::Number(3))])).unwrap();
    let mut c = ctx(&g);
    assert!(rule.test(&mut c, &[node("wood")]).is_err());
}

fn eval_json(g: &DataGame, j: &Json) -> Result<EvalValue, String> {
    let (cm, _) = tables();
    let cp = ConditionParser::new(g, &cm);
    let e = cp.parse(j)?;
    let c = ctx(g);
    e.evaluate(&c)
}

#[test]
fn expressions_evaluate() {
    let g = game();
    let iff = obj(vec![("type", s("engine:if")), ("cond", Json::Bool(false)), ("then", Json::Number(1)), ("else", Json::Number(2))]);
    assert!(matches!(eval_json(&g, &iff), Ok(EvalValue::Number(2))));
    let and = obj(vec![("type", s("engine:and")), ("values", arr(vec![Json::Bool(true), Json::Bool(false), Json::Number(1)]))]);
    assert!(matches!(eval_json(&g, &and), Ok(EvalValue::Bool(false))));
    let or = obj(vec![("type", s("engine:or")), ("values", arr(vec![Json::Bool(false), Json::Bool(true), Json::Number(1)]))]);
    assert!(matches!(eval_json(&g, &or), Ok(EvalValue::Bool(true))));
    let bad_and = obj(vec![("type", s("engine:and")), ("values", arr(vec![Json::Number(1)]))]);
    assert!(eval_json(&g, &bad_and).is_err());
    let eq_empty = obj(vec![("type", s("engine:equals")), ("values", arr(vec![]))]);
    assert!(matches!(eval_json(&g, &eq_empty), Ok(EvalValue::Bool(true))));
    let eq = obj(vec![("type", s("engine:equals")), ("values", arr(vec![arr(vec![s("wood"), Json::Null]), arr(vec![s("game:wood"), Json::Null])]))]);
    assert!(matches!(eval_json(&g, &eq), Ok(EvalValue::Bool(true))));
    let neq = obj(vec![("type", s("engine:equals")), ("values", arr(vec![s("wood"), s("fire")]))]);
    assert!(matches!(eval_json(&g, &neq), Ok(EvalValue::Bool(false))));
    match eval_json(&g, &arr(vec![Json::Number(5), Json::Null])) {
        Ok(EvalValue::Array(v)) => {
            assert_eq!(v.len(), 2);
            assert!(matches!(v[0], EvalValue::Number(5)));
            assert!(matches!(v[1], EvalValue::Node(None)));
        },
        _ => panic!("expected an array"),
    }
    assert!(eval_json(&g, &obj(vec![("type", s("unknown"))])).is_err());
    assert!(eval_json(&g, &obj(vec![("type", s("engine:if")), ("cond", Json::Bool(true))])).is_err());
    assert!(eval_json(&g, &s("unknown")).is_err());
}

#[test]
fn contiguous_neighbors_counts_open_run() {
    let mut g = game();
    let nb = |v: i64| obj(vec![("type", s("engine:contiguous-neighbors")), ("value", Json::Number(v))]);
    assert!(matches!(eval_json(&g, &nb(6)), Ok(EvalValue::Bool(true))));
    assert!(matches!(eval_json(&g, &nb(7)), Ok(EvalValue::Bool(false))));
    // Occupy the neighbours in directions 0 and 3: two runs of two empty cells.
    g.set_node(Coord { x: 0, y: 1 }, Some(node("wood")));
    g.set_node(Coord { x: 0, y: -1 }, Some(node("wood")));
    assert!(matches!(eval_json(&g, &nb(2)), Ok(EvalValue::Bool(true))));
    assert!(matches!(eval_json(&g, &nb(3)), Ok(EvalValue::Bool(false))));
    // Directions 0 and 1 occupied: one run of four.
    g.set_node(Coord { x: 0, y: -1 }, None);
    g.set_node(Coord { x: 1, y: 0 }, Some(node("fire")));
    assert!(matches!(eval_json(&g, &nb(4)), Ok(EvalValue::Bool(true))));
    assert!(matches!(eval_json(&g, &nb(5)), Ok(EvalValue::Bool(false))));
}

#[test]
fn registering_a_taken_name_is_refused() {
    let mut cm = ConditionMap::new();
    assert!(cm.insert(Identifier::parse("x", "engine").unwrap(), condition::Builtin::If));
    assert!(!cm.insert(Identifier::parse("engine:x", "game").unwrap(), condition::Builtin::Or));
    assert_eq!(cm.lookup(&Identifier::parse("engine:x", "z").unwrap()), Some(condition::Builtin::If));
}

#[test]
fn game_board_lookup() {
    let mut g = game();
    assert!(g.get_node(Coord { x: 2, y: 3 }).is_none());
    g.set_node(Coord { x: 2, y: 3 }, Some(node("metal")));
    assert_eq!(g.get_node(Coord { x: 2, y: 3 }).unwrap().name().as_str(), "game:metal");
    assert_eq!(g.lookup_tag("metal").unwrap().len(), 2);
    assert!(g.lookup_mapping("nope").is_none());
}

fn simple_names(c: &Checker) -> Vec<String> {
    match &c.predicate {
        mofang_engine::matcher::Matcher::Simple(ns) => ns.iter().map(|n| n.name().as_str().to_string()).collect(),
        _ => panic!("expected a fixed multiset"),
    }
}

#[test]
fn literal_pattern_is_sorted_and_results_follow_their_slots() {
    let g = game();
    let (cm, pm) = tables();
    let r1 = parse_rule(
        &g,
        &cm,
        &pm,
        &obj(vec![("input", arr(vec![s("wood"), s("fire"), s("earth")])), ("result", arr(vec![s("ash"), Json::Null, s("metal")]))]),
    )
    .unwrap();
    let r2 = parse_rule(
        &g,
        &cm,
        &pm,
        &obj(vec![("input", arr(vec![s("earth"), s("wood"), s("fire")])), ("result", arr(vec![s("metal"), s("ash"), Json::Null]))]),
    )
    .unwrap();
    assert_eq!(simple_names(&r1), vec!["game:earth", "game:fire", "game:wood"]);
    assert_eq!(simple_names(&r2), simple_names(&r1));
    let mut c = ctx(&g);
    for rule in [&r1, &r2] {
        match rule.test(&mut c, &[node("fire"), node("wood"), node("earth")]).unwrap() {
            PartialResult::Success(v) => assert_eq!(
                names(&v),
                vec![None, Some("game:ash".to_string()), Some("game:metal".to_string())]
            ),
            _ => panic!("expected a match"),
        }
    }
}

#[test]
fn chain_results_cover_every_position() {
    let g = game();
    let (cm, pm) = tables();
    let child = obj(vec![("input", arr(vec![s("b")])), ("guard", Json::Null), ("result", arr(vec![s("water")])), ("next", Json::Null)]);
    let rule = parse_rule(
        &g,
        &cm,
        &pm,
        &obj(vec![
            ("input", arr(vec![s("a"), s("a")])),
            ("guard", Json::Null),
            ("result", arr(vec![s("fire"), s("earth")])),
            ("next", child),
        ]),
    )
    .unwrap();
    let mut c = ctx(&g);
    match rule.test(&mut c, &[node("a"), node("a"), node("b")]).unwrap() {
        PartialResult::Success(v) => assert_eq!(
            names(&v),
            vec![Some("game:fire".to_string()), Some("game:earth".to_string()), Some("game:water".to_string())]
        ),
        _ => panic!("expected a match"),
    }
}
