use roc_can::ast::{self, ApplyHead, Base, EscapedChar, FieldPattern, PatternType, StrLiteral, StrSegment};
use roc_can::canonicalize::{
    canonicalize_def_header_pattern, canonicalize_pattern, canonicalize_record_destructure, flatten_str_literal,
};
use roc_can::env::Env;
use roc_can::expr::Expr;
use roc_can::num::{IntLitWidth, IntValue, NumericBound};
use roc_can::output::Output;
use roc_can::pattern::{bindings_from_patterns, symbols_from_pattern, DestructType, Pattern, TagName};
use roc_can::problem::{BadPattern, MalformedPatternProblem, Problem, RuntimeError};
use roc_can::region::{Loc, Position, Region};
use roc_can::scope::{AbilitiesStore, OpaqueDef, Scope};
use roc_can::symbol::{Symbol, VarStore};

const HOME: u32 = 7;

fn reg(a: u32, b: u32) -> Region {
    Region::new(Position::new(a), Position::new(b))
}

fn loc<T>(a: u32, b: u32, value: T) -> Loc<T> {
    Loc::at(reg(a, b), value)
}

fn ident(name: &str) -> ast::Pattern {
    ast::Pattern::Identifier(name.to_string())
}

struct Ctx {
    env: Env,
    vars: VarStore,
    scope: Scope,
}

fn ctx() -> Ctx {
    Ctx { env: Env::new(HOME), vars: VarStore::new(), scope: Scope::new(HOME) }
}

fn can(c: &mut Ctx, pt: PatternType, p: &ast::Pattern, region: Region) -> (Output, Loc<Pattern>) {
    canonicalize_pattern(&mut c.env, &mut c.vars, &mut c.scope, pt, p, region)
}

fn name_of(c: &Ctx, s: Symbol) -> String {
    c.env.ident_ids.names[s.ident_id as usize].clone()
}

#[test]
fn record_with_guard_binds_only_what_the_guard_binds() {
    let mut c = ctx();
    let p = ast::Pattern::RecordDestructure(vec![
        loc(2, 3, FieldPattern::Identifier("x".to_string())),
        loc(5, 13, FieldPattern::RequiredField("y".to_string(), Box::new(loc(8, 13, ident("guard"))))),
    ]);
    let (out, r) = can(&mut c, PatternType::WhenBranch, &p, reg(0, 15));
    assert!(c.env.problems.is_empty());
    let destructs = match &r.value {
        Pattern::RecordDestructure { destructs, .. } => destructs,
        other => panic!("expected a record destructure, got {:?}", other),
    };
    assert_eq!(destructs.len(), 2);
    assert_eq!(destructs[0].value.label, "x");
    assert!(matches!(destructs[0].value.typ, DestructType::Required));
    assert_eq!(destructs[0].region, reg(2, 3));
    let x = destructs[0].value.symbol;
    assert_eq!(destructs[1].value.label, "y");
    let guard_symbol = match &destructs[1].value.typ {
        DestructType::Guard(_, g) => match g.value {
            Pattern::Identifier(s) => s,
            ref other => panic!("expected an identifier guard, got {:?}", other),
        },
        other => panic!("expected a guard, got {:?}", other),
    };
    let symbols = symbols_from_pattern(&r.value);
    assert_eq!(symbols, vec![x, guard_symbol]);
    for s in &symbols {
        assert_ne!(name_of(&c, *s), "y");
    }
    assert!(!out.bound_symbols.contains(&destructs[1].value.symbol));
    let label_y = destructs[1].value.symbol;
    let bindings = bindings_from_patterns(&vec![r]);
    assert_eq!(bindings, vec![(x, reg(2, 3)), (guard_symbol, reg(8, 13))]);
    assert!(bindings.iter().all(|(s, _)| *s != label_y));
    assert!(out.bound_symbols.contains(&x));
    assert!(out.bound_symbols.contains(&guard_symbol));
}

#[test]
fn tag_with_repeated_argument_shadows_once() {
    let mut c = ctx();
    let p = ast::Pattern::Apply(
        loc(0, 3, ApplyHead::GlobalTag("Foo".to_string())),
        vec![loc(4, 5, ident("a")), loc(6, 7, ident("a"))],
    );
    let (out, r) = can(&mut c, PatternType::WhenBranch, &p, reg(0, 7));
    let arguments = match &r.value {
        Pattern::AppliedTag { tag_name: TagName::Global(t), arguments, .. } => {
            assert_eq!(t, "Foo");
            arguments
        }
        other => panic!("expected an applied tag, got {:?}", other),
    };
    assert_eq!(arguments.len(), 2);
    let a1 = match arguments[0].1.value {
        Pattern::Identifier(s) => s,
        ref other => panic!("expected an identifier, got {:?}", other),
    };
    let a2 = match &arguments[1].1.value {
        Pattern::Shadowed(original, shadow, s) => {
            assert_eq!(*original, reg(4, 5));
            assert_eq!(shadow.value, "a");
            assert_eq!(shadow.region, reg(6, 7));
            *s
        }
        other => panic!("expected a shadowed pattern, got {:?}", other),
    };
    assert_ne!(a1, a2);
    assert_eq!(c.env.problems.len(), 1);
    assert_eq!(
        c.env.problems[0],
        Problem::RuntimeError(RuntimeError::Shadowing {
            original_region: reg(4, 5),
            shadow: loc(6, 7, "a".to_string()),
        })
    );
    assert_eq!(symbols_from_pattern(&r.value), vec![a1, a2]);
    assert!(out.bound_symbols.contains(&a1) && out.bound_symbols.contains(&a2));
}

#[test]
fn underscore_in_top_level_def_is_unsupported() {
    let mut c = ctx();
    let (_, r) = can(&mut c, PatternType::TopLevelDef, &ast::Pattern::Underscore(String::new()), reg(0, 1));
    assert!(matches!(r.value, Pattern::UnsupportedPattern(rg) if rg == reg(0, 1)));
    assert_eq!(c.env.problems, vec![Problem::UnsupportedPattern(BadPattern::UnderscoreInDef, reg(0, 1))]);
}

#[test]
fn underscore_gating_by_context() {
    for pt in [PatternType::WhenBranch, PatternType::FunctionArg] {
        let mut c = ctx();
        let (_, r) = can(&mut c, pt, &ast::Pattern::Underscore(String::new()), reg(0, 1));
        assert!(matches!(r.value, Pattern::Underscore));
        assert!(c.env.problems.is_empty());
    }
    let mut c = ctx();
    let (_, r) = can(&mut c, PatternType::DefExpr, &ast::Pattern::Underscore(String::new()), reg(0, 1));
    assert!(matches!(r.value, Pattern::UnsupportedPattern(_)));
    assert_eq!(c.env.problems.len(), 1);
}

#[test]
fn interpolation_in_string_pattern_is_unsupported_at_its_region() {
    let mut c = ctx();
    let lit = StrLiteral::Line(vec![
        StrSegment::Plaintext("abc".to_string()),
        StrSegment::Interpolated(loc(5, 9, ast::Expr::Var("name".to_string()))),
        StrSegment::Plaintext("def".to_string()),
    ]);
    let (_, r) = can(&mut c, PatternType::WhenBranch, &ast::Pattern::StrLiteral(lit), reg(0, 14));
    assert!(matches!(r.value, Pattern::UnsupportedPattern(rg) if rg == reg(5, 9)));
    assert_eq!(c.env.problems, vec![Problem::UnsupportedPattern(BadPattern::Interpolation, reg(5, 9))]);
}

#[test]
fn string_block_is_flattened_with_escapes() {
    let lit = StrLiteral::Block(vec![
        vec![StrSegment::Plaintext("ab".to_string()), StrSegment::EscapedChar(EscapedChar::Newline)],
        vec![StrSegment::Plaintext("cd".to_string()), StrSegment::EscapedChar(EscapedChar::Quote)],
        vec![StrSegment::EscapedChar(EscapedChar::Backslash), StrSegment::EscapedChar(EscapedChar::Tab)],
    ]);
    assert_eq!(flatten_str_literal(&lit), Ok("ab\ncd\"\\\t".to_string()));
    let mut c = ctx();
    let (_, r) = can(&mut c, PatternType::WhenBranch, &ast::Pattern::StrLiteral(lit), reg(0, 20));
    assert!(matches!(&r.value, Pattern::StrLiteral(s) if s == "ab\ncd\"\\\t"));
    assert!(c.env.problems.is_empty());
}

#[test]
fn unicode_escape_in_string_pattern_is_reported() {
    let lit = StrLiteral::Line(vec![
        StrSegment::Plaintext("x".to_string()),
        StrSegment::Unicode(loc(3, 7, "00e9".to_string())),
    ]);
    assert_eq!(flatten_str_literal(&lit), Err((BadPattern::UnicodeEscape, reg(3, 7))));
}

#[test]
fn plain_string_pattern() {
    let mut c = ctx();
    let p = ast::Pattern::StrLiteral(StrLiteral::PlainLine("hello".to_string()));
    let (_, r) = can(&mut c, PatternType::WhenBranch, &p, reg(0, 7));
    assert!(matches!(&r.value, Pattern::StrLiteral(s) if s == "hello"));
    let (_, r) = can(&mut c, PatternType::FunctionArg, &p, reg(0, 7));
    assert!(matches!(r.value, Pattern::UnsupportedPattern(_)));
    assert_eq!(
        c.env.problems,
        vec![Problem::UnsupportedPattern(BadPattern::Unsupported(PatternType::FunctionArg), reg(0, 7))]
    );
}

#[test]
fn char_literal_law() {
    let mut c = ctx();
    let (_, r) = can(&mut c, PatternType::WhenBranch, &ast::Pattern::SingleQuote(String::new()), reg(0, 2));
    assert!(matches!(r.value, Pattern::MalformedPattern(MalformedPatternProblem::EmptySingleQuote, _)));
    let (_, r) = can(&mut c, PatternType::WhenBranch, &ast::Pattern::SingleQuote("ab".to_string()), reg(0, 4));
    assert!(matches!(r.value, Pattern::MalformedPattern(MalformedPatternProblem::MultipleCharsInSingleQuote, _)));
    assert_eq!(c.env.problems.len(), 2);
    let (_, r) = can(&mut c, PatternType::WhenBranch, &ast::Pattern::SingleQuote("a".to_string()), reg(0, 3));
    assert!(matches!(r.value, Pattern::SingleQuote('a')));
    let (_, r) = can(&mut c, PatternType::WhenBranch, &ast::Pattern::SingleQuote("é".to_string()), reg(0, 4));
    assert!(matches!(r.value, Pattern::SingleQuote('é')));
    assert_eq!(c.env.problems.len(), 2);
}

#[test]
fn char_literal_outside_when_branch_is_unsupported() {
    let mut c = ctx();
    let (_, r) = can(&mut c, PatternType::DefExpr, &ast::Pattern::SingleQuote("a".to_string()), reg(0, 3));
    assert!(matches!(r.value, Pattern::UnsupportedPattern(_)));
    assert_eq!(c.env.problems, vec![Problem::UnsupportedPattern(BadPattern::Unsupported(PatternType::DefExpr), reg(0, 3))]);
}

#[test]
fn bare_opaque_is_not_applied() {
    let mut c = ctx();
    let (_, r) = can(&mut c, PatternType::WhenBranch, &ast::Pattern::OpaqueRef("Age".to_string()), reg(0, 4));
    assert!(matches!(r.value, Pattern::UnsupportedPattern(_)));
    assert_eq!(c.env.problems, vec![Problem::RuntimeError(RuntimeError::OpaqueNotApplied(loc(0, 4, "Age".to_string())))]);
}

fn with_opaque(c: &mut Ctx) -> Symbol {
    let symbol = Symbol::new(HOME, 1000);
    c.scope.opaques.push(OpaqueDef {
        name: "Id".to_string(),
        symbol,
        type_params: vec!["n".to_string(), "m".to_string()],
        lambda_sets: 1,
    });
    symbol
}

#[test]
fn opaque_applied_to_two_arguments_is_unsupported_in_any_scope() {
    for known in [false, true] {
        let mut c = ctx();
        if known {
            with_opaque(&mut c);
        }
        let p = ast::Pattern::Apply(
            loc(0, 3, ApplyHead::OpaqueRef("Id".to_string())),
            vec![loc(4, 5, ident("a")), loc(6, 7, ident("b"))],
        );
        let (_, r) = can(&mut c, PatternType::WhenBranch, &p, reg(0, 7));
        assert!(matches!(r.value, Pattern::UnsupportedPattern(rg) if rg == reg(0, 7)));
        assert_eq!(
            c.env.problems.last(),
            Some(&Problem::RuntimeError(RuntimeError::OpaqueAppliedToMultipleArgs(reg(0, 7))))
        );
    }
}

#[test]
fn opaque_applied_to_one_argument_unwraps() {
    let mut c = ctx();
    let opaque = with_opaque(&mut c);
    let p = ast::Pattern::Apply(loc(0, 3, ApplyHead::OpaqueRef("Id".to_string())), vec![loc(4, 7, ident("who"))]);
    let (out, r) = can(&mut c, PatternType::FunctionArg, &p, reg(0, 7));
    match &r.value {
        Pattern::UnwrappedOpaque { opaque: o, argument, type_arguments, lambda_set_variables, .. } => {
            assert_eq!(*o, opaque);
            assert!(matches!(argument.1.value, Pattern::Identifier(_)));
            let names: Vec<&str> = type_arguments.iter().map(|(n, _)| n.as_str()).collect();
            assert_eq!(names, vec!["n", "m"]);
            assert_ne!(type_arguments[0].1, type_arguments[1].1);
            assert_eq!(lambda_set_variables.len(), 1);
        }
        other => panic!("expected an unwrapped opaque, got {:?}", other),
    }
    assert!(out.referenced_type_defs.contains(&opaque));
    assert!(out.type_lookups.contains(&opaque));
    assert!(c.env.problems.is_empty());
    let who = match &r.value {
        Pattern::UnwrappedOpaque { argument, .. } => match argument.1.value {
            Pattern::Identifier(s) => s,
            _ => unreachable!(),
        },
        _ => unreachable!(),
    };
    assert_eq!(symbols_from_pattern(&r.value), vec![opaque, who]);
    assert_eq!(bindings_from_patterns(&vec![r]), vec![(who, reg(4, 7)), (opaque, reg(0, 7))]);
}

#[test]
fn opaque_not_in_scope() {
    let mut c = ctx();
    let p = ast::Pattern::Apply(loc(0, 3, ApplyHead::OpaqueRef("Id".to_string())), vec![loc(4, 7, ident("who"))]);
    let (_, r) = can(&mut c, PatternType::WhenBranch, &p, reg(0, 7));
    assert!(matches!(&r.value, Pattern::OpaqueNotInScope(l) if l.value == "Id" && l.region == reg(0, 3)));
    assert_eq!(
        c.env.problems,
        vec![Problem::RuntimeError(RuntimeError::OpaqueNotDefined(loc(0, 3, "Id".to_string())))]
    );
}

#[test]
fn numeric_literals_are_gated_by_context() {
    for pt in [PatternType::TopLevelDef, PatternType::DefExpr, PatternType::FunctionArg] {
        let mut c = ctx();
        let (_, r) = can(&mut c, pt, &ast::Pattern::NumLiteral("5".to_string()), reg(0, 1));
        assert!(matches!(r.value, Pattern::UnsupportedPattern(_)));
        assert_eq!(c.env.problems, vec![Problem::UnsupportedPattern(BadPattern::Unsupported(pt), reg(0, 1))]);
    }
}

#[test]
fn decimal_literals_are_classified() {
    let mut c = ctx();
    let (_, r) = can(&mut c, PatternType::WhenBranch, &ast::Pattern::NumLiteral("5".to_string()), reg(0, 1));
    assert!(matches!(&r.value, Pattern::NumLiteral(_, t, IntValue::I128(5), NumericBound { at_least: IntLitWidth::U8 }) if t == "5"));
    let (_, r) = can(&mut c, PatternType::WhenBranch, &ast::Pattern::NumLiteral("-300".to_string()), reg(0, 4));
    assert!(matches!(r.value, Pattern::NumLiteral(_, _, IntValue::I128(-300), NumericBound { at_least: IntLitWidth::I16 })));
    let (_, r) = can(&mut c, PatternType::WhenBranch, &ast::Pattern::NumLiteral("1_000".to_string()), reg(0, 5));
    assert!(matches!(r.value, Pattern::NumLiteral(_, _, IntValue::I128(1000), NumericBound { at_least: IntLitWidth::U16 })));
    let (_, r) = can(&mut c, PatternType::WhenBranch, &ast::Pattern::NumLiteral("1.5".to_string()), reg(0, 3));
    assert!(matches!(&r.value, Pattern::FloatLiteral(_, _, t) if t == "1.5"));
    assert!(c.env.problems.is_empty());
    let (_, r) = can(&mut c, PatternType::WhenBranch, &ast::Pattern::NumLiteral("12x".to_string()), reg(0, 3));
    assert!(matches!(r.value, Pattern::MalformedPattern(MalformedPatternProblem::MalformedInt, _)));
    let (_, r) = can(&mut c, PatternType::WhenBranch, &ast::Pattern::FloatLiteral("0.5.1".to_string()), reg(0, 5));
    assert!(matches!(r.value, Pattern::MalformedPattern(MalformedPatternProblem::MalformedFloat, _)));
    let (_, r) = can(&mut c, PatternType::WhenBranch, &ast::Pattern::FloatLiteral("-0.25".to_string()), reg(0, 5));
    assert!(matches!(&r.value, Pattern::FloatLiteral(_, _, t) if t == "-0.25"));
    assert_eq!(c.env.problems.len(), 2);
}

#[test]
fn non_decimal_literals_are_classified() {
    let mut c = ctx();
    let hex = |s: &str, neg: bool| ast::Pattern::NonBase10Literal { string: s.to_string(), base: Base::Hex, is_negative: neg };
    let (_, r) = can(&mut c, PatternType::WhenBranch, &hex("ff", true), reg(0, 5));
    assert!(matches!(&r.value, Pattern::IntLiteral(_, _, t, IntValue::I128(-255), IntLitWidth::I16) if t == "-255"));
    let (_, r) = can(&mut c, PatternType::WhenBranch, &hex("ff", false), reg(0, 4));
    assert!(matches!(&r.value, Pattern::IntLiteral(_, _, t, IntValue::I128(255), IntLitWidth::U8) if t == "255"));
    let max = "ffffffffffffffffffffffffffffffff";
    let (_, r) = can(&mut c, PatternType::WhenBranch, &hex(max, false), reg(0, 34));
    assert!(matches!(&r.value, Pattern::IntLiteral(_, _, t, IntValue::U128(u128::MAX), IntLitWidth::U128) if t == "340282366920938463463374607431768211455"));
    assert!(c.env.problems.is_empty());
    let (_, r) = can(&mut c, PatternType::WhenBranch, &hex("80000000000000000000000000000000", true), reg(0, 35));
    assert!(matches!(&r.value, Pattern::IntLiteral(_, _, t, IntValue::I128(i128::MIN), IntLitWidth::I128) if t == "-170141183460469231731687303715884105728"));
    let (_, r) = can(&mut c, PatternType::WhenBranch, &hex("80000000000000000000000000000001", true), reg(0, 35));
    assert!(matches!(r.value, Pattern::MalformedPattern(MalformedPatternProblem::MalformedInt, _)));
    let (_, r) = can(&mut c, PatternType::WhenBranch, &hex(max, true), reg(0, 35));
    assert!(matches!(r.value, Pattern::MalformedPattern(MalformedPatternProblem::MalformedInt, _)));
    let (_, r) = can(&mut c, PatternType::WhenBranch, &hex("zz", false), reg(0, 4));
    assert!(matches!(r.value, Pattern::MalformedPattern(MalformedPatternProblem::MalformedBase(Base::Hex), _)));
    let bin = ast::Pattern::NonBase10Literal { string: "1010".to_string(), base: Base::Binary, is_negative: false };
    let (_, r) = can(&mut c, PatternType::WhenBranch, &bin, reg(0, 6));
    assert!(matches!(r.value, Pattern::IntLiteral(_, _, _, IntValue::I128(10), _)));
    let (_, r) = can(&mut c, PatternType::WhenBranch, &hex("1_0000_0000_0000_0000_0000_0000_0000_0000", false), reg(0, 9));
    assert!(matches!(r.value, Pattern::MalformedPattern(MalformedPatternProblem::MalformedBase(Base::Hex), _)));
    assert_eq!(c.env.problems.len(), 4);
}

#[test]
fn record_shadowing_collects_every_conflict_and_keeps_the_last() {
    let mut c = ctx();
    can(&mut c, PatternType::FunctionArg, &ident("a"), reg(0, 1));
    can(&mut c, PatternType::FunctionArg, &ident("b"), reg(2, 3));
    let p = ast::Pattern::RecordDestructure(vec![
        loc(6, 7, FieldPattern::Identifier("a".to_string())),
        loc(9, 10, FieldPattern::Identifier("c".to_string())),
        loc(12, 13, FieldPattern::Identifier("b".to_string())),
    ]);
    let (out, r) = can(&mut c, PatternType::FunctionArg, &p, reg(4, 15));
    assert_eq!(c.env.problems.len(), 2);
    assert!(matches!(&r.value, Pattern::Shadowed(orig, shadow, _) if *orig == reg(2, 3) && shadow.value == "b"));
    assert_eq!(out.bound_symbols.len(), 1);
}

#[test]
fn optional_field_default_may_use_earlier_binding() {
    let mut c = ctx();
    let p = ast::Pattern::RecordDestructure(vec![
        loc(2, 3, FieldPattern::Identifier("x".to_string())),
        loc(5, 10, FieldPattern::OptionalField("y".to_string(), loc(9, 10, ast::Expr::Var("x".to_string())))),
    ]);
    let (out, r) = can(&mut c, PatternType::FunctionArg, &p, reg(0, 12));
    let destructs = match &r.value {
        Pattern::RecordDestructure { destructs, .. } => destructs,
        other => panic!("expected a record destructure, got {:?}", other),
    };
    let x = destructs[0].value.symbol;
    let y = destructs[1].value.symbol;
    match &destructs[1].value.typ {
        DestructType::Optional(_, d) => assert_eq!(d.value, Expr::Var(x)),
        other => panic!("expected an optional field, got {:?}", other),
    }
    assert!(out.bound_symbols.contains(&x) && out.bound_symbols.contains(&y));
    assert_eq!(out.value_lookups, vec![x]);
    assert_eq!(symbols_from_pattern(&r.value), vec![x, y]);
    assert_eq!(bindings_from_patterns(&vec![r]), vec![(x, reg(2, 3)), (y, reg(5, 10))]);
}

#[test]
fn whitespace_wrappers_are_transparent() {
    let mut c = ctx();
    let p = ast::Pattern::SpaceBefore(Box::new(ast::Pattern::SpaceAfter(Box::new(ident("x")))));
    let (out, r) = can(&mut c, PatternType::FunctionArg, &p, reg(0, 3));
    assert!(matches!(r.value, Pattern::Identifier(_)));
    assert_eq!(r.region, reg(0, 3));
    assert_eq!(out.bound_symbols.len(), 1);
}

#[test]
fn private_tags_are_interned_once() {
    let mut c = ctx();
    let p = ast::Pattern::Apply(loc(0, 4, ApplyHead::PrivateTag("@Foo".to_string())), vec![loc(5, 6, ident("x"))]);
    let (_, r1) = can(&mut c, PatternType::WhenBranch, &p, reg(0, 6));
    let (_, r2) = can(&mut c, PatternType::WhenBranch, &ast::Pattern::PrivateTag("@Foo".to_string()), reg(8, 12));
    let t1 = match &r1.value {
        Pattern::AppliedTag { tag_name: TagName::Private(s), arguments, .. } => {
            assert_eq!(arguments.len(), 1);
            *s
        }
        other => panic!("expected a private tag, got {:?}", other),
    };
    let t2 = match &r2.value {
        Pattern::AppliedTag { tag_name: TagName::Private(s), .. } => *s,
        other => panic!("expected a private tag, got {:?}", other),
    };
    assert_eq!(t1, t2);
    assert_eq!(t1.module_id, HOME);
    assert_eq!(name_of(&c, t1), "@Foo");
}

#[test]
fn header_identifier_specializes_ability_member() {
    let mut c = ctx();
    let (_, r) = can(&mut c, PatternType::TopLevelDef, &ident("hash"), reg(0, 4));
    let member = match r.value {
        Pattern::Identifier(s) => s,
        ref other => panic!("expected an identifier, got {:?}", other),
    };
    let abilities = AbilitiesStore { members: vec![member] };
    let (_, h) = canonicalize_def_header_pattern(
        &mut c.env, &mut c.vars, &mut c.scope, &abilities, PatternType::TopLevelDef, &ident("hash"), reg(10, 14),
    );
    let ident_symbol = match h.value {
        Pattern::AbilityMemberSpecialization { ident, specializes } => {
            assert_eq!(specializes, member);
            ident
        }
        ref other => panic!("expected a specialization, got {:?}", other),
    };
    assert_ne!(ident_symbol, member);
    assert!(c.env.problems.is_empty());
    assert_eq!(symbols_from_pattern(&h.value), vec![ident_symbol, member]);
    assert_eq!(bindings_from_patterns(&vec![h]), vec![(ident_symbol, reg(10, 14)), (member, reg(10, 14))]);
}

#[test]
fn header_identifier_shadowing_plain_binding() {
    let mut c = ctx();
    can(&mut c, PatternType::TopLevelDef, &ident("f"), reg(0, 1));
    let abilities = AbilitiesStore { members: vec![] };
    let (_, h) = canonicalize_def_header_pattern(
        &mut c.env, &mut c.vars, &mut c.scope, &abilities, PatternType::TopLevelDef, &ident("f"), reg(5, 6),
    );
    assert!(matches!(&h.value, Pattern::Shadowed(orig, _, _) if *orig == reg(0, 1)));
    assert_eq!(c.env.problems.len(), 1);
}

#[test]
fn malformed_forms_map_to_malformed_patterns() {
    let mut c = ctx();
    let (_, r) = can(&mut c, PatternType::WhenBranch, &ast::Pattern::Malformed("?".to_string()), reg(0, 1));
    assert!(matches!(r.value, Pattern::MalformedPattern(MalformedPatternProblem::Unknown, _)));
    let bad = ast::BadIdent::StrayDot(Position::new(3));
    let (_, r) = can(&mut c, PatternType::WhenBranch, &ast::Pattern::MalformedIdent("a.".to_string(), bad), reg(0, 2));
    assert!(matches!(r.value, Pattern::MalformedPattern(MalformedPatternProblem::BadIdent(b), _) if b == bad));
    let q = ast::Pattern::QualifiedIdentifier { module_name: "Str".to_string(), ident: "x".to_string() };
    let (_, r) = can(&mut c, PatternType::FunctionArg, &q, reg(0, 5));
    assert!(matches!(r.value, Pattern::MalformedPattern(MalformedPatternProblem::QualifiedIdentifier, _)));
    assert_eq!(c.env.problems.len(), 3);
}

#[test]
fn output_union_merges_sets() {
    let mut a = Output::new();
    a.insert_bound(Symbol::new(1, 1));
    let mut b = Output::new();
    b.insert_bound(Symbol::new(1, 2));
    b.insert_type_reference(Symbol::new(1, 3));
    a.union(b);
    assert_eq!(a.bound_symbols, vec![Symbol::new(1, 1), Symbol::new(1, 2)]);
    assert_eq!(a.referenced_type_defs, vec![Symbol::new(1, 3)]);
    assert_eq!(a.type_lookups, vec![Symbol::new(1, 3)]);
}

#[test]
fn wrapped_header_identifier_specializes_ability_member() {
    let mut c = ctx();
    let (_, r) = can(&mut c, PatternType::TopLevelDef, &ident("hash"), reg(0, 4));
    let member = match r.value {
        Pattern::Identifier(s) => s,
        ref other => panic!("expected an identifier, got {:?}", other),
    };
    let abilities = AbilitiesStore { members: vec![member] };
    let wrapped = ast::Pattern::SpaceBefore(Box::new(ast::Pattern::SpaceAfter(Box::new(ident("hash")))));
    let (_, h) = canonicalize_def_header_pattern(
        &mut c.env, &mut c.vars, &mut c.scope, &abilities, PatternType::TopLevelDef, &wrapped, reg(10, 14),
    );
    assert!(matches!(h.value, Pattern::AbilityMemberSpecialization { specializes, .. } if specializes == member));
    assert!(c.env.problems.is_empty());
    assert_eq!(h.region, reg(10, 14));
}

#[test]
fn bare_opaque_leaves_scope_unchanged() {
    let mut c = ctx();
    can(&mut c, PatternType::FunctionArg, &ident("a"), reg(0, 1));
    let before = c.scope.clone();
    let (out, _) = can(&mut c, PatternType::WhenBranch, &ast::Pattern::OpaqueRef("Age".to_string()), reg(2, 6));
    assert_eq!(c.scope, before);
    assert!(out.bound_symbols.is_empty());
}

#[test]
fn record_with_underscore_guard_in_empty_scope() {
    let mut c = ctx();
    let p = ast::Pattern::RecordDestructure(vec![
        loc(2, 3, FieldPattern::Identifier("x".to_string())),
        loc(5, 9, FieldPattern::RequiredField("y".to_string(), Box::new(loc(8, 9, ast::Pattern::Underscore(String::new()))))),
    ]);
    let (out, r) = canonicalize_record_destructure(&mut c.env, &mut c.vars, &mut c.scope, PatternType::WhenBranch, &p, reg(0, 11));
    match &r.value {
        Pattern::RecordDestructure { destructs, .. } => {
            assert!(matches!(&destructs[1].value.typ, DestructType::Guard(_, g) if matches!(g.value, Pattern::Underscore)));
            assert_eq!(out.bound_symbols, vec![destructs[0].value.symbol]);
        }
        other => panic!("expected a record destructure, got {:?}", other),
    }
    assert!(c.env.problems.is_empty());
}
