use vstd::prelude::*;

use crate::ast;
use crate::ast::{ApplyHead, FieldPattern, PatternType};
use crate::canonicalize::{args_chain, canon_case, flat_literal, full_case, union_bound};
use crate::env::Env;
use crate::output::Output;
use crate::pattern::{destruct_symbols, pattern_symbols, DestructType, Pattern};
use crate::problem::{BadPattern, MalformedPatternProblem, Problem, RuntimeError};
use crate::region::{Loc, Region};
use crate::scope::Scope;
use crate::symbol::{Symbol, Variable};

verus! {

/// Binding one name twice in a scope: the first identifier pattern binds a
/// fresh symbol without a diagnostic; the second yields exactly one
/// shadowing diagnostic and a second, new symbol, and that new symbol is
/// what symbol extraction finds.
pub proof fn lemma_shadowing(
    e0: Env,
    e1: Env,
    e2: Env,
    s0: Scope,
    s1: Scope,
    pt: PatternType,
    first: String,
    second: String,
    r1: Region,
    r2: Region,
    out1: Output,
    out2: Output,
    res1: Pattern,
    res2: Pattern,
)
    requires
        second@ == first@,
        !s0.is_bound(first@),
        canon_case(e0, e1, s0, pt, ast::Pattern::Identifier(first), r1, out1, res1),
        s1.binds(first@, s0.next_symbol(&e0.ident_ids), r1),
        s1.home == s0.home,
        e1.ident_ids.names@.len() <= u64::MAX,
        canon_case(e1, e2, s1, pt, ast::Pattern::Identifier(second), r2, out2, res2),
    ensures
        res1 == Pattern::Identifier(s0.next_symbol(&e0.ident_ids)),
        e1.problems@ == e0.problems@,
        e2.problems@.len() == e1.problems@.len() + 1,
        e2.problems@.last() is RuntimeError,
        res2 matches Pattern::Shadowed(_, _, s) && pattern_symbols(res2) == seq![s] && s
            == s1.next_symbol(&e1.ident_ids) && s != s0.next_symbol(&e0.ident_ids),
{
    assert(s1.is_bound(second@));
}

/// Literal patterns are legal in `when` branches only: elsewhere each one
/// gives `UnsupportedPattern` and one diagnostic naming the context; in a
/// `when` branch none is refused for its context (only a string literal
/// holding an interpolation or a unicode escape is refused, at that segment).
pub proof fn lemma_literal_gating(
    e0: Env,
    e1: Env,
    s0: Scope,
    pt: PatternType,
    p: ast::Pattern,
    region: Region,
    out: Output,
    res: Pattern,
)
    requires
        p is NumLiteral || p is NonBase10Literal || p is FloatLiteral || p is StrLiteral
            || p is SingleQuote,
        canon_case(e0, e1, s0, pt, p, region, out, res),
    ensures
        !(pt is WhenBranch) ==> res == Pattern::UnsupportedPattern(region) && e1.problems@
            == e0.problems@.push(Problem::UnsupportedPattern(BadPattern::Unsupported(pt), region)),
        pt is WhenBranch ==> (res is UnsupportedPattern ==> (p matches ast::Pattern::StrLiteral(l)
            && flat_literal(l) is Bad)),
{
}

/// `_` is legal in `when` branches and function arguments; in a definition
/// it gives `UnsupportedPattern` and one diagnostic.
pub proof fn lemma_underscore_gating(
    e0: Env,
    e1: Env,
    s0: Scope,
    pt: PatternType,
    name: String,
    region: Region,
    out: Output,
    res: Pattern,
)
    requires
        canon_case(e0, e1, s0, pt, ast::Pattern::Underscore(name), region, out, res),
    ensures
        (pt is WhenBranch || pt is FunctionArg) ==> res == Pattern::Underscore && e1.problems@
            == e0.problems@,
        (pt is TopLevelDef || pt is DefExpr) ==> res == Pattern::UnsupportedPattern(region)
            && e1.problems@ == e0.problems@.push(
            Problem::UnsupportedPattern(BadPattern::UnderscoreInDef, region),
        ),
{
}

/// An opaque reference applied to no argument is "not applied", and one
/// applied to two or more is "applied to multiple arguments": both give
/// `UnsupportedPattern`, whatever the scope holds.
pub proof fn lemma_opaque_arity(
    e0: Env,
    e1: Env,
    s0: Scope,
    pt: PatternType,
    head: Loc<ApplyHead>,
    args: Vec<Loc<ast::Pattern>>,
    region: Region,
    out: Output,
    res: Pattern,
)
    requires
        head.value is OpaqueRef,
        canon_case(e0, e1, s0, pt, ast::Pattern::Apply(head, args), region, out, res),
    ensures
        args@.len() == 0 ==> res == Pattern::UnsupportedPattern(region) && e1.problems@.last() matches Problem::RuntimeError(
            RuntimeError::OpaqueNotApplied(_),
        ),
        args@.len() >= 2 ==> res == Pattern::UnsupportedPattern(region) && e1.problems@.last()
            == Problem::RuntimeError(RuntimeError::OpaqueAppliedToMultipleArgs(region)),
{
}

/// A character literal in a `when` branch holds exactly one character: none
/// is the empty-literal error, two or more the multiple-characters error,
/// and one character `c` gives `SingleQuote(c)`.
pub proof fn lemma_char_literal(
    e0: Env,
    e1: Env,
    s0: Scope,
    text: String,
    region: Region,
    out: Output,
    res: Pattern,
)
    requires
        canon_case(e0, e1, s0, PatternType::WhenBranch, ast::Pattern::SingleQuote(text), region, out, res),
    ensures
        text@.len() == 0 ==> res == Pattern::MalformedPattern(MalformedPatternProblem::EmptySingleQuote, region),
        text@.len() >= 2 ==> res == Pattern::MalformedPattern(
            MalformedPatternProblem::MultipleCharsInSingleQuote,
            region,
        ),
        text@.len() == 1 ==> res == Pattern::SingleQuote(text@[0]) && e1.problems@ == e0.problems@,
{
}

/// A field destructured with a guard binds only what its guard binds: the
/// symbol minted for its label is never among the bound symbols, and symbol
/// extraction yields the guard's symbols in its place.
pub proof fn lemma_guard_binds_no_label(
    e0: Env,
    e1: Env,
    s0: Scope,
    pt: PatternType,
    fields: Vec<Loc<FieldPattern>>,
    region: Region,
    out: Output,
    res: Pattern,
    i: int,
)
    requires
        canon_case(e0, e1, s0, pt, ast::Pattern::RecordDestructure(fields), region, out, res),
        res is RecordDestructure,
        0 <= i < fields@.len(),
        fields@[i].value is RequiredField,
    ensures
        res matches Pattern::RecordDestructure { destructs, .. } && destructs@[i].value.typ matches DestructType::Guard(
            _,
            guard,
        ) && !out.bound().contains(destructs@[i].value.symbol) && destruct_symbols(
            destructs@[i].value,
        ) == pattern_symbols(guard.value),
{
    if let Pattern::RecordDestructure { destructs, .. } = res {
        assert(destructs@[i].region == fields@[i].region);
    }
}

/// A tag applied to the same identifier twice: the first argument binds a
/// fresh symbol, the second shadows it (pointing at the first argument's
/// region) with a second symbol, exactly one shadowing diagnostic is
/// appended, and the bound set is those two symbols.
pub proof fn lemma_tag_repeated_argument(
    es: Seq<Env>,
    ss: Seq<Scope>,
    os: Seq<Output>,
    e0: Env,
    e1: Env,
    s0: Scope,
    s1: Scope,
    pt: PatternType,
    args: Seq<Loc<ast::Pattern>>,
    arguments: Seq<(Variable, Loc<Pattern>)>,
    out: Output,
)
    requires
        args_chain(es, ss, os, e0, e1, s0, s1, pt, args, arguments, out),
        args.len() == 2,
        args[0].value matches ast::Pattern::Identifier(n) && !s0.is_bound(n@),
        args[1].value matches ast::Pattern::Identifier(m) && args[0].value->Identifier_0@ == m@,
    ensures
        arguments[0].1.value == Pattern::Identifier(s0.next_symbol(&e0.ident_ids)),
        arguments[1].1.value matches Pattern::Shadowed(original, shadow, s) && original
            == args[0].region && shadow.value@ == args[0].value->Identifier_0@ && shadow.region
            == args[1].region && s == ss[1].next_symbol(&es[1].ident_ids)
            && e1.problems@ == e0.problems@.push(
            Problem::RuntimeError(RuntimeError::Shadowing { original_region: original, shadow }),
        ),
        out.bound() == set![s0.next_symbol(&e0.ident_ids), ss[1].next_symbol(&es[1].ident_ids)],
{
    let n = args[0].value->Identifier_0@;
    assert(full_case(es[0], es[1], ss[0], ss[1], pt, args[0].value, args[0].region, os[0], arguments[0].1.value));
    assert(full_case(es[1], es[2], ss[1], ss[2], pt, args[1].value, args[1].region, os[1], arguments[1].1.value));
    assert(ss[1].is_bound(n));
    let k = choose|k: int|
        0 <= k < ss[1].bindings@.len() && #[trigger] ss[1].bindings@[k].name@ == n
            && ss[1].bindings@[k].symbol == s0.next_symbol(&e0.ident_ids)
            && ss[1].bindings@[k].region == args[0].region;
    if let Pattern::Shadowed(original, _, _) = arguments[1].1.value {
        let i = choose|i: int|
            0 <= i < ss[1].bindings@.len() && #[trigger] ss[1].bindings@[i].name@ == n
                && ss[1].bindings@[i].region == original;
        if i != k {
            if i < k {
                assert(ss[1].bindings@[i].name@ != ss[1].bindings@[k].name@);
            } else {
                assert(ss[1].bindings@[k].name@ != ss[1].bindings@[i].name@);
            }
        }
    }
    assert(os.drop_last().drop_last() =~= Seq::<Output>::empty());
    assert(os.drop_last().last() == os[0]);
    assert(os.last() == os[1]);
    assert(union_bound(os.drop_last().drop_last()) == Set::<Symbol>::empty());
    assert(os[0].bound() == set![s0.next_symbol(&e0.ident_ids)]);
    assert(os[1].bound() == set![ss[1].next_symbol(&es[1].ident_ids)]);
    assert(union_bound(os.drop_last()) == union_bound(os.drop_last().drop_last()).union(os[0].bound()));
    assert(union_bound(os) == union_bound(os.drop_last()).union(os[1].bound()));
    assert(union_bound(os) =~= set![s0.next_symbol(&e0.ident_ids), ss[1].next_symbol(&es[1].ident_ids)]);
}

} // verus!
