use vstd::prelude::*;

use crate::expr::Expr;
use crate::num::{IntLitWidth, IntValue, NumericBound};
use crate::problem::MalformedPatternProblem;
use crate::region::{Loc, Region};
use crate::symbol::{Symbol, Variable};

verus! {

broadcast use vstd::std_specs::vec::group_vec_axioms;

/// The name of a tag constructor: global by its text, private by the
/// symbol interned for it in its module.
#[derive(Clone, Debug, PartialEq, Eq)]
pub enum TagName {
    Global(String),
    Private(Symbol),
}

/// A canonical pattern. Problems (shadowing, unsupported or malformed
/// forms) stay in the tree as runtime-error nodes, so the tree is total.
#[derive(Debug)]
pub enum Pattern {
    Identifier(Symbol),
    AppliedTag {
        whole_var: Variable,
        ext_var: Variable,
        tag_name: TagName,
        arguments: Vec<(Variable, Loc<Pattern>)>,
    },
    UnwrappedOpaque {
        whole_var: Variable,
        opaque: Symbol,
        argument: Box<(Variable, Loc<Pattern>)>,
        /// Each type parameter of the opaque's definition, with the fresh
        /// variable that stands for it at this site.
        type_arguments: Vec<(String, Variable)>,
        /// A fresh variable for each lambda set of the definition.
        lambda_set_variables: Vec<Variable>,
    },
    RecordDestructure {
        whole_var: Variable,
        ext_var: Variable,
        destructs: Vec<Loc<RecordDestruct>>,
    },
    NumLiteral(Variable, String, IntValue, NumericBound),
    IntLiteral(Variable, Variable, String, IntValue, IntLitWidth),
    FloatLiteral(Variable, Variable, String),
    StrLiteral(String),
    SingleQuote(char),
    Underscore,
    /// An identifier that specializes an ability member.
    AbilityMemberSpecialization {
        ident: Symbol,
        specializes: Symbol,
    },
    Shadowed(Region, Loc<String>, Symbol),
    OpaqueNotInScope(Loc<String>),
    UnsupportedPattern(Region),
    MalformedPattern(MalformedPatternProblem, Region),
}

/// One field of a canonical record destructure.
#[derive(Debug)]
pub struct RecordDestruct {
    pub var: Variable,
    pub label: String,
    pub symbol: Symbol,
    pub typ: DestructType,
}

#[derive(Debug)]
pub enum DestructType {
    Required,
    Optional(Variable, Loc<Expr>),
    Guard(Variable, Loc<Pattern>),
}

/// The symbols a pattern introduces into the body it scopes over, in order.
pub open spec fn pattern_symbols(p: Pattern) -> Seq<Symbol>
    decreases p,
{
    match p {
        Pattern::Identifier(s) => seq![s],
        Pattern::Shadowed(_, _, s) => seq![s],
        Pattern::AbilityMemberSpecialization { ident, specializes } => seq![ident, specializes],
        Pattern::AppliedTag { arguments, .. } => args_symbols(arguments@),
        Pattern::UnwrappedOpaque { opaque, argument, .. } => seq![opaque] + pattern_symbols(
            argument.1.value,
        ),
        Pattern::RecordDestructure { destructs, .. } => destructs_symbols(destructs@),
        _ => Seq::empty(),
    }
}

pub open spec fn args_symbols(args: Seq<(Variable, Loc<Pattern>)>) -> Seq<Symbol>
    decreases args,
{
    if args.len() == 0 {
        Seq::empty()
    } else {
        args_symbols(args.drop_last()) + pattern_symbols(args.last().1.value)
    }
}

/// A guarded field introduces what its guard introduces; any other field
/// introduces its own symbol.
pub open spec fn destruct_symbols(d: RecordDestruct) -> Seq<Symbol>
    decreases d,
{
    match d.typ {
        DestructType::Guard(_, sub) => pattern_symbols(sub.value),
        _ => seq![d.symbol],
    }
}

pub open spec fn destructs_symbols(ds: Seq<Loc<RecordDestruct>>) -> Seq<Symbol>
    decreases ds,
{
    if ds.len() == 0 {
        Seq::empty()
    } else {
        destructs_symbols(ds.drop_last()) + destruct_symbols(ds.last().value)
    }
}

/// The symbols `pattern` introduces, in order (see `pattern_symbols`).
pub fn symbols_from_pattern(pattern: &Pattern) -> (r: Vec<Symbol>)
    ensures
        r@ == pattern_symbols(*pattern),
{
    let mut symbols = Vec::new();
    symbols_from_pattern_help(pattern, &mut symbols);
    proof {
        assert(symbols@ =~= pattern_symbols(*pattern));
    }
    symbols
}

/// Appends the symbols `pattern` introduces to `symbols`.
pub fn symbols_from_pattern_help(pattern: &Pattern, symbols: &mut Vec<Symbol>)
    ensures
        final(symbols)@ == old(symbols)@ + pattern_symbols(*pattern),
    decreases pattern,
{
    match pattern {
        Pattern::Identifier(symbol) => {
            symbols.push(*symbol);
        },
        Pattern::Shadowed(_, _, symbol) => {
            symbols.push(*symbol);
        },
        Pattern::AbilityMemberSpecialization { ident, specializes } => {
            symbols.push(*ident);
            symbols.push(*specializes);
            assert(symbols@ =~= old(symbols)@ + pattern_symbols(*pattern));
        },
        Pattern::AppliedTag { arguments, .. } => {
            let mut i: usize = 0;
            while i < arguments.len()
                invariant
                    i <= arguments@.len(),
                    *pattern matches Pattern::AppliedTag { arguments: a, .. } && a == *arguments,
                    symbols@ == old(symbols)@ + args_symbols(arguments@.take(i as int)),
                decreases arguments@.len() - i,
            {
                proof {
                    assert(arguments@.take(i + 1).drop_last() =~= arguments@.take(i as int));
                    assert(decreases_to!(*pattern => pattern->arguments));
                    assert(decreases_to!(*arguments => arguments@[i as int]));
                    assert(decreases_to!(arguments@[i as int] => arguments@[i as int].1));
                    assert(decreases_to!(arguments@[i as int].1 => arguments@[i as int].1.value));
                }
                symbols_from_pattern_help(&arguments[i].1.value, symbols);
                i = i + 1;
            }
            assert(arguments@.take(i as int) =~= arguments@);
        },
        Pattern::UnwrappedOpaque { opaque, argument, .. } => {
            symbols.push(*opaque);
            symbols_from_pattern_help(&argument.1.value, symbols);
            assert(symbols@ =~= old(symbols)@ + pattern_symbols(*pattern));
        },
        Pattern::RecordDestructure { destructs, .. } => {
            let mut i: usize = 0;
            while i < destructs.len()
                invariant
                    i <= destructs@.len(),
                    *pattern matches Pattern::RecordDestructure { destructs: a, .. } && a == *destructs,
                    symbols@ == old(symbols)@ + destructs_symbols(destructs@.take(i as int)),
                decreases destructs@.len() - i,
            {
                proof {
                    assert(destructs@.take(i + 1).drop_last() =~= destructs@.take(i as int));
                    assert(destructs@.take(i + 1).last() == destructs@[i as int]);
                    assert(decreases_to!(*pattern => pattern->destructs));
                    assert(decreases_to!(*destructs => destructs@[i as int]));
                    assert(decreases_to!(destructs@[i as int] => destructs@[i as int].value));
                    assert(decreases_to!(destructs@[i as int].value => destructs@[i as int].value.typ));
                }
                let d = &destructs[i].value;
                match &d.typ {
                    DestructType::Guard(_, sub) => {
                        symbols_from_pattern_help(&sub.value, symbols);
                    },
                    _ => {
                        symbols.push(d.symbol);
                    },
                }
                assert(destructs_symbols(destructs@.take(i + 1)) == destructs_symbols(destructs@.take(i as int)) + destruct_symbols(destructs@[i as int].value));
                assert(symbols@ =~= old(symbols)@ + destructs_symbols(destructs@.take(i + 1)));
                i = i + 1;
            }
            assert(destructs@.take(i as int) =~= destructs@);
        },
        _ => {
            assert(symbols@ =~= old(symbols)@ + pattern_symbols(*pattern));
        },
    }
}

/// The bindings a pattern makes, by the same rules as `pattern_symbols`,
/// each paired with the region of the pattern node that owns it.
pub open spec fn pattern_bindings(region: Region, p: Pattern) -> Seq<(Symbol, Region)>
    decreases p,
{
    match p {
        Pattern::Identifier(s) => seq![(s, region)],
        Pattern::Shadowed(_, _, s) => seq![(s, region)],
        Pattern::AbilityMemberSpecialization { ident, specializes } => seq![
            (ident, region),
            (specializes, region),
        ],
        Pattern::AppliedTag { arguments, .. } => args_bindings(arguments@),
        Pattern::UnwrappedOpaque { opaque, argument, .. } => pattern_bindings(
            argument.1.region,
            argument.1.value,
        ) + seq![(opaque, region)],
        Pattern::RecordDestructure { destructs, .. } => destructs_bindings(destructs@),
        _ => Seq::empty(),
    }
}

pub open spec fn args_bindings(args: Seq<(Variable, Loc<Pattern>)>) -> Seq<(Symbol, Region)>
    decreases args,
{
    if args.len() == 0 {
        Seq::empty()
    } else {
        args_bindings(args.drop_last()) + pattern_bindings(args.last().1.region, args.last().1.value)
    }
}

/// A guarded field binds what its guard binds; any other field binds its
/// own symbol at the field's region.
pub open spec fn destruct_bindings(d: Loc<RecordDestruct>) -> Seq<(Symbol, Region)>
    decreases d,
{
    match d.value.typ {
        DestructType::Guard(_, sub) => pattern_bindings(sub.region, sub.value),
        _ => seq![(d.value.symbol, d.region)],
    }
}

pub open spec fn destructs_bindings(ds: Seq<Loc<RecordDestruct>>) -> Seq<(Symbol, Region)>
    decreases ds,
{
    if ds.len() == 0 {
        Seq::empty()
    } else {
        destructs_bindings(ds.drop_last()) + destruct_bindings(ds.last())
    }
}

/// The bindings of a sequence of located patterns, in order.
pub open spec fn patterns_bindings(ps: Seq<Loc<Pattern>>) -> Seq<(Symbol, Region)>
    decreases ps.len(),
{
    if ps.len() == 0 {
        Seq::empty()
    } else {
        patterns_bindings(ps.drop_last()) + pattern_bindings(ps.last().region, ps.last().value)
    }
}

/// The symbols of a sequence of located patterns, in order.
pub open spec fn patterns_symbols(ps: Seq<Loc<Pattern>>) -> Seq<Symbol>
    decreases ps.len(),
{
    if ps.len() == 0 {
        Seq::empty()
    } else {
        patterns_symbols(ps.drop_last()) + pattern_symbols(ps.last().value)
    }
}

/// The symbols of a sequence of bindings.
pub open spec fn binding_symbols(bs: Seq<(Symbol, Region)>) -> Seq<Symbol> {
    bs.map_values(|b: (Symbol, Region)| b.0)
}

proof fn lemma_binding_symbols_add(a: Seq<(Symbol, Region)>, b: Seq<(Symbol, Region)>)
    ensures
        binding_symbols(a + b) == binding_symbols(a) + binding_symbols(b),
{
    assert(binding_symbols(a + b) =~= binding_symbols(a) + binding_symbols(b));
}

/// The ordered extraction finds the same symbols as the unordered one, with
/// the same multiplicities (only an unwrapped opaque's symbol stands at the
/// other end of its argument's symbols).
pub proof fn lemma_pattern_bindings_symbols(region: Region, p: Pattern)
    ensures
        binding_symbols(pattern_bindings(region, p)).to_multiset() == pattern_symbols(p).to_multiset(),
    decreases p,
{
    broadcast use vstd::seq_lib::lemma_multiset_commutative;

    match p {
        Pattern::AppliedTag { arguments, .. } => {
            lemma_args_bindings_symbols(arguments@);
        },
        Pattern::UnwrappedOpaque { opaque, argument, .. } => {
            let sub = pattern_bindings(argument.1.region, argument.1.value);
            lemma_pattern_bindings_symbols(argument.1.region, argument.1.value);
            lemma_binding_symbols_add(sub, seq![(opaque, region)]);
            assert(binding_symbols(seq![(opaque, region)]) =~= seq![opaque]);
            assert((binding_symbols(sub) + seq![opaque]).to_multiset() =~= binding_symbols(
                sub,
            ).to_multiset().add(seq![opaque].to_multiset()));
            assert((seq![opaque] + pattern_symbols(argument.1.value)).to_multiset()
                =~= seq![opaque].to_multiset().add(pattern_symbols(argument.1.value).to_multiset()));
        },
        Pattern::RecordDestructure { destructs, .. } => {
            lemma_destructs_bindings_symbols(destructs@);
        },
        _ => {
            assert(binding_symbols(pattern_bindings(region, p)) =~= pattern_symbols(p));
        },
    }
}

proof fn lemma_args_bindings_symbols(args: Seq<(Variable, Loc<Pattern>)>)
    ensures
        binding_symbols(args_bindings(args)).to_multiset() == args_symbols(args).to_multiset(),
    decreases args,
{
    broadcast use vstd::seq_lib::lemma_multiset_commutative;

    if args.len() == 0 {
        assert(binding_symbols(args_bindings(args)) =~= args_symbols(args));
    } else {
        let a = args_bindings(args.drop_last());
        let b = pattern_bindings(args.last().1.region, args.last().1.value);
        lemma_args_bindings_symbols(args.drop_last());
        lemma_pattern_bindings_symbols(args.last().1.region, args.last().1.value);
        lemma_binding_symbols_add(a, b);
        assert((binding_symbols(a) + binding_symbols(b)).to_multiset() =~= binding_symbols(
            a,
        ).to_multiset().add(binding_symbols(b).to_multiset()));
        assert((args_symbols(args.drop_last()) + pattern_symbols(args.last().1.value)).to_multiset()
            =~= args_symbols(args.drop_last()).to_multiset().add(
            pattern_symbols(args.last().1.value).to_multiset(),
        ));
    }
}

proof fn lemma_destructs_bindings_symbols(ds: Seq<Loc<RecordDestruct>>)
    ensures
        binding_symbols(destructs_bindings(ds)).to_multiset() == destructs_symbols(ds).to_multiset(),
    decreases ds,
{
    broadcast use vstd::seq_lib::lemma_multiset_commutative;

    if ds.len() == 0 {
        assert(binding_symbols(destructs_bindings(ds)) =~= destructs_symbols(ds));
    } else {
        lemma_destructs_bindings_symbols(ds.drop_last());
        let d = ds.last();
        match d.value.typ {
            DestructType::Guard(_, sub) => {
                lemma_pattern_bindings_symbols(sub.region, sub.value);
            },
            _ => {
                assert(binding_symbols(destruct_bindings(d)) =~= destruct_symbols(d.value));
            },
        }
        let a = destructs_bindings(ds.drop_last());
        let b = destruct_bindings(d);
        lemma_binding_symbols_add(a, b);
        assert((binding_symbols(a) + binding_symbols(b)).to_multiset() =~= binding_symbols(
            a,
        ).to_multiset().add(binding_symbols(b).to_multiset()));
        assert((destructs_symbols(ds.drop_last()) + destruct_symbols(d.value)).to_multiset()
            =~= destructs_symbols(ds.drop_last()).to_multiset().add(
            destruct_symbols(d.value).to_multiset(),
        ));
    }
}

/// Each symbol the patterns bind, with the region of the pattern that owns
/// it, in order; the symbols are those of `symbols_from_pattern` over the
/// patterns, with the same multiplicities.
pub fn bindings_from_patterns(loc_patterns: &Vec<Loc<Pattern>>) -> (r: Vec<(Symbol, Region)>)
    ensures
        r@ == patterns_bindings(loc_patterns@),
        binding_symbols(r@).to_multiset() == patterns_symbols(loc_patterns@).to_multiset(),
{
    let mut answer = Vec::new();
    let mut i: usize = 0;
    proof {
        assert(binding_symbols(answer@) =~= Seq::<Symbol>::empty());
        assert(patterns_symbols(loc_patterns@.take(0)) =~= Seq::<Symbol>::empty());
    }
    while i < loc_patterns.len()
        invariant
            i <= loc_patterns@.len(),
            answer@ == patterns_bindings(loc_patterns@.take(i as int)),
            binding_symbols(answer@).to_multiset() == patterns_symbols(
                loc_patterns@.take(i as int),
            ).to_multiset(),
        decreases loc_patterns@.len() - i,
    {
        proof {
            assert(loc_patterns@.take(i + 1).drop_last() =~= loc_patterns@.take(i as int));
            assert(loc_patterns@.take(i + 1).last() == loc_patterns@[i as int]);
            lemma_pattern_bindings_symbols(loc_patterns@[i as int].region, loc_patterns@[i as int].value);
        }
        let ghost before = answer@;
        add_bindings_from_patterns(&loc_patterns[i].region, &loc_patterns[i].value, &mut answer);
        proof {
            let b = pattern_bindings(loc_patterns@[i as int].region, loc_patterns@[i as int].value);
            lemma_binding_symbols_add(before, b);
            vstd::seq_lib::lemma_multiset_commutative(binding_symbols(before), binding_symbols(b));
            vstd::seq_lib::lemma_multiset_commutative(
                patterns_symbols(loc_patterns@.take(i as int)),
                pattern_symbols(loc_patterns@[i as int].value),
            );
        }
        i = i + 1;
    }
    assert(loc_patterns@.take(i as int) =~= loc_patterns@);
    answer
}

fn add_bindings_from_patterns(region: &Region, pattern: &Pattern, answer: &mut Vec<(Symbol, Region)>)
    ensures
        final(answer)@ == old(answer)@ + pattern_bindings(*region, *pattern),
    decreases pattern,
{
    match pattern {
        Pattern::Identifier(symbol) => {
            answer.push((*symbol, *region));
        },
        Pattern::Shadowed(_, _, symbol) => {
            answer.push((*symbol, *region));
        },
        Pattern::AbilityMemberSpecialization { ident, specializes } => {
            answer.push((*ident, *region));
            answer.push((*specializes, *region));
            assert(answer@ =~= old(answer)@ + pattern_bindings(*region, *pattern));
        },
        Pattern::AppliedTag { arguments, .. } => {
            let mut i: usize = 0;
            while i < arguments.len()
                invariant
                    i <= arguments@.len(),
                    *pattern matches Pattern::AppliedTag { arguments: a, .. } && a == *arguments,
                    answer@ == old(answer)@ + args_bindings(arguments@.take(i as int)),
                decreases arguments@.len() - i,
            {
                proof {
                    assert(arguments@.take(i + 1).drop_last() =~= arguments@.take(i as int));
                    assert(decreases_to!(*pattern => pattern->arguments));
                    assert(decreases_to!(*arguments => arguments@[i as int]));
                    assert(decreases_to!(arguments@[i as int] => arguments@[i as int].1));
                    assert(decreases_to!(arguments@[i as int].1 => arguments@[i as int].1.value));
                }
                add_bindings_from_patterns(&arguments[i].1.region, &arguments[i].1.value, answer);
                i = i + 1;
            }
            assert(arguments@.take(i as int) =~= arguments@);
        },
        Pattern::UnwrappedOpaque { opaque, argument, .. } => {
            add_bindings_from_patterns(&argument.1.region, &argument.1.value, answer);
            answer.push((*opaque, *region));
            assert(answer@ =~= old(answer)@ + pattern_bindings(*region, *pattern));
        },
        Pattern::RecordDestructure { destructs, .. } => {
            let mut i: usize = 0;
            while i < destructs.len()
                invariant
                    i <= destructs@.len(),
                    *pattern matches Pattern::RecordDestructure { destructs: a, .. } && a == *destructs,
                    answer@ == old(answer)@ + destructs_bindings(destructs@.take(i as int)),
                decreases destructs@.len() - i,
            {
                proof {
                    assert(destructs@.take(i + 1).drop_last() =~= destructs@.take(i as int));
                    assert(destructs@.take(i + 1).last() == destructs@[i as int]);
                    assert(decreases_to!(*pattern => pattern->destructs));
                    assert(decreases_to!(*destructs => destructs@[i as int]));
                    assert(decreases_to!(destructs@[i as int] => destructs@[i as int].value));
                    assert(decreases_to!(destructs@[i as int].value => destructs@[i as int].value.typ));
                }
                let d = &destructs[i];
                match &d.value.typ {
                    DestructType::Guard(_, sub) => {
                        add_bindings_from_patterns(&sub.region, &sub.value, answer);
                    },
                    _ => {
                        answer.push((d.value.symbol, d.region));
                    },
                }
                assert(destructs_bindings(destructs@.take(i + 1)) == destructs_bindings(
                    destructs@.take(i as int),
                ) + destruct_bindings(destructs@[i as int]));
                assert(answer@ =~= old(answer)@ + destructs_bindings(destructs@.take(i + 1)));
                i = i + 1;
            }
            assert(destructs@.take(i as int) =~= destructs@);
        },
        _ => {
            assert(answer@ =~= old(answer)@ + pattern_bindings(*region, *pattern));
        },
    }
}

} // verus!
