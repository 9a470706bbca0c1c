use vstd::prelude::*;
use vstd::string::StrSliceExecFns;

use crate::ast;
use crate::ast::{Base, EscapedChar, FieldPattern, PatternType, StrLiteral, StrSegment};
use crate::env::Env;
use crate::expr::Expr;
use crate::num::{
    check_float, int_value, is_float_text, parse_base, parse_base_spec, parse_num, parse_num_spec,
    width_for_value, width_of, IntValue, ParsedNum,
};
use crate::output::Output;
use crate::pattern::{DestructType, Pattern, RecordDestruct, TagName};
use crate::problem::{BadPattern, MalformedPatternProblem, Problem, RuntimeError};
use crate::region::{Loc, Region};
use crate::scope::{AbilitiesStore, OpaqueDef, Scope};
use crate::symbol::{Symbol, VarStore, Variable};

verus! {

broadcast use vstd::std_specs::vec::group_vec_axioms;

/// How many fresh variables freshening an opaque definition mints.
pub open spec fn opaque_cost(d: OpaqueDef) -> nat {
    d.type_params@.len() + d.lambda_sets as nat
}

/// The largest `opaque_cost` among the definitions.
pub open spec fn max_opaque_cost(os: Seq<OpaqueDef>) -> nat
    decreases os.len(),
{
    if os.len() == 0 {
        0
    } else {
        let m = max_opaque_cost(os.drop_last());
        if opaque_cost(os.last()) > m {
            opaque_cost(os.last())
        } else {
            m
        }
    }
}

/// An upper bound on the fresh variables canonicalizing `p` mints, where no
/// opaque definition costs more than `c`.
pub open spec fn var_need(p: ast::Pattern, c: nat) -> nat
    decreases p,
{
    match p {
        ast::Pattern::GlobalTag(_) => 2,
        ast::Pattern::PrivateTag(_) => 2,
        ast::Pattern::Apply(_, args) => args_need(args@, c) + 2 + c,
        ast::Pattern::RecordDestructure(fields) => fields_need(fields@, c) + 2,
        ast::Pattern::NumLiteral(_) => 2,
        ast::Pattern::NonBase10Literal { .. } => 2,
        ast::Pattern::FloatLiteral(_) => 2,
        ast::Pattern::SpaceBefore(b) => var_need(*b, c),
        ast::Pattern::SpaceAfter(b) => var_need(*b, c),
        _ => 0,
    }
}

pub open spec fn args_need(args: Seq<Loc<ast::Pattern>>, c: nat) -> nat
    decreases args,
{
    if args.len() == 0 {
        0
    } else {
        args_need(args.drop_last(), c) + var_need(args.last().value, c) + 1
    }
}

pub open spec fn field_need(f: FieldPattern, c: nat) -> nat
    decreases f,
{
    match f {
        FieldPattern::RequiredField(_, g) => var_need(g.value, c),
        _ => 0,
    }
}

pub open spec fn fields_need(fs: Seq<Loc<FieldPattern>>, c: nat) -> nat
    decreases fs,
{
    if fs.len() == 0 {
        0
    } else {
        fields_need(fs.drop_last(), c) + field_need(fs.last().value, c) + 2
    }
}

proof fn lemma_max_opaque_cost(os: Seq<OpaqueDef>, i: int)
    requires
        0 <= i < os.len(),
    ensures
        opaque_cost(os[i]) <= max_opaque_cost(os),
    decreases os.len(),
{
    if i < os.len() - 1 {
        lemma_max_opaque_cost(os.drop_last(), i);
    }
}

proof fn lemma_args_need_prefix(args: Seq<Loc<ast::Pattern>>, c: nat, i: int)
    requires
        0 <= i <= args.len(),
    ensures
        args_need(args.take(i), c) <= args_need(args, c),
    decreases args.len(),
{
    if i < args.len() {
        assert(args.drop_last().take(i) =~= args.take(i));
        lemma_args_need_prefix(args.drop_last(), c, i);
    } else {
        assert(args.take(i) =~= args);
    }
}

proof fn lemma_fields_need_prefix(fs: Seq<Loc<FieldPattern>>, c: nat, i: int)
    requires
        0 <= i <= fs.len(),
    ensures
        fields_need(fs.take(i), c) <= fields_need(fs, c),
    decreases fs.len(),
{
    if i < fs.len() {
        assert(fs.drop_last().take(i) =~= fs.take(i));
        lemma_fields_need_prefix(fs.drop_last(), c, i);
    } else {
        assert(fs.take(i) =~= fs);
    }
}

/// The decimal digits of `n`, most significant first.
pub open spec fn nat_text(n: nat) -> Seq<char>
    decreases n,
{
    let digits = seq!['0', '1', '2', '3', '4', '5', '6', '7', '8', '9'];
    if n < 10 {
        seq![digits[n as int]]
    } else {
        nat_text(n / 10).push(digits[(n % 10) as int])
    }
}

/// The decimal text of `v`, with a leading `-` where it is negative.
pub open spec fn int_text(v: int) -> Seq<char> {
    if v < 0 {
        seq!['-'] + nat_text((-v) as nat)
    } else {
        nat_text(v as nat)
    }
}

/// Relies on std's `ToString` for `i128` (through `Display`): the decimal
/// digits, with a leading `-` for a negative value.
#[verifier::external_body]
fn i128_text(n: i128) -> (r: String)
    ensures
        r@ == int_text(n as int),
{
    n.to_string()
}

/// Relies on std's `ToString` for `u128` (through `Display`): the decimal
/// digits.
#[verifier::external_body]
fn u128_text(n: u128) -> (r: String)
    ensures
        r@ == int_text(n as int),
{
    n.to_string()
}

/// The character an escape sequence stands for.
pub open spec fn unescaped(e: EscapedChar) -> char {
    match e {
        EscapedChar::Newline => '\n',
        EscapedChar::Tab => '\t',
        EscapedChar::Quote => '"',
        EscapedChar::Backslash => '\\',
        EscapedChar::CarriageReturn => '\r',
    }
}

/// A string literal read so far: its text, or the first segment that a
/// pattern cannot hold.
pub enum StrFlat {
    Text(Seq<char>),
    Bad(BadPattern, Region),
}

pub open spec fn flat_step(acc: StrFlat, seg: StrSegment) -> StrFlat {
    match acc {
        StrFlat::Bad(b, r) => StrFlat::Bad(b, r),
        StrFlat::Text(t) => match seg {
            StrSegment::Plaintext(s) => StrFlat::Text(t + s@),
            StrSegment::EscapedChar(e) => StrFlat::Text(t.push(unescaped(e))),
            StrSegment::Unicode(l) => StrFlat::Bad(BadPattern::UnicodeEscape, l.region),
            StrSegment::Interpolated(l) => StrFlat::Bad(BadPattern::Interpolation, l.region),
        },
    }
}

pub open spec fn flat_segments(acc: StrFlat, segs: Seq<StrSegment>) -> StrFlat
    decreases segs.len(),
{
    if segs.len() == 0 {
        acc
    } else {
        flat_step(flat_segments(acc, segs.drop_last()), segs.last())
    }
}

pub open spec fn flat_lines(acc: StrFlat, lines: Seq<Vec<StrSegment>>) -> StrFlat
    decreases lines.len(),
{
    if lines.len() == 0 {
        acc
    } else {
        flat_segments(flat_lines(acc, lines.drop_last()), lines.last()@)
    }
}

/// A string literal's text: its plain segments and escapes in order, across
/// lines; or the first interpolation or unicode escape in it.
pub open spec fn flat_literal(lit: StrLiteral) -> StrFlat {
    match lit {
        StrLiteral::PlainLine(s) => StrFlat::Text(s@),
        StrLiteral::Line(segs) => flat_segments(StrFlat::Text(Seq::empty()), segs@),
        StrLiteral::Block(lines) => flat_lines(StrFlat::Text(Seq::empty()), lines@),
    }
}

fn push_escaped(buf: &mut String, e: EscapedChar)
    ensures
        final(buf)@ == old(buf)@.push(unescaped(e)),
{
    match e {
        EscapedChar::Newline => {
            proof {
                reveal_strlit("\n");
            }
            buf.append("\n");
        },
        EscapedChar::Tab => {
            proof {
                reveal_strlit("\t");
            }
            buf.append("\t");
        },
        EscapedChar::Quote => {
            proof {
                reveal_strlit("\"");
            }
            buf.append("\"");
        },
        EscapedChar::Backslash => {
            proof {
                reveal_strlit("\\");
            }
            buf.append("\\");
        },
        EscapedChar::CarriageReturn => {
            proof {
                reveal_strlit("\r");
            }
            buf.append("\r");
        },
    }
    assert(buf@ =~= old(buf)@.push(unescaped(e)));
}

/// Reads one line of segments onto `buf`, unless `bad` already holds the
/// first segment a pattern cannot hold.
fn flatten_segments(buf: &mut String, bad: &mut Option<(BadPattern, Region)>, segs: &Vec<StrSegment>)
    ensures
        flat_of(*final(buf), *final(bad)) == flat_segments(flat_of(*old(buf), *old(bad)), segs@),
{
    let mut i: usize = 0;
    while i < segs.len()
        invariant
            i <= segs@.len(),
            flat_of(*buf, *bad) == flat_segments(flat_of(*old(buf), *old(bad)), segs@.take(i as int)),
        decreases segs@.len() - i,
    {
        proof {
            assert(segs@.take(i + 1).drop_last() =~= segs@.take(i as int));
        }
        if bad.is_none() {
            match &segs[i] {
                StrSegment::Plaintext(s) => {
                    buf.append(s.as_str());
                },
                StrSegment::EscapedChar(e) => {
                    push_escaped(buf, *e);
                },
                StrSegment::Unicode(l) => {
                    *bad = Some((BadPattern::UnicodeEscape, l.region));
                },
                StrSegment::Interpolated(l) => {
                    *bad = Some((BadPattern::Interpolation, l.region));
                },
            }
        }
        i = i + 1;
    }
    proof {
        assert(segs@.take(i as int) =~= segs@);
    }
}

pub open spec fn flat_of(buf: String, bad: Option<(BadPattern, Region)>) -> StrFlat {
    match bad {
        Some((b, r)) => StrFlat::Bad(b, r),
        None => StrFlat::Text(buf@),
    }
}

/// Reads a string literal pattern into its text, or into the region of the
/// first segment a pattern cannot hold, with the reason.
pub fn flatten_str_literal(literal: &StrLiteral) -> (r: Result<String, (BadPattern, Region)>)
    ensures
        match (r, flat_literal(*literal)) {
            (Ok(s), StrFlat::Text(t)) => s@ == t,
            (Err((b, reg)), StrFlat::Bad(b2, reg2)) => b == b2 && reg == reg2,
            _ => false,
        },
{
    let mut buf = String::new();
    let mut bad: Option<(BadPattern, Region)> = None;
    match literal {
        StrLiteral::PlainLine(s) => {
            return Ok(s.clone());
        },
        StrLiteral::Line(segs) => {
            flatten_segments(&mut buf, &mut bad, segs);
        },
        StrLiteral::Block(lines) => {
            let mut i: usize = 0;
            while i < lines.len()
                invariant
                    i <= lines@.len(),
                    flat_of(buf, bad) == flat_lines(StrFlat::Text(Seq::empty()), lines@.take(i as int)),
                decreases lines@.len() - i,
            {
                proof {
                    assert(lines@.take(i + 1).drop_last() =~= lines@.take(i as int));
                }
                flatten_segments(&mut buf, &mut bad, &lines[i]);
                i = i + 1;
            }
            proof {
                assert(lines@.take(i as int) =~= lines@);
            }
        },
    }
    match bad {
        Some(b) => Err(b),
        None => Ok(buf),
    }
}

/// The diagnostics sink only grows, and the identifier table only grows.
pub open spec fn sink_grows(e0: Env, e1: Env) -> bool {
    &&& e1.home == e0.home
    &&& e0.problems@.len() <= e1.problems@.len()
    &&& forall|i: int| 0 <= i < e0.problems@.len() ==> #[trigger] e1.problems@[i] == e0.problems@[i]
    &&& e0.ident_ids.names@.len() <= e1.ident_ids.names@.len()
}

/// The scope stays well formed, in the same module, with the same opaques.
pub open spec fn scope_kept(s0: Scope, s1: Scope) -> bool {
    &&& s1.wf()
    &&& s1.home == s0.home
    &&& s1.opaques == s0.opaques
}

/// Every bound symbol of `o` was minted in module `home` with an id in
/// `lo..hi`.
pub open spec fn fresh_in(o: Output, home: u32, lo: nat, hi: nat) -> bool {
    forall|s: Symbol|
        #[trigger] o.bound().contains(s) ==> s.module_id == home && lo <= s.ident_id && s.ident_id < hi
}

/// The sink is `old` with one more diagnostic, `p`.
pub open spec fn reported(e0: Env, e1: Env, p: Problem) -> bool {
    e1.problems@ == e0.problems@.push(p)
}

/// The sink's last diagnostic is `p`, after at least one new one.
pub open spec fn reported_last(e0: Env, e1: Env, p: Problem) -> bool {
    &&& e1.problems@.len() > e0.problems@.len()
    &&& e1.problems@.last() == p
}

/// A malformed-pattern node together with its diagnostic.
pub open spec fn malformed(e0: Env, e1: Env, res: Pattern, m: MalformedPatternProblem, region: Region) -> bool {
    &&& res == Pattern::MalformedPattern(m, region)
    &&& reported(e0, e1, Problem::RuntimeError(RuntimeError::MalformedPattern(m, region)))
}

/// An unsupported-pattern node together with its diagnostic.
pub open spec fn unsupported(e0: Env, e1: Env, res: Pattern, b: BadPattern, region: Region) -> bool {
    &&& res == Pattern::UnsupportedPattern(region)
    &&& reported(e0, e1, Problem::UnsupportedPattern(b, region))
}

/// A surface pattern with its whitespace wrappers taken off.
pub open spec fn unwrap_spaces(p: ast::Pattern) -> ast::Pattern
    decreases p,
{
    match p {
        ast::Pattern::SpaceBefore(b) => unwrap_spaces(*b),
        ast::Pattern::SpaceAfter(b) => unwrap_spaces(*b),
        _ => p,
    }
}

/// A canonical destructure field stands for the surface field: same label,
/// and the kind the surface form calls for.
pub open spec fn field_matches(d: RecordDestruct, f: FieldPattern) -> bool {
    match f {
        FieldPattern::Identifier(l) => d.label@ == l@ && d.typ is Required,
        FieldPattern::RequiredField(l, _) => d.label@ == l@ && d.typ is Guard,
        FieldPattern::OptionalField(l, _) => d.label@ == l@ && d.typ is Optional,
    }
}

/// The union of the bound sets of the outputs.
pub open spec fn union_bound(os: Seq<Output>) -> Set<Symbol>
    decreases os.len(),
{
    if os.len() == 0 {
        Set::empty()
    } else {
        union_bound(os.drop_last()).union(os.last().bound())
    }
}

/// How the scope changes: an identifier binds its name, to the fresh symbol
/// at its region, and nothing else; a
/// pattern that can bind no name leaves the scope as it was.
pub open spec fn scope_step(e0: Env, s0: Scope, s1: Scope, p: ast::Pattern, region: Region) -> bool {
    match p {
        ast::Pattern::Identifier(n) => {
            &&& forall|m: Seq<char>| #[trigger] s1.is_bound(m) <==> (s0.is_bound(m) || m == n@)
            &&& s1.wf()
            &&& s1.binds(n@, s0.next_symbol(&e0.ident_ids), region)
        },
        _ => !binds_names(p) ==> s1 == s0,
    }
}

/// The arguments of an applied tag were canonicalized one after the other:
/// `es`, `ss` are the environments and scopes between the steps, `os` the
/// outputs of the steps, and each step is `full_case` of its argument.
pub open spec fn args_chain(
    es: Seq<Env>,
    ss: Seq<Scope>,
    os: Seq<Output>,
    e0: Env,
    e1: Env,
    s0: Scope,
    s1: Scope,
    pt: PatternType,
    args: Seq<Loc<ast::Pattern>>,
    arguments: Seq<(Variable, Loc<Pattern>)>,
    out: Output,
) -> bool
{
    &&& es.len() == args.len() + 1
    &&& ss.len() == args.len() + 1
    &&& os.len() == args.len()
    &&& arguments.len() == args.len()
    &&& es[0] == e0
    &&& ss[0] == s0
    &&& ss[args.len() as int] == s1
    &&& es[args.len() as int].problems@ == e1.problems@
    &&& out.bound() == union_bound(os)
    &&& forall|j: int|
        0 <= j < args.len() ==> full_case(
            es[j],
            es[j + 1],
            ss[j],
            ss[j + 1],
            pt,
            #[trigger] args[j].value,
            args[j].region,
            os[j],
            arguments[j].1.value,
        ) && arguments[j].1.region == args[j].region
}

/// `canon_case` for `p` with its whitespace wrappers taken off, together
/// with how the scope changes (`s1` is the scope after).
pub open spec fn full_case(
    e0: Env,
    e1: Env,
    s0: Scope,
    s1: Scope,
    pt: PatternType,
    p: ast::Pattern,
    region: Region,
    out: Output,
    res: Pattern,
) -> bool
    decreases p,
{
    match p {
        ast::Pattern::SpaceBefore(b) => full_case(e0, e1, s0, s1, pt, *b, region, out, res),
        ast::Pattern::SpaceAfter(b) => full_case(e0, e1, s0, s1, pt, *b, region, out, res),
        _ => canon_case(e0, e1, s0, pt, p, region, out, res) && scope_step(e0, s0, s1, p, region),
    }
}

/// The union of a sequence of sets.
pub open spec fn union_sets(bs: Seq<Set<Symbol>>) -> Set<Symbol>
    decreases bs.len(),
{
    if bs.len() == 0 {
        Set::empty()
    } else {
        union_sets(bs.drop_last()).union(bs.last())
    }
}

/// One field of a record destructure, processed between environments
/// `e0`/`e2` and scopes `s0`/`s1`: a field that binds its label binds it
/// (a fresh symbol unless the label is already bound); a guarded field binds
/// what its guard (canonicalized from `eg`, after the label's symbol was
/// minted, into `g`, with output `o`) binds. `b` is what the field adds to
/// the bound set.
pub open spec fn field_step(
    e0: Env,
    eg: Env,
    e2: Env,
    s0: Scope,
    s1: Scope,
    pt: PatternType,
    f: FieldPattern,
    b: Set<Symbol>,
    o: Output,
    g: Pattern,
) -> bool {
    match f {
        FieldPattern::RequiredField(_, guard) => {
            &&& full_case(eg, e2, s0, s1, pt, guard.value, guard.region, o, g)
            &&& b == o.bound()
        },
        _ => {
            &&& forall|m: Seq<char>|
                #[trigger] s1.is_bound(m) <==> (s0.is_bound(m) || m == field_label(f)@)
            &&& b == if s0.is_bound(field_label(f)@) {
                Set::<Symbol>::empty()
            } else {
                set![s0.next_symbol(&e0.ident_ids)]
            }
        },
    }
}

/// Field `i` of the destructure binds its label, which was already bound
/// when the field was reached.
pub open spec fn field_conflicts(ss: Seq<Scope>, fields: Seq<Loc<FieldPattern>>, i: int) -> bool {
    !(fields[i].value is RequiredField) && ss[i].is_bound(field_label(fields[i].value)@)
}

/// The fields of a record destructure were processed one after the other
/// (`es`, `ss` the environments and scopes between the steps); the result
/// is `Shadowed` exactly when some field conflicts, and otherwise each
/// guarded field holds its canonical guard `rs[i]`; the bound set is the
/// union of what the fields add.
pub open spec fn record_chain(
    es: Seq<Env>,
    gs: Seq<Env>,
    ss: Seq<Scope>,
    bs: Seq<Set<Symbol>>,
    os: Seq<Output>,
    rs: Seq<Pattern>,
    e0: Env,
    s0: Scope,
    s1: Scope,
    pt: PatternType,
    fields: Seq<Loc<FieldPattern>>,
    res: Pattern,
    out: Output,
) -> bool {
    let n = fields.len();
    &&& es.len() == n + 1 && ss.len() == n + 1
    &&& gs.len() == n && bs.len() == n && os.len() == n && rs.len() == n
    &&& es[0] == e0 && ss[0] == s0 && ss[n as int] == s1
    &&& forall|i: int|
        0 <= i < n ==> #[trigger] field_step(
            es[i],
            gs[i],
            es[i + 1],
            ss[i],
            ss[i + 1],
            pt,
            fields[i].value,
            bs[i],
            os[i],
            rs[i],
        )
    &&& out.bound() == union_sets(bs)
    &&& (res is Shadowed <==> exists|i: int| 0 <= i < n && #[trigger] field_conflicts(ss, fields, i))
    &&& res matches Pattern::RecordDestructure { destructs, .. } ==> forall|i: int|
        0 <= i < n && #[trigger] fields[i].value is RequiredField ==> (destructs@[i].value.typ matches DestructType::Guard(
            _,
            g,
        ) && g.value == rs[i])
}

/// Whether a surface pattern can bind names at all.
pub open spec fn binds_names(p: ast::Pattern) -> bool {
    p is Identifier || p is Apply || p is RecordDestructure
}

/// The label of a destructure field.
pub open spec fn field_label(f: FieldPattern) -> String {
    match f {
        FieldPattern::Identifier(l) => l,
        FieldPattern::RequiredField(l, _) => l,
        FieldPattern::OptionalField(l, _) => l,
    }
}

/// No field of the destructure carries a guard.
pub open spec fn no_guards(fs: Seq<Loc<FieldPattern>>) -> bool {
    forall|i: int| 0 <= i < fs.len() ==> !(#[trigger] fs[i].value is RequiredField)
}

/// The labels are pairwise distinct and none is bound in `s`.
pub open spec fn labels_fresh(s: Scope, fs: Seq<Loc<FieldPattern>>) -> bool {
    &&& forall|i: int| 0 <= i < fs.len() ==> !s.is_bound(#[trigger] field_label(fs[i].value)@)
    &&& forall|i: int, j: int|
        0 <= i < j < fs.len() ==> #[trigger] field_label(fs[i].value)@ != #[trigger] field_label(
            fs[j].value,
        )@
}

/// What canonicalizing the (unwrapped) surface pattern `p` gives, case by
/// case: `e0`/`e1` are the environment before and after, `s0` the scope
/// before.
pub open spec fn canon_case(
    e0: Env,
    e1: Env,
    s0: Scope,
    pt: PatternType,
    p: ast::Pattern,
    region: Region,
    out: Output,
    res: Pattern,
) -> bool {
    let fresh = s0.next_symbol(&e0.ident_ids);
    let literal_ok = pt is WhenBranch;
    &&& (p is Identifier || p is Apply || p is RecordDestructure) || out.is_empty()
    &&& match p {
        ast::Pattern::Identifier(n) => e1.ident_ids.names@ == e0.ident_ids.names@.push(n) && if s0.is_bound(n@) {
            &&& res matches Pattern::Shadowed(orig, shadow, s) && s == fresh && shadow.value@ == n@
                && shadow.region == region && reported(
                e0,
                e1,
                Problem::RuntimeError(RuntimeError::Shadowing { original_region: orig, shadow }),
            ) && exists|i: int|
                0 <= i < s0.bindings@.len() && #[trigger] s0.bindings@[i].name@ == n@
                    && s0.bindings@[i].region == orig
            &&& out.bound() == set![fresh]
        } else {
            &&& res == Pattern::Identifier(fresh)
            &&& e1.problems@ == e0.problems@
            &&& out.bound() == set![fresh]
        },
        ast::Pattern::GlobalTag(n) => {
            &&& res matches Pattern::AppliedTag { tag_name: TagName::Global(t), arguments, .. }
                && t@ == n@ && arguments@.len() == 0
            &&& e1.problems@ == e0.problems@
        },
        ast::Pattern::PrivateTag(n) => {
            &&& res matches Pattern::AppliedTag { tag_name: TagName::Private(t), arguments, .. }
                && t.module_id == e0.home && t.ident_id < e1.ident_ids.names@.len()
                && e1.ident_ids.names@[t.ident_id as int]@ == n@ && arguments@.len() == 0
            &&& e1.problems@ == e0.problems@
        },
        ast::Pattern::OpaqueRef(n) => {
            &&& res == Pattern::UnsupportedPattern(region)
            &&& e1.problems@.len() == e0.problems@.len() + 1
            &&& e1.problems@.last() matches Problem::RuntimeError(RuntimeError::OpaqueNotApplied(l))
                && l.value@ == n@ && l.region == region
        },
        ast::Pattern::Apply(head, args) => match head.value {
            ast::ApplyHead::GlobalTag(n) => res matches Pattern::AppliedTag {
                tag_name: TagName::Global(t),
                arguments,
                ..
            } && t@ == n@ && arguments@.len() == args@.len() && forall|i: int|
                0 <= i < args@.len() ==> #[trigger] arguments@[i].1.region == args@[i].region,
            ast::ApplyHead::PrivateTag(n) => res matches Pattern::AppliedTag {
                tag_name: TagName::Private(t),
                arguments,
                ..
            } && t.module_id == e0.home && t.ident_id < e1.ident_ids.names@.len()
                && e1.ident_ids.names@[t.ident_id as int]@ == n@ && arguments@.len() == args@.len()
                && forall|i: int|
                0 <= i < args@.len() ==> #[trigger] arguments@[i].1.region == args@[i].region,
            ast::ApplyHead::OpaqueRef(n) => if args@.len() == 0 {
                &&& res == Pattern::UnsupportedPattern(region)
                &&& e1.problems@.len() == e0.problems@.len() + 1
                &&& e1.problems@.last() matches Problem::RuntimeError(
                    RuntimeError::OpaqueNotApplied(l),
                ) && l.value@ == n@ && l.region == head.region
            } else if args@.len() >= 2 {
                &&& res == Pattern::UnsupportedPattern(region)
                &&& reported_last(
                    e0,
                    e1,
                    Problem::RuntimeError(RuntimeError::OpaqueAppliedToMultipleArgs(region)),
                )
            } else if !s0.is_opaque(n@) {
                &&& res matches Pattern::OpaqueNotInScope(l) && l.value@ == n@ && l.region
                    == head.region
                &&& e1.problems@.len() > e0.problems@.len()
                &&& e1.problems@.last() matches Problem::RuntimeError(
                    RuntimeError::OpaqueNotDefined(l),
                ) && l.value@ == n@ && l.region == head.region
            } else {
                &&& res matches Pattern::UnwrappedOpaque {
                    opaque,
                    argument,
                    type_arguments,
                    lambda_set_variables,
                    ..
                } && argument.1.region == args@[0].region && exists|i: int|
                    0 <= i < s0.opaques@.len() && #[trigger] s0.opaques@[i].name@ == n@
                        && s0.opaques@[i].symbol == opaque && out.type_defs().contains(opaque)
                        && out.types().contains(opaque) && type_arguments@.len()
                        == s0.opaques@[i].type_params@.len() && lambda_set_variables@.len()
                        == s0.opaques@[i].lambda_sets && forall|j: int|
                        0 <= j < type_arguments@.len() ==> #[trigger] type_arguments@[j].0@
                            == s0.opaques@[i].type_params@[j]@
            },
        },
        ast::Pattern::RecordDestructure(fields) => {
            &&& (no_guards(fields@) && labels_fresh(s0, fields@)) ==> res is RecordDestructure
                && e1.problems@ == e0.problems@
            &&& {
                ||| res matches Pattern::Shadowed(..) && e1.problems@.len() > e0.problems@.len()
                ||| res matches Pattern::RecordDestructure { destructs, .. } && destructs@.len()
                == fields@.len() && forall|i: int|
                0 <= i < fields@.len() ==> {
                    &&& #[trigger] destructs@[i].region == fields@[i].region
                    &&& field_matches(destructs@[i].value, fields@[i].value)
                    &&& destructs@[i].value.typ is Guard ==> !out.bound().contains(
                        destructs@[i].value.symbol,
                    )
                    &&& !(destructs@[i].value.typ is Guard) ==> out.bound().contains(
                        destructs@[i].value.symbol,
                    )
                }
            }
        },
        ast::Pattern::NumLiteral(s) => if !literal_ok {
            unsupported(e0, e1, res, BadPattern::Unsupported(pt), region)
        } else {
            match parse_num_spec(s@) {
                None => malformed(e0, e1, res, MalformedPatternProblem::MalformedInt, region),
                Some(ParsedNum::UnknownNum(v, b)) => res matches Pattern::NumLiteral(_, t, v2, b2)
                    && t@ == s@ && v2 == v && b2 == b && e1.problems@ == e0.problems@,
                Some(ParsedNum::Float) => res matches Pattern::FloatLiteral(_, _, t) && t@ == s@
                    && e1.problems@ == e0.problems@,
            }
        },
        ast::Pattern::FloatLiteral(s) => if !literal_ok {
            unsupported(e0, e1, res, BadPattern::Unsupported(pt), region)
        } else if is_float_text(s@) {
            res matches Pattern::FloatLiteral(_, _, t) && t@ == s@ && e1.problems@ == e0.problems@
        } else {
            malformed(e0, e1, res, MalformedPatternProblem::MalformedFloat, region)
        },
        ast::Pattern::NonBase10Literal { string, base, is_negative } => if !literal_ok {
            unsupported(e0, e1, res, BadPattern::Unsupported(pt), region)
        } else {
            match parse_base_spec(string@, base) {
                None => malformed(e0, e1, res, MalformedPatternProblem::MalformedBase(base), region),
                Some(v) => if is_negative && int_value(v) > 0x8000_0000_0000_0000_0000_0000_0000_0000 {
                    malformed(e0, e1, res, MalformedPatternProblem::MalformedInt, region)
                } else {
                    let val = if is_negative {
                        -int_value(v)
                    } else {
                        int_value(v)
                    };
                    res matches Pattern::IntLiteral(_, _, t, v2, w) && int_value(v2) == val && t@
                        == int_text(val) && w == width_of(val) && e1.problems@ == e0.problems@
                },
            }
        },
        ast::Pattern::StrLiteral(lit) => if !literal_ok {
            unsupported(e0, e1, res, BadPattern::Unsupported(pt), region)
        } else {
            match flat_literal(lit) {
                StrFlat::Text(t) => res matches Pattern::StrLiteral(s) && s@ == t && e1.problems@
                    == e0.problems@,
                StrFlat::Bad(b, r) => res == Pattern::UnsupportedPattern(r) && reported(
                    e0,
                    e1,
                    Problem::UnsupportedPattern(b, r),
                ),
            }
        },
        ast::Pattern::SingleQuote(s) => if !literal_ok {
            unsupported(e0, e1, res, BadPattern::Unsupported(pt), region)
        } else if s@.len() == 0 {
            malformed(e0, e1, res, MalformedPatternProblem::EmptySingleQuote, region)
        } else if s@.len() == 1 {
            res == Pattern::SingleQuote(s@[0]) && e1.problems@ == e0.problems@
        } else {
            malformed(e0, e1, res, MalformedPatternProblem::MultipleCharsInSingleQuote, region)
        },
        ast::Pattern::Underscore(_) => if pt is WhenBranch || pt is FunctionArg {
            res == Pattern::Underscore && e1.problems@ == e0.problems@
        } else {
            unsupported(e0, e1, res, BadPattern::UnderscoreInDef, region)
        },
        ast::Pattern::Malformed(_) => malformed(e0, e1, res, MalformedPatternProblem::Unknown, region),
        ast::Pattern::MalformedIdent(_, bi) => malformed(
            e0,
            e1,
            res,
            MalformedPatternProblem::BadIdent(bi),
            region,
        ),
        ast::Pattern::QualifiedIdentifier { .. } => malformed(
            e0,
            e1,
            res,
            MalformedPatternProblem::QualifiedIdentifier,
            region,
        ),
        _ => true,
    }
}

/// Reports a literal pattern outside a `when` branch.
fn unsupported_pattern(env: &mut Env, pattern_type: PatternType, region: Region) -> (r: Pattern)
    ensures
        unsupported(*old(env), *final(env), r, BadPattern::Unsupported(pattern_type), region),
        final(env).ident_ids == old(env).ident_ids,
        final(env).home == old(env).home,
{
    env.problem(Problem::UnsupportedPattern(BadPattern::Unsupported(pattern_type), region));
    Pattern::UnsupportedPattern(region)
}

/// Reports `_` where a definition must bind a name.
fn bad_underscore(env: &mut Env, region: Region) -> (r: Pattern)
    ensures
        unsupported(*old(env), *final(env), r, BadPattern::UnderscoreInDef, region),
        final(env).ident_ids == old(env).ident_ids,
        final(env).home == old(env).home,
{
    env.problem(Problem::UnsupportedPattern(BadPattern::UnderscoreInDef, region));
    Pattern::UnsupportedPattern(region)
}

/// Reports a literal or identifier that could not be read.
fn malformed_pattern(env: &mut Env, problem: MalformedPatternProblem, region: Region) -> (r: Pattern)
    ensures
        malformed(*old(env), *final(env), r, problem, region),
        final(env).ident_ids == old(env).ident_ids,
        final(env).home == old(env).home,
{
    env.problem(Problem::RuntimeError(RuntimeError::MalformedPattern(problem, region)));
    Pattern::MalformedPattern(problem, region)
}

/// Fresh copies of an opaque definition's type parameters and lambda sets,
/// so that each use site gets its own type variables.
pub fn freshen_opaque_def(var_store: &mut VarStore, def: &OpaqueDef) -> (r: (
    Vec<(String, Variable)>,
    Vec<Variable>,
))
    requires
        old(var_store).next + opaque_cost(*def) <= u64::MAX,
    ensures
        final(var_store).next == old(var_store).next + opaque_cost(*def),
        r.0@.len() == def.type_params@.len(),
        forall|i: int| 0 <= i < r.0@.len() ==> #[trigger] r.0@[i].0@ == def.type_params@[i]@,
        r.1@.len() == def.lambda_sets,
{
    let mut type_arguments: Vec<(String, Variable)> = Vec::new();
    let mut i: usize = 0;
    while i < def.type_params.len()
        invariant
            i <= def.type_params@.len(),
            old(var_store).next + opaque_cost(*def) <= u64::MAX,
            var_store.next == old(var_store).next + i,
            type_arguments@.len() == i,
            forall|j: int| 0 <= j < i ==> #[trigger] type_arguments@[j].0@ == def.type_params@[j]@,
        decreases def.type_params@.len() - i,
    {
        let v = var_store.fresh();
        type_arguments.push((def.type_params[i].clone(), v));
        i = i + 1;
    }
    let mut lambda_set_variables: Vec<Variable> = Vec::new();
    let mut k: usize = 0;
    while k < def.lambda_sets
        invariant
            k <= def.lambda_sets,
            old(var_store).next + opaque_cost(*def) <= u64::MAX,
            var_store.next == old(var_store).next + def.type_params@.len() + k,
            lambda_set_variables@.len() == k,
        decreases def.lambda_sets - k,
    {
        let v = var_store.fresh();
        lambda_set_variables.push(v);
        k = k + 1;
    }
    (type_arguments, lambda_set_variables)
}

/// Resolves the default value of an optional field; the names it looks up
/// go into the output.
pub fn canonicalize_expr(scope: &Scope, expr: &ast::Expr) -> (r: (Expr, Output))
    requires
        scope.wf(),
    ensures
        r.1.bound() == Set::<Symbol>::empty(),
        r.1.type_defs() == Set::<Symbol>::empty(),
        r.1.types() == Set::<Symbol>::empty(),
        match *expr {
            ast::Expr::Var(n) => match r.0 {
                Expr::Var(s) => r.1.values() == set![s] && exists|i: int|
                    0 <= i < scope.bindings@.len() && #[trigger] scope.bindings@[i].name@ == n@
                        && scope.bindings@[i].symbol == s,
                Expr::LookupNotInScope(t) => t@ == n@ && !scope.is_bound(n@) && r.1.values()
                    == Set::<Symbol>::empty(),
                _ => false,
            },
            ast::Expr::Str(s) => r.0 matches Expr::Str(t) && t@ == s@ && r.1.values() == Set::<
                Symbol,
            >::empty(),
        },
{
    let mut output = Output::new();
    match expr {
        ast::Expr::Var(n) => match scope.find_binding(n) {
            Some(i) => {
                let s = scope.bindings[i].symbol;
                output.insert_value_lookup(s);
                proof {
                    assert(Set::<Symbol>::empty().insert(s) =~= set![s]);
                }
                (Expr::Var(s), output)
            },
            None => (Expr::LookupNotInScope(n.clone()), output),
        },
        ast::Expr::Str(s) => (Expr::Str(s.clone()), output),
    }
}

/// Canonicalizes one surface pattern in the given context. Names it binds
/// are introduced into `scope`, fresh type variables come from `var_store`,
/// and every problem is both appended to `env`'s sink and kept in the tree
/// as a runtime-error node: the call always returns a pattern.
pub fn canonicalize_pattern(
    env: &mut Env,
    var_store: &mut VarStore,
    scope: &mut Scope,
    pattern_type: PatternType,
    pattern: &ast::Pattern,
    region: Region,
) -> (r: (Output, Loc<Pattern>))
    requires
        old(scope).wf(),
        old(env).home == old(scope).home,
        old(var_store).next + var_need(*pattern, max_opaque_cost(old(scope).opaques@)) <= u64::MAX,
    ensures
        sink_grows(*old(env), *final(env)),
        scope_kept(*old(scope), *final(scope)),
        old(var_store).next <= final(var_store).next,
        final(var_store).next <= old(var_store).next + var_need(
            *pattern,
            max_opaque_cost(old(scope).opaques@),
        ),
        fresh_in(
            r.0,
            old(env).home,
            old(env).ident_ids.names@.len(),
            final(env).ident_ids.names@.len(),
        ),
        r.1.region == region,
        canon_case(
            *old(env),
            *final(env),
            *old(scope),
            pattern_type,
            unwrap_spaces(*pattern),
            region,
            r.0,
            r.1.value,
        ),
        unwrap_spaces(*pattern) matches ast::Pattern::Identifier(n) ==> final(scope).binds(
            n@,
            old(scope).next_symbol(&old(env).ident_ids),
            region,
        ),
        unwrap_spaces(*pattern) matches ast::Pattern::Identifier(n) ==> forall|m: Seq<char>|
            #[trigger] final(scope).is_bound(m) <==> (old(scope).is_bound(m) || m == n@),
        !binds_names(unwrap_spaces(*pattern)) ==> *final(scope) == *old(scope),
        full_case(
            *old(env),
            *final(env),
            *old(scope),
            *final(scope),
            pattern_type,
            *pattern,
            region,
            r.0,
            r.1.value,
        ),
        unwrap_spaces(*pattern) matches ast::Pattern::Apply(head, args) ==> (!(head.value is OpaqueRef)
            ==> (r.1.value matches Pattern::AppliedTag { arguments, .. } && exists|
            es: Seq<Env>,
            ss: Seq<Scope>,
            os: Seq<Output>,
        |
            #[trigger] args_chain(
                es,
                ss,
                os,
                *old(env),
                *final(env),
                *old(scope),
                *final(scope),
                pattern_type,
                args@,
                arguments@,
                r.0,
            ))),
        unwrap_spaces(*pattern) matches ast::Pattern::RecordDestructure(fields) ==> exists|
            es: Seq<Env>,
            gs: Seq<Env>,
            ss: Seq<Scope>,
            bs: Seq<Set<Symbol>>,
            os: Seq<Output>,
            rs: Seq<Pattern>,
        |
            #[trigger] record_chain(
                es,
                gs,
                ss,
                bs,
                os,
                rs,
                *old(env),
                *old(scope),
                *final(scope),
                pattern_type,
                fields@,
                r.1.value,
                r.0,
            ),
    decreases pattern, 1nat,
{
    let ghost c = max_opaque_cost(old(scope).opaques@);
    let ghost lo = old(env).ident_ids.names@.len();
    let mut output = Output::new();
    let can_pattern = match pattern {
        ast::Pattern::SpaceBefore(sub) => {
            let r = canonicalize_pattern(env, var_store, scope, pattern_type, sub, region);
            proof {
                assert(full_case(*old(env), *env, *old(scope), *scope, pattern_type, *pattern, region, r.0, r.1.value));
            }
            return r;
        },
        ast::Pattern::SpaceAfter(sub) => {
            let r = canonicalize_pattern(env, var_store, scope, pattern_type, sub, region);
            proof {
                assert(full_case(*old(env), *env, *old(scope), *scope, pattern_type, *pattern, region, r.0, r.1.value));
            }
            return r;
        },
        ast::Pattern::Identifier(name) => match scope.introduce(name, &mut env.ident_ids, region) {
            Ok(symbol) => {
                output.insert_bound(symbol);
                proof {
                    assert(Set::<Symbol>::empty().insert(symbol) =~= set![symbol]);
                }
                Pattern::Identifier(symbol)
            },
            Err((original_region, shadow, new_symbol)) => {
                let reported_shadow = Loc { region: shadow.region, value: shadow.value.clone() };
                env.problem(
                    Problem::RuntimeError(
                        RuntimeError::Shadowing { original_region, shadow: reported_shadow },
                    ),
                );
                output.insert_bound(new_symbol);
                proof {
                    assert(Set::<Symbol>::empty().insert(new_symbol) =~= set![new_symbol]);
                }
                Pattern::Shadowed(original_region, shadow, new_symbol)
            },
        },
        ast::Pattern::GlobalTag(name) => {
            let whole_var = var_store.fresh();
            let ext_var = var_store.fresh();
            Pattern::AppliedTag {
                whole_var,
                ext_var,
                tag_name: TagName::Global(name.clone()),
                arguments: Vec::new(),
            }
        },
        ast::Pattern::PrivateTag(name) => {
            let ident_id = env.ident_ids.get_or_insert(name);
            let whole_var = var_store.fresh();
            let ext_var = var_store.fresh();
            Pattern::AppliedTag {
                whole_var,
                ext_var,
                tag_name: TagName::Private(Symbol::new(env.home, ident_id)),
                arguments: Vec::new(),
            }
        },
        ast::Pattern::OpaqueRef(name) => {
            env.problem(
                Problem::RuntimeError(
                    RuntimeError::OpaqueNotApplied(Loc { region, value: name.clone() }),
                ),
            );
            Pattern::UnsupportedPattern(region)
        },
        ast::Pattern::Apply(..) => {
            return canonicalize_apply(env, var_store, scope, pattern_type, pattern, region);
        },
        ast::Pattern::FloatLiteral(text) => match pattern_type {
            PatternType::WhenBranch => {
                if check_float(text) {
                    let v1 = var_store.fresh();
                    let v2 = var_store.fresh();
                    Pattern::FloatLiteral(v1, v2, text.clone())
                } else {
                    malformed_pattern(env, MalformedPatternProblem::MalformedFloat, region)
                }
            },
            _ => unsupported_pattern(env, pattern_type, region),
        },
        ast::Pattern::Underscore(_) => match pattern_type {
            PatternType::WhenBranch | PatternType::FunctionArg => Pattern::Underscore,
            PatternType::TopLevelDef | PatternType::DefExpr => bad_underscore(env, region),
        },
        ast::Pattern::NumLiteral(text) => match pattern_type {
            PatternType::WhenBranch => match parse_num(text) {
                None => malformed_pattern(env, MalformedPatternProblem::MalformedInt, region),
                Some(ParsedNum::UnknownNum(value, bound)) => {
                    let v = var_store.fresh();
                    Pattern::NumLiteral(v, text.clone(), value, bound)
                },
                Some(ParsedNum::Float) => {
                    let v1 = var_store.fresh();
                    let v2 = var_store.fresh();
                    Pattern::FloatLiteral(v1, v2, text.clone())
                },
            },
            _ => unsupported_pattern(env, pattern_type, region),
        },
        ast::Pattern::NonBase10Literal { string, base, is_negative } => match pattern_type {
            PatternType::WhenBranch => match parse_base(string, *base) {
                None => malformed_pattern(env, MalformedPatternProblem::MalformedBase(*base), region),
                Some(IntValue::U128(n)) => {
                    if *is_negative && n == 0x8000_0000_0000_0000_0000_0000_0000_0000 {
                        let v1 = var_store.fresh();
                        let v2 = var_store.fresh();
                        let width = width_for_value(IntValue::I128(i128::MIN));
                        Pattern::IntLiteral(v1, v2, i128_text(i128::MIN), IntValue::I128(i128::MIN), width)
                    } else if *is_negative {
                        // No integer type holds the negation of a larger
                        // value.
                        malformed_pattern(env, MalformedPatternProblem::MalformedInt, region)
                    } else {
                        let v1 = var_store.fresh();
                        let v2 = var_store.fresh();
                        let width = width_for_value(IntValue::U128(n));
                        Pattern::IntLiteral(v1, v2, u128_text(n), IntValue::U128(n), width)
                    }
                },
                Some(IntValue::I128(n)) => {
                    // `n` is at least 0 here, so its negation fits.
                    let value = if *is_negative {
                        -n
                    } else {
                        n
                    };
                    let v1 = var_store.fresh();
                    let v2 = var_store.fresh();
                    let width = width_for_value(IntValue::I128(value));
                    Pattern::IntLiteral(v1, v2, i128_text(value), IntValue::I128(value), width)
                },
            },
            _ => unsupported_pattern(env, pattern_type, region),
        },
        ast::Pattern::StrLiteral(literal) => match pattern_type {
            PatternType::WhenBranch => match flatten_str_literal(literal) {
                Ok(text) => Pattern::StrLiteral(text),
                Err((bad, bad_region)) => {
                    env.problem(Problem::UnsupportedPattern(bad, bad_region));
                    Pattern::UnsupportedPattern(bad_region)
                },
            },
            _ => unsupported_pattern(env, pattern_type, region),
        },
        ast::Pattern::SingleQuote(text) => match pattern_type {
            PatternType::WhenBranch => {
                let n = text.as_str().unicode_len();
                if n == 0 {
                    malformed_pattern(env, MalformedPatternProblem::EmptySingleQuote, region)
                } else if n == 1 {
                    Pattern::SingleQuote(text.as_str().get_char(0))
                } else {
                    malformed_pattern(env, MalformedPatternProblem::MultipleCharsInSingleQuote, region)
                }
            },
            _ => unsupported_pattern(env, pattern_type, region),
        },
        ast::Pattern::RecordDestructure(_) => {
            let r = canonicalize_record_destructure(env, var_store, scope, pattern_type, pattern, region);
            proof {
                assert(full_case(*old(env), *env, *old(scope), *scope, pattern_type, *pattern, region, r.0, r.1.value));
            }
            return r;
        },
        ast::Pattern::Malformed(_) => malformed_pattern(env, MalformedPatternProblem::Unknown, region),
        ast::Pattern::MalformedIdent(_, problem) => malformed_pattern(
            env,
            MalformedPatternProblem::BadIdent(*problem),
            region,
        ),
        ast::Pattern::QualifiedIdentifier { .. } => malformed_pattern(
            env,
            MalformedPatternProblem::QualifiedIdentifier,
            region,
        ),
    };
    proof {
        assert(unwrap_spaces(*pattern) == *pattern);
        assert(canon_case(*old(env), *env, *old(scope), pattern_type, *pattern, region, output, can_pattern));
        assert(!(*pattern is Apply) ==> scope_step(*old(env), *old(scope), *scope, *pattern, region));
    }
    (output, Loc { region, value: can_pattern })
}

/// Canonicalizes an applied tag or opaque reference: its arguments one
/// after the other, then the constructor.
#[verifier::spinoff_prover]
pub fn canonicalize_apply(
    env: &mut Env,
    var_store: &mut VarStore,
    scope: &mut Scope,
    pattern_type: PatternType,
    pattern: &ast::Pattern,
    region: Region,
) -> (r: (Output, Loc<Pattern>))
    requires
        *pattern is Apply,
        old(scope).wf(),
        old(env).home == old(scope).home,
        old(var_store).next + var_need(*pattern, max_opaque_cost(old(scope).opaques@)) <= u64::MAX,
    ensures
        sink_grows(*old(env), *final(env)),
        scope_kept(*old(scope), *final(scope)),
        old(var_store).next <= final(var_store).next,
        final(var_store).next <= old(var_store).next + var_need(
            *pattern,
            max_opaque_cost(old(scope).opaques@),
        ),
        fresh_in(
            r.0,
            old(env).home,
            old(env).ident_ids.names@.len(),
            final(env).ident_ids.names@.len(),
        ),
        r.1.region == region,
        canon_case(
            *old(env),
            *final(env),
            *old(scope),
            pattern_type,
            unwrap_spaces(*pattern),
            region,
            r.0,
            r.1.value,
        ),
        unwrap_spaces(*pattern) matches ast::Pattern::Identifier(n) ==> final(scope).binds(
            n@,
            old(scope).next_symbol(&old(env).ident_ids),
            region,
        ),
        unwrap_spaces(*pattern) matches ast::Pattern::Identifier(n) ==> forall|m: Seq<char>|
            #[trigger] final(scope).is_bound(m) <==> (old(scope).is_bound(m) || m == n@),
        !binds_names(unwrap_spaces(*pattern)) ==> *final(scope) == *old(scope),
        full_case(
            *old(env),
            *final(env),
            *old(scope),
            *final(scope),
            pattern_type,
            *pattern,
            region,
            r.0,
            r.1.value,
        ),
        unwrap_spaces(*pattern) matches ast::Pattern::Apply(head, args) ==> (!(head.value is OpaqueRef)
            ==> (r.1.value matches Pattern::AppliedTag { arguments, .. } && exists|
            es: Seq<Env>,
            ss: Seq<Scope>,
            os: Seq<Output>,
        |
            #[trigger] args_chain(
                es,
                ss,
                os,
                *old(env),
                *final(env),
                *old(scope),
                *final(scope),
                pattern_type,
                args@,
                arguments@,
                r.0,
            ))),
    decreases pattern, 0nat,
{
    let ghost c = max_opaque_cost(old(scope).opaques@);
    let ghost lo = old(env).ident_ids.names@.len();
    let mut output = Output::new();
    let (tag, patterns) = match pattern {
        ast::Pattern::Apply(tag, patterns) => (tag, patterns),
        _ => {
            proof {
                assert(false);
            }
            return (Output::new(), Loc { region, value: Pattern::Underscore });
        },
    };
    let can_pattern = {
        let mut can_patterns: Vec<(Variable, Loc<Pattern>)> = Vec::new();
        let ghost mut es: Seq<Env> = seq![*old(env)];
        let ghost mut ss: Seq<Scope> = seq![*old(scope)];
        let ghost mut os: Seq<Output> = Seq::empty();
        proof {
            assert(output.bound() =~= union_bound(os));
            assert(patterns@.take(0) =~= Seq::<Loc<ast::Pattern>>::empty());
            assert(can_patterns@ =~= Seq::<(Variable, Loc<Pattern>)>::empty());
        }
        let mut i: usize = 0;
        while i < patterns.len()
            invariant
                i <= patterns@.len(),
                *pattern matches ast::Pattern::Apply(_, a) && a == *patterns,
                c == max_opaque_cost(old(scope).opaques@),
                lo == old(env).ident_ids.names@.len(),
                old(var_store).next + args_need(patterns@, c) + 2 + c <= u64::MAX,
                old(var_store).next <= var_store.next,
                var_store.next <= old(var_store).next + args_need(patterns@.take(i as int), c),
                sink_grows(*old(env), *env),
                scope_kept(*old(scope), *scope),
                env.home == scope.home,
                fresh_in(output, old(env).home, lo, env.ident_ids.names@.len()),
                can_patterns@.len() == i,
                forall|j: int| 0 <= j < i ==> #[trigger] can_patterns@[j].1.region == patterns@[j].region,
                i == 0 ==> env.problems@ == old(env).problems@,
                args_chain(
                    es,
                    ss,
                    os,
                    *old(env),
                    *env,
                    *old(scope),
                    *scope,
                    pattern_type,
                    patterns@.take(i as int),
                    can_patterns@,
                    output,
                ),
                es[i as int] == *env,
            decreases patterns@.len() - i,
        {
            proof {
                assert(patterns@.take(i + 1).drop_last() =~= patterns@.take(i as int));
                assert(patterns@.take(i + 1).last() == patterns@[i as int]);
                lemma_args_need_prefix(patterns@, c, i + 1);
                assert(decreases_to!(*pattern => pattern->Apply_1));
                assert(decreases_to!(*patterns => patterns@[i as int]));
                assert(decreases_to!(patterns@[i as int] => patterns@[i as int].value));
            }
            let (new_output, can_pattern) = canonicalize_pattern(
                env,
                var_store,
                scope,
                pattern_type,
                &patterns[i].value,
                patterns[i].region,
            );
            let ghost child_out = new_output;
            output.union(new_output);
            let v = var_store.fresh();
            can_patterns.push((v, can_pattern));
            proof {
                let es_old = es;
                let ss_old = ss;
                let os_old = os;
                es = es.push(*env);
                ss = ss.push(*scope);
                os = os.push(child_out);
                assert(os.drop_last() =~= os_old);
                let args_next = patterns@.take(i + 1);
                assert forall|j: int| 0 <= j < i + 1 implies full_case(
                    es[j],
                    es[j + 1],
                    ss[j],
                    ss[j + 1],
                    pattern_type,
                    #[trigger] args_next[j].value,
                    args_next[j].region,
                    os[j],
                    can_patterns@[j].1.value,
                ) && can_patterns@[j].1.region == args_next[j].region by {
                    if j < i {
                        assert(args_next[j] == patterns@.take(i as int)[j]);
                    }
                }
                assert(args_chain(
                    es,
                    ss,
                    os,
                    *old(env),
                    *env,
                    *old(scope),
                    *scope,
                    pattern_type,
                    args_next,
                    can_patterns@,
                    output,
                ));
            }
            i = i + 1;
        }
        proof {
            assert(patterns@.take(i as int) =~= patterns@);
        }
        match &tag.value {
            ast::ApplyHead::GlobalTag(name) => {
                let whole_var = var_store.fresh();
                let ext_var = var_store.fresh();
                proof {
                    assert(args_chain(
                        es,
                        ss,
                        os,
                        *old(env),
                        *env,
                        *old(scope),
                        *scope,
                        pattern_type,
                        patterns@,
                        can_patterns@,
                        output,
                    ));
                    assert(exists|es2: Seq<Env>, ss2: Seq<Scope>, os2: Seq<Output>|
                        #[trigger] args_chain(
                            es2,
                            ss2,
                            os2,
                            *old(env),
                            *env,
                            *old(scope),
                            *scope,
                            pattern_type,
                            patterns@,
                            can_patterns@,
                            output,
                        ));
                }
                let ghost cp = can_patterns@;
                let tag_name = TagName::Global(name.clone());
                let res = Pattern::AppliedTag { whole_var, ext_var, tag_name, arguments: can_patterns };
                proof {
                    assert(canon_case(*old(env), *env, *old(scope), pattern_type, *pattern, region, output, res));
                    assert(res->arguments@ == cp);
                    assert(pattern->Apply_1@ == patterns@);
                    assert(args_chain(es, ss, os, *old(env), *env, *old(scope), *scope, pattern_type, pattern->Apply_1@, res->arguments@, output));
                    assert(exists|es2: Seq<Env>, ss2: Seq<Scope>, os2: Seq<Output>|
                        #[trigger] args_chain(es2, ss2, os2, *old(env), *env, *old(scope), *scope, pattern_type, pattern->Apply_1@, res->arguments@, output));
                }
                res
            },
            ast::ApplyHead::PrivateTag(name) => {
                let ident_id = env.ident_ids.get_or_insert(name);
                let whole_var = var_store.fresh();
                let ext_var = var_store.fresh();
                proof {
                    assert(args_chain(
                        es,
                        ss,
                        os,
                        *old(env),
                        *env,
                        *old(scope),
                        *scope,
                        pattern_type,
                        patterns@,
                        can_patterns@,
                        output,
                    ));
                    assert(exists|es2: Seq<Env>, ss2: Seq<Scope>, os2: Seq<Output>|
                        #[trigger] args_chain(
                            es2,
                            ss2,
                            os2,
                            *old(env),
                            *env,
                            *old(scope),
                            *scope,
                            pattern_type,
                            patterns@,
                            can_patterns@,
                            output,
                        ));
                }
                let ghost cp = can_patterns@;
                let tag_name = TagName::Private(Symbol::new(env.home, ident_id));
                let res = Pattern::AppliedTag { whole_var, ext_var, tag_name, arguments: can_patterns };
                proof {
                    assert(res->arguments@ == cp);
                    assert(pattern->Apply_1@ == patterns@);
                    assert(args_chain(es, ss, os, *old(env), *env, *old(scope), *scope, pattern_type, pattern->Apply_1@, res->arguments@, output));
                    assert(exists|es2: Seq<Env>, ss2: Seq<Scope>, os2: Seq<Output>|
                        #[trigger] args_chain(es2, ss2, os2, *old(env), *env, *old(scope), *scope, pattern_type, pattern->Apply_1@, res->arguments@, output));
                }
                res
            },
            ast::ApplyHead::OpaqueRef(name) => {
                if can_patterns.len() == 0 {
                    env.problem(
                        Problem::RuntimeError(
                            RuntimeError::OpaqueNotApplied(
                                Loc { region: tag.region, value: name.clone() },
                            ),
                        ),
                    );
                    Pattern::UnsupportedPattern(region)
                } else if can_patterns.len() > 1 {
                    env.problem(
                        Problem::RuntimeError(RuntimeError::OpaqueAppliedToMultipleArgs(region)),
                    );
                    Pattern::UnsupportedPattern(region)
                } else {
                    match scope.lookup_opaque_ref(name, tag.region) {
                        Ok(k) => {
                            let opaque = scope.opaques[k].symbol;
                            proof {
                                lemma_max_opaque_cost(scope.opaques@, k as int);
                            }
                            let (type_arguments, lambda_set_variables) = freshen_opaque_def(
                                var_store,
                                &scope.opaques[k],
                            );
                            let argument = can_patterns.pop().unwrap();
                            output.insert_type_reference(opaque);
                            let whole_var = var_store.fresh();
                            Pattern::UnwrappedOpaque {
                                whole_var,
                                opaque,
                                argument: Box::new(argument),
                                type_arguments,
                                lambda_set_variables,
                            }
                        },
                        Err(runtime_error) => {
                            env.problem(Problem::RuntimeError(runtime_error));
                            Pattern::OpaqueNotInScope(Loc { region: tag.region, value: name.clone() })
                        },
                    }
                }
            },
        }
    };
    proof {
        assert(unwrap_spaces(*pattern) == *pattern);
    }
    (output, Loc { region, value: can_pattern })
}

proof fn lemma_bound_after_field(s0: Scope, before: Scope, after: Scope, fs: Seq<Loc<FieldPattern>>, i: int)
    requires
        0 <= i < fs.len(),
        (forall|j: int| 0 <= j < i ==> !(#[trigger] fs[j].value is RequiredField)) ==> forall|n: Seq<char>|
            #[trigger] before.is_bound(n) ==> (s0.is_bound(n) || exists|j: int|
                0 <= j < i && #[trigger] field_label(fs[j].value)@ == n),
        forall|n: Seq<char>|
            #[trigger] after.is_bound(n) <==> (before.is_bound(n) || n == field_label(fs[i].value)@),
    ensures
        (forall|j: int| 0 <= j < i + 1 ==> !(#[trigger] fs[j].value is RequiredField)) ==> forall|n: Seq<char>|
            #[trigger] after.is_bound(n) ==> (s0.is_bound(n) || exists|j: int|
                0 <= j < i + 1 && #[trigger] field_label(fs[j].value)@ == n),
{
    if forall|j: int| 0 <= j < i + 1 ==> !(#[trigger] fs[j].value is RequiredField) {
        assert forall|n: Seq<char>| #[trigger] after.is_bound(n) implies (s0.is_bound(n) || exists|j: int|
            0 <= j < i + 1 && #[trigger] field_label(fs[j].value)@ == n) by {
            if n == field_label(fs[i].value)@ {
            } else {
                assert(before.is_bound(n));
                assert(forall|j: int| 0 <= j < i ==> !(#[trigger] fs[j].value is RequiredField));
            }
        }
    }
}

/// Canonicalizes a record destructure, field by field in source order.
/// Every field is processed, so every diagnostic is collected; where a field
/// shadows an earlier binding, the last such conflict replaces the whole
/// destructure.
#[verifier::spinoff_prover]
pub fn canonicalize_record_destructure(
    env: &mut Env,
    var_store: &mut VarStore,
    scope: &mut Scope,
    pattern_type: PatternType,
    pattern: &ast::Pattern,
    region: Region,
) -> (r: (Output, Loc<Pattern>))
    requires
        *pattern is RecordDestructure,
        old(scope).wf(),
        old(env).home == old(scope).home,
        old(var_store).next + var_need(*pattern, max_opaque_cost(old(scope).opaques@)) <= u64::MAX,
    ensures
        sink_grows(*old(env), *final(env)),
        scope_kept(*old(scope), *final(scope)),
        old(var_store).next <= final(var_store).next,
        final(var_store).next <= old(var_store).next + var_need(
            *pattern,
            max_opaque_cost(old(scope).opaques@),
        ),
        fresh_in(
            r.0,
            old(env).home,
            old(env).ident_ids.names@.len(),
            final(env).ident_ids.names@.len(),
        ),
        r.1.region == region,
        canon_case(*old(env), *final(env), *old(scope), pattern_type, *pattern, region, r.0, r.1.value),
        exists|
            es: Seq<Env>,
            gs: Seq<Env>,
            ss: Seq<Scope>,
            bs: Seq<Set<Symbol>>,
            os: Seq<Output>,
            rs: Seq<Pattern>,
        |
            #[trigger] record_chain(
                es,
                gs,
                ss,
                bs,
                os,
                rs,
                *old(env),
                *old(scope),
                *final(scope),
                pattern_type,
                pattern->RecordDestructure_0@,
                r.1.value,
                r.0,
            ),
    decreases pattern, 0nat,
{
    let ghost c = max_opaque_cost(old(scope).opaques@);
    let ghost lo = old(env).ident_ids.names@.len();
    let fields = match pattern {
        ast::Pattern::RecordDestructure(fields) => fields,
        _ => {
            proof {
                assert(false);
            }
            return (Output::new(), Loc { region, value: Pattern::Underscore });
        },
    };
    let mut output = Output::new();
    let ext_var = var_store.fresh();
    let whole_var = var_store.fresh();
    let mut destructs: Vec<Loc<RecordDestruct>> = Vec::new();
    let mut opt_erroneous: Option<Pattern> = None;
    let ghost mut es: Seq<Env> = seq![*env];
    let ghost mut gs: Seq<Env> = Seq::empty();
    let ghost mut ss: Seq<Scope> = seq![*scope];
    let ghost mut bs: Seq<Set<Symbol>> = Seq::empty();
    let ghost mut os: Seq<Output> = Seq::empty();
    let ghost mut rs: Seq<Pattern> = Seq::empty();
    proof {
        assert(output.bound() =~= union_sets(bs));
    }
    let mut i: usize = 0;
    while i < fields.len()
        invariant
            i <= fields@.len(),
            *pattern matches ast::Pattern::RecordDestructure(a) && a == *fields,
            c == max_opaque_cost(old(scope).opaques@),
            lo == old(env).ident_ids.names@.len(),
            old(var_store).next + fields_need(fields@, c) + 2 <= u64::MAX,
            old(var_store).next <= var_store.next,
            var_store.next <= old(var_store).next + 2 + fields_need(fields@.take(i as int), c),
            sink_grows(*old(env), *env),
            scope_kept(*old(scope), *scope),
            env.home == scope.home,
            env.home == old(env).home,
            fresh_in(output, old(env).home, lo, env.ident_ids.names@.len()),
            opt_erroneous is Some ==> env.problems@.len() > old(env).problems@.len(),
            (forall|j: int| 0 <= j < i ==> !(#[trigger] fields@[j].value is RequiredField))
                ==> forall|n: Seq<char>|
                #[trigger] scope.is_bound(n) ==> (old(scope).is_bound(n) || exists|j: int|
                    0 <= j < i && #[trigger] field_label(fields@[j].value)@ == n),
            ((forall|j: int| 0 <= j < i ==> !(#[trigger] fields@[j].value is RequiredField))
                && labels_fresh(*old(scope), fields@)) ==> opt_erroneous is None && env.problems@
                == old(env).problems@,
            opt_erroneous matches Some(p) ==> p is Shadowed,
            opt_erroneous is None ==> destructs@.len() == i,
            opt_erroneous is None ==> forall|j: int|
                0 <= j < destructs@.len() ==> {
                    &&& #[trigger] destructs@[j].region == fields@[j].region
                    &&& field_matches(destructs@[j].value, fields@[j].value)
                },
            forall|j: int|
                0 <= j < destructs@.len() ==> {
                    &&& (#[trigger] destructs@[j]).value.symbol.ident_id < env.ident_ids.names@.len()
                    &&& destructs@[j].value.typ is Guard ==> !output.bound().contains(
                        destructs@[j].value.symbol,
                    )
                    &&& !(destructs@[j].value.typ is Guard) ==> output.bound().contains(
                        destructs@[j].value.symbol,
                    )
                },
            es.len() == i + 1 && ss.len() == i + 1,
            gs.len() == i && bs.len() == i && os.len() == i && rs.len() == i,
            es[0] == *old(env) && ss[0] == *old(scope),
            es[i as int] == *env && ss[i as int] == *scope,
            forall|j: int|
                0 <= j < i ==> #[trigger] field_step(
                    es[j],
                    gs[j],
                    es[j + 1],
                    ss[j],
                    ss[j + 1],
                    pattern_type,
                    fields@[j].value,
                    bs[j],
                    os[j],
                    rs[j],
                ),
            output.bound() == union_sets(bs),
            opt_erroneous is Some <==> exists|j: int|
                0 <= j < i && #[trigger] field_conflicts(ss, fields@, j),
            opt_erroneous is None ==> forall|j: int|
                0 <= j < i && #[trigger] fields@[j].value is RequiredField ==> (
                destructs@[j].value.typ matches DestructType::Guard(_, g) && g.value == rs[j]),
        decreases fields@.len() - i,
    {
        proof {
            assert(fields@.take(i + 1).drop_last() =~= fields@.take(i as int));
            assert(fields@.take(i + 1).last() == fields@[i as int]);
            lemma_fields_need_prefix(fields@, c, i + 1);
        }
        let ghost scope_before = *scope;
        let ghost env_before = *env;
        let ghost bound_before = output.bound();
        let ghost mut g_env = *env;
        let ghost mut g_out = output;
        let ghost mut g_res = Pattern::Underscore;
        let ghost destructs_before = destructs@;
        let ghost erroneous_before = opt_erroneous is Some;
        let ghost label_i = field_label(fields@[i as int].value)@;
        proof {
            if (forall|j: int| 0 <= j < i + 1 ==> !(#[trigger] fields@[j].value is RequiredField))
                && labels_fresh(*old(scope), fields@) {
                assert(!old(scope).is_bound(label_i));
                assert forall|j: int| 0 <= j < i implies #[trigger] field_label(fields@[j].value)@ != label_i by {}
                assert(!scope.is_bound(label_i));
            }
        }
        match &fields[i].value {
            FieldPattern::Identifier(label) => {
                let introduced = scope.introduce(label, &mut env.ident_ids, region);
                proof {
                    lemma_bound_after_field(*old(scope), scope_before, *scope, fields@, i as int);
                }
                match introduced {
                    Ok(symbol) => {
                        output.insert_bound(symbol);
                        let var = var_store.fresh();
                        destructs.push(
                            Loc {
                                region: fields[i].region,
                                value: RecordDestruct {
                                    var,
                                    label: label.clone(),
                                    symbol,
                                    typ: DestructType::Required,
                                },
                            },
                        );
                        assert(field_matches(destructs@[destructs@.len() - 1].value, fields@[i as int].value));
                    },
                    Err((original_region, shadow, new_symbol)) => {
                        let reported_shadow = Loc {
                            region: shadow.region,
                            value: shadow.value.clone(),
                        };
                        env.problem(
                            Problem::RuntimeError(
                                RuntimeError::Shadowing { original_region, shadow: reported_shadow },
                            ),
                        );
                        opt_erroneous = Some(Pattern::Shadowed(original_region, shadow, new_symbol));
                    },
                }
            },
            FieldPattern::RequiredField(label, loc_guard) => {
                // A guard binds what it binds, never the label itself.
                let symbol = scope.ignore(label, &mut env.ident_ids);
                proof {
                    g_env = *env;
                }
                proof {
                    assert(field_need(fields@[i as int].value, c) == var_need(loc_guard.value, c));
                    assert(decreases_to!(*pattern => pattern->RecordDestructure_0));
                    assert(decreases_to!(*fields => fields@[i as int]));
                    assert(decreases_to!(fields@[i as int] => fields@[i as int].value));
                    assert(decreases_to!(fields@[i as int].value => fields@[i as int].value->RequiredField_1));
                }
                let (new_output, can_guard) = canonicalize_pattern(
                    env,
                    var_store,
                    scope,
                    pattern_type,
                    &loc_guard.value,
                    loc_guard.region,
                );
                proof {
                    g_out = new_output;
                    g_res = can_guard.value;
                }
                output.union(new_output);
                let var = var_store.fresh();
                let guard_var = var_store.fresh();
                destructs.push(
                    Loc {
                        region: fields[i].region,
                        value: RecordDestruct {
                            var,
                            label: label.clone(),
                            symbol,
                            typ: DestructType::Guard(guard_var, can_guard),
                        },
                    },
                );
                assert(field_matches(destructs@[destructs@.len() - 1].value, fields@[i as int].value));
            },
            FieldPattern::OptionalField(label, loc_default) => {
                // An optional field binds its label; the default may refer to
                // earlier bindings.
                let introduced = scope.introduce(label, &mut env.ident_ids, region);
                proof {
                    lemma_bound_after_field(*old(scope), scope_before, *scope, fields@, i as int);
                }
                match introduced {
                    Ok(symbol) => {
                        let (can_default, expr_output) = canonicalize_expr(scope, &loc_default.value);
                        output.insert_bound(symbol);
                        output.union(expr_output);
                        let var = var_store.fresh();
                        let default_var = var_store.fresh();
                        destructs.push(
                            Loc {
                                region: fields[i].region,
                                value: RecordDestruct {
                                    var,
                                    label: label.clone(),
                                    symbol,
                                    typ: DestructType::Optional(
                                        default_var,
                                        Loc { region: loc_default.region, value: can_default },
                                    ),
                                },
                            },
                        );
                        assert(field_matches(destructs@[destructs@.len() - 1].value, fields@[i as int].value));
                    },
                    Err((original_region, shadow, new_symbol)) => {
                        let reported_shadow = Loc {
                            region: shadow.region,
                            value: shadow.value.clone(),
                        };
                        env.problem(
                            Problem::RuntimeError(
                                RuntimeError::Shadowing { original_region, shadow: reported_shadow },
                            ),
                        );
                        opt_erroneous = Some(Pattern::Shadowed(original_region, shadow, new_symbol));
                    },
                }
            },
        }
        proof {
            if opt_erroneous is None {
                assert(!erroneous_before);
                assert forall|j: int| 0 <= j < destructs@.len() implies {
                    &&& #[trigger] destructs@[j].region == fields@[j].region
                    &&& field_matches(destructs@[j].value, fields@[j].value)
                } by {
                    if j < i {
                        assert(destructs@[j] == destructs_before[j]);
                    }
                }
            }
        }
        proof {
            let f = fields@[i as int].value;
            let b = if f is RequiredField {
                g_out.bound()
            } else if scope_before.is_bound(field_label(f)@) {
                Set::<Symbol>::empty()
            } else {
                set![scope_before.next_symbol(&env_before.ident_ids)]
            };
            let ss_old = ss;
            let bs_old = bs;
            es = es.push(*env);
            gs = gs.push(g_env);
            ss = ss.push(*scope);
            bs = bs.push(b);
            os = os.push(g_out);
            rs = rs.push(g_res);
            assert(bs.drop_last() =~= bs_old);
            assert(output.bound() =~= bound_before.union(b));
            assert(field_step(es[i as int], gs[i as int], es[i + 1], ss[i as int], ss[i + 1], pattern_type, f, bs[i as int], os[i as int], rs[i as int]));
            assert forall|j: int| 0 <= j < i implies #[trigger] field_conflicts(ss, fields@, j) == field_conflicts(ss_old, fields@, j) by {
                assert(ss[j] == ss_old[j]);
            }
            if opt_erroneous is Some {
                if !field_conflicts(ss, fields@, i as int) {
                    let j = choose|j: int| 0 <= j < i && #[trigger] field_conflicts(ss_old, fields@, j);
                    assert(field_conflicts(ss, fields@, j));
                }
            } else {
                assert(!field_conflicts(ss, fields@, i as int));
                assert forall|j: int| 0 <= j < i + 1 implies !#[trigger] field_conflicts(ss, fields@, j) by {
                    if j < i {
                        assert(field_conflicts(ss, fields@, j) == field_conflicts(ss_old, fields@, j));
                    }
                }
            }
        }
        i = i + 1;
    }
    proof {
        assert(fields@.take(i as int) =~= fields@);
    }
    let can_pattern = match opt_erroneous {
        Some(p) => p,
        None => Pattern::RecordDestructure { whole_var, ext_var, destructs },
    };
    proof {
        assert(record_chain(
            es,
            gs,
            ss,
            bs,
            os,
            rs,
            *old(env),
            *old(scope),
            *scope,
            pattern_type,
            pattern->RecordDestructure_0@,
            can_pattern,
            output,
        ));
    }
    (output, Loc { region, value: can_pattern })
}

/// What canonicalizing a definition header's identifier gives: a fresh
/// identifier, a specialization of the ability member the name is bound to,
/// or a shadowing conflict.
pub open spec fn header_case(e0: Env, e1: Env, s0: Scope, abilities: AbilitiesStore, name: String, region: Region, out: Output, res: Pattern) -> bool {
    let fresh = s0.next_symbol(&e0.ident_ids);
    let n = name@;
    &&& e1.ident_ids.names@ == e0.ident_ids.names@.push(name)
    &&& out.bound() == set![fresh]
    &&& if !s0.is_bound(n) {
        res == Pattern::Identifier(fresh) && e1.problems@ == e0.problems@
    } else {
        ||| res matches Pattern::AbilityMemberSpecialization { ident, specializes } && ident == fresh
            && abilities.is_member(specializes) && e1.problems@ == e0.problems@ && exists|i: int|
            0 <= i < s0.bindings@.len() && #[trigger] s0.bindings@[i].name@ == n
                && s0.bindings@[i].symbol == specializes
        ||| res matches Pattern::Shadowed(orig, shadow, s) && s == fresh && shadow.value@ == n
            && shadow.region == region && reported(
            e0,
            e1,
            Problem::RuntimeError(RuntimeError::Shadowing { original_region: orig, shadow }),
        ) && exists|i: int|
            0 <= i < s0.bindings@.len() && #[trigger] s0.bindings@[i].name@ == n
                && s0.bindings@[i].region == orig && !abilities.is_member(s0.bindings@[i].symbol)
    }
}

/// Canonicalizes the pattern of a definition header. An identifier there,
/// whitespace wrappers taken off, may specialize an ability member instead
/// of shadowing it; any other pattern is canonicalized as
/// `canonicalize_pattern` does.
pub fn canonicalize_def_header_pattern(
    env: &mut Env,
    var_store: &mut VarStore,
    scope: &mut Scope,
    abilities_store: &AbilitiesStore,
    pattern_type: PatternType,
    pattern: &ast::Pattern,
    region: Region,
) -> (r: (Output, Loc<Pattern>))
    requires
        old(scope).wf(),
        old(env).home == old(scope).home,
        old(var_store).next + var_need(*pattern, max_opaque_cost(old(scope).opaques@)) <= u64::MAX,
    ensures
        sink_grows(*old(env), *final(env)),
        scope_kept(*old(scope), *final(scope)),
        old(var_store).next <= final(var_store).next,
        final(var_store).next <= old(var_store).next + var_need(
            *pattern,
            max_opaque_cost(old(scope).opaques@),
        ),
        fresh_in(
            r.0,
            old(env).home,
            old(env).ident_ids.names@.len(),
            final(env).ident_ids.names@.len(),
        ),
        r.1.region == region,
        match unwrap_spaces(*pattern) {
            ast::Pattern::Identifier(n) => header_case(
                *old(env),
                *final(env),
                *old(scope),
                *abilities_store,
                n,
                region,
                r.0,
                r.1.value,
            ),
            _ => canon_case(
                *old(env),
                *final(env),
                *old(scope),
                pattern_type,
                unwrap_spaces(*pattern),
                region,
                r.0,
                r.1.value,
            ),
        },
        !(unwrap_spaces(*pattern) is Identifier) ==> full_case(
            *old(env),
            *final(env),
            *old(scope),
            *final(scope),
            pattern_type,
            *pattern,
            region,
            r.0,
            r.1.value,
        ),
        unwrap_spaces(*pattern) matches ast::Pattern::Apply(head, args) ==> (!(head.value is OpaqueRef)
            ==> (r.1.value matches Pattern::AppliedTag { arguments, .. } && exists|
            es: Seq<Env>,
            ss: Seq<Scope>,
            os: Seq<Output>,
        |
            #[trigger] args_chain(
                es,
                ss,
                os,
                *old(env),
                *final(env),
                *old(scope),
                *final(scope),
                pattern_type,
                args@,
                arguments@,
                r.0,
            ))),
        unwrap_spaces(*pattern) matches ast::Pattern::RecordDestructure(fields) ==> exists|
            es: Seq<Env>,
            gs: Seq<Env>,
            ss: Seq<Scope>,
            bs: Seq<Set<Symbol>>,
            os: Seq<Output>,
            rs: Seq<Pattern>,
        |
            #[trigger] record_chain(
                es,
                gs,
                ss,
                bs,
                os,
                rs,
                *old(env),
                *old(scope),
                *final(scope),
                pattern_type,
                fields@,
                r.1.value,
                r.0,
            ),
    decreases pattern,
{
    match pattern {
        ast::Pattern::SpaceBefore(sub) => canonicalize_def_header_pattern(
            env,
            var_store,
            scope,
            abilities_store,
            pattern_type,
            sub,
            region,
        ),
        ast::Pattern::SpaceAfter(sub) => canonicalize_def_header_pattern(
            env,
            var_store,
            scope,
            abilities_store,
            pattern_type,
            sub,
            region,
        ),
        ast::Pattern::Identifier(name) => {
            let mut output = Output::new();
            let can_pattern = match scope.introduce_or_shadow_ability_member(
                name,
                &mut env.ident_ids,
                region,
                abilities_store,
            ) {
                Ok((symbol, shadowing_ability_member)) => {
                    output.insert_bound(symbol);
                    match shadowing_ability_member {
                        None => Pattern::Identifier(symbol),
                        Some(member) => Pattern::AbilityMemberSpecialization {
                            ident: symbol,
                            specializes: member,
                        },
                    }
                },
                Err((original_region, shadow, new_symbol)) => {
                    let reported_shadow = Loc { region: shadow.region, value: shadow.value.clone() };
                    env.problem(
                        Problem::RuntimeError(
                            RuntimeError::Shadowing { original_region, shadow: reported_shadow },
                        ),
                    );
                    output.insert_bound(new_symbol);
                    Pattern::Shadowed(original_region, shadow, new_symbol)
                },
            };
            proof {
                assert(output.bound() =~= set![old(scope).next_symbol(&old(env).ident_ids)]);
            }
            (output, Loc { region, value: can_pattern })
        },
        _ => canonicalize_pattern(env, var_store, scope, pattern_type, pattern, region),
    }
}

} // verus!
