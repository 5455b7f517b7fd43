//! `sponge!(func(args) [, out overwrites in, ...])`: calls `func` with some
//! of its path arguments redirected to temporary files, and once the call
//! returns `Ok`, renames each temporary file over its destination; when it
//! returns `Err`, removes them and hands back the error.  Each temporary
//! file is placed next to its destination.
//!
//! An argument is redirected
//! - when it is written `overwrites <path>`: the temporary file replaces
//!   `<path>` itself;
//! - when it is written `> [label][:] <path>` and an argument is written
//!   `< [label][:] <path>` with the same label: the temporary file replaces
//!   that argument (an output without such an input is passed as written);
//! - when a clause `out <word> in` names it (by `out = <path>` or by being
//!   the identifier `out`): the temporary file replaces the argument named `in`.
//!
//! Parsing keeps every argument as written, with its marker and label
//! (`SpongeCall`); the redirections above are worked out from that call when
//! the code is generated (`plan`).  Pairing `>label` with `<label` is a
//! convention of this library: the markers themselves give labels no meaning.
use crate::rename::{renames_from, renames_view, result_view, Ident, Rename, RenameSpec, Renames};
use crate::syntax::{
    expr_end, find_expr_end, is_punct_at, is_word, is_word_at, lemma_expr_end_from_bounds,
    span_at, span_of, Failure, ParseError,
};
use crate::template::{push_all, push_rename_call, push_source, push_tmp_path_decl, push_tree, rename_stmt, tmp_path_decl};
use crate::token::{
    copy_range, copy_trees, group, is_group, is_punct, lemma_trees_view_pointwise,
    lemma_trees_view_subrange, new_group, src, stream_view, tok_span, trees_view,
    Delimiter, Spacing, Span, Tok, TokenTree,
};
use vstd::prelude::*;

verus! {

// ---------------------------------------------------------------------------
// The arguments as written
// ---------------------------------------------------------------------------
/// How an argument is written.
#[derive(Clone, Copy, PartialEq, Eq, Debug, Structural)]
pub enum ArgKind {
    /// `<path>` or `name = <path>`.
    Normal,
    /// `< [label][:] <path>`: a file that a temporary file replaces.
    Input,
    /// `> [label][:] <path>`: a path redirected to a temporary file.
    Output,
    /// `overwrites <path>`: a path redirected to a temporary file that then
    /// replaces it.
    Overwrites,
}

/// An argument as written.
#[derive(Debug)]
pub struct Arg {
    pub kind: ArgKind,
    pub label: Option<Ident>,
    pub expr: Vec<TokenTree>,
}

/// The view of an argument as written.
pub struct ArgSpec {
    pub kind: ArgKind,
    pub label: Option<Tok>,
    pub expr: Seq<Tok>,
}

pub open spec fn opt_ident_view(l: Option<Ident>) -> Option<Tok> {
    match l {
        Some(i) => Some(i@),
        None => None,
    }
}

impl View for Arg {
    type V = ArgSpec;

    open spec fn view(&self) -> ArgSpec {
        ArgSpec { kind: self.kind, label: opt_ident_view(self.label), expr: stream_view(self.expr) }
    }
}

pub open spec fn args_view(v: Seq<Arg>) -> Seq<ArgSpec> {
    v.map_values(|r: Arg| r@)
}

pub open spec fn expected_expr() -> Seq<char> {
    "expected an expression"@
}

pub open spec fn overwrites_word() -> Seq<char> {
    "overwrites"@
}

/// The argument whose expression starts at `ts[j]`.
pub open spec fn raw_expr_from(kind: ArgKind, label: Option<Tok>, ts: Seq<Tok>, j: int) -> Result<
    (ArgSpec, int),
    Failure,
> {
    if j >= ts.len() {
        Err((Span::CallSite, expected_expr()))
    } else {
        match expr_end(ts, j) {
            None => Err((span_at(ts, j), expected_expr())),
            Some(e) => Ok((ArgSpec { kind, label, expr: ts.subrange(j, e) }, e)),
        }
    }
}

/// `< [label][:] <path>` or `> [label][:] <path>`, from the token after the
/// angle bracket.
pub open spec fn raw_marked(kind: ArgKind, ts: Seq<Tok>, j: int) -> Result<(ArgSpec, int), Failure> {
    let (label, k) = if j < ts.len() && is_word(ts[j]) {
        (Some(ts[j]), j + 1)
    } else {
        (None, j)
    };
    let k2 = if k < ts.len() && is_punct(ts[k], ':') {
        k + 1
    } else {
        k
    };
    raw_expr_from(kind, label, ts, k2)
}

pub open spec fn is_alone_eq(t: Tok) -> bool {
    t matches Tok::Punct { ch, spacing, .. } && ch == '=' && spacing == Spacing::Alone
}

/// The word `overwrites` followed by a path, where `overwrites ...` as a
/// whole is no expression (such as `overwrites.len()` would be).
pub open spec fn is_overwrites_marker(ts: Seq<Tok>, i: int) -> bool {
    &&& ts[i] matches Tok::Ident { name, .. } && name == overwrites_word()
    &&& i + 1 < ts.len()
    &&& !is_punct(ts[i + 1], ',')
    &&& expr_end(ts, i) is None
}

/// The argument that starts at `ts[i]`, and where its expression ends.
pub open spec fn raw_arg_at(ts: Seq<Tok>, i: int) -> Result<(ArgSpec, int), Failure> {
    if is_punct(ts[i], '<') {
        raw_marked(ArgKind::Input, ts, i + 1)
    } else if is_punct(ts[i], '>') {
        raw_marked(ArgKind::Output, ts, i + 1)
    } else if is_word(ts[i]) && i + 1 < ts.len() && is_alone_eq(ts[i + 1]) {
        raw_expr_from(ArgKind::Normal, Some(ts[i]), ts, i + 2)
    } else if is_overwrites_marker(ts, i) {
        raw_expr_from(ArgKind::Overwrites, None, ts, i + 1)
    } else {
        raw_expr_from(ArgKind::Normal, None, ts, i)
    }
}

pub proof fn lemma_raw_arg_at_advances(ts: Seq<Tok>, i: int)
    requires
        0 <= i < ts.len(),
    ensures
        raw_arg_at(ts, i) matches Ok((r, e)) ==> i < e <= ts.len() && (e == ts.len() || is_punct(
            ts[e],
            ',',
        )) && r.expr.len() > 0,
{
    let j = if is_punct(ts[i], '<') || is_punct(ts[i], '>') {
        let j0 = i + 1;
        let k = if j0 < ts.len() && is_word(ts[j0]) {
            j0 + 1
        } else {
            j0
        };
        if k < ts.len() && is_punct(ts[k], ':') {
            k + 1
        } else {
            k
        }
    } else if is_word(ts[i]) && i + 1 < ts.len() && is_alone_eq(ts[i + 1]) {
        i + 2
    } else if is_overwrites_marker(ts, i) {
        i + 1
    } else {
        i
    };
    lemma_expr_end_from_bounds(ts, j, j + 1);
}

/// The comma-separated arguments of `ts[i..]`.
pub open spec fn raw_args(ts: Seq<Tok>, i: int) -> Result<Seq<ArgSpec>, Failure>
    decreases ts.len() - i,
{
    if i < 0 || i >= ts.len() {
        Ok(Seq::empty())
    } else {
        match raw_arg_at(ts, i) {
            Err(x) => Err(x),
            Ok((r, e)) => {
                proof {
                    lemma_raw_arg_at_advances(ts, i);
                }
                if e >= ts.len() {
                    Ok(seq![r])
                } else {
                    match raw_args(ts, e + 1) {
                        Ok(rest) => Ok(seq![r] + rest),
                        Err(x) => Err(x),
                    }
                }
            },
        }
    }
}

fn is_alone_eq_at(ts: &Vec<TokenTree>, i: usize) -> (b: bool)
    ensures
        b == (i < ts.len() && is_alone_eq(stream_view(*ts)[i as int])),
{
    proof {
        lemma_trees_view_pointwise(ts@);
    }
    if i < ts.len() {
        match &ts[i] {
            TokenTree::Punct { ch: '=', spacing: Spacing::Alone, .. } => true,
            _ => false,
        }
    } else {
        false
    }
}

fn is_overwrites_at(ts: &Vec<TokenTree>, i: usize) -> (b: bool)
    requires
        i < ts.len(),
    ensures
        b == (stream_view(*ts)[i as int] matches Tok::Ident { name, .. } && name
            == overwrites_word()),
{
    proof {
        lemma_trees_view_pointwise(ts@);
    }
    match &ts[i] {
        TokenTree::Ident { name, .. } => {
            let kw = String::from_str("overwrites");
            name.eq(&kw)
        },
        _ => false,
    }
}

fn raw_expr_exec(kind: ArgKind, label: Option<Ident>, ts: &Vec<TokenTree>, j: usize) -> (r: Result<
    (Arg, usize),
    ParseError,
>)
    ensures
        match r {
            Ok((a, e)) => raw_expr_from(kind, opt_ident_view(label), stream_view(*ts), j as int)
                == Ok::<(ArgSpec, int), Failure>((a@, e as int)),
            Err(x) => raw_expr_from(kind, opt_ident_view(label), stream_view(*ts), j as int) == Err::<
                (ArgSpec, int),
                Failure,
            >(x@),
        },
{
    proof {
        lemma_trees_view_pointwise(ts@);
    }
    if j >= ts.len() {
        return Err(ParseError::new(Span::CallSite, "expected an expression"));
    }
    match find_expr_end(ts, j) {
        None => Err(ParseError::new(span_of(ts, j), "expected an expression")),
        Some(e) => {
            let expr = copy_range(ts, j, e);
            proof {
                lemma_trees_view_subrange(ts@, j as int, e as int);
            }
            Ok((Arg { kind, label, expr }, e))
        },
    }
}

impl Arg {
    /// Reads the argument that starts at `ts[i]` (see `raw_arg_at`).
    pub fn parse(ts: &Vec<TokenTree>, i: usize) -> (r: Result<(Arg, usize), ParseError>)
        requires
            i < ts.len(),
        ensures
            match r {
                Ok((a, e)) => raw_arg_at(stream_view(*ts), i as int) == Ok::<(ArgSpec, int), Failure>(
                    (a@, e as int),
                ),
                Err(x) => raw_arg_at(stream_view(*ts), i as int) == Err::<(ArgSpec, int), Failure>(
                    x@,
                ),
            },
    {
        let ghost v = stream_view(*ts);
        proof {
            lemma_trees_view_pointwise(ts@);
        }
        let lt = is_punct_at(ts, i, '<');
        let gt = is_punct_at(ts, i, '>');
        if lt || gt {
            let kind = if lt {
                ArgKind::Input
            } else {
                ArgKind::Output
            };
            let j = i + 1;
            let (label, k) = if is_word_at(ts, j) {
                (Ident::from_tree(&ts[j]), j + 1)
            } else {
                (None, j)
            };
            let k2 = if k < ts.len() && is_punct_at(ts, k, ':') {
                k + 1
            } else {
                k
            };
            return raw_expr_exec(kind, label, ts, k2);
        }
        if is_word_at(ts, i) && i + 1 < ts.len() && is_alone_eq_at(ts, i + 1) {
            return raw_expr_exec(ArgKind::Normal, Ident::from_tree(&ts[i]), ts, i + 2);
        }
        if is_overwrites_at(ts, i) && i + 1 < ts.len() && !is_punct_at(ts, i + 1, ',')
            && find_expr_end(ts, i).is_none() {
            return raw_expr_exec(ArgKind::Overwrites, None, ts, i + 1);
        }
        raw_expr_exec(ArgKind::Normal, None, ts, i)
    }
}

/// Reads the comma-separated arguments of `ts` (see `raw_args`).
pub fn parse_raw_args(ts: &Vec<TokenTree>) -> (r: Result<Vec<Arg>, ParseError>)
    ensures
        match r {
            Ok(v) => raw_args(stream_view(*ts), 0) == Ok::<Seq<ArgSpec>, Failure>(args_view(v@)),
            Err(x) => raw_args(stream_view(*ts), 0) == Err::<Seq<ArgSpec>, Failure>(x@),
        },
{
    let ghost v = stream_view(*ts);
    proof {
        lemma_trees_view_pointwise(ts@);
    }
    let mut acc: Vec<Arg> = Vec::new();
    let mut i: usize = 0;
    assert(args_view(acc@) =~= Seq::<ArgSpec>::empty());
    while i < ts.len()
        invariant
            i <= ts.len(),
            v == stream_view(*ts),
            v.len() == ts.len(),
            raw_args(v, 0) == match raw_args(v, i as int) {
                Ok(rest) => Ok(args_view(acc@) + rest),
                Err(x) => Err::<Seq<ArgSpec>, Failure>(x),
            },
        decreases ts.len() - i,
    {
        let (a, e) = match Arg::parse(ts, i) {
            Ok(p) => p,
            Err(x) => {
                return Err(x);
            },
        };
        proof {
            lemma_raw_arg_at_advances(v, i as int);
        }
        let ghost before = args_view(acc@);
        let ghost a_v = a@;
        acc.push(a);
        assert(args_view(acc@) =~= before + seq![a_v]);
        if e >= ts.len() {
            assert(raw_args(v, e as int) == Ok::<Seq<ArgSpec>, Failure>(Seq::empty()));
            assert(before + seq![a_v] =~= before + seq![a_v] + Seq::<ArgSpec>::empty());
            i = e;
        } else {
            proof {
                match raw_args(v, e + 1) {
                    Ok(rest) => {
                        assert(before + (seq![a_v] + rest) =~= before + seq![a_v] + rest);
                    },
                    Err(_) => {},
                }
            }
            i = e + 1;
        }
    }
    assert(raw_args(v, i as int) == Ok::<Seq<ArgSpec>, Failure>(Seq::empty()));
    assert(args_view(acc@) + Seq::<ArgSpec>::empty() =~= args_view(acc@));
    Ok(acc)
}


// ---------------------------------------------------------------------------
// The call as read, and what becomes of its arguments
// ---------------------------------------------------------------------------
/// What the written call passes at one argument position.
#[derive(Debug)]
pub enum Planned {
    /// The argument's expression, as written.
    AsWritten(Vec<TokenTree>),
    /// A temporary path next to `dest`; once the call succeeds, the
    /// temporary file is renamed over `dest`, and once it fails, the
    /// temporary file is removed.
    ToTemporary { dest: Vec<TokenTree> },
}

/// The view of what is passed at one argument position.
pub enum PlannedSpec {
    AsWritten(Seq<Tok>),
    ToTemporary { dest: Seq<Tok> },
}

impl View for Planned {
    type V = PlannedSpec;

    open spec fn view(&self) -> PlannedSpec {
        match self {
            Planned::AsWritten(e) => PlannedSpec::AsWritten(stream_view(*e)),
            Planned::ToTemporary { dest } => PlannedSpec::ToTemporary { dest: stream_view(*dest) },
        }
    }
}

pub open spec fn planned_view(v: Seq<Planned>) -> Seq<PlannedSpec> {
    v.map_values(|a: Planned| a@)
}

/// The invocation as written: the function's name, its arguments in order
/// (each with its marker and label), and the rename clauses.
#[derive(Debug)]
pub struct SpongeCall {
    pub func: Ident,
    pub args: Vec<Arg>,
    pub renames: Vec<Rename>,
}

/// The view of an invocation.
pub struct CallSpec {
    pub func: Tok,
    pub args: Seq<ArgSpec>,
    pub renames: Seq<RenameSpec>,
}

impl View for SpongeCall {
    type V = CallSpec;

    open spec fn view(&self) -> CallSpec {
        CallSpec { func: self.func@, args: args_view(self.args@), renames: renames_view(self.renames@) }
    }
}

pub open spec fn label_name(l: Option<Tok>) -> Option<Seq<char>> {
    match l {
        Some(t) => Some(t->Ident_name),
        None => None,
    }
}

/// The name of an ordinary argument: its keyword, or the identifier that
/// is the whole argument.
pub open spec fn normal_name(r: ArgSpec) -> Option<Seq<char>> {
    if r.kind == ArgKind::Normal {
        match r.label {
            Some(l) => Some(l->Ident_name),
            None => if r.expr.len() == 1 && r.expr[0] is Ident {
                Some(r.expr[0]->Ident_name)
            } else {
                None
            },
        }
    } else {
        None
    }
}

/// The first ordinary argument from `raws[i]` on named `n`.
pub open spec fn find_named(raws: Seq<ArgSpec>, n: Seq<char>, i: int) -> Option<int>
    decreases raws.len() - i,
{
    if i < 0 || i >= raws.len() {
        None
    } else if normal_name(raws[i]) == Some(n) {
        Some(i)
    } else {
        find_named(raws, n, i + 1)
    }
}

/// Whether two labels are the same: both absent, or of the same name.
pub open spec fn same_label(a: Option<Tok>, b: Option<Tok>) -> bool {
    label_name(a) == label_name(b)
}

/// The first input argument from `raws[i]` on with the same label as `l`.
pub open spec fn find_input(raws: Seq<ArgSpec>, l: Option<Tok>, i: int) -> Option<int>
    decreases raws.len() - i,
{
    if i < 0 || i >= raws.len() {
        None
    } else if raws[i].kind == ArgKind::Input && same_label(raws[i].label, l) {
        Some(i)
    } else {
        find_input(raws, l, i + 1)
    }
}

/// The first clause from `cs[i]` on that redirects the argument named `n`.
pub open spec fn find_clause(cs: Seq<RenameSpec>, n: Seq<char>, i: int) -> Option<int>
    decreases cs.len() - i,
{
    if i < 0 || i >= cs.len() {
        None
    } else if cs[i].overwrites->Ident_name == n {
        Some(i)
    } else {
        find_clause(cs, n, i + 1)
    }
}

pub open spec fn no_arg(n: Seq<char>) -> Seq<char> {
    "no argument named `"@ + n + "`"@
}

/// The first clause from `cs[i]` on that names an argument that is not
/// there, as an error.
pub open spec fn clause_error(raws: Seq<ArgSpec>, cs: Seq<RenameSpec>, i: int) -> Option<Failure>
    decreases cs.len() - i,
{
    if i < 0 || i >= cs.len() {
        None
    } else {
        let o = cs[i].overwrites;
        let g = cs[i].original;
        if find_named(raws, o->Ident_name, 0) is None {
            Some((tok_span(o), no_arg(o->Ident_name)))
        } else if find_named(raws, g->Ident_name, 0) is None {
            Some((tok_span(g), no_arg(g->Ident_name)))
        } else {
            clause_error(raws, cs, i + 1)
        }
    }
}

/// What the call passes for the argument `raws[k]`.  Redirecting an output
/// `>label` onto the input `<label` with the same label is this crate's
/// reading of the labels; an output without such an input, and every input,
/// are passed as written.
pub open spec fn plan_arg(raws: Seq<ArgSpec>, cs: Seq<RenameSpec>, k: int) -> PlannedSpec {
    let r = raws[k];
    match r.kind {
        ArgKind::Overwrites => PlannedSpec::ToTemporary { dest: r.expr },
        ArgKind::Input => PlannedSpec::AsWritten(r.expr),
        ArgKind::Output => match find_input(raws, r.label, 0) {
            Some(j) => PlannedSpec::ToTemporary { dest: raws[j].expr },
            None => PlannedSpec::AsWritten(r.expr),
        },
        ArgKind::Normal => match normal_name(r) {
            None => PlannedSpec::AsWritten(r.expr),
            Some(n) => match find_clause(cs, n, 0) {
                None => PlannedSpec::AsWritten(r.expr),
                Some(c) => match find_named(raws, cs[c].original->Ident_name, 0) {
                    Some(j) => PlannedSpec::ToTemporary { dest: raws[j].expr },
                    None => PlannedSpec::AsWritten(r.expr),
                },
            },
        },
    }
}

/// What the call passes for each argument, in order.
pub open spec fn plan(raws: Seq<ArgSpec>, cs: Seq<RenameSpec>) -> Seq<PlannedSpec> {
    Seq::new(raws.len(), |k: int| plan_arg(raws, cs, k))
}

pub open spec fn simple_name() -> Seq<char> {
    "Expected a simple function name"@
}

pub open spec fn expected_parens() -> Seq<char> {
    "expected parentheses"@
}

pub open spec fn unexpected_token() -> Seq<char> {
    "unexpected token"@
}

/// The invocation read from the macro's input.
pub open spec fn sponge_call(ts: Seq<Tok>) -> Result<CallSpec, Failure> {
    if ts.len() == 0 || !is_word(ts[0]) || (ts.len() >= 2 && is_punct(ts[1], ':')) {
        Err((span_at(ts, 0), simple_name()))
    } else if ts.len() < 2 || !is_group(ts[1], Delimiter::Parenthesis) {
        Err((span_at(ts, 1), expected_parens()))
    } else if ts.len() > 2 && !is_punct(ts[2], ',') {
        Err((span_at(ts, 2), unexpected_token()))
    } else {
        match raw_args(ts[1]->Group_stream, 0) {
            Err(x) => Err(x),
            Ok(raws) => match renames_from(ts, 3) {
                Err(x) => Err(x),
                Ok(cs) => match clause_error(raws, cs, 0) {
                    Some(x) => Err(x),
                    None => Ok(CallSpec { func: ts[0], args: raws, renames: cs }),
                },
            },
        }
    }
}

// ---------------------------------------------------------------------------
// Resolution, computed
// ---------------------------------------------------------------------------
fn normal_name_exec(r: &Arg) -> (n: Option<String>)
    ensures
        match n {
            Some(s) => normal_name(r@) == Some(s@),
            None => normal_name(r@) is None,
        },
{
    proof {
        lemma_trees_view_pointwise(r.expr@);
    }
    if r.kind != ArgKind::Normal {
        return None;
    }
    match &r.label {
        Some(l) => Some(l.name.clone()),
        None => {
            if r.expr.len() == 1 {
                match &r.expr[0] {
                    TokenTree::Ident { name, .. } => Some(name.clone()),
                    _ => None,
                }
            } else {
                None
            }
        },
    }
}

fn find_named_exec(raws: &Vec<Arg>, n: &String) -> (r: Option<usize>)
    ensures
        match r {
            Some(k) => find_named(args_view(raws@), n@, 0) == Some(k as int) && k < raws.len(),
            None => find_named(args_view(raws@), n@, 0) is None,
        },
{
    let ghost rv = args_view(raws@);
    let mut i: usize = 0;
    while i < raws.len()
        invariant
            i <= raws.len(),
            rv == args_view(raws@),
            find_named(rv, n@, 0) == find_named(rv, n@, i as int),
        decreases raws.len() - i,
    {
        match normal_name_exec(&raws[i]) {
            Some(s) => {
                if s.eq(n) {
                    return Some(i);
                }
            },
            None => {},
        }
        i = i + 1;
    }
    None
}

fn label_eq(a: &Option<Ident>, b: &Option<Ident>) -> (r: bool)
    ensures
        r == same_label(opt_ident_view(*a), opt_ident_view(*b)),
{
    match (a, b) {
        (Some(x), Some(y)) => x.name.eq(&y.name),
        (None, None) => true,
        _ => false,
    }
}

fn find_input_exec(raws: &Vec<Arg>, l: &Option<Ident>) -> (r: Option<usize>)
    ensures
        match r {
            Some(k) => find_input(args_view(raws@), opt_ident_view(*l), 0) == Some(
                k as int,
            ) && k < raws.len(),
            None => find_input(args_view(raws@), opt_ident_view(*l), 0) is None,
        },
{
    let ghost rv = args_view(raws@);
    let ghost ln = opt_ident_view(*l);
    let mut i: usize = 0;
    while i < raws.len()
        invariant
            i <= raws.len(),
            rv == args_view(raws@),
            ln == opt_ident_view(*l),
            find_input(rv, ln, 0) == find_input(rv, ln, i as int),
        decreases raws.len() - i,
    {
        assert(rv[i as int] == raws@[i as int]@);
        if raws[i].kind == ArgKind::Input && label_eq(&raws[i].label, l) {
            return Some(i);
        }
        i = i + 1;
    }
    None
}

fn find_clause_exec(cs: &Vec<Rename>, n: &String) -> (r: Option<usize>)
    ensures
        match r {
            Some(k) => find_clause(renames_view(cs@), n@, 0) == Some(k as int) && k < cs.len(),
            None => find_clause(renames_view(cs@), n@, 0) is None,
        },
{
    let ghost cv = renames_view(cs@);
    let mut i: usize = 0;
    while i < cs.len()
        invariant
            i <= cs.len(),
            cv == renames_view(cs@),
            find_clause(cv, n@, 0) == find_clause(cv, n@, i as int),
        decreases cs.len() - i,
    {
        if cs[i].overwrites_ident.name.eq(n) {
            return Some(i);
        }
        i = i + 1;
    }
    None
}

fn no_arg_error(n: &Ident) -> (e: ParseError)
    ensures
        e@ == (n.span, no_arg(n.name@)),
{
    let mut msg = String::from_str("no argument named `");
    msg.append(n.name.as_str());
    msg.append("`");
    ParseError { span: n.span, message: msg }
}

fn find_clause_error(raws: &Vec<Arg>, cs: &Vec<Rename>) -> (r: Option<ParseError>)
    ensures
        match r {
            Some(e) => clause_error(args_view(raws@), renames_view(cs@), 0) == Some(e@),
            None => clause_error(args_view(raws@), renames_view(cs@), 0) is None,
        },
{
    let ghost rv = args_view(raws@);
    let ghost cv = renames_view(cs@);
    let mut i: usize = 0;
    while i < cs.len()
        invariant
            i <= cs.len(),
            rv == args_view(raws@),
            cv == renames_view(cs@),
            clause_error(rv, cv, 0) == clause_error(rv, cv, i as int),
        decreases cs.len() - i,
    {
        let c = &cs[i];
        if find_named_exec(raws, &c.overwrites_ident.name).is_none() {
            return Some(no_arg_error(&c.overwrites_ident));
        }
        if find_named_exec(raws, &c.original_ident.name).is_none() {
            return Some(no_arg_error(&c.original_ident));
        }
        i = i + 1;
    }
    None
}

fn plan_arg_exec(raws: &Vec<Arg>, cs: &Vec<Rename>, k: usize) -> (r: Planned)
    requires
        k < raws.len(),
    ensures
        r@ == plan_arg(args_view(raws@), renames_view(cs@), k as int),
{
    let r = &raws[k];
    let path = copy_trees(&r.expr);
    match r.kind {
        ArgKind::Overwrites => Planned::ToTemporary { dest: path },
        ArgKind::Input => Planned::AsWritten(path),
        ArgKind::Output => match find_input_exec(raws, &r.label) {
            Some(j) => Planned::ToTemporary { dest: copy_trees(&raws[j].expr) },
            None => Planned::AsWritten(path),
        },
        ArgKind::Normal => match normal_name_exec(r) {
            None => Planned::AsWritten(path),
            Some(n) => match find_clause_exec(cs, &n) {
                None => Planned::AsWritten(path),
                Some(c) => match find_named_exec(raws, &cs[c].original_ident.name) {
                    Some(j) => Planned::ToTemporary { dest: copy_trees(&raws[j].expr) },
                    None => Planned::AsWritten(path),
                },
            },
        },
    }
}

/// Computes what the call passes for each argument (see `plan`).
pub fn plan_args(raws: &Vec<Arg>, cs: &Vec<Rename>) -> (r: Vec<Planned>)
    ensures
        planned_view(r@) == plan(args_view(raws@), renames_view(cs@)),
{
    let ghost rv = args_view(raws@);
    let ghost cv = renames_view(cs@);
    let mut acc: Vec<Planned> = Vec::new();
    let mut k: usize = 0;
    while k < raws.len()
        invariant
            k <= raws.len(),
            rv == args_view(raws@),
            cv == renames_view(cs@),
            planned_view(acc@) =~= plan(rv, cv).take(k as int),
        decreases raws.len() - k,
    {
        let a = plan_arg_exec(raws, cs, k);
        let ghost before = planned_view(acc@);
        let ghost a_v = a@;
        acc.push(a);
        assert(planned_view(acc@) =~= before.push(a_v));
        assert(plan(rv, cv).take(k + 1) =~= plan(rv, cv).take(k as int).push(plan(rv, cv)[k as int]));
        k = k + 1;
    }
    assert(plan(rv, cv).take(raws@.len() as int) =~= plan(rv, cv));
    acc
}

impl SpongeCall {
    /// Reads the macro's input (see `sponge_call`).
    pub fn parse(ts: &Vec<TokenTree>) -> (r: Result<SpongeCall, ParseError>)
        ensures
            result_view(r) == sponge_call(stream_view(*ts)),
    {
        let ghost v = stream_view(*ts);
        proof {
            lemma_trees_view_pointwise(ts@);
        }
        if ts.len() == 0 || !is_word_at(ts, 0) || (ts.len() >= 2 && is_punct_at(ts, 1, ':')) {
            return Err(ParseError::new(span_of(ts, 0), "Expected a simple function name"));
        }
        let stream = if ts.len() >= 2 {
            match &ts[1] {
                TokenTree::Group { delimiter: Delimiter::Parenthesis, stream, .. } => Some(stream),
                _ => None,
            }
        } else {
            None
        };
        let stream = match stream {
            Some(s) => s,
            None => {
                return Err(ParseError::new(span_of(ts, 1), "expected parentheses"));
            },
        };
        if ts.len() > 2 && !is_punct_at(ts, 2, ',') {
            return Err(ParseError::new(span_of(ts, 2), "unexpected token"));
        }
        let raws = match parse_raw_args(stream) {
            Ok(r) => r,
            Err(e) => {
                return Err(e);
            },
        };
        let clauses = if ts.len() >= 3 {
            match Renames::parse_from(ts, 3) {
                Ok(c) => c.arg_renames,
                Err(e) => {
                    return Err(e);
                },
            }
        } else {
            Vec::new()
        };
        assert(renames_from(v, 3) == Ok::<Seq<RenameSpec>, Failure>(renames_view(clauses@))) by {
            if ts.len() < 3 {
                assert(renames_view(clauses@) =~= Seq::<RenameSpec>::empty());
            }
        }
        match find_clause_error(&raws, &clauses) {
            Some(e) => {
                return Err(e);
            },
            None => {},
        }
        let func = Ident::from_tree(&ts[0]).unwrap();
        Ok(SpongeCall { func, args: raws, renames: clauses })
    }
}

/// Reads the macro's input.
pub fn parse(ts: &Vec<TokenTree>) -> (r: Result<SpongeCall, ParseError>)
    ensures
        result_view(r) == sponge_call(stream_view(*ts)),
{
    SpongeCall::parse(ts)
}


// ---------------------------------------------------------------------------
// Code generation
// ---------------------------------------------------------------------------
pub open spec fn digit(d: nat) -> char {
    seq!['0', '1', '2', '3', '4', '5', '6', '7', '8', '9'][d as int]
}

/// The decimal digits of `n`.
pub open spec fn decimal(n: nat) -> Seq<char>
    decreases n,
{
    if n < 10 {
        seq![digit(n)]
    } else {
        decimal(n / 10) + seq![digit(n % 10)]
    }
}

fn digit_char(d: usize) -> (c: char)
    requires
        d < 10,
    ensures
        c == digit(d as nat),
{
    match d {
        0 => '0',
        1 => '1',
        2 => '2',
        3 => '3',
        4 => '4',
        5 => '5',
        6 => '6',
        7 => '7',
        8 => '8',
        _ => '9',
    }
}

/// Appends the decimal digits of `n`.
fn push_decimal(out: &mut String, n: usize)
    ensures
        final(out)@ == old(out)@ + decimal(n as nat),
    decreases n,
{
    if n >= 10 {
        push_decimal(out, n / 10);
    }
    crate::token::push_char(out, digit_char(n % 10));
    assert(final(out)@ =~= old(out)@ + decimal(n as nat));
}

/// The temporary path variable for the argument at position `i`:
/// `__sponge_tmp_<i>`, at the call site.
pub open spec fn tmp_var(i: int) -> Tok {
    Tok::Ident { name: "__sponge_tmp_"@ + decimal(i as nat), span: Span::CallSite }
}

fn tmp_var_tree(i: usize) -> (t: TokenTree)
    ensures
        t@ == tmp_var(i as int),
{
    let mut name = String::from_str("__sponge_tmp_");
    push_decimal(&mut name, i);
    TokenTree::Ident { name, span: Span::CallSite }
}

/// The declarations of the temporary paths of the first `n` arguments.
pub open spec fn tmp_decls(args: Seq<PlannedSpec>, n: int) -> Seq<Tok>
    decreases n,
{
    if n <= 0 {
        Seq::empty()
    } else {
        tmp_decls(args, n - 1) + match args[n - 1] {
            PlannedSpec::ToTemporary { dest } => tmp_path_decl(tmp_var(n - 1), dest),
            PlannedSpec::AsWritten(_) => Seq::empty(),
        }
    }
}

/// The tokens that stand for the argument at position `i` in the call.
pub open spec fn arg_tokens(a: PlannedSpec, i: int) -> Seq<Tok> {
    match a {
        PlannedSpec::AsWritten(e) => e,
        PlannedSpec::ToTemporary { .. } => seq![tmp_var(i), src(".as_path()"@)],
    }
}

/// The first `n` arguments of the call, separated by commas.
pub open spec fn call_args(args: Seq<PlannedSpec>, n: int) -> Seq<Tok>
    decreases n,
{
    if n <= 0 {
        Seq::empty()
    } else if n == 1 {
        arg_tokens(args[0], 0)
    } else {
        call_args(args, n - 1) + seq![src(","@)] + arg_tokens(args[n - 1], n - 1)
    }
}

/// The renames of the temporary files of the first `n` arguments.
pub open spec fn tmp_renames(args: Seq<PlannedSpec>, n: int) -> Seq<Tok>
    decreases n,
{
    if n <= 0 {
        Seq::empty()
    } else {
        tmp_renames(args, n - 1) + match args[n - 1] {
            PlannedSpec::ToTemporary { dest } => rename_stmt(seq![tmp_var(n - 1)], dest),
            PlannedSpec::AsWritten(_) => Seq::empty(),
        }
    }
}

/// `let _ = ::std::fs::remove_file(&<tmp>);`: removes a temporary file,
/// whatever the outcome of the removal.
pub open spec fn remove_stmt(tmp: Tok) -> Seq<Tok> {
    seq![
        src("let _ = ::std::fs::remove_file"@),
        group(Delimiter::Parenthesis, seq![src("&"@), tmp]),
        src(";"@),
    ]
}

/// The removals of the temporary files of the first `n` arguments.
pub open spec fn tmp_cleanups(args: Seq<PlannedSpec>, n: int) -> Seq<Tok>
    decreases n,
{
    if n <= 0 {
        Seq::empty()
    } else {
        tmp_cleanups(args, n - 1) + match args[n - 1] {
            PlannedSpec::ToTemporary { .. } => remove_stmt(tmp_var(n - 1)),
            PlannedSpec::AsWritten(_) => Seq::empty(),
        }
    }
}

/// The block that the macro writes: the temporary paths; the call; on
/// `Ok`, the renames and the value; on `Err`, the removal of the temporary
/// files and the error unchanged.
pub open spec fn expand_plan(func: Tok, p: Seq<PlannedSpec>) -> Seq<Tok> {
    let n = p.len() as int;
    seq![
        group(
            Delimiter::Brace,
            tmp_decls(p, n) + seq![
                src("match"@),
                func,
                group(Delimiter::Parenthesis, call_args(p, n)),
                group(
                    Delimiter::Brace,
                    seq![
                        src("Ok(__sponge_ok) =>"@),
                        group(Delimiter::Brace, tmp_renames(p, n) + seq![src("Ok(__sponge_ok)"@)]),
                        src("Err(__sponge_err) =>"@),
                        group(Delimiter::Brace, tmp_cleanups(p, n) + seq![src("Err(__sponge_err)"@)]),
                    ],
                ),
            ],
        ),
    ]
}

/// The block for an invocation: what `expand_plan` writes for what the call
/// passes at each position.
pub open spec fn expand(c: CallSpec) -> Seq<Tok> {
    expand_plan(c.func, plan(c.args, c.renames))
}

/// Writes the block for an invocation.
pub fn codegen(call: SpongeCall) -> (out: Vec<TokenTree>)
    ensures
        stream_view(out) == expand(call@),
{
    let ghost cv = call@;
    let SpongeCall { func, args, renames: clauses } = call;
    let args = plan_args(&args, &clauses);
    let ghost av = planned_view(args@);
    let mut decls: Vec<TokenTree> = Vec::new();
    let mut call_toks: Vec<TokenTree> = Vec::new();
    let mut renames: Vec<TokenTree> = Vec::new();
    let mut cleanups: Vec<TokenTree> = Vec::new();
    assert(trees_view(Seq::<TokenTree>::empty()) =~= Seq::<Tok>::empty());
    let mut i: usize = 0;
    while i < args.len()
        invariant
            i <= args.len(),
            av == planned_view(args@),
            stream_view(decls) == tmp_decls(av, i as int),
            stream_view(call_toks) == call_args(av, i as int),
            stream_view(renames) == tmp_renames(av, i as int),
            stream_view(cleanups) == tmp_cleanups(av, i as int),
        decreases args.len() - i,
    {
        assert(av[i as int] == args@[i as int]@);
        if i > 0 {
            push_source(&mut call_toks, ",");
        }
        let ghost c0 = stream_view(call_toks);
        let ghost d0 = stream_view(decls);
        let ghost r0 = stream_view(renames);
        match &args[i] {
            Planned::AsWritten(e) => {
                push_all(&mut call_toks, copy_trees(e));
                assert(stream_view(decls) =~= tmp_decls(av, i + 1));
                assert(stream_view(renames) =~= tmp_renames(av, i + 1));
                assert(stream_view(cleanups) =~= tmp_cleanups(av, i + 1));
            },
            Planned::ToTemporary { dest } => {
                push_tmp_path_decl(&mut decls, tmp_var_tree(i), copy_trees(dest));
                push_tree(&mut call_toks, tmp_var_tree(i));
                push_source(&mut call_toks, ".as_path()");
                let mut tmp: Vec<TokenTree> = Vec::new();
                push_tree(&mut tmp, tmp_var_tree(i));
                push_rename_call(&mut renames, tmp, copy_trees(dest));
                push_source(&mut renames, "?;");
                let ghost k0 = stream_view(cleanups);
                let mut removed: Vec<TokenTree> = Vec::new();
                push_source(&mut removed, "&");
                push_tree(&mut removed, tmp_var_tree(i));
                assert(stream_view(removed) =~= seq![src("&"@), tmp_var(i as int)]);
                push_source(&mut cleanups, "let _ = ::std::fs::remove_file");
                push_tree(&mut cleanups, new_group(Delimiter::Parenthesis, removed));
                push_source(&mut cleanups, ";");
                assert(stream_view(cleanups) =~= k0 + remove_stmt(tmp_var(i as int)));
                assert(stream_view(decls) =~= tmp_decls(av, i + 1));
                assert(stream_view(renames) =~= tmp_renames(av, i + 1));
                assert(stream_view(cleanups) =~= tmp_cleanups(av, i + 1));
            },
        }
        proof {
            if i == 0 {
                assert(c0 =~= Seq::<Tok>::empty());
            }
            assert(stream_view(call_toks) =~= call_args(av, i + 1));
        }
        i = i + 1;
    }
    let ghost n = av.len() as int;
    assert(plan(cv.args, cv.renames) == av && cv.func == func@ && n == i);
    let mut ok_block = renames;
    push_source(&mut ok_block, "Ok(__sponge_ok)");
    assert(stream_view(ok_block) =~= tmp_renames(av, n) + seq![src("Ok(__sponge_ok)"@)]);
    let mut arms: Vec<TokenTree> = Vec::new();
    push_source(&mut arms, "Ok(__sponge_ok) =>");
    push_tree(&mut arms, new_group(Delimiter::Brace, ok_block));
    let mut err_block = cleanups;
    push_source(&mut err_block, "Err(__sponge_err)");
    assert(stream_view(err_block) =~= tmp_cleanups(av, n) + seq![src("Err(__sponge_err)"@)]);
    push_source(&mut arms, "Err(__sponge_err) =>");
    push_tree(&mut arms, new_group(Delimiter::Brace, err_block));
    assert(stream_view(arms) =~= seq![
        src("Ok(__sponge_ok) =>"@),
        group(Delimiter::Brace, tmp_renames(av, n) + seq![src("Ok(__sponge_ok)"@)]),
        src("Err(__sponge_err) =>"@),
        group(Delimiter::Brace, tmp_cleanups(av, n) + seq![src("Err(__sponge_err)"@)]),
    ]);
    let ghost arms_v = stream_view(arms);
    let ghost call_v = stream_view(call_toks);
    let mut block = decls;
    push_source(&mut block, "match");
    push_tree(&mut block, func.to_tree());
    push_tree(&mut block, new_group(Delimiter::Parenthesis, call_toks));
    push_tree(&mut block, new_group(Delimiter::Brace, arms));
    assert(stream_view(block) =~= tmp_decls(av, n) + seq![
        src("match"@),
        cv.func,
        group(Delimiter::Parenthesis, call_v),
        group(Delimiter::Brace, arms_v),
    ]);
    let mut out: Vec<TokenTree> = Vec::new();
    push_tree(&mut out, new_group(Delimiter::Brace, block));
    assert(stream_view(out) =~= expand(cv));
    out
}


// ---------------------------------------------------------------------------
// Laws
// ---------------------------------------------------------------------------
pub proof fn lemma_decimal_len(n: nat)
    ensures
        decimal(n).len() >= 1,
        n >= 10 ==> decimal(n).len() >= 2,
    decreases n,
{
    if n >= 10 {
        lemma_decimal_len(n / 10);
    }
}

/// Different numbers have different decimal forms.
pub proof fn lemma_decimal_injective(a: nat, b: nat)
    requires
        decimal(a) == decimal(b),
    ensures
        a == b,
    decreases a,
{
    lemma_decimal_len(a);
    lemma_decimal_len(b);
    let digits = seq!['0', '1', '2', '3', '4', '5', '6', '7', '8', '9'];
    if a < 10 && b < 10 {
        assert(decimal(a)[0] == digits[a as int]);
        assert(decimal(b)[0] == digits[b as int]);
    } else if a >= 10 && b >= 10 {
        let da = decimal(a);
        let db = decimal(b);
        assert(da.drop_last() =~= decimal(a / 10));
        assert(db.drop_last() =~= decimal(b / 10));
        assert(da.last() == digit(a % 10));
        assert(db.last() == digit(b % 10));
        lemma_decimal_injective(a / 10, b / 10);
        assert(a % 10 == b % 10) by {
            assert(digits[(a % 10) as int] == digits[(b % 10) as int]);
        }
        assert(a == 10 * (a / 10) + a % 10);
        assert(b == 10 * (b / 10) + b % 10);
    }
}

/// The temporary path variables of two different argument positions never
/// share a name.
pub proof fn law_tmp_vars_distinct(i: nat, j: nat)
    requires
        i != j,
    ensures
        tmp_var(i as int) != tmp_var(j as int),
{
    if tmp_var(i as int) == tmp_var(j as int) {
        let p = "__sponge_tmp_"@;
        assert((p + decimal(i)).skip(p.len() as int) =~= decimal(i));
        assert((p + decimal(j)).skip(p.len() as int) =~= decimal(j));
        lemma_decimal_injective(i, j);
    }
}

pub proof fn lemma_tmp_prefix(args: Seq<PlannedSpec>, m: int, n: int)
    requires
        0 <= m <= n,
    ensures
        tmp_decls(args, n).len() >= tmp_decls(args, m).len(),
        tmp_decls(args, n).subrange(0, tmp_decls(args, m).len() as int) == tmp_decls(args, m),
        tmp_renames(args, n).len() >= tmp_renames(args, m).len(),
        tmp_renames(args, n).subrange(0, tmp_renames(args, m).len() as int) == tmp_renames(args, m),
        tmp_cleanups(args, n).len() >= tmp_cleanups(args, m).len(),
        tmp_cleanups(args, n).subrange(0, tmp_cleanups(args, m).len() as int) == tmp_cleanups(
            args,
            m,
        ),
    decreases n - m,
{
    if m < n {
        lemma_tmp_prefix(args, m, n - 1);
        let a = tmp_decls(args, n - 1);
        let r = tmp_renames(args, n - 1);
        let c = tmp_cleanups(args, n - 1);
        assert(tmp_decls(args, n).subrange(0, a.len() as int) =~= a);
        assert(tmp_renames(args, n).subrange(0, r.len() as int) =~= r);
        assert(tmp_cleanups(args, n).subrange(0, c.len() as int) =~= c);
        assert(tmp_decls(args, n).subrange(0, tmp_decls(args, m).len() as int) =~= a.subrange(
            0,
            tmp_decls(args, m).len() as int,
        ));
        assert(tmp_renames(args, n).subrange(0, tmp_renames(args, m).len() as int) =~= r.subrange(
            0,
            tmp_renames(args, m).len() as int,
        ));
        assert(tmp_cleanups(args, n).subrange(0, tmp_cleanups(args, m).len() as int) =~= c.subrange(
            0,
            tmp_cleanups(args, m).len() as int,
        ));
    } else {
        assert(tmp_decls(args, n).subrange(0, tmp_decls(args, m).len() as int) =~= tmp_decls(args, m));
        assert(tmp_renames(args, n).subrange(0, tmp_renames(args, m).len() as int) =~= tmp_renames(
            args,
            m,
        ));
        assert(tmp_cleanups(args, n).subrange(0, tmp_cleanups(args, m).len() as int)
            =~= tmp_cleanups(args, m));
    }
}

/// A redirected argument at position `k`: before the call, the block binds
/// `__sponge_tmp_<k>` to the temporary path next to its destination, after
/// those of the earlier arguments; in the `Ok` arm it renames that
/// temporary file over its destination, after those of the earlier
/// arguments.
pub proof fn law_redirected_argument(args: Seq<PlannedSpec>, k: int)
    requires
        0 <= k < args.len(),
        args[k] is ToTemporary,
    ensures
        ({
            let n = args.len() as int;
            let d = tmp_decls(args, k);
            let r = tmp_renames(args, k);
            &&& tmp_decls(args, n).subrange(0, d.len() + 5int) == d + tmp_path_decl(
                tmp_var(k),
                args[k]->ToTemporary_dest,
            )
            &&& tmp_renames(args, n).subrange(0, r.len() + 3int) == r + rename_stmt(
                seq![tmp_var(k)],
                args[k]->ToTemporary_dest,
            )
        }),
{
    let n = args.len() as int;
    lemma_tmp_prefix(args, k + 1, n);
    let d1 = tmp_decls(args, k + 1);
    let r1 = tmp_renames(args, k + 1);
    assert(d1 =~= tmp_decls(args, k) + tmp_path_decl(tmp_var(k), args[k]->ToTemporary_dest));
    assert(r1 =~= tmp_renames(args, k) + rename_stmt(seq![tmp_var(k)], args[k]->ToTemporary_dest));
}

/// When the call fails, the block removes the temporary file of every
/// redirected argument, in order, and hands back the error unchanged; it
/// renames nothing.  The `k`-th redirected argument's removal is that of
/// `__sponge_tmp_<k>`.
pub proof fn law_failed_call_removes_temporaries(func: Tok, p: Seq<PlannedSpec>, k: int)
    requires
        0 <= k < p.len(),
        p[k] is ToTemporary,
    ensures
        ({
            let n = p.len() as int;
            let e = tmp_cleanups(p, k);
            &&& expand_plan(func, p)[0]->Group_stream.last() == group(
                Delimiter::Brace,
                seq![
                    src("Ok(__sponge_ok) =>"@),
                    group(Delimiter::Brace, tmp_renames(p, n) + seq![src("Ok(__sponge_ok)"@)]),
                    src("Err(__sponge_err) =>"@),
                    group(Delimiter::Brace, tmp_cleanups(p, n) + seq![src("Err(__sponge_err)"@)]),
                ],
            )
            &&& tmp_cleanups(p, n).subrange(0, e.len() + 3int) == e + remove_stmt(tmp_var(k))
        }),
{
    let n = p.len() as int;
    lemma_tmp_prefix(p, k + 1, n);
    assert(tmp_cleanups(p, k + 1) =~= tmp_cleanups(p, k) + remove_stmt(tmp_var(k)));
}

/// A clause `out <word> in` sends the argument named `out` to a temporary
/// path and renames it over the path of the argument named `in`; an
/// argument written `overwrites <path>` is renamed over `<path>` itself; an
/// output `>label` with no input of the same label, like any other
/// argument, is passed as written.
pub proof fn law_clause_redirects_named_argument(raws: Seq<ArgSpec>, cs: Seq<RenameSpec>, k: int)
    requires
        0 <= k < raws.len(),
    ensures
        raws[k].kind == ArgKind::Overwrites ==> plan_arg(raws, cs, k) == (PlannedSpec::ToTemporary { dest: raws[k].expr }),
        raws[k].kind == ArgKind::Output && find_input(raws, raws[k].label, 0) is None ==> plan_arg(raws, cs, k) == PlannedSpec::AsWritten(raws[k].expr),
        raws[k].kind == ArgKind::Input ==> plan_arg(raws, cs, k) == PlannedSpec::AsWritten(raws[k].expr),
        normal_name(raws[k]) matches Some(n) ==> (find_clause(cs, n, 0) matches Some(c) ==> (find_named(
            raws,
            cs[c].original->Ident_name,
            0,
        ) matches Some(j) ==> plan_arg(raws, cs, k) == (PlannedSpec::ToTemporary { dest: raws[j].expr }))),
        normal_name(raws[k]) matches Some(n) ==> (find_clause(cs, n, 0) is None ==> plan_arg(raws, cs, k) == PlannedSpec::AsWritten(raws[k].expr)),
{
}

/// After `<` or `>`, a word is the argument's label whether or not a `:`
/// follows it: the argument is an input (`<`) or an output (`>`) carrying
/// that label, its expression is everything after the label (and the colon,
/// where there is one) up to the next top-level comma, and it is accepted
/// exactly when that rest is an expression.
pub proof fn law_marker_word_is_label(ts: Seq<Tok>, i: int)
    requires
        0 <= i,
        i + 1 < ts.len(),
        is_punct(ts[i], '<') || is_punct(ts[i], '>'),
        is_word(ts[i + 1]),
    ensures
        ({
            let s = if i + 2 < ts.len() && is_punct(ts[i + 2], ':') {
                i + 3
            } else {
                i + 2
            };
            &&& (raw_arg_at(ts, i) is Ok) == (s < ts.len() && expr_end(ts, s) is Some)
            &&& raw_arg_at(ts, i) matches Ok((a, e)) ==> {
                &&& a.kind == (if is_punct(ts[i], '<') {
                    ArgKind::Input
                } else {
                    ArgKind::Output
                })
                &&& a.label == Some(ts[i + 1])
                &&& a.expr == ts.subrange(s, e)
            }
        }),
{
}

/// Where `find_named` finds an argument, that argument has the name.
pub proof fn lemma_find_named_finds(raws: Seq<ArgSpec>, n: Seq<char>, i: int)
    ensures
        find_named(raws, n, i) matches Some(j) ==> 0 <= j < raws.len() && normal_name(raws[j]) == Some(n),
    decreases raws.len() - i,
{
    if 0 <= i < raws.len() && normal_name(raws[i]) != Some(n) {
        lemma_find_named_finds(raws, n, i + 1);
    }
}

proof fn lemma_no_clause_error(raws: Seq<ArgSpec>, cs: Seq<RenameSpec>, i: int, m: int)
    requires
        0 <= i <= m < cs.len(),
        clause_error(raws, cs, i) is None,
    ensures
        find_named(raws, cs[m].overwrites->Ident_name, 0) is Some,
        find_named(raws, cs[m].original->Ident_name, 0) is Some,
    decreases m - i,
{
    if i < m {
        lemma_no_clause_error(raws, cs, i + 1, m);
    }
}

/// Every clause `out <word> in` of an accepted invocation names, on both
/// sides, an argument written with that name (`out = ...` or the bare
/// identifier `out`): a clause that names no argument is refused, never
/// ignored.
pub proof fn law_accepted_clauses_name_arguments(ts: Seq<Tok>)
    ensures
        sponge_call(ts) matches Ok(c) ==> forall|m: int|
            #![trigger c.renames[m]]
            0 <= m < c.renames.len() ==> {
                &&& exists|j: int|
                    0 <= j < c.args.len() && #[trigger] normal_name(c.args[j]) == Some(
                        c.renames[m].overwrites->Ident_name,
                    )
                &&& exists|j: int|
                    0 <= j < c.args.len() && #[trigger] normal_name(c.args[j]) == Some(
                        c.renames[m].original->Ident_name,
                    )
            },
{
    if let Ok(c) = sponge_call(ts) {
        assert forall|m: int| #![trigger c.renames[m]] 0 <= m < c.renames.len() implies {
            &&& exists|j: int|
                0 <= j < c.args.len() && #[trigger] normal_name(c.args[j]) == Some(
                    c.renames[m].overwrites->Ident_name,
                )
            &&& exists|j: int|
                0 <= j < c.args.len() && #[trigger] normal_name(c.args[j]) == Some(
                    c.renames[m].original->Ident_name,
                )
        } by {
            lemma_no_clause_error(c.args, c.renames, 0, m);
            let o = c.renames[m].overwrites->Ident_name;
            let g = c.renames[m].original->Ident_name;
            lemma_find_named_finds(c.args, o, 0);
            lemma_find_named_finds(c.args, g, 0);
            let jo = find_named(c.args, o, 0)->Some_0;
            let jg = find_named(c.args, g, 0)->Some_0;
            assert(normal_name(c.args[jo]) == Some(o));
            assert(normal_name(c.args[jg]) == Some(g));
        }
    }
}

} // verus!

