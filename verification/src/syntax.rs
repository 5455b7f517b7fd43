//! What the macros ask of Rust's own grammar, answered by `syn`, and the
//! error type of the macros' parsers.
use crate::token::{
    copy_range, is_punct, lemma_trees_view_pointwise, lemma_trees_view_subrange, render,
    render_trees_marked, stream_view, tok_span, Span, Tok, TokenTree,
};
use vstd::prelude::*;

verus! {

/// The kind of expression that `syn` reads from a source text.
#[derive(Clone, Copy, PartialEq, Eq, Debug, Structural)]
pub enum ExprShape {
    /// A call `func(args)`.
    Call,
    /// Any other expression.
    Other,
}

/// What `syn::parse_str::<syn::Expr>` makes of a text: `None` where it is
/// no expression, else the expression's shape.
pub uninterp spec fn parsed_expr(text: Seq<char>) -> Option<ExprShape>;

/// What `syn::parse_str::<syn::ItemFn>` makes of a text: `None` where it
/// reads one function item, else the message of its error.
pub uninterp spec fn item_fn_error(text: Seq<char>) -> Option<Seq<char>>;

/// Whether `syn::parse_str::<syn::Ident>` accepts a text (an identifier that
/// is no keyword).
pub uninterp spec fn rust_ident(text: Seq<char>) -> bool;

/// `syn::parse_str::<syn::Expr>`: parses a text as one Rust expression.  The
/// contract names the outcome and says no more of it.
#[verifier::external_body]
pub(crate) fn expr_shape(text: &str) -> (r: Option<ExprShape>)
    ensures
        r == parsed_expr(text@),
{
    match syn::parse_str::<syn::Expr>(text) {
        Ok(syn::Expr::Call(_)) => Some(ExprShape::Call),
        Ok(_) => Some(ExprShape::Other),
        Err(_) => None,
    }
}

/// `syn::parse_str::<syn::ItemFn>`: whether a text is one function item,
/// and if not, the message of `syn`'s error.  The contract names the
/// outcome and says no more of it.
#[verifier::external_body]
pub(crate) fn check_item_fn(text: &str) -> (r: Option<String>)
    ensures
        match r {
            None => item_fn_error(text@) is None,
            Some(m) => item_fn_error(text@) == Some(m@),
        },
{
    match syn::parse_str::<syn::ItemFn>(text) {
        Ok(_) => None,
        Err(e) => Some(e.to_string()),
    }
}

/// `syn::parse_str::<syn::Ident>`: whether a text is an identifier that `syn`
/// accepts where it expects one.
#[verifier::external_body]
pub(crate) fn is_ident(text: &str) -> (b: bool)
    ensures
        b == rust_ident(text@),
{
    syn::parse_str::<syn::Ident>(text).is_ok()
}

/// A token that `syn` reads as an identifier where it expects one.
pub open spec fn is_word(t: Tok) -> bool {
    t matches Tok::Ident { name, .. } && rust_ident(name)
}

/// Whether a token tree is a word (see `is_word`).
pub fn tree_is_word(t: &TokenTree) -> (b: bool)
    ensures
        b == is_word(t@),
{
    match t {
        TokenTree::Ident { name, .. } => is_ident(name.as_str()),
        _ => false,
    }
}

/// The rendered tokens read as an expression, of any shape.  Invisible
/// groups are marked, as `syn` reads them as grouped expressions.
pub open spec fn is_expr(ts: Seq<Tok>) -> bool {
    parsed_expr(render(ts, true)) is Some
}

/// The view of a parse error: where, and what was expected.
pub type Failure = (Span, Seq<char>);

/// An error of a macro's parser: where, and what was expected.
#[derive(Debug)]
pub struct ParseError {
    pub span: Span,
    pub message: String,
}

impl View for ParseError {
    type V = (Span, Seq<char>);

    open spec fn view(&self) -> (Span, Seq<char>) {
        (self.span, self.message@)
    }
}

impl ParseError {
    pub fn new(span: Span, message: &str) -> (e: ParseError)
        ensures
            e@ == (span, message@),
    {
        ParseError { span, message: String::from_str(message) }
    }
}

/// The span of the `i`-th token, or the call site past the end.
pub open spec fn span_at(ts: Seq<Tok>, i: int) -> Span {
    if 0 <= i < ts.len() {
        tok_span(ts[i])
    } else {
        Span::CallSite
    }
}

pub fn tree_span(t: &TokenTree) -> (s: Span)
    ensures
        s == tok_span(t@),
{
    match t {
        TokenTree::Ident { span, .. } => *span,
        TokenTree::Punct { span, .. } => *span,
        TokenTree::Literal { span, .. } => *span,
        TokenTree::Group { span, .. } => *span,
        TokenTree::Source { .. } => Span::CallSite,
    }
}

pub fn span_of(ts: &Vec<TokenTree>, i: usize) -> (s: Span)
    ensures
        s == span_at(stream_view(*ts), i as int),
{
    proof {
        lemma_trees_view_pointwise(ts@);
    }
    if i < ts.len() {
        tree_span(&ts[i])
    } else {
        Span::CallSite
    }
}

pub fn is_punct_at(ts: &Vec<TokenTree>, i: usize, c: char) -> (b: bool)
    ensures
        b == (i < ts.len() && is_punct(stream_view(*ts)[i as int], c)),
{
    proof {
        lemma_trees_view_pointwise(ts@);
    }
    if i < ts.len() {
        match &ts[i] {
            TokenTree::Punct { ch, .. } => *ch == c,
            _ => false,
        }
    } else {
        false
    }
}

pub fn is_word_at(ts: &Vec<TokenTree>, i: usize) -> (b: bool)
    ensures
        b == (i < ts.len() && is_word(stream_view(*ts)[i as int])),
{
    proof {
        lemma_trees_view_pointwise(ts@);
    }
    if i < ts.len() {
        tree_is_word(&ts[i])
    } else {
        false
    }
}

/// Where an expression that starts at `ts[s]` ends: the first `e` from `from`
/// on that is the end of the sequence or a top-level comma, and such that
/// `ts[s..e]` reads as an expression.
pub open spec fn expr_end_from(ts: Seq<Tok>, s: int, from: int) -> Option<int>
    decreases ts.len() + 1 - from,
{
    if from > ts.len() || from < 0 {
        None
    } else if (from == ts.len() || is_punct(ts[from], ',')) && is_expr(ts.subrange(s, from)) {
        Some(from)
    } else {
        expr_end_from(ts, s, from + 1)
    }
}

/// The end of the expression that starts at `ts[s]` (see `expr_end_from`).
pub open spec fn expr_end(ts: Seq<Tok>, s: int) -> Option<int> {
    expr_end_from(ts, s, s + 1)
}

pub proof fn lemma_expr_end_from_bounds(ts: Seq<Tok>, s: int, from: int)
    ensures
        expr_end_from(ts, s, from) matches Some(e) ==> from <= e <= ts.len() && is_expr(
            ts.subrange(s, e),
        ) && (e == ts.len() || is_punct(ts[e], ',')),
    decreases ts.len() + 1 - from,
{
    if 0 <= from <= ts.len() {
        lemma_expr_end_from_bounds(ts, s, from + 1);
    }
}

/// Computes `expr_end(stream_view(ts), s)`.
pub fn find_expr_end(ts: &Vec<TokenTree>, s: usize) -> (r: Option<usize>)
    requires
        s < ts.len(),
    ensures
        r matches Some(e) ==> Some(e as int) == expr_end(stream_view(*ts), s as int),
        r is None ==> expr_end(stream_view(*ts), s as int) is None,
        r matches Some(e) ==> s < e <= ts.len() && is_expr(stream_view(*ts).subrange(s as int, e as int))
            && (e == ts.len() || is_punct(stream_view(*ts)[e as int], ',')),
{
    let ghost v = stream_view(*ts);
    proof {
        lemma_trees_view_pointwise(ts@);
    }
    let mut e = s + 1;
    while e < ts.len()
        invariant
            s < e <= ts.len(),
            v == stream_view(*ts),
            v.len() == ts.len(),
            expr_end(v, s as int) == expr_end_from(v, s as int, e as int),
        decreases ts.len() - e,
    {
        if is_punct_at(ts, e, ',') && range_expr_shape(ts, s, e).is_some() {
            proof {
                lemma_expr_end_from_bounds(v, s as int, e as int);
            }
            return Some(e);
        }
        e = e + 1;
    }
    proof {
        lemma_expr_end_from_bounds(v, s as int, e as int);
    }
    if range_expr_shape(ts, s, e).is_some() {
        Some(e)
    } else {
        None
    }
}

/// The shape that `syn` gives to the rendered trees `ts[lo..hi]`.
pub fn range_expr_shape(ts: &Vec<TokenTree>, lo: usize, hi: usize) -> (r: Option<ExprShape>)
    requires
        lo <= hi <= ts.len(),
    ensures
        r == parsed_expr(render(stream_view(*ts).subrange(lo as int, hi as int), true)),
{
    let part = copy_range(ts, lo, hi);
    let text = render_trees_marked(&part, true);
    proof {
        lemma_trees_view_subrange(ts@, lo as int, hi as int);
    }
    expr_shape(text.as_str())
}

} // verus!
