//! `#[auto_rename(output overwrites input, ...)]`: rewrites a function that
//! takes separate input and output paths so that each named output is first
//! written to a temporary file, which is renamed over the named input once the
//! body has run to its end.
use crate::rename::{result_view, Renames, RenameSpec};
use crate::syntax::{check_item_fn, item_fn_error, span_at, span_of, ParseError};
use crate::template::{
    push_rename_call, push_source, push_tmp_path_decl, push_tree, rename_call, rename_stmt,
    tmp_path_decl,
};
use crate::token::{
    copy_range, group, is_group, is_punct, lemma_trees_view_pointwise, lemma_trees_view_subrange,
    new_group, render, render_trees, src, stream_view, trees_view, Delimiter, Span, Tok,
    TokenTree,
};
use vstd::prelude::*;

verus! {

/// A function item split into the tokens before its body and its body.
#[derive(Debug)]
pub struct ParsedFunctionParts {
    /// Visibility and signature (the outer attributes are not kept).
    pub signature: Vec<TokenTree>,
    /// The block of the function: a brace-delimited group.
    pub body: TokenTree,
}

impl View for ParsedFunctionParts {
    type V = (Seq<Tok>, Tok);

    open spec fn view(&self) -> (Seq<Tok>, Tok) {
        (stream_view(self.signature), self.body@)
    }
}

/// What the attribute has read: its clauses and the function.
#[derive(Debug)]
pub struct IR {
    pub attr: Renames,
    pub body: TokenTree,
    pub signature: Vec<TokenTree>,
}

impl View for IR {
    type V = (Seq<RenameSpec>, Seq<Tok>, Tok);

    open spec fn view(&self) -> (Seq<RenameSpec>, Seq<Tok>, Tok) {
        (self.attr@, stream_view(self.signature), self.body@)
    }
}

pub open spec fn expected_fn() -> Seq<char> {
    "expected a function item"@
}

/// The index past the outer attributes (`#[...]`) that start at `ts[i]`.
pub open spec fn attrs_end(ts: Seq<Tok>, i: int) -> int
    decreases ts.len() - i,
{
    if 0 <= i && i + 1 < ts.len() && is_punct(ts[i], '#') && is_group(ts[i + 1], Delimiter::Bracket) {
        attrs_end(ts, i + 2)
    } else {
        i
    }
}

/// A function item: `syn` reads it as one, and its last tree is its block.
/// The signature is what stands between the outer attributes and the block.
/// Where `syn` reads no function item, its error message is reported.
pub open spec fn parse_function(ts: Seq<Tok>) -> Result<(Seq<Tok>, Tok), (Span, Seq<char>)> {
    let a = attrs_end(ts, 0);
    match item_fn_error(render(ts, false)) {
        Some(m) => Err((span_at(ts, 0), m)),
        None => if ts.len() > a && is_group(ts.last(), Delimiter::Brace) {
            Ok((ts.subrange(a, ts.len() - 1), ts.last()))
        } else {
            Err((span_at(ts, 0), expected_fn()))
        },
    }
}

/// What `parse` reads: the function first, then the clauses.
pub open spec fn parse_spec(attr: Seq<Tok>, item: Seq<Tok>) -> Result<
    (Seq<RenameSpec>, Seq<Tok>, Tok),
    (Span, Seq<char>),
> {
    match parse_function(item) {
        Err(e) => Err(e),
        Ok((sig, body)) => match crate::rename::parse_renames(attr) {
            Err(e) => Err(e),
            Ok(rs) => Ok((rs, sig, body)),
        },
    }
}

/// The declarations that redirect each clause's output to a temporary path
/// next to the file that it replaces:
/// `let <out>: PathBuf = <temporary path next to in>;`.
pub open spec fn redirects(rs: Seq<RenameSpec>) -> Seq<Tok>
    decreases rs.len(),
{
    if rs.len() == 0 {
        Seq::empty()
    } else {
        redirects(rs.drop_last()) + tmp_path_decl(rs.last().overwrites, seq![rs.last().original])
    }
}

/// The renames of each clause's temporary file over its input, each
/// statement ending with `tail`: `::std::fs::rename(&<out>, <in>)<tail>`.
pub open spec fn replacements_ending(rs: Seq<RenameSpec>, tail: Seq<char>) -> Seq<Tok>
    decreases rs.len(),
{
    if rs.len() == 0 {
        Seq::empty()
    } else {
        replacements_ending(rs.drop_last(), tail) + rename_call(
            seq![rs.last().overwrites],
            seq![rs.last().original],
        ) + seq![src(tail)]
    }
}

/// The renames that hand their error to the caller:
/// `::std::fs::rename(&<out>, <in>)?;`.
pub open spec fn replacements(rs: Seq<RenameSpec>) -> Seq<Tok> {
    replacements_ending(rs, "?;"@)
}

/// The statements of the rewritten function: the redirections, the function's
/// own block, the renames (each ending with `tail`), and `Ok(())`.
pub open spec fn rewritten_body_ending(rs: Seq<RenameSpec>, body: Tok, tail: Seq<char>) -> Seq<Tok> {
    redirects(rs) + seq![body] + replacements_ending(rs, tail) + seq![src("Ok(())"@)]
}

pub open spec fn rewritten_body(rs: Seq<RenameSpec>, body: Tok) -> Seq<Tok> {
    rewritten_body_ending(rs, body, "?;"@)
}

/// The rewritten function: its signature and the new block.
pub open spec fn expand_ending(rs: Seq<RenameSpec>, sig: Seq<Tok>, body: Tok, tail: Seq<char>) -> Seq<
    Tok,
> {
    sig + seq![group(Delimiter::Brace, rewritten_body_ending(rs, body, tail))]
}

/// The rewritten function whose renames hand their error to the caller.
pub open spec fn expand(rs: Seq<RenameSpec>, sig: Seq<Tok>, body: Tok) -> Seq<Tok> {
    expand_ending(rs, sig, body, "?;"@)
}

/// The rewritten function whose renames panic on error (`.unwrap()`).
pub open spec fn expand_unwrapping(rs: Seq<RenameSpec>, sig: Seq<Tok>, body: Tok) -> Seq<Tok> {
    expand_ending(rs, sig, body, ".unwrap();"@)
}

/// The end of the leading attributes, computed.
fn find_attrs_end(ts: &Vec<TokenTree>) -> (a: usize)
    ensures
        a as int == attrs_end(stream_view(*ts), 0),
        a <= ts.len(),
{
    let ghost v = stream_view(*ts);
    proof {
        lemma_trees_view_pointwise(ts@);
    }
    let mut i: usize = 0;
    while i < ts.len() && i + 1 < ts.len() && crate::syntax::is_punct_at(ts, i, '#') && is_bracket_at(ts, i + 1)
        invariant
            i <= ts.len(),
            v == stream_view(*ts),
            v.len() == ts.len(),
            attrs_end(v, 0) == attrs_end(v, i as int),
        decreases ts.len() - i,
    {
        i = i + 2;
    }
    i
}

fn is_bracket_at(ts: &Vec<TokenTree>, i: usize) -> (b: bool)
    requires
        i < ts.len(),
    ensures
        b == is_group(stream_view(*ts)[i as int], Delimiter::Bracket),
{
    proof {
        lemma_trees_view_pointwise(ts@);
    }
    match &ts[i] {
        TokenTree::Group { delimiter: Delimiter::Bracket, .. } => true,
        _ => false,
    }
}

fn is_brace_at(ts: &Vec<TokenTree>, i: usize) -> (b: bool)
    requires
        i < ts.len(),
    ensures
        b == is_group(stream_view(*ts)[i as int], Delimiter::Brace),
{
    proof {
        lemma_trees_view_pointwise(ts@);
    }
    match &ts[i] {
        TokenTree::Group { delimiter: Delimiter::Brace, .. } => true,
        _ => false,
    }
}

impl ParsedFunctionParts {
    /// Splits a function item into its signature and its block.
    pub fn parse(item: &Vec<TokenTree>) -> (r: Result<ParsedFunctionParts, ParseError>)
        ensures
            result_view(r) == parse_function(stream_view(*item)),
    {
        let ghost v = stream_view(*item);
        proof {
            lemma_trees_view_pointwise(item@);
        }
        let text = render_trees(item);
        let a = find_attrs_end(item);
        match check_item_fn(text.as_str()) {
            Some(m) => {
                return Err(ParseError { span: span_of(item, 0), message: m });
            },
            None => {},
        }
        if item.len() > a && is_brace_at(item, item.len() - 1) {
            let signature = copy_range(item, a, item.len() - 1);
            let body = item[item.len() - 1].copy();
            proof {
                lemma_trees_view_subrange(item@, a as int, item@.len() - 1);
            }
            Ok(ParsedFunctionParts { signature, body })
        } else {
            Err(ParseError::new(span_of(item, 0), "expected a function item"))
        }
    }
}

/// Reads the attribute's clauses and the function it stands on.
pub fn parse(attr: &Vec<TokenTree>, item: &Vec<TokenTree>) -> (r: Result<IR, ParseError>)
    ensures
        result_view(r) == parse_spec(stream_view(*attr), stream_view(*item)),
{
    let parts = match ParsedFunctionParts::parse(item) {
        Ok(p) => p,
        Err(e) => {
            return Err(e);
        },
    };
    let renames = match Renames::parse(attr) {
        Ok(rs) => rs,
        Err(e) => {
            return Err(e);
        },
    };
    Ok(IR { attr: renames, body: parts.body, signature: parts.signature })
}

/// Writes the rewritten function; a failed rename hands its error to the
/// caller.
pub fn codegen(ir: IR) -> (out: Vec<TokenTree>)
    ensures
        stream_view(out) == expand(ir@.0, ir@.1, ir@.2),
{
    codegen_ending(ir, "?;")
}

/// Writes the rewritten function; a failed rename panics.
pub fn codegen_unwrapping(ir: IR) -> (out: Vec<TokenTree>)
    ensures
        stream_view(out) == expand_unwrapping(ir@.0, ir@.1, ir@.2),
{
    codegen_ending(ir, ".unwrap();")
}

/// Writes the rewritten function, each rename statement ending with `tail`.
fn codegen_ending(ir: IR, tail: &str) -> (out: Vec<TokenTree>)
    ensures
        stream_view(out) == expand_ending(ir@.0, ir@.1, ir@.2, tail@),
{
    let IR { attr, body, signature } = ir;
    let ghost rs = attr@;
    let renames = attr.arg_renames;
    let mut block: Vec<TokenTree> = Vec::new();
    let mut i: usize = 0;
    assert(trees_view(Seq::<TokenTree>::empty()) =~= Seq::<Tok>::empty());
    assert(rs.take(0) =~= Seq::<RenameSpec>::empty());
    while i < renames.len()
        invariant
            i <= renames.len(),
            rs == crate::rename::renames_view(renames@),
            stream_view(block) == redirects(rs.take(i as int)),
        decreases renames.len() - i,
    {
        let r = &renames[i];
        let out_tree = r.overwrites_ident.to_tree();
        let mut path: Vec<TokenTree> = Vec::new();
        push_tree(&mut path, r.original_ident.to_tree());
        push_tmp_path_decl(&mut block, out_tree, path);
        proof {
            assert(rs.take(i + 1).drop_last() =~= rs.take(i as int));
            assert(rs.take(i + 1).last() == r@);
        }
        i = i + 1;
    }
    assert(rs.take(renames@.len() as int) =~= rs);
    push_tree(&mut block, body);
    let ghost before = stream_view(block);
    let mut j: usize = 0;
    while j < renames.len()
        invariant
            j <= renames.len(),
            rs == crate::rename::renames_view(renames@),
            stream_view(block) == before + replacements_ending(rs.take(j as int), tail@),
        decreases renames.len() - j,
    {
        let r = &renames[j];
        let mut tmp: Vec<TokenTree> = Vec::new();
        push_tree(&mut tmp, r.overwrites_ident.to_tree());
        let mut dest: Vec<TokenTree> = Vec::new();
        push_tree(&mut dest, r.original_ident.to_tree());
        push_rename_call(&mut block, tmp, dest);
        push_source(&mut block, tail);
        proof {
            assert(rs.take(j + 1).drop_last() =~= rs.take(j as int));
            assert(rs.take(j + 1).last() == r@);
        }
        j = j + 1;
    }
    push_source(&mut block, "Ok(())");
    proof {
        assert(rs.take(renames@.len() as int) =~= rs);
        assert(stream_view(block) =~= rewritten_body_ending(rs, ir@.2, tail@));
    }
    let mut out = signature;
    push_tree(&mut out, new_group(Delimiter::Brace, block));
    out
}


// ---------------------------------------------------------------------------
// Laws
// ---------------------------------------------------------------------------
pub proof fn lemma_redirects_add(a: Seq<RenameSpec>, b: Seq<RenameSpec>, tail: Seq<char>)
    ensures
        redirects(a + b) == redirects(a) + redirects(b),
        replacements_ending(a + b, tail) == replacements_ending(a, tail) + replacements_ending(
            b,
            tail,
        ),
    decreases b.len(),
{
    if b.len() == 0 {
        assert(a + b =~= a);
        assert(redirects(a) + redirects(b) =~= redirects(a));
        assert(replacements_ending(a, tail) + replacements_ending(b, tail) =~= replacements_ending(
            a,
            tail,
        ));
    } else {
        lemma_redirects_add(a, b.drop_last(), tail);
        assert((a + b).drop_last() =~= a + b.drop_last());
        assert((a + b).last() == b.last());
        assert(redirects(a + b) =~= redirects(a) + redirects(b));
        assert(replacements_ending(a + b, tail) =~= replacements_ending(a, tail)
            + replacements_ending(b, tail));
    }
}

/// Each clause `out .. in` redirects `out` to a temporary path next to `in`
/// before the function's own block runs, and renames the temporary file over
/// `in` after it: the file `in` is replaced only once the body has run to its
/// end, and the rename stays within the directory of `in`.
pub proof fn law_redirect_before_body_rename_after(rs: Seq<RenameSpec>, body: Tok, k: int)
    requires
        0 <= k < rs.len(),
    ensures
        rewritten_body(rs, body) == redirects(rs.take(k)) + tmp_path_decl(
            rs[k].overwrites,
            seq![rs[k].original],
        ) + redirects(rs.skip(k + 1)) + seq![body] + replacements(rs.take(k)) + rename_stmt(
            seq![rs[k].overwrites],
            seq![rs[k].original],
        ) + replacements(rs.skip(k + 1)) + seq![src("Ok(())"@)],
{
    let front = rs.take(k + 1);
    let back = rs.skip(k + 1);
    assert(rs =~= front + back);
    lemma_redirects_add(front, back, "?;"@);
    assert(front.drop_last() =~= rs.take(k));
    assert(front.last() == rs[k]);
    assert(rewritten_body(rs, body) =~= redirects(rs.take(k)) + tmp_path_decl(
        rs[k].overwrites,
        seq![rs[k].original],
    ) + redirects(rs.skip(k + 1)) + seq![body] + replacements(rs.take(k)) + rename_stmt(
        seq![rs[k].overwrites],
        seq![rs[k].original],
    ) + replacements(rs.skip(k + 1)) + seq![src("Ok(())"@)]);
}

/// The rewritten function keeps the signature as it was written.
pub proof fn law_signature_kept(rs: Seq<RenameSpec>, sig: Seq<Tok>, body: Tok)
    ensures
        expand(rs, sig, body).take(sig.len() as int) == sig,
        expand(rs, sig, body).len() == sig.len() + 1,
{
    assert(expand(rs, sig, body).take(sig.len() as int) =~= sig);
}

} // verus!
