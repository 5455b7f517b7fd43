//! Rename clauses: `output overwrites input, ...`.
//!
//! A clause is three identifiers: the parameter or argument whose path is
//! redirected to a temporary file, any word, and the one whose file the
//! temporary file replaces.  Clauses are separated by commas; a trailing comma
//! is allowed.
use crate::syntax::{is_word, is_punct_at, is_word_at, span_at, ParseError};
use crate::token::{
    is_punct, lemma_trees_view_pointwise, stream_view, tok_span, Span, Tok, TokenTree,
};
use vstd::prelude::*;

verus! {

/// An identifier.
#[derive(Debug)]
pub struct Ident {
    pub name: String,
    pub span: Span,
}

impl View for Ident {
    type V = Tok;

    open spec fn view(&self) -> Tok {
        Tok::Ident { name: self.name@, span: self.span }
    }
}

impl Ident {
    /// The identifier as a token tree.
    pub fn to_tree(&self) -> (t: TokenTree)
        ensures
            t@ == self@,
    {
        TokenTree::Ident { name: self.name.clone(), span: self.span }
    }

    /// The identifier that a token tree holds, if it is one.
    pub fn from_tree(t: &TokenTree) -> (r: Option<Ident>)
        ensures
            r is Some <==> t@ is Ident,
            r matches Some(i) ==> i@ == t@,
    {
        match t {
            TokenTree::Ident { name, span } => Some(Ident { name: name.clone(), span: *span }),
            _ => None,
        }
    }
}

/// The view of a rename clause.
pub struct RenameSpec {
    /// The identifier that is redirected to a temporary file.
    pub overwrites: Tok,
    /// The identifier whose file the temporary file replaces.
    pub original: Tok,
}

/// One rename clause.
#[derive(Debug)]
pub struct Rename {
    pub original_ident: Ident,
    pub overwrites_ident: Ident,
}

impl View for Rename {
    type V = RenameSpec;

    open spec fn view(&self) -> RenameSpec {
        RenameSpec { overwrites: self.overwrites_ident@, original: self.original_ident@ }
    }
}

/// A list of rename clauses.
#[derive(Debug)]
pub struct Renames {
    pub arg_renames: Vec<Rename>,
}

pub open spec fn renames_view(v: Seq<Rename>) -> Seq<RenameSpec> {
    v.map_values(|r: Rename| r@)
}

impl View for Renames {
    type V = Seq<RenameSpec>;

    open spec fn view(&self) -> Seq<RenameSpec> {
        renames_view(self.arg_renames@)
    }
}

pub open spec fn expected_ident() -> Seq<char> {
    "expected identifier"@
}

/// The error where an identifier is expected at `ts[i]` and none is there:
/// at the end of the input, at a keyword, or at another token.
pub open spec fn ident_error(ts: Seq<Tok>, i: int) -> (Span, Seq<char>) {
    if i < 0 || i >= ts.len() {
        (Span::CallSite, "unexpected end of input, expected identifier"@)
    } else if ts[i] is Ident {
        (tok_span(ts[i]), "expected identifier, found keyword `"@ + ts[i]->Ident_name + "`"@)
    } else {
        (tok_span(ts[i]), expected_ident())
    }
}

/// Computes `ident_error(stream_view(ts), i)`.
fn ident_error_exec(ts: &Vec<TokenTree>, i: usize) -> (e: ParseError)
    ensures
        e@ == ident_error(stream_view(*ts), i as int),
{
    proof {
        lemma_trees_view_pointwise(ts@);
    }
    if i >= ts.len() {
        return ParseError::new(Span::CallSite, "unexpected end of input, expected identifier");
    }
    match &ts[i] {
        TokenTree::Ident { name, span } => {
            let mut msg = String::from_str("expected identifier, found keyword `");
            msg.append(name.as_str());
            msg.append("`");
            ParseError { span: *span, message: msg }
        },
        t => ParseError::new(crate::syntax::tree_span(t), "expected identifier"),
    }
}

pub open spec fn expected_comma() -> Seq<char> {
    "expected `,`"@
}

/// The clause that starts at `ts[i]`: three words, or the error at the first
/// token that is no word.
pub open spec fn rename_at(ts: Seq<Tok>, i: int) -> Result<RenameSpec, (Span, Seq<char>)> {
    if !(i < ts.len() && is_word(ts[i])) {
        Err(ident_error(ts, i))
    } else if !(i + 1 < ts.len() && is_word(ts[i + 1])) {
        Err(ident_error(ts, i + 1))
    } else if !(i + 2 < ts.len() && is_word(ts[i + 2])) {
        Err(ident_error(ts, i + 2))
    } else {
        Ok(RenameSpec { overwrites: ts[i], original: ts[i + 2] })
    }
}

/// The clauses of `ts[i..]`, separated by commas with an optional trailing
/// comma; or the first error.
pub open spec fn renames_from(ts: Seq<Tok>, i: int) -> Result<Seq<RenameSpec>, (Span, Seq<char>)>
    decreases ts.len() - i,
{
    if i >= ts.len() {
        Ok(Seq::empty())
    } else {
        match rename_at(ts, i) {
            Err(e) => Err(e),
            Ok(r) => if i + 3 == ts.len() {
                Ok(seq![r])
            } else if !is_punct(ts[i + 3], ',') {
                Err((span_at(ts, i + 3), expected_comma()))
            } else {
                match renames_from(ts, i + 4) {
                    Ok(rs) => Ok(seq![r] + rs),
                    Err(e) => Err(e),
                }
            },
        }
    }
}

/// The clause list of a whole token sequence.
pub open spec fn parse_renames(ts: Seq<Tok>) -> Result<Seq<RenameSpec>, (Span, Seq<char>)> {
    renames_from(ts, 0)
}

/// Views a parse result.
pub open spec fn result_view<T: View>(r: Result<T, ParseError>) -> Result<T::V, (Span, Seq<char>)> {
    match r {
        Ok(v) => Ok(v@),
        Err(e) => Err(e@),
    }
}

impl Rename {
    /// Parses the clause that starts at `ts[at]`.
    pub fn parse(ts: &Vec<TokenTree>, at: usize) -> (r: Result<Rename, ParseError>)
        ensures
            result_view(r) == rename_at(stream_view(*ts), at as int),
    {
        proof {
            lemma_trees_view_pointwise(ts@);
        }
        if !is_word_at(ts, at) {
            return Err(ident_error_exec(ts, at));
        }
        if !is_word_at(ts, at + 1) {
            return Err(ident_error_exec(ts, at + 1));
        }
        if !is_word_at(ts, at + 2) {
            return Err(ident_error_exec(ts, at + 2));
        }
        let overwrites_ident = Ident::from_tree(&ts[at]).unwrap();
        let original_ident = Ident::from_tree(&ts[at + 2]).unwrap();
        Ok(Rename { original_ident, overwrites_ident })
    }
}

/// `acc` in front of the clauses of a result.
pub open spec fn prepend(acc: Seq<RenameSpec>, r: Result<Seq<RenameSpec>, (Span, Seq<char>)>) -> Result<
    Seq<RenameSpec>,
    (Span, Seq<char>),
> {
    match r {
        Ok(rs) => Ok(acc + rs),
        Err(e) => Err(e),
    }
}

impl Renames {
    /// Parses a whole token sequence as a list of clauses.
    pub fn parse(ts: &Vec<TokenTree>) -> (r: Result<Renames, ParseError>)
        ensures
            result_view(r) == parse_renames(stream_view(*ts)),
    {
        Self::parse_from(ts, 0)
    }

    /// Parses `ts[start..]` as a list of clauses.
    pub fn parse_from(ts: &Vec<TokenTree>, start: usize) -> (r: Result<Renames, ParseError>)
        requires
            start <= ts.len(),
        ensures
            result_view(r) == renames_from(stream_view(*ts), start as int),
    {
        let ghost v = stream_view(*ts);
        proof {
            lemma_trees_view_pointwise(ts@);
        }
        let mut acc: Vec<Rename> = Vec::new();
        let mut i = start;
        assert(renames_view(acc@) =~= Seq::<RenameSpec>::empty());
        assert(prepend(renames_view(acc@), renames_from(v, i as int)) =~= renames_from(v, i as int));
        while i < ts.len()
            invariant
                start <= i <= ts.len() + 1,
                v == stream_view(*ts),
                v.len() == ts@.len(),
                renames_from(v, start as int) == prepend(renames_view(acc@), renames_from(v, i as int)),
            decreases ts.len() + 1 - i,
        {
            let ghost old_acc = renames_view(acc@);
            let r = match Rename::parse(ts, i) {
                Ok(r) => r,
                Err(e) => {
                    return Err(e);
                },
            };
            let ghost rv = r@;
            acc.push(r);
            assert(renames_view(acc@) =~= old_acc + seq![rv]);
            if i + 3 == ts.len() {
                assert(old_acc + seq![rv] =~= old_acc + seq![rv] + Seq::<RenameSpec>::empty());
                assert(renames_from(v, (i + 3) as int) == Ok::<Seq<RenameSpec>, (Span, Seq<char>)>(Seq::empty()));
                i = i + 3;
            } else if !is_punct_at(ts, i + 3, ',') {
                return Err(ParseError::new(crate::syntax::span_of(ts, i + 3), "expected `,`"));
            } else {
                proof {
                    match renames_from(v, i + 4) {
                        Ok(rs) => {
                            assert(old_acc + (seq![rv] + rs) =~= old_acc + seq![rv] + rs);
                        },
                        Err(_) => {},
                    }
                }
                i = i + 4;
            }
        }
        Ok(Renames { arg_renames: acc })
    }
}


// ---------------------------------------------------------------------------
// The grammar of clause lists
// ---------------------------------------------------------------------------
/// The tokens of a clause list: each clause's three words, the clauses
/// separated by `comma`.
pub open spec fn clause_list(ws: Seq<(Tok, Tok, Tok)>, comma: Tok) -> Seq<Tok>
    decreases ws.len(),
{
    if ws.len() == 0 {
        Seq::empty()
    } else if ws.len() == 1 {
        seq![ws[0].0, ws[0].1, ws[0].2]
    } else {
        seq![ws[0].0, ws[0].1, ws[0].2, comma] + clause_list(ws.drop_first(), comma)
    }
}

/// The clauses that a clause list stands for.
pub open spec fn clauses_of(ws: Seq<(Tok, Tok, Tok)>) -> Seq<RenameSpec> {
    ws.map_values(|w: (Tok, Tok, Tok)| RenameSpec { overwrites: w.0, original: w.2 })
}

/// Reading clauses from `ts[i..]` looks at nothing before `ts[i]`.
pub proof fn lemma_renames_from_shift(ts: Seq<Tok>, d: int, i: int)
    requires
        0 <= d <= i,
        d <= ts.len(),
    ensures
        renames_from(ts, i) == renames_from(ts.skip(d), i - d),
    decreases ts.len() - i,
{
    let s = ts.skip(d);
    if i < ts.len() {
        assert(forall|k: int| i <= k < ts.len() ==> s[k - d] == ts[k]);
        assert(rename_at(ts, i) == rename_at(s, i - d));
        assert(s.len() == ts.len() - d);
        if i + 3 < ts.len() {
            assert(s[i - d + 3] == ts[i + 3]);
            assert(span_at(s, i - d + 3) == span_at(ts, i + 3));
            lemma_renames_from_shift(ts, d, i + 4);
        }
    }
}

/// A list of clauses whose tokens are all words, separated by commas, reads
/// back as those clauses.
pub proof fn law_clause_list_parses(ws: Seq<(Tok, Tok, Tok)>, comma: Tok)
    requires
        is_punct(comma, ','),
        forall|k: int|
            0 <= k < ws.len() ==> is_word(#[trigger] ws[k].0) && is_word(ws[k].1) && is_word(
                ws[k].2,
            ),
    ensures
        parse_renames(clause_list(ws, comma)) == Ok::<Seq<RenameSpec>, (Span, Seq<char>)>(
            clauses_of(ws),
        ),
    decreases ws.len(),
{
    let ts = clause_list(ws, comma);
    if ws.len() == 0 {
        assert(clauses_of(ws) =~= Seq::<RenameSpec>::empty());
    } else if ws.len() == 1 {
        assert(is_word(ws[0].0));
        assert(clauses_of(ws) =~= seq![RenameSpec { overwrites: ws[0].0, original: ws[0].2 }]);
    } else {
        let rest = ws.drop_first();
        assert(is_word(ws[0].0));
        assert forall|k: int| 0 <= k < rest.len() implies is_word(#[trigger] rest[k].0) && is_word(
            rest[k].1,
        ) && is_word(rest[k].2) by {
            assert(rest[k] == ws[k + 1]);
            assert(is_word(ws[k + 1].0));
        }
        law_clause_list_parses(rest, comma);
        lemma_renames_from_shift(ts, 4, 4);
        assert(ts.skip(4) =~= clause_list(rest, comma));
        assert(clauses_of(ws) =~= seq![RenameSpec { overwrites: ws[0].0, original: ws[0].2 }]
            + clauses_of(rest));
    }
}

} // verus!
