//! `in_place!(f1 = <path>, ..., func(<args with $f1i and $f1o>))`.
//!
//! Each declared file gets two names: `<name>_input`, the path itself, and
//! `<name>_inter`, a temporary path next to it.  In the call, `$<name>i`
//! stands for the first and `$<name>o` for the second.  The call's error is
//! handed to the caller with `?`; after it succeeds, each temporary file is
//! renamed over its path, and the block evaluates to `Ok(())`.
use crate::rename::{result_view, Ident};
use crate::syntax::{
    is_expr, is_punct_at, is_word, is_word_at, parsed_expr, range_expr_shape, span_at, span_of,
    ExprShape, Failure, ParseError,
};
use crate::template::{push_all, push_rename_call, push_source, push_tmp_path_decl, push_tree, rename_call, tmp_path_decl};
use crate::token::{
    copy_range, group, is_group, is_punct, lemma_trees_view_pointwise, lemma_trees_view_push,
    lemma_trees_view_subrange, new_group, src, stream_view, tree_view, trees_view, Delimiter, Span,
    Tok, TokenTree,
};
use vstd::prelude::*;

verus! {

// ---------------------------------------------------------------------------
// Markers
// ---------------------------------------------------------------------------
pub open spec fn sentinel_prefix() -> Seq<char> {
    seq!['_', '_', 'i', 'p', 'm', '_']
}

pub open spec fn sentinel_suffix() -> Seq<char> {
    seq!['_', '_']
}

/// The identifier that stands for the marker `$<name>` while the call is read
/// as an expression: `__ipm_<name>__`.
pub open spec fn sentinel(name: Seq<char>) -> Seq<char> {
    sentinel_prefix() + name + sentinel_suffix()
}

/// Rewrites every `$` followed by an identifier, in `ts[i..]` and in the
/// groups there, into the sentinel identifier (with the identifier's span).
pub open spec fn rewrite_from(ts: Seq<Tok>, i: int) -> Seq<Tok>
    decreases ts, ts.len() - i,
{
    if i < 0 || i >= ts.len() {
        Seq::empty()
    } else if is_punct(ts[i], '$') && i + 1 < ts.len() && ts[i + 1] is Ident {
        seq![Tok::Ident { name: sentinel(ts[i + 1]->Ident_name), span: ts[i + 1]->Ident_span }]
            + rewrite_from(ts, i + 2)
    } else {
        seq![rewrite_tree(ts[i])] + rewrite_from(ts, i + 1)
    }
}

pub open spec fn rewrite_tree(t: Tok) -> Tok
    decreases t, 0int,
{
    match t {
        Tok::Group { delimiter, stream, span } => Tok::Group {
            delimiter,
            stream: rewrite_from(stream, 0),
            span,
        },
        _ => t,
    }
}

pub open spec fn rewrite(ts: Seq<Tok>) -> Seq<Tok> {
    rewrite_from(ts, 0)
}

fn sentinel_name(name: &String) -> (s: String)
    ensures
        s@ == sentinel(name@),
{
    let mut s = String::from_str("__ipm_");
    proof {
        reveal_strlit("__ipm_");
    }
    s.append(name.as_str());
    s.append("__");
    proof {
        reveal_strlit("__");
        assert(s@ =~= sentinel(name@));
    }
    s
}

fn rewrite_tree_exec(t: &TokenTree) -> (r: TokenTree)
    ensures
        r@ == rewrite_tree(t@),
    decreases t,
{
    match t {
        TokenTree::Group { delimiter, stream, span } => {
            let s = rewrite_markers(stream);
            TokenTree::Group { delimiter: *delimiter, stream: s, span: *span }
        },
        _ => t.copy(),
    }
}

/// Rewrites each `$<ident>` into the identifier `__ipm_<ident>__`, at every
/// depth, so that the call can be read as a Rust expression.
pub fn rewrite_markers(ts: &Vec<TokenTree>) -> (r: Vec<TokenTree>)
    ensures
        stream_view(r) == rewrite(stream_view(*ts)),
    decreases ts,
{
    let ghost v = stream_view(*ts);
    proof {
        lemma_trees_view_pointwise(ts@);
    }
    let mut out: Vec<TokenTree> = Vec::new();
    let mut i: usize = 0;
    assert(trees_view(Seq::<TokenTree>::empty()) =~= Seq::<Tok>::empty());
    while i < ts.len()
        invariant
            i <= ts.len() + 1,
            v == stream_view(*ts),
            v.len() == ts@.len(),
            forall|k: int| 0 <= k < ts@.len() ==> #[trigger] v[k] == tree_view(ts@[k]),
            stream_view(out) + rewrite_from(v, i as int) == rewrite_from(v, 0),
        decreases ts.len() + 1 - i,
    {
        let ghost before = stream_view(out);
        let is_dollar = is_punct_at(ts, i, '$');
        if is_dollar && i + 1 < ts.len() {
            match &ts[i + 1] {
                TokenTree::Ident { name, span } => {
                    let t = TokenTree::Ident { name: sentinel_name(name), span: *span };
                    push_tree(&mut out, t);
                    assert(stream_view(out) + rewrite_from(v, i + 2) =~= before + rewrite_from(v, i as int));
                    i = i + 2;
                    continue;
                },
                _ => {},
            }
        }
        assert(decreases_to!(ts => ts@[i as int]));
        let t = rewrite_tree_exec(&ts[i]);
        push_tree(&mut out, t);
        assert(stream_view(out) + rewrite_from(v, i + 1) =~= before + rewrite_from(v, i as int));
        i = i + 1;
    }
    assert(rewrite_from(v, i as int) =~= Seq::<Tok>::empty());
    assert(stream_view(out) =~= stream_view(out) + rewrite_from(v, i as int));
    out
}


// ---------------------------------------------------------------------------
// The parsed invocation
// ---------------------------------------------------------------------------
/// An argument of the call: an expression, or a marker for a declared file.
#[derive(Debug)]
pub enum Arg {
    /// An ordinary expression.
    Expr(Vec<TokenTree>),
    /// `$<name>i`: the path of the file `<name>`.
    FileInput(Ident),
    /// `$<name>o`: the temporary path of the file `<name>`.
    FileInter(Ident),
}

/// The view of an argument.
pub enum ArgSpec {
    Expr(Seq<Tok>),
    FileInput(Tok),
    FileInter(Tok),
}

impl View for Arg {
    type V = ArgSpec;

    open spec fn view(&self) -> ArgSpec {
        match self {
            Arg::Expr(e) => ArgSpec::Expr(stream_view(*e)),
            Arg::FileInput(n) => ArgSpec::FileInput(n@),
            Arg::FileInter(n) => ArgSpec::FileInter(n@),
        }
    }
}

/// A file to edit in place: `<name> = <path>`.
#[derive(Debug)]
pub struct FileSpec {
    pub name: Ident,
    pub path: Vec<TokenTree>,
}

/// The view of a file declaration.
pub struct FileDecl {
    pub name: Tok,
    pub path: Seq<Tok>,
}

impl View for FileSpec {
    type V = FileDecl;

    open spec fn view(&self) -> FileDecl {
        FileDecl { name: self.name@, path: stream_view(self.path) }
    }
}

/// The whole invocation: the files, the function called, and its arguments.
#[derive(Debug)]
pub struct Ast {
    pub files: Vec<FileSpec>,
    pub function: Vec<TokenTree>,
    pub args: Vec<Arg>,
}

/// The view of an invocation.
pub struct AstSpec {
    pub files: Seq<FileDecl>,
    pub function: Seq<Tok>,
    pub args: Seq<ArgSpec>,
}

impl View for Ast {
    type V = AstSpec;

    open spec fn view(&self) -> AstSpec {
        AstSpec {
            files: self.files@.map_values(|f: FileSpec| f@),
            function: stream_view(self.function),
            args: self.args@.map_values(|a: Arg| a@),
        }
    }
}

pub open spec fn expected_expr() -> Seq<char> {
    "expected an expression"@
}

pub open spec fn missing_call() -> Seq<char> {
    "in_place! : expression d'appel de fonction manquante après les déclarations de fichiers"@
}

pub open spec fn call_required() -> Seq<char> {
    "in_place! : une expression d'appel de fonction est requise"@
}

pub open spec fn unexpected_token() -> Seq<char> {
    "unexpected token"@
}

pub open spec fn not_a_call() -> Seq<char> {
    "in_place! : l'expression doit être un appel de fonction, ex: `my_func($f1i, \"arg\", $f1o)`"@
}

pub open spec fn empty_marker() -> Seq<char> {
    "marqueur de fichier vide"@
}

pub open spec fn invalid_marker(base: Seq<char>, suffix: char) -> Seq<char> {
    "marqueur de fichier invalide `$"@ + base + seq![suffix]
        + "` : le suffixe doit être `i` (input) ou `o` (output/inter)"@
}

/// The longest prefix `ts[s..e]`, with `e` at most `hi`, that reads as an
/// expression.
pub open spec fn longest_expr_from(ts: Seq<Tok>, s: int, hi: int) -> Option<int>
    decreases hi - s,
{
    if hi <= s {
        None
    } else if is_expr(ts.subrange(s, hi)) {
        Some(hi)
    } else {
        longest_expr_from(ts, s, hi - 1)
    }
}

pub proof fn lemma_longest_expr_from_bounds(ts: Seq<Tok>, s: int, hi: int)
    ensures
        longest_expr_from(ts, s, hi) matches Some(e) ==> s < e <= hi && is_expr(ts.subrange(s, e)),
    decreases hi - s,
{
    if hi > s {
        lemma_longest_expr_from_bounds(ts, s, hi - 1);
    }
}

/// Where the path of a file declaration that starts at `ts[s]` ends: the
/// expression that ends at a top-level comma or at the end, or else, where
/// no comma follows it, the longest prefix that reads as an expression.
pub open spec fn path_end(ts: Seq<Tok>, s: int) -> Option<int> {
    match crate::syntax::expr_end(ts, s) {
        Some(e) => Some(e),
        None => longest_expr_from(ts, s, ts.len() as int),
    }
}

pub proof fn lemma_path_end_bounds(ts: Seq<Tok>, s: int)
    requires
        0 <= s,
    ensures
        path_end(ts, s) matches Some(e) ==> s < e <= ts.len() && is_expr(ts.subrange(s, e)),
{
    crate::syntax::lemma_expr_end_from_bounds(ts, s, s + 1);
    lemma_longest_expr_from_bounds(ts, s, ts.len() as int);
}

/// Computes `path_end(stream_view(ts), s)`.
fn find_path_end(ts: &Vec<TokenTree>, s: usize) -> (r: Option<usize>)
    requires
        s < ts.len(),
    ensures
        match r {
            Some(e) => path_end(stream_view(*ts), s as int) == Some(e as int) && s < e <= ts.len(),
            None => path_end(stream_view(*ts), s as int) is None,
        },
{
    let ghost v = stream_view(*ts);
    proof {
        lemma_trees_view_pointwise(ts@);
    }
    match crate::syntax::find_expr_end(ts, s) {
        Some(e) => Some(e),
        None => find_longest_expr(ts, s),
    }
}

/// Computes `longest_expr_from(stream_view(ts), s, ts.len())`.
fn find_longest_expr(ts: &Vec<TokenTree>, s: usize) -> (r: Option<usize>)
    requires
        s <= ts.len(),
    ensures
        match r {
            Some(e) => longest_expr_from(stream_view(*ts), s as int, ts.len() as int) == Some(e as int)
                && s < e <= ts.len(),
            None => longest_expr_from(stream_view(*ts), s as int, ts.len() as int) is None,
        },
{
    let ghost v = stream_view(*ts);
    proof {
        lemma_trees_view_pointwise(ts@);
    }
    let mut hi = ts.len();
    while hi > s
        invariant
            s <= hi <= ts.len(),
            v == stream_view(*ts),
            v.len() == ts.len(),
            longest_expr_from(v, s as int, v.len() as int) == longest_expr_from(v, s as int, hi as int),
        decreases hi,
    {
        if range_expr_shape(ts, s, hi).is_some() {
            return Some(hi);
        }
        hi = hi - 1;
    }
    None
}

/// The file declarations that start at `ts[i]`, and where they end.
pub open spec fn parse_files(ts: Seq<Tok>, i: int) -> Result<(Seq<FileDecl>, int), Failure>
    decreases ts.len() - i,
{
    if 0 <= i && i + 1 < ts.len() && is_word(ts[i]) && is_punct(ts[i + 1], '=') {
        match path_end(ts, i + 2) {
            None => Err((span_at(ts, i + 2), expected_expr())),
            Some(e) => {
                proof {
                    lemma_path_end_bounds(ts, i + 2);
                }
                let f = FileDecl { name: ts[i], path: ts.subrange(i + 2, e) };
                if e < ts.len() && is_punct(ts[e], ',') {
                    if e + 1 >= ts.len() {
                        Err((Span::CallSite, missing_call()))
                    } else {
                        match parse_files(ts, e + 1) {
                            Ok((fs, k)) => Ok((seq![f] + fs, k)),
                            Err(x) => Err(x),
                        }
                    }
                } else {
                    match parse_files(ts, e) {
                        Ok((fs, k)) => Ok((seq![f] + fs, k)),
                        Err(x) => Err(x),
                    }
                }
            },
        }
    } else {
        Ok((Seq::empty(), i))
    }
}

/// Whether an identifier is a sentinel `__ipm_<inner>__`.
pub open spec fn is_sentinel(name: Seq<char>) -> bool {
    name.len() >= 8 && name.take(6) == sentinel_prefix() && name.skip(name.len() - 2)
        == sentinel_suffix()
}

/// What one argument of the call is: a marker (a lone sentinel identifier),
/// or an expression.
pub open spec fn classify(arg: Seq<Tok>) -> Result<ArgSpec, Failure> {
    if arg.len() == 1 && arg[0] is Ident && is_sentinel(arg[0]->Ident_name) {
        let name = arg[0]->Ident_name;
        let span = arg[0]->Ident_span;
        let inner = name.subrange(6, name.len() - 2);
        if inner.len() <= 1 {
            Err((span, empty_marker()))
        } else {
            let base = inner.drop_last();
            let suffix = inner.last();
            if suffix == 'i' {
                Ok(ArgSpec::FileInput(Tok::Ident { name: base, span }))
            } else if suffix == 'o' {
                Ok(ArgSpec::FileInter(Tok::Ident { name: base, span }))
            } else {
                Err((span, invalid_marker(base, suffix)))
            }
        }
    } else {
        Ok(ArgSpec::Expr(arg))
    }
}

/// The comma-separated arguments in `ts[i..]`.
pub open spec fn parse_args(ts: Seq<Tok>, i: int) -> Result<Seq<ArgSpec>, Failure>
    decreases ts.len() - i,
{
    if i < 0 || i >= ts.len() {
        Ok(Seq::empty())
    } else {
        match crate::syntax::expr_end(ts, i) {
            None => Err((span_at(ts, i), expected_expr())),
            Some(e) => {
                proof {
                    crate::syntax::lemma_expr_end_from_bounds(ts, i, i + 1);
                }
                match classify(ts.subrange(i, e)) {
                    Err(x) => Err(x),
                    Ok(a) => if e >= ts.len() {
                        Ok(seq![a])
                    } else {
                        match parse_args(ts, e + 1) {
                            Ok(rest) => Ok(seq![a] + rest),
                            Err(x) => Err(x),
                        }
                    },
                }
            },
        }
    }
}

/// The invocation read from its (rewritten) tokens: the files, then the call:
/// the longest expression that follows, which must be a call `func(args)`
/// and the rest of the input.
pub open spec fn parse_ast(ts: Seq<Tok>) -> Result<AstSpec, Failure> {
    match parse_files(ts, 0) {
        Err(x) => Err(x),
        Ok((files, k)) => if k >= ts.len() {
            Err((Span::CallSite, call_required()))
        } else {
            match longest_expr_from(ts, k, ts.len() as int) {
                None => Err((span_at(ts, k), expected_expr())),
                Some(e) => {
                    let call = ts.subrange(k, e);
                    match parsed_expr(crate::token::render(call, true)) {
                        Some(ExprShape::Call) => if call.len() >= 2 && is_group(
                            call.last(),
                            Delimiter::Parenthesis,
                        ) {
                            match parse_args(call.last()->Group_stream, 0) {
                                Err(x) => Err(x),
                                Ok(args) => if e < ts.len() {
                                    Err((span_at(ts, e), unexpected_token()))
                                } else {
                                    Ok(AstSpec { files, function: call.drop_last(), args })
                                },
                            }
                        } else {
                            Err((span_at(ts, k), not_a_call()))
                        },
                        _ => Err((span_at(ts, k), not_a_call())),
                    }
                },
            }
        },
    }
}

/// What `parse` makes of the macro's input.
pub open spec fn parse_spec(ts: Seq<Tok>) -> Result<AstSpec, Failure> {
    parse_ast(rewrite(ts))
}


fn char_is(s: &str, i: usize, c: char) -> (b: bool)
    requires
        i < s@.len(),
    ensures
        b == (s@[i as int] == c),
{
    s.get_char(i) == c
}

/// Reads one argument of the call (see `classify`).
pub fn classify_arg(arg: Vec<TokenTree>) -> (r: Result<Arg, ParseError>)
    ensures
        match r {
            Ok(a) => classify(stream_view(arg)) == Ok::<ArgSpec, Failure>(a@),
            Err(e) => classify(stream_view(arg)) == Err::<ArgSpec, Failure>(e@),
        },
{
    let ghost v = stream_view(arg);
    proof {
        lemma_trees_view_pointwise(arg@);
    }
    if arg.len() == 1 {
        match &arg[0] {
            TokenTree::Ident { name, span } => {
                let s = name.as_str();
                let n = s.unicode_len();
                let looks = n >= 8 && char_is(s, 0, '_') && char_is(s, 1, '_') && char_is(s, 2, 'i')
                    && char_is(s, 3, 'p') && char_is(s, 4, 'm') && char_is(s, 5, '_')
                    && char_is(s, n - 2, '_') && char_is(s, n - 1, '_');
                proof {
                    if is_sentinel(name@) {
                        assert(name@.take(6)[0] == name@[0]);
                        assert(name@.take(6)[1] == name@[1]);
                        assert(name@.take(6)[2] == name@[2]);
                        assert(name@.take(6)[3] == name@[3]);
                        assert(name@.take(6)[4] == name@[4]);
                        assert(name@.take(6)[5] == name@[5]);
                        assert(name@.skip(name@.len() - 2)[0] == name@[name@.len() - 2]);
                        assert(name@.skip(name@.len() - 2)[1] == name@[name@.len() - 1]);
                    }
                    if looks {
                        assert(name@.take(6) =~= sentinel_prefix());
                        assert(name@.skip(name@.len() - 2) =~= sentinel_suffix());
                    }
                }
                if looks {
                    if n <= 9 {
                        return Err(ParseError::new(*span, "marqueur de fichier vide"));
                    }
                    let base_str = s.substring_char(6, n - 3);
                    let suffix = s.get_char(n - 3);
                    let ghost inner = name@.subrange(6, name@.len() - 2);
                    proof {
                        assert(inner.drop_last() =~= base_str@);
                        assert(inner.last() == suffix);
                    }
                    let base = Ident { name: String::from_str(base_str), span: *span };
                    if suffix == 'i' {
                        return Ok(Arg::FileInput(base));
                    } else if suffix == 'o' {
                        return Ok(Arg::FileInter(base));
                    }
                    let mut msg = String::from_str("marqueur de fichier invalide `$");
                    msg.append(base_str);
                    crate::token::push_char(&mut msg, suffix);
                    msg.append("` : le suffixe doit être `i` (input) ou `o` (output/inter)");
                    proof {
                        assert(msg@ =~= invalid_marker(inner.drop_last(), suffix));
                    }
                    return Err(ParseError { span: *span, message: msg });
                }
            },
            _ => {},
        }
    }
    Ok(Arg::Expr(arg))
}

/// The spec view of a sequence of arguments.
pub open spec fn args_view(v: Seq<Arg>) -> Seq<ArgSpec> {
    v.map_values(|a: Arg| a@)
}

/// Reads the comma-separated arguments of the call (see `parse_args`).
pub fn parse_call_args(ts: &Vec<TokenTree>) -> (r: Result<Vec<Arg>, ParseError>)
    ensures
        match r {
            Ok(v) => parse_args(stream_view(*ts), 0) == Ok::<Seq<ArgSpec>, Failure>(args_view(v@)),
            Err(e) => parse_args(stream_view(*ts), 0) == Err::<Seq<ArgSpec>, Failure>(e@),
        },
{
    let ghost v = stream_view(*ts);
    proof {
        lemma_trees_view_pointwise(ts@);
    }
    let mut acc: Vec<Arg> = Vec::new();
    let mut i: usize = 0;
    assert(args_view(acc@) =~= Seq::<ArgSpec>::empty());
    while i < ts.len()
        invariant
            i <= ts.len(),
            v == stream_view(*ts),
            v.len() == ts.len(),
            parse_args(v, 0) == match parse_args(v, i as int) {
                Ok(rest) => Ok(args_view(acc@) + rest),
                Err(x) => Err::<Seq<ArgSpec>, Failure>(x),
            },
        decreases ts.len() - i,
    {
        let ghost before = args_view(acc@);
        let e = match crate::syntax::find_expr_end(ts, i) {
            Some(e) => e,
            None => {
                return Err(ParseError::new(span_of(ts, i), "expected an expression"));
            },
        };
        let part = copy_range(ts, i, e);
        proof {
            lemma_trees_view_subrange(ts@, i as int, e as int);
        }
        let a = match classify_arg(part) {
            Ok(a) => a,
            Err(x) => {
                return Err(x);
            },
        };
        let ghost av = a@;
        acc.push(a);
        assert(args_view(acc@) =~= before + seq![av]);
        if e >= ts.len() {
            assert(parse_args(v, e as int) == Ok::<Seq<ArgSpec>, Failure>(Seq::empty()));
            assert(before + seq![av] =~= before + seq![av] + Seq::<ArgSpec>::empty());
            i = e;
        } else {
            proof {
                match parse_args(v, e + 1) {
                    Ok(rest) => {
                        assert(before + (seq![av] + rest) =~= before + seq![av] + rest);
                    },
                    Err(_) => {},
                }
            }
            i = e + 1;
        }
    }
    assert(parse_args(v, i as int) == Ok::<Seq<ArgSpec>, Failure>(Seq::empty()));
    assert(args_view(acc@) + Seq::<ArgSpec>::empty() =~= args_view(acc@));
    Ok(acc)
}

/// The spec view of a sequence of file declarations.
pub open spec fn files_view(v: Seq<FileSpec>) -> Seq<FileDecl> {
    v.map_values(|f: FileSpec| f@)
}

/// Reads the file declarations at the start of `ts` (see `parse_files`).
pub fn parse_file_specs(ts: &Vec<TokenTree>) -> (r: Result<(Vec<FileSpec>, usize), ParseError>)
    ensures
        match r {
            Ok((fs, k)) => parse_files(stream_view(*ts), 0) == Ok::<(Seq<FileDecl>, int), Failure>(
                (files_view(fs@), k as int),
            ),
            Err(e) => parse_files(stream_view(*ts), 0) == Err::<(Seq<FileDecl>, int), Failure>(e@),
        },
{
    let ghost v = stream_view(*ts);
    proof {
        lemma_trees_view_pointwise(ts@);
    }
    let mut acc: Vec<FileSpec> = Vec::new();
    let mut i: usize = 0;
    assert(files_view(acc@) =~= Seq::<FileDecl>::empty());
    loop
        invariant
            i <= ts.len(),
            v == stream_view(*ts),
            v.len() == ts.len(),
            parse_files(v, 0) == match parse_files(v, i as int) {
                Ok((rest, k)) => Ok((files_view(acc@) + rest, k)),
                Err(x) => Err::<(Seq<FileDecl>, int), Failure>(x),
            },
        decreases ts.len() - i,
    {
        if !(i < ts.len() && i + 1 < ts.len() && is_word_at(ts, i) && is_punct_at(ts, i + 1, '=')) {
            assert(parse_files(v, i as int) == Ok::<(Seq<FileDecl>, int), Failure>(
                (Seq::empty(), i as int),
            ));
            assert(files_view(acc@) + Seq::<FileDecl>::empty() =~= files_view(acc@));
            return Ok((acc, i));
        }
        if i + 2 >= ts.len() {
            assert(path_end(v, i + 2) is None);
            return Err(ParseError::new(span_of(ts, i + 2), "expected an expression"));
        }
        let e = match find_path_end(ts, i + 2) {
            Some(e) => e,
            None => {
                return Err(ParseError::new(span_of(ts, i + 2), "expected an expression"));
            },
        };
        proof {
            lemma_trees_view_pointwise(ts@);
        }
        let name = Ident::from_tree(&ts[i]).unwrap();
        let path = copy_range(ts, i + 2, e);
        proof {
            lemma_trees_view_subrange(ts@, i + 2, e as int);
        }
        let f = FileSpec { name, path };
        let ghost before = files_view(acc@);
        let ghost fv = f@;
        assert(fv == FileDecl { name: v[i as int], path: v.subrange(i + 2, e as int) });
        acc.push(f);
        assert(files_view(acc@) =~= before + seq![fv]);
        if e < ts.len() && is_punct_at(ts, e, ',') {
            if e + 1 >= ts.len() {
                return Err(ParseError::new(
                    Span::CallSite,
                    "in_place! : expression d'appel de fonction manquante après les déclarations de fichiers",
                ));
            }
            proof {
                match parse_files(v, e + 1) {
                    Ok((rest, k)) => {
                        assert(before + (seq![fv] + rest) =~= before + seq![fv] + rest);
                    },
                    Err(_) => {},
                }
            }
            i = e + 1;
        } else {
            proof {
                match parse_files(v, e as int) {
                    Ok((rest, k)) => {
                        assert(before + (seq![fv] + rest) =~= before + seq![fv] + rest);
                    },
                    Err(_) => {},
                }
            }
            i = e;
        }
    }
}

impl Ast {
    /// Reads an invocation whose markers are already rewritten (see `parse_ast`).
    pub fn parse(ts: &Vec<TokenTree>) -> (r: Result<Ast, ParseError>)
        ensures
            result_view(r) == parse_ast(stream_view(*ts)),
    {
        let ghost v = stream_view(*ts);
        proof {
            lemma_trees_view_pointwise(ts@);
        }
        let (files, k) = match parse_file_specs(ts) {
            Ok(p) => p,
            Err(e) => {
                return Err(e);
            },
        };
        if k >= ts.len() {
            return Err(ParseError::new(
                Span::CallSite,
                "in_place! : une expression d'appel de fonction est requise",
            ));
        }
        let e = match find_longest_expr(ts, k) {
            Some(e) => e,
            None => {
                return Err(ParseError::new(span_of(ts, k), "expected an expression"));
            },
        };
        let ghost call = v.subrange(k as int, e as int);
        let shape = range_expr_shape(ts, k, e);
        let last = e - 1;
        if shape == Some(ExprShape::Call) && e - k >= 2 {
            match &ts[last] {
                TokenTree::Group { delimiter: Delimiter::Parenthesis, stream, .. } => {
                    assert(call.last() == v[last as int]);
                    let args = match parse_call_args(stream) {
                        Ok(a) => a,
                        Err(x) => {
                            return Err(x);
                        },
                    };
                    if e < ts.len() {
                        return Err(ParseError::new(span_of(ts, e), "unexpected token"));
                    }
                    let function = copy_range(ts, k, last);
                    proof {
                        lemma_trees_view_subrange(ts@, k as int, last as int);
                        assert(call.drop_last() =~= v.subrange(k as int, last as int));
                    }
                    let ast = Ast { files, function, args };
                    assert(ast@.files =~= files_view(files@));
                    return Ok(ast);
                },
                _ => {},
            }
        }
        Err(ParseError::new(
            span_of(ts, k),
            "in_place! : l'expression doit être un appel de fonction, ex: `my_func($f1i, \"arg\", $f1o)`",
        ))
    }
}

/// Reads the macro's input: rewrites the markers, then reads the invocation.
pub fn parse(ts: &Vec<TokenTree>) -> (r: Result<Ast, ParseError>)
    ensures
        result_view(r) == parse_spec(stream_view(*ts)),
{
    let rewritten = rewrite_markers(ts);
    Ast::parse(&rewritten)
}


// ---------------------------------------------------------------------------
// Code generation
// ---------------------------------------------------------------------------
/// `<name>_input`, with the span of `name`.
pub open spec fn input_name(n: Tok) -> Tok {
    Tok::Ident { name: n->Ident_name + "_input"@, span: n->Ident_span }
}

/// `<name>_inter`, with the span of `name`.
pub open spec fn inter_name(n: Tok) -> Tok {
    Tok::Ident { name: n->Ident_name + "_inter"@, span: n->Ident_span }
}

/// `let <name>_input: &::std::path::Path = AsRef::<Path>::as_ref(<path>);`
/// followed by `let <name>_inter: PathBuf = <temporary path of path>;`.
pub open spec fn file_decl(f: FileDecl) -> Seq<Tok> {
    seq![
        src("let"@),
        input_name(f.name),
        src(": &::std::path::Path = ::std::convert::AsRef::<::std::path::Path>::as_ref"@),
        group(Delimiter::Parenthesis, f.path),
        src(";"@),
    ] + tmp_path_decl(inter_name(f.name), f.path)
}

pub open spec fn file_decls(fs: Seq<FileDecl>) -> Seq<Tok>
    decreases fs.len(),
{
    if fs.len() == 0 {
        Seq::empty()
    } else {
        file_decls(fs.drop_last()) + file_decl(fs.last())
    }
}

pub open spec fn rename_expect() -> Seq<char> {
    ".expect(\"in_place!: impossible de renommer le fichier temporaire\");"@
}

/// `::std::fs::rename(&<name>_inter, <name>_input).expect(..);` for each file.
pub open spec fn file_renames(fs: Seq<FileDecl>) -> Seq<Tok>
    decreases fs.len(),
{
    if fs.len() == 0 {
        Seq::empty()
    } else {
        file_renames(fs.drop_last()) + rename_call(
            seq![inter_name(fs.last().name)],
            seq![input_name(fs.last().name)],
        ) + seq![src(rename_expect())]
    }
}

/// The tokens that stand for one argument in the call.
pub open spec fn arg_tokens(a: ArgSpec) -> Seq<Tok> {
    match a {
        ArgSpec::Expr(e) => e,
        ArgSpec::FileInput(n) => seq![input_name(n)],
        ArgSpec::FileInter(n) => seq![src("&"@), inter_name(n)],
    }
}

/// The arguments of the call, separated by commas.
pub open spec fn call_args(args: Seq<ArgSpec>) -> Seq<Tok>
    decreases args.len(),
{
    if args.len() == 0 {
        Seq::empty()
    } else if args.len() == 1 {
        arg_tokens(args[0])
    } else {
        call_args(args.drop_last()) + seq![src(","@)] + arg_tokens(args.last())
    }
}

/// The block that the macro writes.
pub open spec fn expand(ast: AstSpec) -> Seq<Tok> {
    seq![
        group(
            Delimiter::Brace,
            file_decls(ast.files) + ast.function + seq![
                group(Delimiter::Parenthesis, call_args(ast.args)),
                src("?;"@),
            ] + file_renames(ast.files) + seq![src("Ok(())"@)],
        ),
    ]
}

fn suffixed(n: &Ident, suffix: &str) -> (t: TokenTree)
    ensures
        t@ == (Tok::Ident { name: n.name@ + suffix@, span: n.span }),
{
    let mut name = n.name.clone();
    name.append(suffix);
    TokenTree::Ident { name, span: n.span }
}

fn input_tree(n: &Ident) -> (t: TokenTree)
    ensures
        t@ == input_name(n@),
{
    suffixed(n, "_input")
}

fn inter_tree(n: &Ident) -> (t: TokenTree)
    ensures
        t@ == inter_name(n@),
{
    suffixed(n, "_inter")
}

fn one(t: TokenTree) -> (v: Vec<TokenTree>)
    ensures
        stream_view(v) == seq![t@],
{
    let mut v: Vec<TokenTree> = Vec::new();
    proof {
        lemma_trees_view_push(v@, t);
        assert(crate::token::trees_view(Seq::<TokenTree>::empty()) =~= Seq::<Tok>::empty());
    }
    v.push(t);
    assert(Seq::<Tok>::empty().push(t@) =~= seq![t@]);
    v
}

fn push_arg(out: &mut Vec<TokenTree>, a: Arg)
    ensures
        stream_view(*final(out)) == stream_view(*old(out)) + arg_tokens(a@),
{
    let ghost av = a@;
    match a {
        Arg::Expr(e) => push_all(out, e),
        Arg::FileInput(n) => {
            push_tree(out, input_tree(&n));
            assert(stream_view(*out) =~= stream_view(*old(out)) + arg_tokens(av));
        },
        Arg::FileInter(n) => {
            push_source(out, "&");
            push_tree(out, inter_tree(&n));
            assert(stream_view(*out) =~= stream_view(*old(out)) + arg_tokens(av));
        },
    }
}

/// Writes the block for an invocation.
pub fn codegen(ast: Ast) -> (out: Vec<TokenTree>)
    ensures
        stream_view(out) == expand(ast@),
{
    let ghost av = ast@;
    let Ast { files, function, args } = ast;
    let ghost fs = files_view(files@);
    let ghost ars = args_view(args@);
    let mut block: Vec<TokenTree> = Vec::new();
    assert(crate::token::trees_view(Seq::<TokenTree>::empty()) =~= Seq::<Tok>::empty());
    let mut i: usize = 0;
    assert(fs.take(0) =~= Seq::<FileDecl>::empty());
    while i < files.len()
        invariant
            i <= files.len(),
            fs == files_view(files@),
            stream_view(block) == file_decls(fs.take(i as int)),
        decreases files.len() - i,
    {
        let f = &files[i];
        let ghost before = stream_view(block);
        push_source(&mut block, "let");
        push_tree(&mut block, input_tree(&f.name));
        push_source(&mut block, ": &::std::path::Path = ::std::convert::AsRef::<::std::path::Path>::as_ref");
        push_tree(&mut block, new_group(Delimiter::Parenthesis, copy_range(&f.path, 0, f.path.len())));
        push_source(&mut block, ";");
        proof {
            assert(f.path@.subrange(0, f.path@.len() as int) =~= f.path@);
        }
        let p2 = copy_range(&f.path, 0, f.path.len());
        push_tmp_path_decl(&mut block, inter_tree(&f.name), p2);
        proof {
            assert(fs.take(i + 1).drop_last() =~= fs.take(i as int));
            assert(fs.take(i + 1).last() == f@);
            assert(stream_view(block) =~= before + file_decl(f@));
        }
        i = i + 1;
    }
    assert(fs.take(files@.len() as int) =~= fs);
    push_all(&mut block, function);
    let mut call: Vec<TokenTree> = Vec::new();
    let mut j: usize = 0;
    assert(ars.take(0) =~= Seq::<ArgSpec>::empty());
    while j < args.len()
        invariant
            j <= args.len(),
            ars == args_view(args@),
            stream_view(call) == call_args(ars.take(j as int)),
        decreases args.len() - j,
    {
        proof {
            assert(ars.take(j + 1).drop_last() =~= ars.take(j as int));
            assert(ars.take(j + 1).last() == args@[j as int]@);
        }
        if j > 0 {
            push_source(&mut call, ",");
        }
        let ghost before = stream_view(call);
        push_arg(&mut call, args[j].copy_arg());
        proof {
            if j == 0 {
                assert(before =~= Seq::<Tok>::empty());
                assert(stream_view(call) =~= arg_tokens(ars.take(1)[0]));
            }
        }
        j = j + 1;
    }
    assert(ars.take(args@.len() as int) =~= ars);
    push_tree(&mut block, new_group(Delimiter::Parenthesis, call));
    push_source(&mut block, "?;");
    let ghost mid = stream_view(block);
    let mut k: usize = 0;
    while k < files.len()
        invariant
            k <= files.len(),
            fs == files_view(files@),
            stream_view(block) == mid + file_renames(fs.take(k as int)),
        decreases files.len() - k,
    {
        let f = &files[k];
        push_rename_call(&mut block, one(inter_tree(&f.name)), one(input_tree(&f.name)));
        push_source(&mut block, ".expect(\"in_place!: impossible de renommer le fichier temporaire\");");
        proof {
            assert(fs.take(k + 1).drop_last() =~= fs.take(k as int));
            assert(fs.take(k + 1).last() == f@);
        }
        k = k + 1;
    }
    push_source(&mut block, "Ok(())");
    proof {
        assert(fs.take(files@.len() as int) =~= fs);
        assert(stream_view(block) =~= file_decls(av.files) + av.function + seq![
            group(Delimiter::Parenthesis, call_args(av.args)),
            src("?;"@),
        ] + file_renames(av.files) + seq![src("Ok(())"@)]);
    }
    one(new_group(Delimiter::Brace, block))
}

impl Arg {
    /// A copy with the same view.
    pub fn copy_arg(&self) -> (r: Arg)
        ensures
            r@ == self@,
    {
        match self {
            Arg::Expr(e) => Arg::Expr(crate::token::copy_trees(e)),
            Arg::FileInput(n) => Arg::FileInput(Ident { name: n.name.clone(), span: n.span }),
            Arg::FileInter(n) => Arg::FileInter(Ident { name: n.name.clone(), span: n.span }),
        }
    }
}


// ---------------------------------------------------------------------------
// Laws
// ---------------------------------------------------------------------------
/// A marker `$<name>i` reads back as the input path of the file `<name>`,
/// and `$<name>o` as its temporary path.
pub proof fn law_marker_reads_back(dollar: Tok, name: Seq<char>, suffix: char, span: Span)
    requires
        is_punct(dollar, '$'),
        name.len() >= 1,
        suffix == 'i' || suffix == 'o',
    ensures
        classify(rewrite(seq![dollar, Tok::Ident { name: name.push(suffix), span }])) == if suffix
            == 'i' {
            Ok::<ArgSpec, Failure>(ArgSpec::FileInput(Tok::Ident { name, span }))
        } else {
            Ok::<ArgSpec, Failure>(ArgSpec::FileInter(Tok::Ident { name, span }))
        },
{
    let ts = seq![dollar, Tok::Ident { name: name.push(suffix), span }];
    let m = name.push(suffix);
    let s = sentinel(m);
    assert(rewrite_from(ts, 2) =~= Seq::<Tok>::empty());
    assert(rewrite(ts) =~= seq![Tok::Ident { name: s, span }]);
    assert(s.take(6) =~= sentinel_prefix());
    assert(s.skip(s.len() - 2) =~= sentinel_suffix());
    let inner = s.subrange(6, s.len() - 2);
    assert(inner =~= m);
    assert(inner.drop_last() =~= name);
}

/// No `$` punctuation at any depth of `ts[i..]`.
pub open spec fn dollar_free_from(ts: Seq<Tok>, i: int) -> bool
    decreases ts, ts.len() - i,
{
    if i < 0 || i >= ts.len() {
        true
    } else {
        !is_punct(ts[i], '$') && dollar_free_tree(ts[i]) && dollar_free_from(ts, i + 1)
    }
}

/// No `$` punctuation at any depth of a group.
pub open spec fn dollar_free_tree(t: Tok) -> bool
    decreases t, 0int,
{
    match t {
        Tok::Group { stream, .. } => dollar_free_from(stream, 0),
        _ => true,
    }
}

/// Input without markers passes the rewriting unchanged.
pub proof fn law_rewrite_keeps_marker_free_input(ts: Seq<Tok>, i: int)
    requires
        0 <= i <= ts.len(),
        dollar_free_from(ts, i),
    ensures
        rewrite_from(ts, i) == ts.skip(i),
    decreases ts, ts.len() - i,
{
    if i < ts.len() {
        lemma_rewrite_tree_keeps(ts[i]);
        law_rewrite_keeps_marker_free_input(ts, i + 1);
        assert(ts.skip(i) =~= seq![ts[i]] + ts.skip(i + 1));
    } else {
        assert(ts.skip(i) =~= Seq::<Tok>::empty());
    }
}

pub proof fn lemma_rewrite_tree_keeps(t: Tok)
    requires
        dollar_free_tree(t),
    ensures
        rewrite_tree(t) == t,
    decreases t, 0int,
{
    match t {
        Tok::Group { delimiter, stream, span } => {
            law_rewrite_keeps_marker_free_input(stream, 0);
            assert(stream.skip(0) =~= stream);
        },
        _ => {},
    }
}

pub proof fn lemma_file_renames_add(a: Seq<FileDecl>, b: Seq<FileDecl>)
    ensures
        file_renames(a + b) == file_renames(a) + file_renames(b),
    decreases b.len(),
{
    if b.len() == 0 {
        assert(a + b =~= a);
        assert(file_renames(a) + file_renames(b) =~= file_renames(a));
    } else {
        lemma_file_renames_add(a, b.drop_last());
        assert((a + b).drop_last() =~= a + b.drop_last());
        assert(file_renames(a + b) =~= file_renames(a) + file_renames(b));
    }
}

/// Each declared file gets one rename, in the order of the declarations: the
/// `k`-th rename moves `<name>_inter` over `<name>_input` of the `k`-th file.
pub proof fn law_each_file_renamed(fs: Seq<FileDecl>, k: int)
    requires
        0 <= k < fs.len(),
    ensures
        file_renames(fs).len() == 3 * fs.len(),
        file_renames(fs).subrange(3 * k, 3 * k + 3) == rename_call(
            seq![inter_name(fs[k].name)],
            seq![input_name(fs[k].name)],
        ) + seq![src(rename_expect())],
{
    lemma_file_renames_len(fs);
    lemma_file_renames_len(fs.take(k));
    let front = fs.take(k + 1);
    assert(fs =~= front + fs.skip(k + 1));
    lemma_file_renames_add(front, fs.skip(k + 1));
    assert(front.drop_last() =~= fs.take(k));
    assert(front.last() == fs[k]);
    assert(file_renames(fs).subrange(3 * k, 3 * k + 3) =~= rename_call(
        seq![inter_name(fs[k].name)],
        seq![input_name(fs[k].name)],
    ) + seq![src(rename_expect())]);
}

pub proof fn lemma_file_renames_len(fs: Seq<FileDecl>)
    ensures
        file_renames(fs).len() == 3 * fs.len(),
    decreases fs.len(),
{
    if fs.len() > 0 {
        lemma_file_renames_len(fs.drop_last());
    }
}

/// Whether `pre` spells out exactly the declarations `files`, in order: for
/// each, its name, an `=`, every token of its path, and a comma or nothing.
pub open spec fn spells_decls(pre: Seq<Tok>, files: Seq<FileDecl>) -> bool
    decreases files.len(),
{
    if files.len() == 0 {
        pre.len() == 0
    } else {
        let f = files[0];
        let n: int = 2 + f.path.len() as int;
        &&& pre.len() >= n
        &&& pre[0] == f.name
        &&& is_punct(pre[1], '=')
        &&& pre.subrange(2, n) == f.path
        &&& (spells_decls(pre.skip(n), files.drop_first()) || (pre.len() > n && is_punct(pre[n], ',')
            && spells_decls(pre.skip(n + 1), files.drop_first())))
    }
}

proof fn lemma_parse_files_spells(ts: Seq<Tok>, i: int)
    requires
        0 <= i <= ts.len(),
    ensures
        parse_files(ts, i) matches Ok((fs, k)) ==> {
            &&& i <= k <= ts.len()
            &&& spells_decls(ts.subrange(i, k), fs)
            &&& forall|j: int| 0 <= j < fs.len() ==> is_expr(#[trigger] fs[j].path)
        },
    decreases ts.len() - i,
{
    if 0 <= i && i + 1 < ts.len() && is_word(ts[i]) && is_punct(ts[i + 1], '=') {
        lemma_path_end_bounds(ts, i + 2);
        if let Some(e) = path_end(ts, i + 2) {
            let decl = FileDecl { name: ts[i], path: ts.subrange(i + 2, e) };
            let next = if e < ts.len() && is_punct(ts[e], ',') {
                e + 1
            } else {
                e
            };
            if next <= ts.len() {
                lemma_parse_files_spells(ts, next);
            }
            if let Ok((fs, k)) = parse_files(ts, i) {
                let rest = parse_files(ts, next)->Ok_0.0;
                assert(parse_files(ts, next) == Ok::<(Seq<FileDecl>, int), Failure>((rest, k)));
                assert(fs == seq![decl] + rest);
                let pre = ts.subrange(i, k);
                let n: int = 2 + decl.path.len() as int;
                assert(n == e - i);
                assert(fs[0] == decl);
                assert(fs.drop_first() =~= rest);
                assert(pre.subrange(2, n) =~= decl.path);
                assert(pre.skip(next - i) =~= ts.subrange(next, k));
                assert forall|j: int| 0 <= j < fs.len() implies is_expr(#[trigger] fs[j].path) by {
                    if j > 0 {
                        assert(fs[j] == rest[j - 1]);
                    }
                }
            }
        }
    } else {
        assert(ts.subrange(i, i) =~= Seq::<Tok>::empty());
    }
}

/// An accepted invocation is, token for token, its file declarations (each
/// with its whole path expression), then the function part of the call as
/// written, then the call's parenthesized argument group: no token of a
/// declared path or of the callee is dropped.  Each declared path reads as
/// an expression, and the function part with its arguments reads as a call.
pub proof fn law_invocation_spelled_out(ts: Seq<Tok>)
    ensures
        parse_ast(ts) matches Ok(ast) ==> {
            let n = ts.len() - 1 - ast.function.len();
            &&& ast.function.len() >= 1
            &&& 0 <= n
            &&& is_group(ts.last(), Delimiter::Parenthesis)
            &&& ts.subrange(n, ts.len() - 1) == ast.function
            &&& parsed_expr(crate::token::render(ts.subrange(n, ts.len() as int), true)) == Some(ExprShape::Call)
            &&& spells_decls(ts.take(n), ast.files)
            &&& forall|j: int| 0 <= j < ast.files.len() ==> is_expr(#[trigger] ast.files[j].path)
        },
{
    lemma_parse_files_spells(ts, 0);
    if let Ok(ast) = parse_ast(ts) {
        let (files, k) = parse_files(ts, 0)->Ok_0;
        let e = longest_expr_from(ts, k, ts.len() as int)->Some_0;
        lemma_longest_expr_from_bounds(ts, k, ts.len() as int);
        assert(e == ts.len());
        let call = ts.subrange(k, e);
        assert(ast.function == call.drop_last());
        assert(ts.len() - 1 - ast.function.len() == k);
        assert(call.drop_last() =~= ts.subrange(k, ts.len() - 1));
        assert(ts.take(k) =~= ts.subrange(0, k));
        assert(call.last() == ts.last());
    }
}

} // verus!

