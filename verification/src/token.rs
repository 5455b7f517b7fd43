//! A plain model of Rust token trees, its mathematical view, and its
//! rendering as source text.
use vstd::prelude::*;

verus! {

/// Where a token came from: the `n`-th span recorded for the macro's input,
/// or the macro's call site (for tokens that the macro itself writes).
#[derive(Clone, Copy, PartialEq, Eq, Debug, Structural)]
pub enum Span {
    CallSite,
    Input(usize),
}

/// The delimiter of a group.
#[derive(Clone, Copy, PartialEq, Eq, Debug, Structural)]
pub enum Delimiter {
    Parenthesis,
    Brace,
    Bracket,
    Invisible,
}

/// Whether a punctuation character is glued to the punctuation that follows it.
#[derive(Clone, Copy, PartialEq, Eq, Debug, Structural)]
pub enum Spacing {
    Alone,
    Joint,
}

/// A token tree.  `Source` is a fragment of Rust source text written by the
/// macro itself; it is lexed into tokens at the call site.
#[derive(Debug)]
pub enum TokenTree {
    Ident { name: String, span: Span },
    Punct { ch: char, spacing: Spacing, span: Span },
    Literal { text: String, span: Span },
    Group { delimiter: Delimiter, stream: Vec<TokenTree>, span: Span },
    Source { text: String },
}

/// The mathematical view of a token tree.
pub enum Tok {
    Ident { name: Seq<char>, span: Span },
    Punct { ch: char, spacing: Spacing, span: Span },
    Literal { text: Seq<char>, span: Span },
    Group { delimiter: Delimiter, stream: Seq<Tok>, span: Span },
    Source { text: Seq<char> },
}

pub open spec fn tree_view(t: TokenTree) -> Tok
    decreases t,
{
    match t {
        TokenTree::Ident { name, span } => Tok::Ident { name: name@, span },
        TokenTree::Punct { ch, spacing, span } => Tok::Punct { ch, spacing, span },
        TokenTree::Literal { text, span } => Tok::Literal { text: text@, span },
        TokenTree::Group { delimiter, stream, span } => Tok::Group {
            delimiter,
            stream: trees_view(stream@),
            span,
        },
        TokenTree::Source { text } => Tok::Source { text: text@ },
    }
}

pub open spec fn trees_view(ts: Seq<TokenTree>) -> Seq<Tok>
    decreases ts,
{
    if ts.len() == 0 {
        Seq::empty()
    } else {
        seq![tree_view(ts[0])] + trees_view(ts.drop_first())
    }
}

impl View for TokenTree {
    type V = Tok;

    open spec fn view(&self) -> Tok {
        tree_view(*self)
    }
}

/// The view of a vector of token trees.
pub open spec fn stream_view(v: Vec<TokenTree>) -> Seq<Tok> {
    trees_view(v@)
}

pub proof fn lemma_trees_view_len(ts: Seq<TokenTree>)
    ensures
        trees_view(ts).len() == ts.len(),
    decreases ts.len(),
{
    if ts.len() > 0 {
        lemma_trees_view_len(ts.drop_first());
    }
}

pub proof fn lemma_trees_view_index(ts: Seq<TokenTree>, i: int)
    requires
        0 <= i < ts.len(),
    ensures
        trees_view(ts).len() == ts.len(),
        trees_view(ts)[i] == tree_view(ts[i]),
    decreases ts.len(),
{
    lemma_trees_view_len(ts);
    if i > 0 {
        lemma_trees_view_index(ts.drop_first(), i - 1);
    }
}

/// The view of a sequence is the sequence of the views of its elements.
pub proof fn lemma_trees_view_pointwise(ts: Seq<TokenTree>)
    ensures
        trees_view(ts).len() == ts.len(),
        forall|i: int| 0 <= i < ts.len() ==> #[trigger] trees_view(ts)[i] == tree_view(ts[i]),
{
    lemma_trees_view_len(ts);
    assert forall|i: int| 0 <= i < ts.len() implies #[trigger] trees_view(ts)[i] == tree_view(
        ts[i],
    ) by {
        lemma_trees_view_index(ts, i);
    }
}

/// Two sequences with the same pointwise views have the same view.
pub proof fn lemma_trees_view_ext(a: Seq<TokenTree>, b: Seq<TokenTree>)
    requires
        a.len() == b.len(),
        forall|i: int| 0 <= i < a.len() ==> tree_view(#[trigger] a[i]) == tree_view(b[i]),
    ensures
        trees_view(a) == trees_view(b),
{
    lemma_trees_view_pointwise(a);
    lemma_trees_view_pointwise(b);
    assert(trees_view(a) =~= trees_view(b));
}

/// The view of a pushed vector is the pushed view.
pub proof fn lemma_trees_view_push(ts: Seq<TokenTree>, t: TokenTree)
    ensures
        trees_view(ts.push(t)) == trees_view(ts).push(tree_view(t)),
{
    lemma_trees_view_pointwise(ts);
    lemma_trees_view_pointwise(ts.push(t));
    assert(trees_view(ts.push(t)) =~= trees_view(ts).push(tree_view(t)));
}

/// Taking a subrange commutes with the view.
pub proof fn lemma_trees_view_subrange(ts: Seq<TokenTree>, lo: int, hi: int)
    requires
        0 <= lo <= hi <= ts.len(),
    ensures
        trees_view(ts.subrange(lo, hi)) == trees_view(ts).subrange(lo, hi),
{
    lemma_trees_view_pointwise(ts);
    lemma_trees_view_pointwise(ts.subrange(lo, hi));
    assert(trees_view(ts.subrange(lo, hi)) =~= trees_view(ts).subrange(lo, hi));
}

/// Concatenation commutes with the view.
pub proof fn lemma_trees_view_add(a: Seq<TokenTree>, b: Seq<TokenTree>)
    ensures
        trees_view(a + b) == trees_view(a) + trees_view(b),
{
    lemma_trees_view_pointwise(a);
    lemma_trees_view_pointwise(b);
    lemma_trees_view_pointwise(a + b);
    assert(trees_view(a + b) =~= trees_view(a) + trees_view(b));
}

// ---------------------------------------------------------------------------
// Small predicates on views
// ---------------------------------------------------------------------------
pub open spec fn is_punct(t: Tok, c: char) -> bool {
    t matches Tok::Punct { ch, .. } && ch == c
}

pub open spec fn is_group(t: Tok, d: Delimiter) -> bool {
    t matches Tok::Group { delimiter, .. } && delimiter == d
}

pub open spec fn tok_span(t: Tok) -> Span {
    match t {
        Tok::Ident { span, .. } => span,
        Tok::Punct { span, .. } => span,
        Tok::Literal { span, .. } => span,
        Tok::Group { span, .. } => span,
        Tok::Source { .. } => Span::CallSite,
    }
}

// ---------------------------------------------------------------------------
// Construction
// ---------------------------------------------------------------------------
pub open spec fn src(text: Seq<char>) -> Tok {
    Tok::Source { text }
}

pub open spec fn group(d: Delimiter, stream: Seq<Tok>) -> Tok {
    Tok::Group { delimiter: d, stream, span: Span::CallSite }
}

/// A fragment of source text written by the macro.
pub fn source(text: &str) -> (t: TokenTree)
    ensures
        t@ == src(text@),
{
    TokenTree::Source { text: String::from_str(text) }
}

/// A group written by the macro around the given trees.
pub fn new_group(d: Delimiter, stream: Vec<TokenTree>) -> (t: TokenTree)
    ensures
        t@ == group(d, stream_view(stream)),
{
    TokenTree::Group { delimiter: d, stream, span: Span::CallSite }
}

impl TokenTree {
    /// A copy with the same view.
    pub fn copy(&self) -> (r: TokenTree)
        ensures
            r@ == self@,
        decreases self,
    {
        match self {
            TokenTree::Ident { name, span } => TokenTree::Ident { name: name.clone(), span: *span },
            TokenTree::Punct { ch, spacing, span } => TokenTree::Punct {
                ch: *ch,
                spacing: *spacing,
                span: *span,
            },
            TokenTree::Literal { text, span } => TokenTree::Literal {
                text: text.clone(),
                span: *span,
            },
            TokenTree::Group { delimiter, stream, span } => {
                let s = copy_trees(stream);
                TokenTree::Group { delimiter: *delimiter, stream: s, span: *span }
            },
            TokenTree::Source { text } => TokenTree::Source { text: text.clone() },
        }
    }
}

/// A copy of a sequence of trees, with the same view.
pub fn copy_trees(ts: &Vec<TokenTree>) -> (r: Vec<TokenTree>)
    ensures
        stream_view(r) == stream_view(*ts),
    decreases ts,
{
    let r = copy_range(ts, 0, ts.len());
    assert(ts@.subrange(0, ts@.len() as int) =~= ts@);
    r
}

/// A copy of `ts[lo..hi]`.
pub fn copy_range(ts: &Vec<TokenTree>, lo: usize, hi: usize) -> (r: Vec<TokenTree>)
    requires
        lo <= hi <= ts.len(),
    ensures
        stream_view(r) == trees_view(ts@.subrange(lo as int, hi as int)),
    decreases ts, 0nat,
{
    let mut r: Vec<TokenTree> = Vec::new();
    let mut i = lo;
    while i < hi
        invariant
            lo <= i <= hi <= ts.len(),
            r@.len() == i - lo,
            forall|k: int| 0 <= k < r@.len() ==> tree_view(#[trigger] r@[k]) == tree_view(ts@[lo + k]),
        decreases hi - i,
    {
        assert(decreases_to!(ts => ts@[i as int]));
        let c = ts[i].copy();
        r.push(c);
        i = i + 1;
    }
    proof {
        lemma_trees_view_ext(r@, ts@.subrange(lo as int, hi as int));
    }
    r
}

// ---------------------------------------------------------------------------
// Rendering as source text
// ---------------------------------------------------------------------------
/// The opening delimiter of a group.  An invisible group has none, but
/// where `marked` holds it is written as a parenthesis, which `syn` reads
/// as one grouped expression, as it reads an invisible group there.
pub open spec fn open_text(d: Delimiter, marked: bool) -> Seq<char> {
    match d {
        Delimiter::Parenthesis => seq!['('],
        Delimiter::Brace => seq!['{'],
        Delimiter::Bracket => seq!['['],
        Delimiter::Invisible => if marked {
            seq!['(']
        } else {
            Seq::empty()
        },
    }
}

pub open spec fn close_text(d: Delimiter, marked: bool) -> Seq<char> {
    match d {
        Delimiter::Parenthesis => seq![')'],
        Delimiter::Brace => seq!['}'],
        Delimiter::Bracket => seq![']'],
        Delimiter::Invisible => if marked {
            seq![')']
        } else {
            Seq::empty()
        },
    }
}

/// What separates a token from the next one: nothing after a joint
/// punctuation character, one space otherwise.
pub open spec fn separator(t: Tok) -> Seq<char> {
    if t matches Tok::Punct { spacing: Spacing::Joint, .. } {
        Seq::empty()
    } else {
        seq![' ']
    }
}

/// The source text of a token tree (see `open_text` for `marked`).
pub open spec fn render_tree(t: Tok, marked: bool) -> Seq<char>
    decreases t,
{
    match t {
        Tok::Ident { name, .. } => name,
        Tok::Punct { ch, .. } => seq![ch],
        Tok::Literal { text, .. } => text,
        Tok::Group { delimiter, stream, .. } => open_text(delimiter, marked) + render(stream, marked)
            + close_text(delimiter, marked),
        Tok::Source { text } => text,
    }
}

/// The source text of a sequence of token trees: each token followed by its
/// separator, but for the last one.
pub open spec fn render(ts: Seq<Tok>, marked: bool) -> Seq<char>
    decreases ts,
{
    if ts.len() == 0 {
        Seq::empty()
    } else if ts.len() == 1 {
        render_tree(ts[0], marked)
    } else {
        render_tree(ts[0], marked) + separator(ts[0]) + render(ts.drop_first(), marked)
    }
}

/// Appends `c` to `s` (`String::push`).
#[verifier::external_body]
pub(crate) fn push_char(s: &mut String, c: char)
    ensures
        final(s)@ == old(s)@.push(c),
{
    s.push(c)
}

fn push_text(out: &mut String, text: &String)
    ensures
        final(out)@ == old(out)@ + text@,
{
    out.append(text.as_str());
}

fn push_open(out: &mut String, d: Delimiter, marked: bool)
    ensures
        final(out)@ == old(out)@ + open_text(d, marked),
{
    match d {
        Delimiter::Parenthesis => push_char(out, '('),
        Delimiter::Brace => push_char(out, '{'),
        Delimiter::Bracket => push_char(out, '['),
        Delimiter::Invisible => {
            if marked {
                push_char(out, '(');
            } else {
                assert(old(out)@ + open_text(d, marked) =~= old(out)@);
            }
        },
    }
}

fn push_close(out: &mut String, d: Delimiter, marked: bool)
    ensures
        final(out)@ == old(out)@ + close_text(d, marked),
{
    match d {
        Delimiter::Parenthesis => push_char(out, ')'),
        Delimiter::Brace => push_char(out, '}'),
        Delimiter::Bracket => push_char(out, ']'),
        Delimiter::Invisible => {
            if marked {
                push_char(out, ')');
            } else {
                assert(old(out)@ + close_text(d, marked) =~= old(out)@);
            }
        },
    }
}

/// Appends the source text of `t` to `out`.
pub fn render_tree_into(t: &TokenTree, marked: bool, out: &mut String)
    ensures
        final(out)@ == old(out)@ + render_tree(t@, marked),
    decreases t,
{
    match t {
        TokenTree::Ident { name, .. } => push_text(out, name),
        TokenTree::Punct { ch, .. } => push_char(out, *ch),
        TokenTree::Literal { text, .. } => push_text(out, text),
        TokenTree::Group { delimiter, stream, .. } => {
            push_open(out, *delimiter, marked);
            render_range_into(stream, 0, marked, out);
            push_close(out, *delimiter, marked);
            assert(trees_view(stream@.subrange(0, stream@.len() as int)) == trees_view(stream@)) by {
                assert(stream@.subrange(0, stream@.len() as int) =~= stream@);
            }
        },
        TokenTree::Source { text } => push_text(out, text),
    }
}

/// Appends the source text of `ts[lo..]` to `out`.
pub fn render_range_into(ts: &Vec<TokenTree>, lo: usize, marked: bool, out: &mut String)
    requires
        lo <= ts.len(),
    ensures
        final(out)@ == old(out)@ + render(
            trees_view(ts@.subrange(lo as int, ts@.len() as int)),
            marked,
        ),
    decreases ts, ts.len() - lo,
{
    let ghost rest = ts@.subrange(lo as int, ts@.len() as int);
    if lo == ts.len() {
        assert(rest.len() == 0);
        assert(trees_view(rest) =~= Seq::<Tok>::empty());
        assert(old(out)@ + render(trees_view(rest), marked) =~= old(out)@);
        return ;
    }
    assert(decreases_to!(ts => ts@[lo as int]));
    proof {
        lemma_trees_view_len(rest);
        assert(rest[0] == ts@[lo as int]);
        assert(rest.drop_first() =~= ts@.subrange(lo + 1, ts@.len() as int));
    }
    render_tree_into(&ts[lo], marked, out);
    if lo + 1 < ts.len() {
        match &ts[lo] {
            TokenTree::Punct { spacing: Spacing::Joint, .. } => {},
            _ => push_char(out, ' '),
        }
        render_range_into(ts, lo + 1, marked, out);
        proof {
            lemma_trees_view_len(rest.drop_first());
            let v = trees_view(rest);
            assert(v[0] == tree_view(rest[0]));
            assert(v.drop_first() == trees_view(rest.drop_first()));
            assert(final(out)@ =~= old(out)@ + render(v, marked));
        }
    } else {
        proof {
            let v = trees_view(rest);
            assert(rest.drop_first().len() == 0);
            assert(v.len() == 1);
            assert(v[0] == tree_view(rest[0]));
        }
    }
}

/// The source text of a sequence of token trees, invisible groups left
/// unmarked.
pub fn render_trees(ts: &Vec<TokenTree>) -> (s: String)
    ensures
        s@ == render(stream_view(*ts), false),
{
    render_trees_marked(ts, false)
}

/// The source text of a sequence of token trees (see `open_text` for
/// `marked`).
pub fn render_trees_marked(ts: &Vec<TokenTree>, marked: bool) -> (s: String)
    ensures
        s@ == render(stream_view(*ts), marked),
{
    let mut out = String::new();
    render_range_into(ts, 0, marked, &mut out);
    assert(ts@.subrange(0, ts@.len() as int) =~= ts@);
    assert(out@ =~= render(stream_view(*ts), marked));
    out
}

} // verus!
