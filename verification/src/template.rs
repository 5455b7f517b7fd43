//! The code that every macro writes: the temporary path placed next to a file,
//! and the rename of that temporary file over its destination.
use crate::token::{
    group, lemma_trees_view_add, lemma_trees_view_push, new_group, source, src, stream_view,
    trees_view, Delimiter, Tok, TokenTree,
};
use vstd::prelude::*;

verus! {

// ---------------------------------------------------------------------------
// Appending to a token vector
// ---------------------------------------------------------------------------
/// Appends one tree.
pub fn push_tree(v: &mut Vec<TokenTree>, t: TokenTree)
    ensures
        stream_view(*final(v)) == stream_view(*old(v)).push(t@),
{
    proof {
        lemma_trees_view_push(v@, t);
    }
    v.push(t);
}

/// Appends a fragment of source text.
pub fn push_source(v: &mut Vec<TokenTree>, text: &str)
    ensures
        stream_view(*final(v)) == stream_view(*old(v)).push(src(text@)),
{
    push_tree(v, source(text));
}

/// Appends all trees of `w`.
pub fn push_all(v: &mut Vec<TokenTree>, w: Vec<TokenTree>)
    ensures
        stream_view(*final(v)) == stream_view(*old(v)) + stream_view(w),
{
    let mut w = w;
    proof {
        lemma_trees_view_add(v@, w@);
    }
    v.append(&mut w);
}

// ---------------------------------------------------------------------------
// The temporary path
// ---------------------------------------------------------------------------
/// The statements that open the block computing the temporary path, up to
/// the path expression.
pub open spec fn tmp_head() -> Seq<char> {
    "let __p: &::std::path::Path = ::std::convert::AsRef::<::std::path::Path>::as_ref"@
}

/// The rest of that block: the stem and extension of the path, its parent
/// directory (`.` where it has none), and `<dir>/<stem>.tmp.<ext>`.
pub open spec fn tmp_tail() -> Seq<char> {
    "; let __stem = __p.file_stem().unwrap_or_default().to_string_lossy(); let __ext = __p.extension().unwrap_or_default().to_string_lossy(); let __dir = __p.parent().unwrap_or_else(|| ::std::path::Path::new(\".\")); __dir.join(::std::format!(\"{}.tmp.{}\", __stem, __ext))"@
}

/// A block that evaluates to the temporary path for the path expression
/// `path`: a `PathBuf` named `<stem>.tmp.<ext>` in the directory of `path`.
pub open spec fn tmp_path_block(path: Seq<Tok>) -> Tok {
    group(
        Delimiter::Brace,
        seq![src(tmp_head()), group(Delimiter::Parenthesis, path), src(tmp_tail())],
    )
}

/// `let <binding>: ::std::path::PathBuf = <tmp_path_block(path)>;`
pub open spec fn tmp_path_decl(binding: Tok, path: Seq<Tok>) -> Seq<Tok> {
    seq![
        src("let"@),
        binding,
        src(": ::std::path::PathBuf ="@),
        tmp_path_block(path),
        src(";"@),
    ]
}

/// `::std::fs::rename(&<tmp>, <dest>)`
pub open spec fn rename_call(tmp: Seq<Tok>, dest: Seq<Tok>) -> Seq<Tok> {
    seq![
        src("::std::fs::rename"@),
        group(Delimiter::Parenthesis, seq![src("&"@)] + tmp + seq![src(","@)] + dest),
    ]
}

/// `::std::fs::rename(&<tmp>, <dest>)?;`: the rename, whose error is handed
/// to the caller.
pub open spec fn rename_stmt(tmp: Seq<Tok>, dest: Seq<Tok>) -> Seq<Tok> {
    rename_call(tmp, dest) + seq![src("?;"@)]
}

pub fn make_tmp_path_block(path: Vec<TokenTree>) -> (t: TokenTree)
    ensures
        t@ == tmp_path_block(stream_view(path)),
{
    let mut inner: Vec<TokenTree> = Vec::new();
    push_source(&mut inner, "let __p: &::std::path::Path = ::std::convert::AsRef::<::std::path::Path>::as_ref");
    push_tree(&mut inner, new_group(Delimiter::Parenthesis, path));
    push_source(&mut inner, "; let __stem = __p.file_stem().unwrap_or_default().to_string_lossy(); let __ext = __p.extension().unwrap_or_default().to_string_lossy(); let __dir = __p.parent().unwrap_or_else(|| ::std::path::Path::new(\".\")); __dir.join(::std::format!(\"{}.tmp.{}\", __stem, __ext))");
    proof {
        assert(trees_view(Seq::<TokenTree>::empty()) =~= Seq::<Tok>::empty());
        assert(stream_view(inner) =~= seq![
            src(tmp_head()),
            group(Delimiter::Parenthesis, stream_view(path)),
            src(tmp_tail()),
        ]);
    }
    new_group(Delimiter::Brace, inner)
}

/// Appends `let <binding>: ::std::path::PathBuf = <tmp_path_block(path)>;`.
pub fn push_tmp_path_decl(out: &mut Vec<TokenTree>, binding: TokenTree, path: Vec<TokenTree>)
    ensures
        stream_view(*final(out)) == stream_view(*old(out)) + tmp_path_decl(
            binding@,
            stream_view(path),
        ),
{
    let ghost b = binding@;
    let ghost p = stream_view(path);
    push_source(out, "let");
    push_tree(out, binding);
    push_source(out, ": ::std::path::PathBuf =");
    push_tree(out, make_tmp_path_block(path));
    push_source(out, ";");
    assert(stream_view(*out) =~= stream_view(*old(out)) + tmp_path_decl(b, p));
}

/// Appends `::std::fs::rename(&<tmp>, <dest>)`.
pub fn push_rename_call(out: &mut Vec<TokenTree>, tmp: Vec<TokenTree>, dest: Vec<TokenTree>)
    ensures
        stream_view(*final(out)) == stream_view(*old(out)) + rename_call(
            stream_view(tmp),
            stream_view(dest),
        ),
{
    let ghost t = stream_view(tmp);
    let ghost d = stream_view(dest);
    let mut args: Vec<TokenTree> = Vec::new();
    proof {
        assert(trees_view(Seq::<TokenTree>::empty()) =~= Seq::<Tok>::empty());
    }
    push_source(&mut args, "&");
    push_all(&mut args, tmp);
    push_source(&mut args, ",");
    push_all(&mut args, dest);
    assert(stream_view(args) =~= seq![src("&"@)] + t + seq![src(","@)] + d);
    push_source(out, "::std::fs::rename");
    push_tree(out, new_group(Delimiter::Parenthesis, args));
    assert(stream_view(*out) =~= stream_view(*old(out)) + rename_call(t, d));
}

} // verus!
