//! In-place file editing macros: the verified core.
//!
//! The macros `#[auto_rename(..)]`, `sponge!(..)` and `in_place!(..)` rewrite a
//! call or a function so that its output is first written to a temporary file
//! next to the original, and the temporary file is renamed over the original
//! only once the work has succeeded.  This crate holds what the macros decide:
//! the grammar of their arguments and the code they emit, over a plain model of
//! Rust token trees.  The procedural-macro glue that converts compiler tokens
//! to and from this model lives outside the verified library.
pub mod token;
pub mod syntax;
pub mod template;
pub mod rename;
pub mod auto_rename;
pub mod sponge;
pub mod in_place;

use crate::syntax::{Failure, ParseError};
use crate::token::{stream_view, Tok, TokenTree};
use vstd::prelude::*;

verus! {

/// The view of a macro's result: the tokens it writes, or its error.
pub open spec fn output_view(r: Result<Vec<TokenTree>, ParseError>) -> Result<Seq<Tok>, Failure> {
    match r {
        Ok(v) => Ok(stream_view(v)),
        Err(e) => Err(e@),
    }
}

/// `#[auto_rename(<clauses>)]` on the function `item`: the rewritten
/// function, or the first error in the function or in the clauses.
pub fn auto_rename(attr: &Vec<TokenTree>, item: &Vec<TokenTree>) -> (r: Result<
    Vec<TokenTree>,
    ParseError,
>)
    ensures
        output_view(r) == match auto_rename::parse_spec(stream_view(*attr), stream_view(*item)) {
            Ok((rs, sig, body)) => Ok(auto_rename::expand(rs, sig, body)),
            Err(e) => Err::<Seq<Tok>, Failure>(e),
        },
{
    match auto_rename::parse(attr, item) {
        Ok(ir) => Ok(auto_rename::codegen(ir)),
        Err(e) => Err(e),
    }
}

/// `sponge!(<input>)`: the block that makes the call with its redirected
/// arguments, or the first error in the input.
pub fn sponge(input: &Vec<TokenTree>) -> (r: Result<Vec<TokenTree>, ParseError>)
    ensures
        output_view(r) == match sponge::sponge_call(stream_view(*input)) {
            Ok(c) => Ok(sponge::expand(c)),
            Err(e) => Err::<Seq<Tok>, Failure>(e),
        },
{
    match sponge::parse(input) {
        Ok(c) => Ok(sponge::codegen(c)),
        Err(e) => Err(e),
    }
}

/// `in_place!(<input>)`: the block that declares the files, makes the call
/// and renames the temporary files, or the first error in the input.
pub fn in_place(input: &Vec<TokenTree>) -> (r: Result<Vec<TokenTree>, ParseError>)
    ensures
        output_view(r) == match in_place::parse_spec(stream_view(*input)) {
            Ok(a) => Ok(in_place::expand(a)),
            Err(e) => Err::<Seq<Tok>, Failure>(e),
        },
{
    match in_place::parse(input) {
        Ok(a) => Ok(in_place::codegen(a)),
        Err(e) => Err(e),
    }
}

} // verus!
