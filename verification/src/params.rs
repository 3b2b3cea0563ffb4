//! Handing bound values to the storage engine in the form it takes them.

use vstd::prelude::*;
use rusqlite::types::ToSqlOutput;

verus! {

/// `ToSqlOutput` of `rusqlite`: a value in the form in which the engine
/// binds it to a placeholder. Nothing is known here of what is inside one.
#[verifier::external_type_specification]
#[verifier::external_body]
pub struct ExToSqlOutput<'a>(ToSqlOutput<'a>);

/// The engine's value for a text parameter.
pub uninterp spec fn text_param(text: Seq<char>) -> ToSqlOutput<'static>;

/// Calls `ToSqlOutput::from` of `rusqlite` on a `String`: the result is the
/// owned text value that holds `text`, and depends on nothing but `text`.
#[verifier::external_body]
fn bind_text(text: String) -> (param: ToSqlOutput<'static>)
    ensures
        param == text_param(text@),
{
    ToSqlOutput::from(text)
}

/// The texts of a list of strings.
pub open spec fn texts(strings: Seq<String>) -> Seq<Seq<char>> {
    strings.map_values(|s: String| s@)
}

/// The engine's values for a list of text parameters.
pub open spec fn text_params(texts: Seq<Seq<char>>) -> Seq<ToSqlOutput<'static>> {
    texts.map_values(|t: Seq<char>| text_param(t))
}

/// Turns each text into the engine's value for it, in order.
pub fn bind_args(args: Vec<String>) -> (params: Vec<ToSqlOutput<'static>>)
    ensures
        params@ == text_params(texts(args@)),
{
    let mut params: Vec<ToSqlOutput<'static>> = Vec::new();
    let ghost all = args@;
    for text in it: args
        invariant
            it.seq() == all,
            params@ == text_params(texts(all.take(it.index() as int))),
    {
        params.push(bind_text(text));
    }
    params
}

} // verus!
