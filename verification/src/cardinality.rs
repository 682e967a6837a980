//! Cardinality tokens of relation lines and their resolution into
//! structured relation endpoints.

use vstd::prelude::*;

use crate::text::str_chars;
use crate::text::chars_eq;

verus! {

/// The finer classification of a "many" endpoint.  It is carried but the
/// parser's behaviour only depends on the zero/one/many distinction.
#[derive(Debug, Clone, Copy, PartialEq, Eq, Structural)]
pub enum ManyKind {
    UNKNOWN,
    ZERO_TO_MANY,
    ONE_TO_MANY,
    ZERO_TO_ONE,
}

/// One side of a relation line's cardinality.
#[derive(Debug, Clone, Copy, PartialEq, Eq, Structural)]
pub enum RelationEndpoint {
    ZERO,
    ONE,
    MANY(ManyKind),
}

/// What `convert_cardinality` returns for each recognized token; any other
/// token resolves to nothing.  Tokens reach the resolver upper-cased.
pub open spec fn spec_resolve(tok: Seq<char>) -> Option<RelationEndpoint> {
    if tok == "0"@ {
        Some(RelationEndpoint::ZERO)
    } else if tok == "1"@ {
        Some(RelationEndpoint::ONE)
    } else if tok == "N"@ || tok == "M"@ {
        Some(RelationEndpoint::MANY(ManyKind::UNKNOWN))
    } else if tok == "0..N"@ || tok == "0..M"@ {
        Some(RelationEndpoint::MANY(ManyKind::ZERO_TO_MANY))
    } else if tok == "1..N"@ || tok == "1..M"@ {
        Some(RelationEndpoint::MANY(ManyKind::ONE_TO_MANY))
    } else if tok == "0..1"@ {
        Some(RelationEndpoint::MANY(ManyKind::ZERO_TO_ONE))
    } else {
        None
    }
}

/// Whether an endpoint counts as "many" for the relation rules.
pub open spec fn spec_is_many(e: RelationEndpoint) -> bool {
    e is MANY
}

impl RelationEndpoint {
    pub fn is_many(&self) -> (r: bool)
        ensures
            r == spec_is_many(*self),
    {
        match self {
            RelationEndpoint::MANY(_) => true,
            _ => false,
        }
    }
}

/// Maps a cardinality token to its structured endpoint, or to `None` when
/// the token is not a recognized cardinality form.
pub fn convert_cardinality(one_endian: &str) -> (r: Option<RelationEndpoint>)
    ensures
        r == spec_resolve(one_endian@),
{
    let t = str_chars(one_endian);
    if chars_eq(&t, &str_chars("0")) {
        Some(RelationEndpoint::ZERO)
    } else if chars_eq(&t, &str_chars("1")) {
        Some(RelationEndpoint::ONE)
    } else if chars_eq(&t, &str_chars("N")) || chars_eq(&t, &str_chars("M")) {
        Some(RelationEndpoint::MANY(ManyKind::UNKNOWN))
    } else if chars_eq(&t, &str_chars("0..N")) || chars_eq(&t, &str_chars("0..M")) {
        Some(RelationEndpoint::MANY(ManyKind::ZERO_TO_MANY))
    } else if chars_eq(&t, &str_chars("1..N")) || chars_eq(&t, &str_chars("1..M")) {
        Some(RelationEndpoint::MANY(ManyKind::ONE_TO_MANY))
    } else if chars_eq(&t, &str_chars("0..1")) {
        Some(RelationEndpoint::MANY(ManyKind::ZERO_TO_ONE))
    } else {
        None
    }
}

/// The resolver on an already tokenized character vector; used by the
/// relation parser, which holds its tokens as character vectors.
pub(crate) fn resolve_token(tok: &Vec<char>) -> (r: Option<RelationEndpoint>)
    ensures
        r == spec_resolve(tok@),
{
    if chars_eq(tok, &str_chars("0")) {
        Some(RelationEndpoint::ZERO)
    } else if chars_eq(tok, &str_chars("1")) {
        Some(RelationEndpoint::ONE)
    } else if chars_eq(tok, &str_chars("N")) || chars_eq(tok, &str_chars("M")) {
        Some(RelationEndpoint::MANY(ManyKind::UNKNOWN))
    } else if chars_eq(tok, &str_chars("0..N")) || chars_eq(tok, &str_chars("0..M")) {
        Some(RelationEndpoint::MANY(ManyKind::ZERO_TO_MANY))
    } else if chars_eq(tok, &str_chars("1..N")) || chars_eq(tok, &str_chars("1..M")) {
        Some(RelationEndpoint::MANY(ManyKind::ONE_TO_MANY))
    } else if chars_eq(tok, &str_chars("0..1")) {
        Some(RelationEndpoint::MANY(ManyKind::ZERO_TO_ONE))
    } else {
        None
    }
}

} // verus!
