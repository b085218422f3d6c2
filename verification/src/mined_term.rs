use vstd::prelude::*;
use crate::simple_token::{token_views, SimpleToken};
use crate::term_id::TermId;
use crate::text::TokenModel;

verus! {

/// The mathematical content of one mention: the spanned tokens, the resolved
/// concept identifier, the character span, the verbatim matched substring,
/// and the observation flag.
pub struct MinedTermModel {
    pub tokens: Seq<TokenModel>,
    pub term_id: Seq<char>,
    pub start: int,
    pub end: int,
    pub matching: Seq<char>,
    pub observed: bool,
}

/// A located, identified occurrence of a concept in the source text. It owns
/// the tokens it spans, the resolved concept identifier, the inclusive start
/// and exclusive end character offsets, the verbatim matched substring, and
/// whether the concept is asserted (`true`) or explicitly negated (`false`).
#[derive(Debug)]
pub struct MinedTerm {
    tokens: Vec<SimpleToken>,
    term_id: TermId,
    start_pos: usize,
    end_pos: usize,
    matching_string: String,
    is_observed: bool,
}

impl View for MinedTerm {
    type V = MinedTermModel;

    closed spec fn view(&self) -> MinedTermModel {
        MinedTermModel {
            tokens: token_views(self.tokens@),
            term_id: self.term_id@,
            start: self.start_pos as int,
            end: self.end_pos as int,
            matching: self.matching_string@,
            observed: self.is_observed,
        }
    }
}

/// The models of a mention sequence.
pub open spec fn mined_views(s: Seq<MinedTerm>) -> Seq<MinedTermModel> {
    s.map_values(|m: MinedTerm| m@)
}

impl MinedTerm {
    /// Assemble a mention from its parts. This performs no matching logic;
    /// it only records what the matcher found.
    pub fn new(
        tokens: Vec<SimpleToken>,
        tid: TermId,
        start: usize,
        end: usize,
        matching: &str,
        observed: bool,
    ) -> (r: Self)
        ensures
            r@ == (MinedTermModel {
                tokens: token_views(tokens@),
                term_id: tid@,
                start: start as int,
                end: end as int,
                matching: matching@,
                observed: observed,
            }),
    {
        MinedTerm {
            tokens,
            term_id: tid,
            start_pos: start,
            end_pos: end,
            matching_string: matching.to_owned(),
            is_observed: observed,
        }
    }

    /// The tokens the mention spans, in source order.
    pub fn get_tokens(&self) -> (r: &Vec<SimpleToken>)
        ensures
            token_views(r@) == self@.tokens,
    {
        &self.tokens
    }

    /// The resolved concept identifier.
    pub fn term_id(&self) -> (r: &TermId)
        ensures
            r@ == self@.term_id,
    {
        &self.term_id
    }

    /// The inclusive start character offset in the source text.
    pub fn start_pos(&self) -> (r: usize)
        ensures
            r as int == self@.start,
    {
        self.start_pos
    }

    /// The exclusive end character offset in the source text.
    pub fn end_pos(&self) -> (r: usize)
        ensures
            r as int == self@.end,
    {
        self.end_pos
    }

    /// The verbatim matched substring of the source text.
    pub fn matching_string(&self) -> (r: &str)
        ensures
            r@ == self@.matching,
    {
        self.matching_string.as_str()
    }

    /// Whether the concept is asserted present rather than negated.
    pub fn is_observed(&self) -> (r: bool)
        ensures
            r == self@.observed,
    {
        self.is_observed
    }
}

} // verus!
