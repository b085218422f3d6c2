use vstd::prelude::*;
use crate::text::{lower, lower_str, TokenModel};

verus! {

/// A minimal lexical unit: the exact surface text, its case-folded comparison
/// form, and its start and end character offsets in the source text.
#[derive(Debug)]
pub struct SimpleToken {
    token: String,
    norm: Vec<char>,
    start_pos: usize,
    end_pos: usize,
}

impl View for SimpleToken {
    type V = TokenModel;

    closed spec fn view(&self) -> TokenModel {
        TokenModel {
            text: self.token@,
            norm: self.norm@,
            start: self.start_pos as int,
            end: self.end_pos as int,
        }
    }
}

/// The models of a token sequence.
pub open spec fn token_views(s: Seq<SimpleToken>) -> Seq<TokenModel> {
    s.map_values(|t: SimpleToken| t@)
}

impl SimpleToken {
    /// Build a token from its surface text and its character span; the
    /// comparison form is the case-folded surface text.
    pub fn new(token: &str, start_pos: usize, end_pos: usize) -> (r: Self)
        ensures
            r@ == (TokenModel {
                text: token@,
                norm: lower(token@),
                start: start_pos as int,
                end: end_pos as int,
            }),
    {
        SimpleToken { token: token.to_owned(), norm: lower_str(token), start_pos, end_pos }
    }

    /// The exact surface text.
    pub fn token(&self) -> (r: &str)
        ensures
            r@ == self@.text,
    {
        self.token.as_str()
    }

    /// The case-folded comparison form.
    pub fn norm(&self) -> (r: &Vec<char>)
        ensures
            r@ == self@.norm,
    {
        &self.norm
    }

    /// The start character offset in the source text.
    pub fn start_pos(&self) -> (r: usize)
        ensures
            r as int == self@.start,
    {
        self.start_pos
    }

    /// The end character offset in the source text.
    pub fn end_pos(&self) -> (r: usize)
        ensures
            r as int == self@.end,
    {
        self.end_pos
    }
}

impl Clone for SimpleToken {
    fn clone(&self) -> (r: Self)
        ensures
            r@ == self@,
    {
        SimpleToken {
            token: self.token.clone(),
            norm: crate::text::clone_char_vec(&self.norm),
            start_pos: self.start_pos,
            end_pos: self.end_pos,
        }
    }
}

} // verus!
