use vstd::prelude::*;
use crate::simple_token::{token_views, SimpleToken};
use crate::text::{
    is_sentence_end, is_separator, is_separator_exec, lemma_run_end, lemma_tokens_in_well_formed,
    run_end, spec_tokens_in, token_model_at, tokens_well_formed, TokenModel,
};

verus! {

/// The index of the first sentence-ending character at or after `i`, or the
/// text length when there is none.
pub open spec fn sentence_end(text: Seq<char>, i: int) -> int
    decreases text.len() - i,
{
    if i < 0 || i >= text.len() {
        text.len() as int
    } else if is_sentence_end(text[i]) {
        i
    } else {
        sentence_end(text, i + 1)
    }
}

/// The sentences of `text` from `i` on: each segment up to the next
/// sentence-ending character, given as its token sequence.
pub open spec fn spec_sentences(text: Seq<char>, i: int) -> Seq<Seq<TokenModel>>
    decreases text.len() - i,
{
    if i < 0 || i >= text.len() {
        Seq::empty()
    } else {
        let e = sentence_end(text, i);
        if i <= e && e < text.len() {
            seq![spec_tokens_in(text, i, e)] + spec_sentences(text, e + 1)
        } else {
            seq![spec_tokens_in(text, i, text.len() as int)]
        }
    }
}

/// `sentence_end` stays within `[i, text.len()]`.
pub proof fn lemma_sentence_end(text: Seq<char>, i: int)
    requires
        0 <= i <= text.len(),
    ensures
        i <= sentence_end(text, i) <= text.len(),
    decreases text.len() - i,
{
    if i < text.len() && !is_sentence_end(text[i]) {
        lemma_sentence_end(text, i + 1);
    }
}

/// Every sentence that the splitter yields carries well-formed tokens.
pub proof fn lemma_sentences_well_formed(text: Seq<char>, i: int)
    requires
        0 <= i <= text.len(),
    ensures
        forall|s: int|
            0 <= s < spec_sentences(text, i).len() ==> tokens_well_formed(
                #[trigger] spec_sentences(text, i)[s],
                text.len() as int,
            ),
    decreases text.len() - i,
{
    if i < text.len() {
        let e = sentence_end(text, i);
        lemma_sentence_end(text, i);
        if e < text.len() {
            lemma_tokens_in_well_formed(text, i, e);
            lemma_sentences_well_formed(text, e + 1);
            let rest = spec_sentences(text, e + 1);
            let all = spec_sentences(text, i);
            assert forall|s: int| 0 <= s < all.len() implies tokens_well_formed(
                #[trigger] all[s],
                text.len() as int,
            ) by {
                if s > 0 {
                    assert(all[s] == rest[s - 1]);
                }
            }
        } else {
            lemma_tokens_in_well_formed(text, i, text.len() as int);
        }
    }
}

/// One sentence of a document: an ordered run of tokens.
#[derive(Debug)]
pub struct Sentence {
    tokens: Vec<SimpleToken>,
}

impl View for Sentence {
    type V = Seq<TokenModel>;

    closed spec fn view(&self) -> Seq<TokenModel> {
        token_views(self.tokens@)
    }
}

impl Sentence {
    /// Wrap an ordered run of tokens as a sentence.
    pub fn new(tokens: Vec<SimpleToken>) -> (r: Self)
        ensures
            r@ == token_views(tokens@),
    {
        Sentence { tokens }
    }

    /// The tokens of the sentence, in order.
    pub fn get_tokens(&self) -> (r: &Vec<SimpleToken>)
        ensures
            token_views(r@) == self@,
    {
        &self.tokens
    }
}

/// The models of a sentence sequence.
pub open spec fn sentence_views(s: Seq<Sentence>) -> Seq<Seq<TokenModel>> {
    s.map_values(|x: Sentence| x@)
}

/// A text split into sentences of tokens, each token carrying its character
/// span in the original text.
#[derive(Debug)]
pub struct CoreDocument {
    sentences: Vec<Sentence>,
}

impl View for CoreDocument {
    type V = Seq<Seq<TokenModel>>;

    closed spec fn view(&self) -> Seq<Seq<TokenModel>> {
        sentence_views(self.sentences@)
    }
}

/// Produce the tokens of `s[from..end)`: each maximal run of non-separator
/// characters, with its span and case-folded form.
pub fn tokenize_range(s: &str, from: usize, end: usize) -> (r: Vec<SimpleToken>)
    requires
        from <= end <= s@.len(),
    ensures
        token_views(r@) == spec_tokens_in(s@, from as int, end as int),
{
    let mut r: Vec<SimpleToken> = Vec::new();
    let mut i: usize = from;
    while i < end
        invariant
            from <= i <= end <= s@.len(),
            spec_tokens_in(s@, from as int, end as int) == token_views(r@) + spec_tokens_in(
                s@,
                i as int,
                end as int,
            ),
        decreases end - i,
    {
        let ghost prev = r@;
        let ghost i0 = i as int;
        let c = s.get_char(i);
        if is_separator_exec(c) {
            i += 1;
            proof {
                assert(spec_tokens_in(s@, i0, end as int) == spec_tokens_in(
                    s@,
                    i0 + 1,
                    end as int,
                ));
            }
        } else {
            let j = crate::text::find_run_end(s, i, end);
            proof {
                lemma_run_end(s@, i0, end as int);
                if j as int == i0 {
                    assert(run_end(s@, i0, end as int) < end as int ==> is_separator(s@[i0]));
                    assert(false);
                }
            }
            let tok = SimpleToken::new(s.substring_char(i, j), i, j);
            proof {
                assert(tok@ == token_model_at(s@, i0, j as int));
            }
            r.push(tok);
            i = j;
            proof {
                assert(spec_tokens_in(s@, i0, end as int) == seq![token_model_at(s@, i0, j as int)]
                    + spec_tokens_in(s@, j as int, end as int));
                assert(token_views(r@) =~= token_views(prev) + seq![tok@]);
                assert(token_views(r@) + spec_tokens_in(s@, j as int, end as int) =~= token_views(
                    prev,
                ) + spec_tokens_in(s@, i0, end as int));
            }
        }
    }
    proof {
        assert(spec_tokens_in(s@, i as int, end as int) =~= Seq::<TokenModel>::empty());
        assert(token_views(r@) =~= spec_tokens_in(s@, from as int, end as int));
    }
    r
}

/// Normalize a phrase: split it into tokens and keep each token's case-folded
/// form.
pub fn norm_words(s: &str) -> (r: Vec<Vec<char>>)
    ensures
        crate::text::char_seqs(r@) == crate::text::norm_phrase(s@),
{
    let n = s.unicode_len();
    let toks = tokenize_range(s, 0, n);
    let mut r: Vec<Vec<char>> = Vec::new();
    let mut i: usize = 0;
    while i < toks.len()
        invariant
            i <= toks@.len(),
            token_views(toks@) == spec_tokens_in(s@, 0, s@.len() as int),
            r@.len() == i as int,
            forall|k: int| 0 <= k < i as int ==> r@[k]@ == token_views(toks@)[k].norm,
        decreases toks@.len() - i,
    {
        r.push(crate::text::clone_char_vec(toks[i].norm()));
        i += 1;
    }
    proof {
        assert(crate::text::char_seqs(r@) =~= crate::text::norm_phrase(s@));
    }
    r
}

/// Find the first sentence-ending character at or after `i`: the exec
/// counterpart of `sentence_end`.
fn find_sentence_end(s: &str, i: usize) -> (r: usize)
    requires
        i <= s@.len(),
    ensures
        r as int == sentence_end(s@, i as int),
        i <= r <= s@.len(),
{
    let n = s.unicode_len();
    let mut j: usize = i;
    while j < n
        invariant
            i <= j <= n,
            n == s@.len(),
            sentence_end(s@, i as int) == sentence_end(s@, j as int),
        decreases n - j,
    {
        if crate::text::is_sentence_end_exec(s.get_char(j)) {
            proof {
                assert(sentence_end(s@, j as int) == j as int);
            }
            return j;
        }
        j += 1;
    }
    proof {
        assert(sentence_end(s@, j as int) == s@.len() as int);
    }
    j
}

impl CoreDocument {
    /// Split a text into sentences of tokens. Sentences end at `.`, `!` or
    /// `?`; tokens are the maximal runs of non-separator characters, and every
    /// token carries its character span in `text`.
    pub fn new(text: &str) -> (r: Self)
        ensures
            r@ == spec_sentences(text@, 0),
    {
        let n = text.unicode_len();
        let mut sentences: Vec<Sentence> = Vec::new();
        let mut i: usize = 0;
        while i < n
            invariant
                i <= n,
                n == text@.len(),
                spec_sentences(text@, 0) == sentence_views(sentences@) + spec_sentences(
                    text@,
                    i as int,
                ),
            decreases n - i,
        {
            let ghost prev = sentences@;
            let ghost i0 = i as int;
            let e = find_sentence_end(text, i);
            let toks = tokenize_range(text, i, if e < n {
                e
            } else {
                n
            });
            let sent = Sentence::new(toks);
            sentences.push(sent);
            proof {
                assert(sentence_views(sentences@) =~= sentence_views(prev) + seq![sent@]);
            }
            if e < n {
                proof {
                    assert(spec_sentences(text@, i0) == seq![spec_tokens_in(text@, i0, e as int)]
                        + spec_sentences(text@, e as int + 1));
                    assert(sentence_views(sentences@) + spec_sentences(text@, e as int + 1)
                        =~= sentence_views(prev) + spec_sentences(text@, i0));
                }
                i = e + 1;
            } else {
                proof {
                    assert(spec_sentences(text@, i0) == seq![spec_tokens_in(
                        text@,
                        i0,
                        text@.len() as int,
                    )]);
                    assert(sentence_views(sentences@) =~= sentence_views(prev) + spec_sentences(
                        text@,
                        i0,
                    ));
                    assert(spec_sentences(text@, n as int) =~= Seq::<Seq<TokenModel>>::empty());
                }
                i = n;
            }
        }
        proof {
            assert(spec_sentences(text@, i as int) =~= Seq::<Seq<TokenModel>>::empty());
            assert(sentence_views(sentences@) =~= spec_sentences(text@, 0));
        }
        CoreDocument { sentences }
    }

    /// The sentences of the document, in order.
    pub fn get_sentences(&self) -> (r: &Vec<Sentence>)
        ensures
            sentence_views(r@) == self@,
    {
        &self.sentences
    }
}

} // verus!
