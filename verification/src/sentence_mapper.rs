use vstd::prelude::*;
use crate::default_hpo_mapper::{DefaultHpoMapper, LexModel};
use crate::mined_term::{mined_views, MinedTerm, MinedTermModel};
use crate::simple_token::{token_views, SimpleToken};
use crate::term_id::TermId;
use crate::text::{
    char_seqs, chars_eq, lemma_wf_order, lower, lower_str, phrase_at, tokens_well_formed,
    TokenModel,
};

verus! {

/// Why mapping one sentence failed.
#[derive(Debug, Clone, Copy, PartialEq, Eq, Structural)]
pub enum MappingError {
    /// The token spans are not monotonically increasing within the text.
    MalformedTokenSpans,
}

/// How many tokens immediately before a match are searched for a negation
/// cue when no other window is configured.
pub const DEFAULT_NEGATION_WINDOW: usize = 2;

/// The negation cues used when no other cue set is configured.
pub open spec fn default_negation_cues() -> Seq<Seq<char>> {
    seq![
        lower("no"@),
        lower("not"@),
        lower("without"@),
        lower("denies"@),
        lower("denied"@),
        lower("excluded"@),
    ]
}

/// The first token position of the negation window that precedes `pos`.
pub open spec fn window_start(pos: int, window: int) -> int {
    if pos >= window {
        pos - window
    } else {
        0
    }
}

/// Whether a match at token position `pos` counts as observed: no token in
/// the window immediately before it carries a negation cue as its
/// case-folded form.
pub open spec fn observed_at(
    cues: Seq<Seq<char>>,
    toks: Seq<TokenModel>,
    pos: int,
    window: int,
) -> bool {
    forall|j: int| window_start(pos, window) <= j < pos ==> !cues.contains(#[trigger] toks[j].norm)
}

/// The length of the longest phrase in the table that matches the tokens
/// starting at `i`, trying lengths from `cap` down; `0` when none matches.
pub open spec fn longest_hit(
    lex: Map<Seq<Seq<char>>, Seq<char>>,
    toks: Seq<TokenModel>,
    i: int,
    cap: int,
) -> int
    decreases cap,
{
    if cap <= 0 {
        0
    } else if lex.contains_key(phrase_at(toks, i, cap)) {
        cap
    } else {
        longest_hit(lex, toks, i, cap - 1)
    }
}

/// `longest_hit` yields a length within `[0, cap]`; a positive length is a
/// hit, and no greater length up to `cap` is one.
pub proof fn lemma_longest_hit(
    lex: Map<Seq<Seq<char>>, Seq<char>>,
    toks: Seq<TokenModel>,
    i: int,
    cap: int,
)
    ensures
        0 <= longest_hit(lex, toks, i, cap),
        longest_hit(lex, toks, i, cap) <= (if cap > 0 {
            cap
        } else {
            0
        }),
        longest_hit(lex, toks, i, cap) > 0 ==> lex.contains_key(
            phrase_at(toks, i, longest_hit(lex, toks, i, cap)),
        ),
        forall|l: int|
            longest_hit(lex, toks, i, cap) < l <= cap ==> !lex.contains_key(
                #[trigger] phrase_at(toks, i, l),
            ),
    decreases cap,
{
    if cap > 0 && !lex.contains_key(phrase_at(toks, i, cap)) {
        lemma_longest_hit(lex, toks, i, cap - 1);
    }
}

/// The mention that a match of `l` tokens at position `i` denotes.
pub open spec fn mention_at(
    lex: Map<Seq<Seq<char>>, Seq<char>>,
    cues: Seq<Seq<char>>,
    window: int,
    toks: Seq<TokenModel>,
    text: Seq<char>,
    i: int,
    l: int,
) -> MinedTermModel {
    MinedTermModel {
        tokens: toks.subrange(i, i + l),
        term_id: lex[phrase_at(toks, i, l)],
        start: toks[i].start,
        end: toks[i + l - 1].end,
        matching: text.subrange(toks[i].start, toks[i + l - 1].end),
        observed: observed_at(cues, toks, i, window),
    }
}

/// Greedy longest-match, left to right: at each position the longest phrase
/// in the table wins and the cursor jumps past it; where nothing matches the
/// cursor advances one token.
pub open spec fn spec_mine(
    lex: Map<Seq<Seq<char>>, Seq<char>>,
    maxlen: int,
    cues: Seq<Seq<char>>,
    window: int,
    toks: Seq<TokenModel>,
    text: Seq<char>,
    i: int,
) -> Seq<MinedTermModel>
    decreases toks.len() - i,
{
    if i < 0 || i >= toks.len() {
        Seq::empty()
    } else {
        let rem = toks.len() - i;
        let cap = if maxlen < rem {
            maxlen
        } else {
            rem
        };
        let l = longest_hit(lex, toks, i, cap);
        if l <= 0 {
            spec_mine(lex, maxlen, cues, window, toks, text, i + 1)
        } else if l > rem {
            Seq::empty()
        } else {
            seq![mention_at(lex, cues, window, toks, text, i, l)] + spec_mine(
                lex,
                maxlen,
                cues,
                window,
                toks,
                text,
                i + l,
            )
        }
    }
}

/// The span matcher: one immutable lexicon together with the negation-cue
/// configuration, applied to one sentence at a time.
#[derive(Debug)]
pub struct SentenceMapper {
    mapper: DefaultHpoMapper,
    neg_cues: Vec<Vec<char>>,
    neg_window: usize,
}

impl SentenceMapper {
    /// Internal consistency of the underlying lexicon.
    pub closed spec fn wf(&self) -> bool {
        self.mapper.wf()
    }

    /// The lexicon model.
    pub closed spec fn lexicon(&self) -> LexModel {
        self.mapper@
    }

    /// The configured negation cues, case-folded.
    pub closed spec fn cues(&self) -> Seq<Seq<char>> {
        char_seqs(self.neg_cues@)
    }

    /// The configured negation window, in tokens.
    pub closed spec fn window(&self) -> int {
        self.neg_window as int
    }

    /// Wrap a lexicon with the default negation configuration.
    pub fn new(mapper: DefaultHpoMapper) -> (r: Self)
        requires
            mapper.wf(),
        ensures
            r.wf(),
            r.lexicon() == mapper@,
            r.cues() == default_negation_cues(),
            r.window() == DEFAULT_NEGATION_WINDOW as int,
    {
        let mut cues: Vec<Vec<char>> = Vec::new();
        cues.push(lower_str("no"));
        cues.push(lower_str("not"));
        cues.push(lower_str("without"));
        cues.push(lower_str("denies"));
        cues.push(lower_str("denied"));
        cues.push(lower_str("excluded"));
        proof {
            assert(char_seqs(cues@) =~= default_negation_cues());
        }
        SentenceMapper { mapper, neg_cues: cues, neg_window: DEFAULT_NEGATION_WINDOW }
    }

    /// Wrap a lexicon with an explicit negation-cue set and window; each cue
    /// is case-folded, so the configuration matches the way tokens compare.
    pub fn with_negation(mapper: DefaultHpoMapper, cues: &Vec<String>, window: usize) -> (r: Self)
        requires
            mapper.wf(),
        ensures
            r.wf(),
            r.lexicon() == mapper@,
            r.cues() == cues@.map_values(|s: String| lower(s@)),
            r.window() == window as int,
    {
        let mut folded: Vec<Vec<char>> = Vec::new();
        let n = cues.len();
        let mut k: usize = 0;
        while k < n
            invariant
                k <= n,
                n == cues@.len(),
                folded@.len() == k as int,
                forall|m: int| 0 <= m < k as int ==> folded@[m]@ == lower(cues@[m]@),
            decreases n - k,
        {
            folded.push(lower_str(cues[k].as_str()));
            k += 1;
        }
        proof {
            assert(char_seqs(folded@) =~= cues@.map_values(|s: String| lower(s@)));
        }
        SentenceMapper { mapper, neg_cues: folded, neg_window: window }
    }
}

impl SentenceMapper {
    /// Try lookups for decreasing window lengths from `cap` down to one
    /// token; the first hit is the longest match at `i`.
    fn longest_lookup(&self, tokens: &Vec<SimpleToken>, i: usize, cap: usize) -> (r: Option<
        (usize, TermId),
    >)
        requires
            self.wf(),
            i + cap <= tokens@.len(),
        ensures
            match r {
                Some(p) => {
                    &&& p.0 as int == longest_hit(
                        self.lexicon().phrases,
                        token_views(tokens@),
                        i as int,
                        cap as int,
                    )
                    &&& 1 <= p.0 <= cap
                    &&& self.lexicon().phrases.contains_key(
                        phrase_at(token_views(tokens@), i as int, p.0 as int),
                    )
                    &&& p.1@ == self.lexicon().phrases[phrase_at(
                        token_views(tokens@),
                        i as int,
                        p.0 as int,
                    )]
                },
                None => longest_hit(
                    self.lexicon().phrases,
                    token_views(tokens@),
                    i as int,
                    cap as int,
                ) == 0,
            },
    {
        let mut l: usize = cap;
        while l > 0
            invariant
                self.wf(),
                i + cap <= tokens@.len(),
                l <= cap,
                longest_hit(
                    self.lexicon().phrases,
                    token_views(tokens@),
                    i as int,
                    cap as int,
                ) == longest_hit(
                    self.lexicon().phrases,
                    token_views(tokens@),
                    i as int,
                    l as int,
                ),
            decreases l,
        {
            match self.mapper.lookup_window(tokens, i, l) {
                Some(tid) => {
                    let t = tid.clone();
                    return Some((l, t));
                },
                None => {
                    l -= 1;
                },
            }
        }
        None
    }

    /// Map one sentence: find the maximal set of non-overlapping longest
    /// matches, left to right, and classify each as observed or negated.
    /// A sentence whose token spans are malformed yields an error, never a
    /// partial result; a sentence with no match yields an empty list.
    pub fn map_sentence(&self, text: &str, tokens: &Vec<SimpleToken>) -> (r: Result<
        Vec<MinedTerm>,
        MappingError,
    >)
        requires
            self.wf(),
        ensures
            match r {
                Ok(ms) => tokens_well_formed(token_views(tokens@), text@.len() as int)
                    && mined_views(ms@) == spec_mine(
                    self.lexicon().phrases,
                    self.lexicon().max_len,
                    self.cues(),
                    self.window(),
                    token_views(tokens@),
                    text@,
                    0,
                ),
                Err(e) => !tokens_well_formed(token_views(tokens@), text@.len() as int) && e
                    == MappingError::MalformedTokenSpans,
            },
    {
        let n_chars = text.unicode_len();
        if !check_tokens(tokens, n_chars) {
            return Err(MappingError::MalformedTokenSpans);
        }
        let ghost toks = token_views(tokens@);
        let ghost phr = self.lexicon().phrases;
        let ghost ml = self.lexicon().max_len;
        let ghost cs = self.cues();
        let ghost win = self.window();
        let maxlen = self.mapper.max_phrase_len();
        let n = tokens.len();
        let mut result: Vec<MinedTerm> = Vec::new();
        let mut i: usize = 0;
        while i < n
            invariant
                self.wf(),
                i <= n,
                n == tokens@.len(),
                n_chars == text@.len(),
                toks == token_views(tokens@),
                phr == self.lexicon().phrases,
                ml == self.lexicon().max_len,
                cs == self.cues(),
                win == self.window(),
                maxlen as int == ml,
                tokens_well_formed(toks, text@.len() as int),
                spec_mine(phr, ml, cs, win, toks, text@, 0) == mined_views(result@) + spec_mine(
                    phr,
                    ml,
                    cs,
                    win,
                    toks,
                    text@,
                    i as int,
                ),
            decreases n - i,
        {
            let ghost i0 = i as int;
            let ghost prev = result@;
            let rem = n - i;
            let cap = if maxlen < rem {
                maxlen
            } else {
                rem
            };
            match self.longest_lookup(tokens, i, cap) {
                Some((l, tid)) => {
                    // Negation: scan the window of tokens just before the match.
                    let wstart = if i >= self.neg_window {
                        i - self.neg_window
                    } else {
                        0
                    };
                    let mut observed = true;
                    let mut j = wstart;
                    while j < i
                        invariant
                            wstart as int == window_start(i0, win),
                            wstart <= j <= i,
                            i < n,
                            n == tokens@.len(),
                            toks == token_views(tokens@),
                            cs == self.cues(),
                            observed == (forall|m: int|
                                wstart as int <= m < j as int ==> !cs.contains(
                                    #[trigger] toks[m].norm,
                                )),
                        decreases i - j,
                    {
                        if cues_contain(&self.neg_cues, tokens[j].norm()) {
                            proof {
                                assert(toks[j as int].norm == tokens@[j as int]@.norm);
                                assert(cs.contains(toks[j as int].norm));
                            }
                            observed = false;
                        }
                        proof {
                            assert(toks[j as int].norm == tokens@[j as int]@.norm);
                        }
                        j += 1;
                    }
                    proof {
                        assert(observed == observed_at(cs, toks, i0, win));
                    }
                    // Assemble the mention.
                    let mut span: Vec<SimpleToken> = Vec::new();
                    let mut k = i;
                    while k < i + l
                        invariant
                            i <= k <= i + l,
                            i + l <= n,
                            n == tokens@.len(),
                            toks == token_views(tokens@),
                            span@.len() == k as int - i as int,
                            forall|m: int|
                                0 <= m < span@.len() ==> token_views(span@)[m] == toks[i as int
                                    + m],
                        decreases i + l - k,
                    {
                        let ghost sp_prev = span@;
                        span.push(tokens[k].clone());
                        proof {
                            assert forall|m: int| 0 <= m < span@.len() implies token_views(
                                span@,
                            )[m] == toks[i as int + m] by {
                                assert(token_views(span@)[m] == span@[m]@);
                                if m < span@.len() - 1 {
                                    assert(span@[m] == sp_prev[m]);
                                    assert(token_views(sp_prev)[m] == sp_prev[m]@);
                                } else {
                                    assert(toks[k as int] == tokens@[k as int]@);
                                }
                            }
                        }
                        k += 1;
                    }
                    proof {
                        assert(token_views(span@) =~= toks.subrange(i0, i0 + l as int));
                        lemma_wf_order(toks, text@.len() as int, i0, i0 + l as int - 1);
                        assert(toks[i0] == tokens@[i0]@);
                        assert(toks[i0 + l as int - 1] == tokens@[i0 + l as int - 1]@);
                    }
                    let start = tokens[i].start_pos();
                    let end = tokens[i + l - 1].end_pos();
                    let matched = text.substring_char(start, end);
                    let m = crate::mined_term::MinedTerm::new(span, tid, start, end, matched, observed);
                    result.push(m);
                    proof {
                        assert(m@ == mention_at(phr, cs, win, toks, text@, i0, l as int));
                        assert(spec_mine(phr, ml, cs, win, toks, text@, i0) == seq![
                            mention_at(phr, cs, win, toks, text@, i0, l as int),
                        ] + spec_mine(phr, ml, cs, win, toks, text@, i0 + l as int));
                        assert(mined_views(result@) =~= mined_views(prev) + seq![m@]);
                        assert(mined_views(result@) + spec_mine(
                            phr,
                            ml,
                            cs,
                            win,
                            toks,
                            text@,
                            i0 + l as int,
                        ) =~= mined_views(prev) + spec_mine(phr, ml, cs, win, toks, text@, i0));
                    }
                    i += l;
                },
                None => {
                    proof {
                        assert(spec_mine(phr, ml, cs, win, toks, text@, i0) == spec_mine(
                            phr,
                            ml,
                            cs,
                            win,
                            toks,
                            text@,
                            i0 + 1,
                        ));
                    }
                    i += 1;
                },
            }
        }
        proof {
            assert(spec_mine(phr, ml, cs, win, toks, text@, i as int) =~= Seq::<
                MinedTermModel,
            >::empty());
            assert(mined_views(result@) =~= spec_mine(phr, ml, cs, win, toks, text@, 0));
        }
        Ok(result)
    }
}

/// Decide whether a case-folded word is one of the cues.
fn cues_contain(cues: &Vec<Vec<char>>, w: &Vec<char>) -> (r: bool)
    ensures
        r == char_seqs(cues@).contains(w@),
{
    let n = cues.len();
    let mut k: usize = 0;
    while k < n
        invariant
            k <= n,
            n == cues@.len(),
            forall|m: int| 0 <= m < k as int ==> char_seqs(cues@)[m] != w@,
        decreases n - k,
    {
        if chars_eq(&cues[k], w) {
            proof {
                assert(char_seqs(cues@)[k as int] == w@);
            }
            return true;
        }
        proof {
            assert(char_seqs(cues@)[k as int] == cues@[k as int]@);
        }
        k += 1;
    }
    proof {
        if char_seqs(cues@).contains(w@) {
            let m = choose|m: int| 0 <= m < char_seqs(cues@).len() && char_seqs(cues@)[m] == w@;
            assert(char_seqs(cues@)[m] != w@);
        }
    }
    false
}

/// Check the sentence-level token invariants: spans inside the text, none
/// reversed, monotonically increasing.
fn check_tokens(tokens: &Vec<SimpleToken>, text_len: usize) -> (r: bool)
    ensures
        r == tokens_well_formed(token_views(tokens@), text_len as int),
{
    let n = tokens.len();
    let mut k: usize = 0;
    while k < n
        invariant
            k <= n,
            n == tokens@.len(),
            forall|m: int|
                0 <= m < k as int ==> 0 <= (#[trigger] token_views(tokens@)[m]).start
                    <= token_views(tokens@)[m].end <= text_len as int,
            forall|m: int|
                1 <= m < k as int ==> token_views(tokens@)[m - 1].end <= (#[trigger] token_views(
                    tokens@,
                )[m]).start,
        decreases n - k,
    {
        let t = &tokens[k];
        if t.start_pos() > t.end_pos() || t.end_pos() > text_len {
            proof {
                assert(token_views(tokens@)[k as int] == tokens@[k as int]@);
                assert(!(0 <= token_views(tokens@)[k as int].start <= token_views(
                    tokens@,
                )[k as int].end <= text_len as int));
            }
            return false;
        }
        if k > 0 && tokens[k - 1].end_pos() > t.start_pos() {
            proof {
                assert(token_views(tokens@)[k as int] == tokens@[k as int]@);
                assert(token_views(tokens@)[k as int - 1] == tokens@[k as int - 1]@);
                assert(!(token_views(tokens@)[k as int - 1].end <= token_views(
                    tokens@,
                )[k as int].start));
            }
            return false;
        }
        k += 1;
    }
    true
}

} // verus!
