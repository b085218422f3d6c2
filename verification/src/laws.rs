use vstd::prelude::*;
use crate::clinical_mapper::{spec_map_document, spec_map_text};
use crate::core_document::spec_sentences;
use crate::default_hpo_mapper::LexModel;
use crate::mined_term::MinedTermModel;
use crate::sentence_mapper::{lemma_longest_hit, longest_hit, mention_at, spec_mine};
use crate::text::{phrase_at, tokens_well_formed, TokenModel};

verus! {

/// Where no token window of a sentence carries a phrase of the lexicon, the
/// matcher emits nothing.
pub proof fn lemma_mine_no_hits(
    lex: Map<Seq<Seq<char>>, Seq<char>>,
    maxlen: int,
    cues: Seq<Seq<char>>,
    window: int,
    toks: Seq<TokenModel>,
    text: Seq<char>,
    i: int,
)
    requires
        forall|p: int, l: int|
            0 <= p && 1 <= l && p + l <= toks.len() ==> !lex.contains_key(
                #[trigger] phrase_at(toks, p, l),
            ),
    ensures
        spec_mine(lex, maxlen, cues, window, toks, text, i) == Seq::<MinedTermModel>::empty(),
    decreases toks.len() - i,
{
    if 0 <= i < toks.len() {
        let rem = toks.len() - i;
        let cap = if maxlen < rem {
            maxlen
        } else {
            rem
        };
        lemma_longest_hit(lex, toks, i, cap);
        let l = longest_hit(lex, toks, i, cap);
        if l > 0 {
            assert(lex.contains_key(phrase_at(toks, i, l)));
            assert(false);
        }
        lemma_mine_no_hits(lex, maxlen, cues, window, toks, text, i + 1);
    }
}

/// A document none of whose sentences carries a lexicon phrase in any token
/// window yields no mentions at all.
pub proof fn lemma_map_document_no_hits(
    lex: LexModel,
    cues: Seq<Seq<char>>,
    window: int,
    sents: Seq<Seq<TokenModel>>,
    text: Seq<char>,
)
    requires
        forall|s: int, p: int, l: int|
            0 <= s < sents.len() && 0 <= p && 1 <= l && p + l <= sents[s].len()
                ==> !lex.phrases.contains_key(#[trigger] phrase_at(sents[s], p, l)),
    ensures
        spec_map_document(lex, cues, window, sents, text) == Seq::<MinedTermModel>::empty(),
    decreases sents.len(),
{
    if sents.len() > 0 {
        assert forall|s: int, p: int, l: int|
            0 <= s < sents.drop_last().len() && 0 <= p && 1 <= l && p + l
                <= sents.drop_last()[s].len() implies !lex.phrases.contains_key(
            #[trigger] phrase_at(sents.drop_last()[s], p, l),
        ) by {
            assert(sents.drop_last()[s] == sents[s]);
        }
        lemma_map_document_no_hits(lex, cues, window, sents.drop_last(), text);
        let last = sents.last();
        assert forall|p: int, l: int| 0 <= p && 1 <= l && p + l <= last.len() implies !lex
            .phrases.contains_key(#[trigger] phrase_at(last, p, l)) by {
            assert(sents[sents.len() - 1] == last);
        }
        lemma_mine_no_hits(lex.phrases, lex.max_len, cues, window, last, text, 0);
        assert(spec_map_document(lex, cues, window, sents, text) =~= Seq::<
            MinedTermModel,
        >::empty());
    }
}

/// For every input text with zero lexicon matches — no token window of any
/// of its sentences carries a phrase of the lexicon — mapping the text
/// returns the empty sequence.
pub proof fn lemma_map_text_no_matches(
    lex: LexModel,
    cues: Seq<Seq<char>>,
    window: int,
    text: Seq<char>,
)
    requires
        forall|s: int, p: int, l: int|
            0 <= s < spec_sentences(text, 0).len() && 0 <= p && 1 <= l && p + l
                <= spec_sentences(text, 0)[s].len() ==> !lex.phrases.contains_key(
                #[trigger] phrase_at(spec_sentences(text, 0)[s], p, l),
            ),
    ensures
        spec_map_text(lex, cues, window, text) == Seq::<MinedTermModel>::empty(),
{
    lemma_map_document_no_hits(lex, cues, window, spec_sentences(text, 0), text);
}

/// Every mention the matcher emits carries the verbatim source substring of
/// its own span: `matching == text[start .. end]`.
pub proof fn lemma_mine_matching(
    lex: Map<Seq<Seq<char>>, Seq<char>>,
    maxlen: int,
    cues: Seq<Seq<char>>,
    window: int,
    toks: Seq<TokenModel>,
    text: Seq<char>,
    i: int,
)
    ensures
        forall|k: int|
            0 <= k < spec_mine(lex, maxlen, cues, window, toks, text, i).len() ==> (
            #[trigger] spec_mine(lex, maxlen, cues, window, toks, text, i)[k]).matching
                == text.subrange(
                spec_mine(lex, maxlen, cues, window, toks, text, i)[k].start,
                spec_mine(lex, maxlen, cues, window, toks, text, i)[k].end,
            ),
    decreases toks.len() - i,
{
    if 0 <= i < toks.len() {
        let rem = toks.len() - i;
        let cap = if maxlen < rem {
            maxlen
        } else {
            rem
        };
        let l = longest_hit(lex, toks, i, cap);
        if l <= 0 {
            lemma_mine_matching(lex, maxlen, cues, window, toks, text, i + 1);
            assert(spec_mine(lex, maxlen, cues, window, toks, text, i) == spec_mine(
                lex,
                maxlen,
                cues,
                window,
                toks,
                text,
                i + 1,
            ));
        } else if l <= rem {
            lemma_mine_matching(lex, maxlen, cues, window, toks, text, i + l);
            let head = mention_at(lex, cues, window, toks, text, i, l);
            let tail = spec_mine(lex, maxlen, cues, window, toks, text, i + l);
            let whole = spec_mine(lex, maxlen, cues, window, toks, text, i);
            assert(whole == seq![head] + tail);
            assert forall|k: int| 0 <= k < whole.len() implies (#[trigger] whole[k]).matching
                == text.subrange(whole[k].start, whole[k].end) by {
                if k > 0 {
                    assert(whole[k] == tail[k - 1]);
                } else {
                    assert(whole[0] == head);
                }
            }
        }
    }
}

/// Every mention a document mapping yields carries the verbatim source
/// substring of its own span.
pub proof fn lemma_map_document_matching(
    lex: LexModel,
    cues: Seq<Seq<char>>,
    window: int,
    sents: Seq<Seq<TokenModel>>,
    text: Seq<char>,
)
    ensures
        forall|k: int|
            0 <= k < spec_map_document(lex, cues, window, sents, text).len() ==> (
            #[trigger] spec_map_document(lex, cues, window, sents, text)[k]).matching
                == text.subrange(
                spec_map_document(lex, cues, window, sents, text)[k].start,
                spec_map_document(lex, cues, window, sents, text)[k].end,
            ),
    decreases sents.len(),
{
    if sents.len() > 0 {
        lemma_map_document_matching(lex, cues, window, sents.drop_last(), text);
        lemma_mine_matching(lex.phrases, lex.max_len, cues, window, sents.last(), text, 0);
        let pre = spec_map_document(lex, cues, window, sents.drop_last(), text);
        let whole = spec_map_document(lex, cues, window, sents, text);
        assert forall|k: int| 0 <= k < whole.len() implies (#[trigger] whole[k]).matching
            == text.subrange(whole[k].start, whole[k].end) by {
            if k < pre.len() {
                assert(whole[k] == pre[k]);
            } else if tokens_well_formed(sents.last(), text.len() as int) {
                assert(whole[k] == spec_mine(
                    lex.phrases,
                    lex.max_len,
                    cues,
                    window,
                    sents.last(),
                    text,
                    0,
                )[k - pre.len()]);
            }
        }
    }
}

/// For every mention `m` that mapping a text returns,
/// `text[m.start .. m.end] == m.matching`.
pub proof fn lemma_map_text_matching(
    lex: LexModel,
    cues: Seq<Seq<char>>,
    window: int,
    text: Seq<char>,
)
    ensures
        forall|k: int|
            0 <= k < spec_map_text(lex, cues, window, text).len() ==> (#[trigger] spec_map_text(
                lex,
                cues,
                window,
                text,
            )[k]).matching == text.subrange(
                spec_map_text(lex, cues, window, text)[k].start,
                spec_map_text(lex, cues, window, text)[k].end,
            ),
{
    lemma_map_document_matching(lex, cues, window, spec_sentences(text, 0), text);
}

/// `longest_hit` never settles for less: a phrase of length `k` within the
/// cap forces a result of at least `k`.
pub proof fn lemma_longest_hit_at_least(
    lex: Map<Seq<Seq<char>>, Seq<char>>,
    toks: Seq<TokenModel>,
    p: int,
    cap: int,
    k: int,
)
    requires
        1 <= k <= cap,
        lex.contains_key(phrase_at(toks, p, k)),
    ensures
        longest_hit(lex, toks, p, cap) >= k,
    decreases cap,
{
    if cap > k && !lex.contains_key(phrase_at(toks, p, cap)) {
        lemma_longest_hit_at_least(lex, toks, p, cap - 1, k);
    }
}

/// Longest match first: when the cursor stands at position `p` and a phrase
/// of length `k` matches there, the matcher emits a mention of at least `k`
/// tokens at `p` — never a shorter one. When no longer phrase matches at
/// `p`, the emitted mention is exactly the length-`k` one.
pub proof fn lemma_longest_match_at(
    lex: Map<Seq<Seq<char>>, Seq<char>>,
    maxlen: int,
    cues: Seq<Seq<char>>,
    window: int,
    toks: Seq<TokenModel>,
    text: Seq<char>,
    p: int,
    k: int,
)
    requires
        0 <= p < toks.len(),
        1 <= k,
        p + k <= toks.len(),
        k <= maxlen,
        lex.contains_key(phrase_at(toks, p, k)),
    ensures
        spec_mine(lex, maxlen, cues, window, toks, text, p).len() > 0,
        spec_mine(lex, maxlen, cues, window, toks, text, p)[0].tokens.len() >= k,
        (forall|l2: int|
            k < l2 && p + l2 <= toks.len() && l2 <= maxlen ==> !lex.contains_key(
                #[trigger] phrase_at(toks, p, l2),
            )) ==> spec_mine(lex, maxlen, cues, window, toks, text, p)[0] == mention_at(
            lex,
            cues,
            window,
            toks,
            text,
            p,
            k,
        ),
{
    let rem = toks.len() - p;
    let cap = if maxlen < rem {
        maxlen
    } else {
        rem
    };
    lemma_longest_hit_at_least(lex, toks, p, cap, k);
    lemma_longest_hit(lex, toks, p, cap);
    let l = longest_hit(lex, toks, p, cap);
    assert(spec_mine(lex, maxlen, cues, window, toks, text, p) == seq![
        mention_at(lex, cues, window, toks, text, p, l),
    ] + spec_mine(lex, maxlen, cues, window, toks, text, p + l));
    assert(spec_mine(lex, maxlen, cues, window, toks, text, p)[0].tokens == toks.subrange(
        p,
        p + l,
    ));
    if forall|l2: int|
        k < l2 && p + l2 <= toks.len() && l2 <= maxlen ==> !lex.contains_key(
            #[trigger] phrase_at(toks, p, l2),
        ) {
        if l > k {
            assert(lex.contains_key(phrase_at(toks, p, l)));
            assert(false);
        }
    }
}

/// Every mention the matcher emits is a maximal lexicon match: it is the
/// mention of some position `p` and length `l`, the matched phrase is in the
/// lexicon, the mention carries that phrase's identifier, and no longer
/// phrase (up to the configured maximum) also matches at `p`.
pub proof fn lemma_mine_structure(
    lex: Map<Seq<Seq<char>>, Seq<char>>,
    maxlen: int,
    cues: Seq<Seq<char>>,
    window: int,
    toks: Seq<TokenModel>,
    text: Seq<char>,
    i: int,
)
    ensures
        forall|k: int|
            0 <= k < spec_mine(lex, maxlen, cues, window, toks, text, i).len() ==> exists|
                p: int,
                l: int,
            |
                {
                    &&& 0 <= p
                    &&& 1 <= l
                    &&& p + l <= toks.len()
                    &&& (#[trigger] spec_mine(lex, maxlen, cues, window, toks, text, i)[k])
                        == mention_at(lex, cues, window, toks, text, p, l)
                    &&& lex.contains_key(phrase_at(toks, p, l))
                    &&& spec_mine(lex, maxlen, cues, window, toks, text, i)[k].term_id
                        == lex[phrase_at(toks, p, l)]
                    &&& forall|l2: int|
                        l < l2 && l2 <= maxlen && p + l2 <= toks.len() ==> !lex.contains_key(
                            #[trigger] phrase_at(toks, p, l2),
                        )
                },
    decreases toks.len() - i,
{
    if 0 <= i < toks.len() {
        let rem = toks.len() - i;
        let cap = if maxlen < rem {
            maxlen
        } else {
            rem
        };
        lemma_longest_hit(lex, toks, i, cap);
        let l = longest_hit(lex, toks, i, cap);
        let whole = spec_mine(lex, maxlen, cues, window, toks, text, i);
        if l <= 0 {
            lemma_mine_structure(lex, maxlen, cues, window, toks, text, i + 1);
            assert(whole == spec_mine(lex, maxlen, cues, window, toks, text, i + 1));
        } else if l <= rem {
            lemma_mine_structure(lex, maxlen, cues, window, toks, text, i + l);
            let head = mention_at(lex, cues, window, toks, text, i, l);
            let tail = spec_mine(lex, maxlen, cues, window, toks, text, i + l);
            assert(whole == seq![head] + tail);
            assert forall|k: int| 0 <= k < whole.len() implies exists|p: int, l1: int|
                {
                    &&& 0 <= p
                    &&& 1 <= l1
                    &&& p + l1 <= toks.len()
                    &&& (#[trigger] whole[k]) == mention_at(lex, cues, window, toks, text, p, l1)
                    &&& lex.contains_key(phrase_at(toks, p, l1))
                    &&& whole[k].term_id == lex[phrase_at(toks, p, l1)]
                    &&& forall|l2: int|
                        l1 < l2 && l2 <= maxlen && p + l2 <= toks.len() ==> !lex.contains_key(
                            #[trigger] phrase_at(toks, p, l2),
                        )
                } by {
                if k == 0 {
                    assert(whole[0] == head);
                    assert forall|l2: int|
                        l < l2 && l2 <= maxlen && i + l2 <= toks.len() implies !lex.contains_key(
                        #[trigger] phrase_at(toks, i, l2),
                    ) by {
                        assert(l2 <= cap);
                    }
                    assert({
                        &&& 0 <= i
                        &&& 1 <= l
                        &&& i + l <= toks.len()
                        &&& whole[k] == mention_at(lex, cues, window, toks, text, i, l)
                        &&& lex.contains_key(phrase_at(toks, i, l))
                        &&& whole[k].term_id == lex[phrase_at(toks, i, l)]
                        &&& forall|l2: int|
                            l < l2 && l2 <= maxlen && i + l2 <= toks.len() ==> !lex.contains_key(
                                #[trigger] phrase_at(toks, i, l2),
                            )
                    });
                } else {
                    assert(whole[k] == tail[k - 1]);
                }
            }
        }
    }
}

/// The built-in sentence splitter never hands the matcher a malformed
/// sentence: mapping a raw text records no failures.
pub proof fn lemma_map_text_never_fails(text: Seq<char>)
    ensures
        crate::clinical_mapper::spec_failures(spec_sentences(text, 0), text.len() as int)
            == Seq::<int>::empty(),
{
    crate::core_document::lemma_sentences_well_formed(text, 0);
    lemma_well_formed_no_failures(spec_sentences(text, 0), text.len() as int);
}

/// Where every sentence is well formed, no failure is recorded.
pub proof fn lemma_well_formed_no_failures(sents: Seq<Seq<TokenModel>>, text_len: int)
    requires
        forall|s: int|
            0 <= s < sents.len() ==> tokens_well_formed(#[trigger] sents[s], text_len),
    ensures
        crate::clinical_mapper::spec_failures(sents, text_len) == Seq::<int>::empty(),
    decreases sents.len(),
{
    if sents.len() > 0 {
        assert forall|s: int| 0 <= s < sents.drop_last().len() implies tokens_well_formed(
            #[trigger] sents.drop_last()[s],
            text_len,
        ) by {
            assert(sents.drop_last()[s] == sents[s]);
        }
        lemma_well_formed_no_failures(sents.drop_last(), text_len);
        assert(sents[sents.len() - 1] == sents.last());
        assert(crate::clinical_mapper::spec_failures(sents, text_len) =~= Seq::<int>::empty());
    }
}

/// Synonym equivalence at the engine level: when two phrases map to the same
/// identifier `c`, the mention emitted for either phrase, at any position in
/// any text, carries `c` as its `term_id`.
pub proof fn lemma_synonym_equivalence(
    lex: Map<Seq<Seq<char>>, Seq<char>>,
    cues: Seq<Seq<char>>,
    window: int,
    a: Seq<Seq<char>>,
    b: Seq<Seq<char>>,
    c: Seq<char>,
    toks1: Seq<TokenModel>,
    text1: Seq<char>,
    p1: int,
    toks2: Seq<TokenModel>,
    text2: Seq<char>,
    p2: int,
)
    requires
        lex.contains_key(a),
        lex.contains_key(b),
        lex[a] == c,
        lex[b] == c,
        phrase_at(toks1, p1, a.len() as int) == a,
        phrase_at(toks2, p2, b.len() as int) == b,
    ensures
        mention_at(lex, cues, window, toks1, text1, p1, a.len() as int).term_id == c,
        mention_at(lex, cues, window, toks2, text2, p2, b.len() as int).term_id == c,
{
}

/// Mapping is deterministic: two runs over the same text with the same
/// lexicon and negation configuration yield the same mention sequence,
/// ordering included. This is what `map_text`'s contract pins down.
pub proof fn lemma_map_text_deterministic(
    lex: LexModel,
    cues: Seq<Seq<char>>,
    window: int,
    text: Seq<char>,
    r1: Seq<MinedTermModel>,
    r2: Seq<MinedTermModel>,
)
    requires
        r1 == spec_map_text(lex, cues, window, text),
        r2 == spec_map_text(lex, cues, window, text),
    ensures
        r1 == r2,
{
}

} // verus!
