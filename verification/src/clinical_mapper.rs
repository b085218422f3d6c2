use vstd::prelude::*;
use ontolius::ontology::{HierarchyWalks, OntologyTerms};
use ontolius::term::{MinimalTerm, Synonymous};
use crate::core_document::{sentence_views, spec_sentences, CoreDocument, Sentence};
use crate::default_hpo_mapper::{
    pair_views, spec_build, DefaultHpoMapper, LexModel, LexiconError,
};
use crate::mined_term::{mined_views, MinedTerm, MinedTermModel};
use crate::ontology::{
    collect_ancestor_links, collect_concepts, collect_descendant_links, expansion_of,
    record_views, registrations_of, spec_expansion, spec_registrations, ConceptRecord,
};
use crate::ontology::link_views;
use crate::sentence_mapper::{
    default_negation_cues, spec_mine, MappingError, SentenceMapper, DEFAULT_NEGATION_WINDOW,
};
use crate::simple_token::token_views;
use crate::term_id::TermId;
use crate::text::{tokens_well_formed, TokenModel};

verus! {

/// Whether and how the lexicon is enriched through the concept hierarchy.
#[derive(Debug, Clone, Copy, PartialEq, Eq, Structural)]
pub enum HierarchyExpansion {
    /// Register each concept's own phrases only.
    NoExpansion,
    /// Also register each descendant's phrases under the concept.
    Descendants,
    /// Also register each ancestor's phrases under the concept.
    Ancestors,
}

/// One recorded per-sentence failure: which sentence failed, and why.
#[derive(Debug, Clone, Copy, PartialEq, Eq, Structural)]
pub struct SentenceFailure {
    pub sentence_index: usize,
    pub error: MappingError,
}

/// The sentence indices of a failure sequence.
pub open spec fn failure_indices(s: Seq<SentenceFailure>) -> Seq<int> {
    s.map_values(|f: SentenceFailure| f.sentence_index as int)
}

/// What one sentence contributes to the document result: its mentions when
/// its tokens are well formed, nothing when they are not.
pub open spec fn sentence_part(
    lex: LexModel,
    cues: Seq<Seq<char>>,
    window: int,
    toks: Seq<TokenModel>,
    text: Seq<char>,
) -> Seq<MinedTermModel> {
    if tokens_well_formed(toks, text.len() as int) {
        spec_mine(lex.phrases, lex.max_len, cues, window, toks, text, 0)
    } else {
        Seq::empty()
    }
}

/// The mentions of a whole document: each sentence's contribution, in
/// document order; malformed sentences contribute nothing.
pub open spec fn spec_map_document(
    lex: LexModel,
    cues: Seq<Seq<char>>,
    window: int,
    sents: Seq<Seq<TokenModel>>,
    text: Seq<char>,
) -> Seq<MinedTermModel>
    decreases sents.len(),
{
    if sents.len() == 0 {
        Seq::empty()
    } else {
        spec_map_document(lex, cues, window, sents.drop_last(), text) + sentence_part(
            lex,
            cues,
            window,
            sents.last(),
            text,
        )
    }
}

/// The indices of the malformed sentences, in document order.
pub open spec fn spec_failures(sents: Seq<Seq<TokenModel>>, text_len: int) -> Seq<int>
    decreases sents.len(),
{
    if sents.len() == 0 {
        Seq::empty()
    } else {
        spec_failures(sents.drop_last(), text_len) + if tokens_well_formed(
            sents.last(),
            text_len,
        ) {
            Seq::empty()
        } else {
            seq![sents.len() - 1]
        }
    }
}

/// The mentions that mapping a raw text yields: the text is split into
/// sentences of tokens, and each sentence is mined in order.
pub open spec fn spec_map_text(
    lex: LexModel,
    cues: Seq<Seq<char>>,
    window: int,
    text: Seq<char>,
) -> Seq<MinedTermModel> {
    spec_map_document(lex, cues, window, spec_sentences(text, 0), text)
}

/// The text-mining engine: an immutable lexicon wrapped in a span matcher,
/// applied to whole texts.
#[derive(Debug)]
pub struct ClinicalMapper {
    sentence_mapper: SentenceMapper,
}

impl ClinicalMapper {
    /// Internal consistency of the underlying lexicon.
    pub closed spec fn wf(&self) -> bool {
        self.sentence_mapper.wf()
    }

    /// The lexicon model.
    pub closed spec fn lexicon(&self) -> LexModel {
        self.sentence_mapper.lexicon()
    }

    /// The configured negation cues, case-folded.
    pub closed spec fn cues(&self) -> Seq<Seq<char>> {
        self.sentence_mapper.cues()
    }

    /// The configured negation window, in tokens.
    pub closed spec fn window(&self) -> int {
        self.sentence_mapper.window()
    }

    /// Build a mapper from explicit (phrase, identifier) pairs, with the
    /// default negation configuration. A phrase that normalizes to zero
    /// tokens is rejected; a phrase registered again under a different
    /// identifier is a conflict, fatal unless `last_wins` was chosen.
    pub fn from_map(pairs: &Vec<(String, TermId)>, last_wins: bool) -> (r: Result<
        Self,
        LexiconError,
    >)
        ensures
            match r {
                Ok(cm) => cm.wf() && cm.cues() == default_negation_cues() && cm.window()
                    == DEFAULT_NEGATION_WINDOW as int && spec_build(pair_views(pairs@), last_wins)
                    == Ok::<LexModel, LexiconError>(cm.lexicon()),
                Err(e) => spec_build(pair_views(pairs@), last_wins) == Err::<
                    LexModel,
                    LexiconError,
                >(e),
            },
    {
        match DefaultHpoMapper::from_map(pairs, last_wins) {
            Ok(m) => Ok(ClinicalMapper { sentence_mapper: SentenceMapper::new(m) }),
            Err(e) => Err(e),
        }
    }

    /// Build a mapper from plain concept records: every concept's label and
    /// synonyms are registered under its own identifier, in order.
    pub fn from_concepts(records: &Vec<ConceptRecord>, last_wins: bool) -> (r: Result<
        Self,
        LexiconError,
    >)
        ensures
            match r {
                Ok(cm) => cm.wf() && cm.cues() == default_negation_cues() && cm.window()
                    == DEFAULT_NEGATION_WINDOW as int && spec_build(
                    spec_registrations(record_views(records@)),
                    last_wins,
                ) == Ok::<LexModel, LexiconError>(cm.lexicon()),
                Err(e) => spec_build(spec_registrations(record_views(records@)), last_wins)
                    == Err::<LexModel, LexiconError>(e),
            },
    {
        let pairs = registrations_of(records);
        match DefaultHpoMapper::from_map(&pairs, last_wins) {
            Ok(m) => Ok(ClinicalMapper { sentence_mapper: SentenceMapper::new(m) }),
            Err(e) => Err(e),
        }
    }

    /// Build a mapper from plain concept records with hierarchy expansion:
    /// after the concepts' own phrases, each linked concept's phrases are
    /// registered under the linking concept's identifier.
    pub fn from_concepts_expanded(
        records: &Vec<ConceptRecord>,
        links: &Vec<(TermId, Vec<TermId>)>,
        last_wins: bool,
    ) -> (r: Result<Self, LexiconError>)
        ensures
            match r {
                Ok(cm) => cm.wf() && cm.cues() == default_negation_cues() && cm.window()
                    == DEFAULT_NEGATION_WINDOW as int && spec_build(
                    spec_registrations(record_views(records@)) + spec_expansion(
                        record_views(records@),
                        link_views(links@),
                    ),
                    last_wins,
                ) == Ok::<LexModel, LexiconError>(cm.lexicon()),
                Err(e) => spec_build(
                    spec_registrations(record_views(records@)) + spec_expansion(
                        record_views(records@),
                        link_views(links@),
                    ),
                    last_wins,
                ) == Err::<LexModel, LexiconError>(e),
            },
    {
        let mut pairs = registrations_of(records);
        let mut extra = expansion_of(records, links);
        let ghost own = pair_views(pairs@);
        let ghost exp = pair_views(extra@);
        pairs.append(&mut extra);
        proof {
            assert(pair_views(pairs@) =~= own + exp);
        }
        match DefaultHpoMapper::from_map(&pairs, last_wins) {
            Ok(m) => Ok(ClinicalMapper { sentence_mapper: SentenceMapper::new(m) }),
            Err(e) => Err(e),
        }
    }

    /// Build a mapper from an ontology: every primary concept's label and
    /// synonyms are registered under its identifier, without hierarchy
    /// expansion and with conflicts fatal. What the lexicon then holds
    /// depends on the ontology's contents.
    pub fn new<O>(hpo: &O) -> (r: Result<Self, LexiconError>) where
        O: OntologyTerms,
        O::Term: MinimalTerm + Synonymous,

        ensures
            match r {
                Ok(cm) => cm.wf() && cm.cues() == default_negation_cues() && cm.window()
                    == DEFAULT_NEGATION_WINDOW as int,
                Err(_) => true,
            },
    {
        let records = collect_concepts(hpo);
        Self::from_concepts(&records, false)
    }

    /// Build a mapper from an ontology, choosing hierarchy expansion and the
    /// conflict policy. What the lexicon then holds depends on the
    /// ontology's contents.
    pub fn with_config<O>(hpo: &O, hierarchy: HierarchyExpansion, last_wins: bool) -> (r: Result<
        Self,
        LexiconError,
    >) where
        O: OntologyTerms + HierarchyWalks,
        O::Term: MinimalTerm + Synonymous,

        ensures
            match r {
                Ok(cm) => cm.wf() && cm.cues() == default_negation_cues() && cm.window()
                    == DEFAULT_NEGATION_WINDOW as int,
                Err(_) => true,
            },
    {
        let records = collect_concepts(hpo);
        match hierarchy {
            HierarchyExpansion::NoExpansion => Self::from_concepts(&records, last_wins),
            HierarchyExpansion::Descendants => {
                let links = collect_descendant_links(hpo);
                Self::from_concepts_expanded(&records, &links, last_wins)
            },
            HierarchyExpansion::Ancestors => {
                let links = collect_ancestor_links(hpo);
                Self::from_concepts_expanded(&records, &links, last_wins)
            },
        }
    }

    /// Map pre-tokenized sentences against `text`: each well-formed sentence
    /// contributes its mentions, in document order; each malformed sentence
    /// contributes nothing and is recorded as a failure instead, so one bad
    /// sentence never aborts the document.
    pub fn map_document(&self, text: &str, sentences: &Vec<Sentence>) -> (r: (
        Vec<MinedTerm>,
        Vec<SentenceFailure>,
    ))
        requires
            self.wf(),
        ensures
            mined_views(r.0@) == spec_map_document(
                self.lexicon(),
                self.cues(),
                self.window(),
                sentence_views(sentences@),
                text@,
            ),
            failure_indices(r.1@) == spec_failures(
                sentence_views(sentences@),
                text@.len() as int,
            ),
            forall|k: int|
                0 <= k < r.1@.len() ==> (#[trigger] r.1@[k]).error
                    == MappingError::MalformedTokenSpans,
    {
        let ghost sviews = sentence_views(sentences@);
        let mut mentions: Vec<MinedTerm> = Vec::new();
        let mut failures: Vec<SentenceFailure> = Vec::new();
        let n = sentences.len();
        let mut idx: usize = 0;
        while idx < n
            invariant
                self.wf(),
                idx <= n,
                n == sentences@.len(),
                sviews == sentence_views(sentences@),
                mined_views(mentions@) == spec_map_document(
                    self.lexicon(),
                    self.cues(),
                    self.window(),
                    sviews.subrange(0, idx as int),
                    text@,
                ),
                failure_indices(failures@) == spec_failures(
                    sviews.subrange(0, idx as int),
                    text@.len() as int,
                ),
                forall|k: int|
                    0 <= k < failures@.len() ==> (#[trigger] failures@[k]).error
                        == MappingError::MalformedTokenSpans,
            decreases n - idx,
        {
            let ghost pre = sviews.subrange(0, idx as int);
            let ghost step = sviews.subrange(0, idx as int + 1);
            proof {
                assert(step.drop_last() =~= pre);
                assert(step.last() == sviews[idx as int]);
                assert(sviews[idx as int] == sentences@[idx as int]@);
            }
            match self.sentence_mapper.map_sentence(text, sentences[idx].get_tokens()) {
                Ok(mut ms) => {
                    let ghost mv_prev = mined_views(mentions@);
                    let ghost ms_v = mined_views(ms@);
                    mentions.append(&mut ms);
                    proof {
                        assert(mined_views(mentions@) =~= mv_prev + ms_v);
                        assert(spec_failures(step, text@.len() as int) =~= spec_failures(
                            pre,
                            text@.len() as int,
                        ));
                    }
                },
                Err(_) => {
                    let ghost f_prev = failures@;
                    failures.push(
                        SentenceFailure {
                            sentence_index: idx,
                            error: MappingError::MalformedTokenSpans,
                        },
                    );
                    proof {
                        assert(failure_indices(failures@) =~= failure_indices(f_prev) + seq![
                            idx as int,
                        ]);
                        assert(spec_failures(step, text@.len() as int) =~= spec_failures(
                            pre,
                            text@.len() as int,
                        ) + seq![idx as int]);
                        assert(mined_views(mentions@) =~= spec_map_document(
                            self.lexicon(),
                            self.cues(),
                            self.window(),
                            step,
                            text@,
                        ));
                    }
                },
            }
            idx += 1;
        }
        proof {
            assert(sviews.subrange(0, n as int) =~= sviews);
        }
        (mentions, failures)
    }

    /// Map a raw text: split it into sentences and tokens, mine every
    /// sentence, and concatenate the mentions in document order. The result
    /// is a pure function of the text and the mapper's configuration.
    pub fn map_text(&self, text: &str) -> (r: Vec<MinedTerm>)
        requires
            self.wf(),
        ensures
            mined_views(r@) == spec_map_text(self.lexicon(), self.cues(), self.window(), text@),
    {
        let doc = CoreDocument::new(text);
        let (mentions, _failures) = self.map_document(text, doc.get_sentences());
        mentions
    }
}

} // verus!
