use ferriphene::clinical_mapper::ClinicalMapper;
use ferriphene::default_hpo_mapper::{DefaultHpoMapper, LexiconError};
use ferriphene::core_document::{CoreDocument, Sentence};
use ferriphene::sentence_mapper::{MappingError, SentenceMapper};
use ferriphene::simple_token::SimpleToken;
use ferriphene::term_id::TermId;

fn pairs(entries: &[(&str, &str)]) -> Vec<(String, TermId)> {
    entries
        .iter()
        .map(|(phrase, id)| (phrase.to_string(), TermId::new(id)))
        .collect()
}

#[test]
fn no_matches_yields_empty() {
    let mapper = ClinicalMapper::from_map(&pairs(&[("fever", "HP:0001945")]), false).unwrap();
    let mentions = mapper.map_text("The patient is doing well today.");
    assert!(mentions.is_empty());
}

#[test]
fn empty_text_yields_empty() {
    let mapper = ClinicalMapper::from_map(&pairs(&[("fever", "HP:0001945")]), false).unwrap();
    assert!(mapper.map_text("").is_empty());
}

#[test]
fn matching_string_equals_source_span() {
    let mapper =
        ClinicalMapper::from_map(&pairs(&[("high fever", "HP:0025438")]), false).unwrap();
    let text = "High fever noted.";
    let mentions = mapper.map_text(text);
    assert_eq!(mentions.len(), 1);
    let m = &mentions[0];
    assert_eq!(m.start_pos(), 0);
    assert_eq!(m.end_pos(), 10);
    assert_eq!(m.matching_string(), "High fever");
    assert_eq!(&text[m.start_pos()..m.end_pos()], m.matching_string());
    assert!(m.is_observed());
}

#[test]
fn longest_match_wins() {
    let mapper = ClinicalMapper::from_map(
        &pairs(&[("fever", "HP:0001945"), ("high fever", "HP:0025438")]),
        false,
    )
    .unwrap();
    let mentions = mapper.map_text("high fever present.");
    assert_eq!(mentions.len(), 1);
    assert_eq!(mentions[0].term_id(), &TermId::new("HP:0025438"));
    assert_eq!(mentions[0].matching_string(), "high fever");
    assert_eq!(mentions[0].get_tokens().len(), 2);
}

#[test]
fn mapping_is_idempotent() {
    let mapper = ClinicalMapper::from_map(
        &pairs(&[("fever", "HP:0001945"), ("rash", "HP:0000988")]),
        false,
    )
    .unwrap();
    let text = "Fever was seen. No rash today.";
    let first = mapper.map_text(text);
    let second = mapper.map_text(text);
    assert_eq!(first.len(), second.len());
    for (a, b) in first.iter().zip(second.iter()) {
        assert_eq!(a.term_id(), b.term_id());
        assert_eq!(a.start_pos(), b.start_pos());
        assert_eq!(a.end_pos(), b.end_pos());
        assert_eq!(a.matching_string(), b.matching_string());
        assert_eq!(a.is_observed(), b.is_observed());
        assert_eq!(a.get_tokens().len(), b.get_tokens().len());
    }
}

#[test]
fn synonyms_map_to_the_same_concept() {
    let concept = "HP:0001250";
    let mapper = ClinicalMapper::from_map(
        &pairs(&[("seizure", concept), ("fit", concept)]),
        false,
    )
    .unwrap();
    let with_label = mapper.map_text("Patient had a seizure today.");
    let with_synonym = mapper.map_text("Patient had a fit today.");
    assert_eq!(with_label.len(), 1);
    assert_eq!(with_synonym.len(), 1);
    assert_eq!(with_label[0].term_id(), &TermId::new(concept));
    assert_eq!(with_synonym[0].term_id(), &TermId::new(concept));
    assert_eq!(with_label[0].is_observed(), with_synonym[0].is_observed());
    assert_eq!(with_label[0].start_pos(), with_synonym[0].start_pos());
    assert_eq!(with_label[0].matching_string(), "seizure");
    assert_eq!(with_synonym[0].matching_string(), "fit");
}

#[test]
fn negated_mention_is_not_observed() {
    let mapper = ClinicalMapper::from_map(&pairs(&[("fever", "HP:0001945")]), false).unwrap();
    let mentions = mapper.map_text("no fever noted");
    assert_eq!(mentions.len(), 1);
    assert_eq!(mentions[0].term_id(), &TermId::new("HP:0001945"));
    assert!(!mentions[0].is_observed());
}

#[test]
fn conflict_fails_construction() {
    let table = pairs(&[("fever", "HP:0000001"), ("fever", "HP:0000002")]);
    let outcome = ClinicalMapper::from_map(&table, false);
    assert!(matches!(outcome, Err(LexiconError::PhraseConflict)));
}

#[test]
fn conflict_with_last_wins_keeps_later_entry() {
    let table = pairs(&[("fever", "HP:0000001"), ("fever", "HP:0000002")]);
    let mapper = ClinicalMapper::from_map(&table, true).unwrap();
    let mentions = mapper.map_text("fever.");
    assert_eq!(mentions.len(), 1);
    assert_eq!(mentions[0].term_id(), &TermId::new("HP:0000002"));
}

#[test]
fn duplicate_entry_with_same_concept_is_no_conflict() {
    let table = pairs(&[("fever", "HP:0000001"), ("Fever", "HP:0000001")]);
    let mapper = ClinicalMapper::from_map(&table, false).unwrap();
    assert_eq!(mapper.map_text("fever!").len(), 1);
}

#[test]
fn empty_phrase_is_rejected() {
    let table = pairs(&[("   ", "HP:0000001")]);
    let outcome = ClinicalMapper::from_map(&table, false);
    assert!(matches!(outcome, Err(LexiconError::EmptyPhrase)));
}

#[test]
fn matching_folds_case() {
    let mapper = ClinicalMapper::from_map(&pairs(&[("FeVer", "HP:0001945")]), false).unwrap();
    let mentions = mapper.map_text("Severe fEvEr!");
    assert_eq!(mentions.len(), 1);
    assert_eq!(mentions[0].matching_string(), "fEvEr");
}

#[test]
fn mentions_come_in_document_order() {
    let mapper = ClinicalMapper::from_map(
        &pairs(&[("fever", "HP:0001945"), ("rash", "HP:0000988")]),
        false,
    )
    .unwrap();
    let mentions = mapper.map_text("Fever noted. No rash seen.");
    assert_eq!(mentions.len(), 2);
    assert_eq!(mentions[0].term_id(), &TermId::new("HP:0001945"));
    assert!(mentions[0].is_observed());
    assert_eq!(mentions[1].term_id(), &TermId::new("HP:0000988"));
    assert!(!mentions[1].is_observed());
    assert!(mentions[0].end_pos() <= mentions[1].start_pos());
}

#[test]
fn malformed_sentence_is_recorded_not_raised() {
    let mapper = ClinicalMapper::from_map(
        &pairs(&[("fever", "HP:0001945"), ("rash", "HP:0000988")]),
        false,
    )
    .unwrap();
    let text = "fever rash";
    let sentences = vec![
        Sentence::new(vec![SimpleToken::new("fever", 0, 5)]),
        Sentence::new(vec![SimpleToken::new("bad", 5, 3)]),
        Sentence::new(vec![SimpleToken::new("rash", 6, 10)]),
    ];
    let (mentions, failures) = mapper.map_document(text, &sentences);
    assert_eq!(mentions.len(), 2);
    assert_eq!(mentions[0].term_id(), &TermId::new("HP:0001945"));
    assert_eq!(mentions[1].term_id(), &TermId::new("HP:0000988"));
    assert_eq!(failures.len(), 1);
    assert_eq!(failures[0].sentence_index, 1);
    assert_eq!(failures[0].error, MappingError::MalformedTokenSpans);
}

#[test]
fn out_of_bounds_tokens_are_malformed() {
    let mapper = ClinicalMapper::from_map(&pairs(&[("fever", "HP:0001945")]), false).unwrap();
    let sentences = vec![Sentence::new(vec![SimpleToken::new("fever", 0, 50)])];
    let (mentions, failures) = mapper.map_document("fever", &sentences);
    assert!(mentions.is_empty());
    assert_eq!(failures.len(), 1);
    assert_eq!(failures[0].sentence_index, 0);
}

#[test]
fn custom_negation_window_bounds_the_search() {
    let lexicon =
        DefaultHpoMapper::from_map(&pairs(&[("fever", "HP:0001945")]), false).unwrap();
    let cues = vec!["no".to_string()];
    let matcher = SentenceMapper::with_negation(lexicon, &cues, 1);
    let text = "no high fever";
    let tokens = vec![
        SimpleToken::new("no", 0, 2),
        SimpleToken::new("high", 3, 7),
        SimpleToken::new("fever", 8, 13),
    ];
    let mentions = matcher.map_sentence(text, &tokens).unwrap();
    assert_eq!(mentions.len(), 1);
    // The cue stands two tokens back, outside the one-token window.
    assert!(mentions[0].is_observed());
}

#[test]
fn empty_sentence_maps_to_empty_result() {
    let lexicon =
        DefaultHpoMapper::from_map(&pairs(&[("fever", "HP:0001945")]), false).unwrap();
    let matcher = SentenceMapper::new(lexicon);
    let mentions = matcher.map_sentence("anything", &Vec::new()).unwrap();
    assert!(mentions.is_empty());
}

#[test]
fn document_splits_sentences_and_tokens() {
    let doc = CoreDocument::new("Fever noted. No rash!");
    let sentences = doc.get_sentences();
    assert_eq!(sentences.len(), 2);
    let first = sentences[0].get_tokens();
    assert_eq!(first.len(), 2);
    assert_eq!(first[0].token(), "Fever");
    assert_eq!(first[0].start_pos(), 0);
    assert_eq!(first[0].end_pos(), 5);
    assert_eq!(first[1].token(), "noted");
    let second = sentences[1].get_tokens();
    assert_eq!(second.len(), 2);
    assert_eq!(second[0].token(), "No");
    assert_eq!(second[1].token(), "rash");
}

#[test]
fn text_without_terminal_punctuation_is_one_sentence() {
    let doc = CoreDocument::new("fever");
    assert_eq!(doc.get_sentences().len(), 1);
    assert_eq!(doc.get_sentences()[0].get_tokens().len(), 1);
}

#[test]
fn mention_owns_its_token_slice() {
    let mapper =
        ClinicalMapper::from_map(&pairs(&[("high fever", "HP:0025438")]), false).unwrap();
    let mentions = mapper.map_text("High fever noted.");
    let tokens = mentions[0].get_tokens();
    assert_eq!(tokens.len(), 2);
    assert_eq!(tokens[0].token(), "High");
    assert_eq!(tokens[0].start_pos(), 0);
    assert_eq!(tokens[0].end_pos(), 4);
    assert_eq!(tokens[1].token(), "fever");
    assert_eq!(tokens[1].start_pos(), 5);
    assert_eq!(tokens[1].end_pos(), 10);
}

#[test]
fn adjacent_matches_do_not_overlap() {
    let mapper = ClinicalMapper::from_map(
        &pairs(&[("fever", "HP:0001945"), ("fever rash", "HP:0000988")]),
        false,
    )
    .unwrap();
    // Longest match consumes both tokens; the single-token phrase cannot
    // match inside the consumed span again.
    let mentions = mapper.map_text("fever rash fever");
    assert_eq!(mentions.len(), 2);
    assert_eq!(mentions[0].term_id(), &TermId::new("HP:0000988"));
    assert_eq!(mentions[0].matching_string(), "fever rash");
    assert_eq!(mentions[1].term_id(), &TermId::new("HP:0001945"));
    assert_eq!(mentions[1].start_pos(), 11);
}
