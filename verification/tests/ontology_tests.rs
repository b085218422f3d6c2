use std::collections::HashMap;

use ferriphene::clinical_mapper::{ClinicalMapper, HierarchyExpansion};
use ferriphene::term_id::TermId;
use ontolius::io::{GraphEdge, OntologyData, Relationship};
use ontolius::ontology::csr::FullCsrOntology;
use ontolius::term::simple::SimpleTerm;

fn onto_id(s: &str) -> ontolius::TermId {
    s.parse().expect("valid CURIE")
}

fn term(id: &str, name: &str) -> SimpleTerm {
    SimpleTerm::new(
        onto_id(id),
        name,
        Vec::<ontolius::TermId>::new(),
        false,
        None,
        None,
        vec![],
        vec![],
    )
}

/// A three-term hierarchy: motor seizure is-a seizure is-a phenotypic
/// abnormality.
fn sample_ontology() -> FullCsrOntology {
    let terms = vec![
        term("HP:0000001", "Phenotypic abnormality"),
        term("HP:0001250", "Seizure"),
        term("HP:0020219", "Motor seizure"),
    ];
    let edges = vec![
        GraphEdge::from((1u32, Relationship::Child, 0u32)),
        GraphEdge::from((2u32, Relationship::Child, 1u32)),
    ];
    let data = OntologyData::from((terms, edges, HashMap::new()));
    FullCsrOntology::try_from(data).expect("ontology builds")
}

#[test]
fn ontology_labels_are_mined() {
    let mapper = ClinicalMapper::new(&sample_ontology()).unwrap();
    let mentions = mapper.map_text("Motor seizure was observed.");
    assert_eq!(mentions.len(), 1);
    assert_eq!(mentions[0].term_id(), &TermId::new("HP:0020219"));
    assert_eq!(mentions[0].matching_string(), "Motor seizure");
    assert!(mentions[0].is_observed());
}

#[test]
fn descendant_expansion_mines_narrow_text_under_the_ancestor() {
    let mapper = ClinicalMapper::with_config(
        &sample_ontology(),
        HierarchyExpansion::Descendants,
        true,
    )
    .unwrap();
    // "Seizure" is re-registered under the root by the root's expansion,
    // which is the last write for that phrase.
    let mentions = mapper.map_text("A seizure occurred.");
    assert_eq!(mentions.len(), 1);
    assert_eq!(mentions[0].term_id(), &TermId::new("HP:0000001"));
    // "Motor seizure" is last written by the seizure concept's expansion.
    let narrower = mapper.map_text("Motor seizure seen.");
    assert_eq!(narrower.len(), 1);
    assert_eq!(narrower[0].term_id(), &TermId::new("HP:0001250"));
}

#[test]
fn ancestor_expansion_mines_broad_text_under_the_descendant() {
    let mapper = ClinicalMapper::with_config(
        &sample_ontology(),
        HierarchyExpansion::Ancestors,
        true,
    )
    .unwrap();
    // The deepest concept expands last, so its ancestors' phrases end up
    // registered under it.
    let mentions = mapper.map_text("A seizure occurred.");
    assert_eq!(mentions.len(), 1);
    assert_eq!(mentions[0].term_id(), &TermId::new("HP:0020219"));
}

#[test]
fn negation_applies_to_ontology_mentions_too() {
    let mapper = ClinicalMapper::new(&sample_ontology()).unwrap();
    let mentions = mapper.map_text("No seizure was reported.");
    assert_eq!(mentions.len(), 1);
    assert_eq!(mentions[0].term_id(), &TermId::new("HP:0001250"));
    assert!(!mentions[0].is_observed());
}
