use vstd::prelude::*;
use ontolius::ontology::{HierarchyWalks, OntologyTerms};
use ontolius::term::{MinimalTerm, Synonymous};
use ontolius::Identified;
use crate::term_id::TermId;

verus! {

/// One concept as the ontology service reports it: its identifier, its
/// primary label, and its synonym phrases, all as plain values.
#[derive(Debug)]
pub struct ConceptRecord {
    pub term_id: TermId,
    pub label: String,
    pub synonyms: Vec<String>,
}

/// The mathematical content of one concept record.
pub struct ConceptModel {
    pub term_id: Seq<char>,
    pub label: Seq<char>,
    pub synonyms: Seq<Seq<char>>,
}

impl View for ConceptRecord {
    type V = ConceptModel;

    open spec fn view(&self) -> ConceptModel {
        ConceptModel {
            term_id: self.term_id@,
            label: self.label@,
            synonyms: self.synonyms@.map_values(|s: String| s@),
        }
    }
}

/// The models of a record sequence.
pub open spec fn record_views(s: Seq<ConceptRecord>) -> Seq<ConceptModel> {
    s.map_values(|r: ConceptRecord| r@)
}

/// Relies on ontolius's `OntologyTerms::iter_terms`, `Identified::identifier`,
/// `MinimalTerm::name` and `Synonymous::synonyms`: one record per primary
/// term, holding its identifier as CURIE text, its name, and the names of its
/// synonyms. The contents come from the ontology, so nothing is promised of
/// them.
#[verifier::external_body]
pub fn collect_concepts<O>(hpo: &O) -> (r: Vec<ConceptRecord>) where
    O: OntologyTerms,
    O::Term: MinimalTerm + Synonymous,

{
    let mut out: Vec<ConceptRecord> = Vec::new();
    for t in hpo.iter_terms() {
        let mut synonyms: Vec<String> = Vec::new();
        for s in t.synonyms() {
            synonyms.push(s.name.clone());
        }
        out.push(
            ConceptRecord {
                term_id: TermId::new(&t.identifier().to_string()),
                label: t.name().to_owned(),
                synonyms,
            },
        );
    }
    out
}

/// Relies on ontolius's `HierarchyWalks::iter_descendant_ids`: for each
/// primary term, the identifiers of its descendants, as CURIE text. The
/// contents come from the ontology, so nothing is promised of them.
#[verifier::external_body]
pub fn collect_descendant_links<O>(hpo: &O) -> (r: Vec<(TermId, Vec<TermId>)>) where
    O: OntologyTerms + HierarchyWalks,
    O::Term: MinimalTerm,

{
    let mut out: Vec<(TermId, Vec<TermId>)> = Vec::new();
    for t in hpo.iter_terms() {
        let mut ids: Vec<TermId> = Vec::new();
        for d in hpo.iter_descendant_ids(t.identifier()) {
            ids.push(TermId::new(&d.to_string()));
        }
        out.push((TermId::new(&t.identifier().to_string()), ids));
    }
    out
}

/// Relies on ontolius's `HierarchyWalks::iter_ancestor_ids`: for each primary
/// term, the identifiers of its ancestors, as CURIE text. The contents come
/// from the ontology, so nothing is promised of them.
#[verifier::external_body]
pub fn collect_ancestor_links<O>(hpo: &O) -> (r: Vec<(TermId, Vec<TermId>)>) where
    O: OntologyTerms + HierarchyWalks,
    O::Term: MinimalTerm,

{
    let mut out: Vec<(TermId, Vec<TermId>)> = Vec::new();
    for t in hpo.iter_terms() {
        let mut ids: Vec<TermId> = Vec::new();
        for a in hpo.iter_ancestor_ids(t.identifier()) {
            ids.push(TermId::new(&a.to_string()));
        }
        out.push((TermId::new(&t.identifier().to_string()), ids));
    }
    out
}

/// The contents of a sequence of hierarchy links.
pub open spec fn link_views(s: Seq<(TermId, Vec<TermId>)>) -> Seq<(Seq<char>, Seq<Seq<char>>)> {
    s.map_values(|l: (TermId, Vec<TermId>)| (l.0@, l.1@.map_values(|t: TermId| t@)))
}

/// The (phrase, identifier) pairs that one concept contributes when its
/// phrases are registered under the given identifier: first the label, then
/// each synonym.
pub open spec fn record_pairs_under(r: ConceptModel, under: Seq<char>) -> Seq<
    (Seq<char>, Seq<char>),
> {
    seq![(r.label, under)] + r.synonyms.map_values(|s: Seq<char>| (s, under))
}

/// The pairs that registering every concept under its own identifier yields,
/// in order.
pub open spec fn spec_registrations(records: Seq<ConceptModel>) -> Seq<(Seq<char>, Seq<char>)>
    decreases records.len(),
{
    if records.len() == 0 {
        Seq::empty()
    } else {
        spec_registrations(records.drop_last()) + record_pairs_under(
            records.last(),
            records.last().term_id,
        )
    }
}

/// The first record that carries the given identifier, if any.
pub open spec fn find_record(records: Seq<ConceptModel>, id: Seq<char>) -> Option<ConceptModel>
    decreases records.len(),
{
    if records.len() == 0 {
        Option::None
    } else if records[0].term_id == id {
        Option::Some(records[0])
    } else {
        find_record(records.drop_first(), id)
    }
}

/// The pairs that hierarchy expansion contributes for one concept: the
/// phrases of every related concept, registered under that concept's own
/// identifier.
pub open spec fn spec_expansion_for(
    records: Seq<ConceptModel>,
    under: Seq<char>,
    ids: Seq<Seq<char>>,
) -> Seq<(Seq<char>, Seq<char>)>
    decreases ids.len(),
{
    if ids.len() == 0 {
        Seq::empty()
    } else {
        spec_expansion_for(records, under, ids.drop_last()) + match find_record(
            records,
            ids.last(),
        ) {
            Option::Some(r) => record_pairs_under(r, under),
            Option::None => Seq::empty(),
        }
    }
}

/// The pairs that hierarchy expansion contributes for the whole concept set.
pub open spec fn spec_expansion(
    records: Seq<ConceptModel>,
    links: Seq<(Seq<char>, Seq<Seq<char>>)>,
) -> Seq<(Seq<char>, Seq<char>)>
    decreases links.len(),
{
    if links.len() == 0 {
        Seq::empty()
    } else {
        spec_expansion(records, links.drop_last()) + spec_expansion_for(
            records,
            links.last().0,
            links.last().1,
        )
    }
}

/// Append the pairs of one concept, registered under the given identifier.
fn push_record_pairs(out: &mut Vec<(String, TermId)>, rec: &ConceptRecord, under: &TermId)
    ensures
        crate::default_hpo_mapper::pair_views(final(out)@) == crate::default_hpo_mapper::pair_views(
            old(out)@,
        ) + record_pairs_under(rec@, under@),
{
    let ghost base = crate::default_hpo_mapper::pair_views(out@);
    let ghost goal = record_pairs_under(rec@, under@);
    out.push((rec.label.clone(), under.clone()));
    proof {
        assert(crate::default_hpo_mapper::pair_views(out@) =~= base + goal.subrange(0, 1));
    }
    let n = rec.synonyms.len();
    let mut k: usize = 0;
    while k < n
        invariant
            k <= n,
            n == rec.synonyms@.len(),
            goal == record_pairs_under(rec@, under@),
            goal.len() == 1 + n as int,
            crate::default_hpo_mapper::pair_views(out@) == base + goal.subrange(0, 1 + k as int),
        decreases n - k,
    {
        let ghost prev = crate::default_hpo_mapper::pair_views(out@);
        out.push((rec.synonyms[k].clone(), under.clone()));
        proof {
            assert(rec@.synonyms[k as int] == rec.synonyms@[k as int]@);
            assert(goal[1 + k as int] == (rec@.synonyms[k as int], under@));
            assert(crate::default_hpo_mapper::pair_views(out@) =~= prev + seq![
                goal[1 + k as int],
            ]);
            assert(goal.subrange(0, 1 + k as int + 1) =~= goal.subrange(0, 1 + k as int) + seq![
                goal[1 + k as int],
            ]);
        }
        k += 1;
    }
    proof {
        assert(goal.subrange(0, 1 + n as int) =~= goal);
    }
}

/// The registration pairs of a concept set: every concept's label and
/// synonyms under its own identifier, in order.
pub fn registrations_of(records: &Vec<ConceptRecord>) -> (r: Vec<(String, TermId)>)
    ensures
        crate::default_hpo_mapper::pair_views(r@) == spec_registrations(record_views(records@)),
{
    let mut out: Vec<(String, TermId)> = Vec::new();
    let n = records.len();
    let mut idx: usize = 0;
    while idx < n
        invariant
            idx <= n,
            n == records@.len(),
            crate::default_hpo_mapper::pair_views(out@) == spec_registrations(
                record_views(records@).subrange(0, idx as int),
            ),
        decreases n - idx,
    {
        let ghost pre = record_views(records@).subrange(0, idx as int);
        let ghost step = record_views(records@).subrange(0, idx as int + 1);
        proof {
            assert(step.drop_last() =~= pre);
            assert(step.last() == record_views(records@)[idx as int]);
        }
        push_record_pairs(&mut out, &records[idx], &records[idx].term_id);
        idx += 1;
    }
    proof {
        assert(record_views(records@).subrange(0, n as int) =~= record_views(records@));
    }
    out
}

/// Find the first record that carries the given identifier.
fn find_concept(records: &Vec<ConceptRecord>, id: &TermId) -> (r: Option<usize>)
    ensures
        match r {
            Some(i) => i < records@.len() && record_views(records@)[i as int].term_id == id@
                && find_record(record_views(records@), id@) == Option::Some(
                record_views(records@)[i as int],
            ),
            None => find_record(record_views(records@), id@) is None,
        },
{
    let n = records.len();
    let mut idx: usize = 0;
    proof {
        assert(record_views(records@).skip(0) =~= record_views(records@));
    }
    while idx < n
        invariant
            idx <= n,
            n == records@.len(),
            find_record(record_views(records@), id@) == find_record(
                record_views(records@).skip(idx as int),
                id@,
            ),
        decreases n - idx,
    {
        let ghost rest = record_views(records@).skip(idx as int);
        proof {
            assert(rest[0] == record_views(records@)[idx as int]);
        }
        if records[idx].term_id == *id {
            return Some(idx);
        }
        proof {
            assert(rest.drop_first() =~= record_views(records@).skip(idx as int + 1));
        }
        idx += 1;
    }
    proof {
        assert(record_views(records@).skip(n as int) =~= Seq::<ConceptModel>::empty());
    }
    None
}

/// The expansion pairs of a concept set under its hierarchy links: for each
/// concept, the phrases of every related concept registered under that
/// concept's own identifier, in order.
pub fn expansion_of(records: &Vec<ConceptRecord>, links: &Vec<(TermId, Vec<TermId>)>) -> (r: Vec<
    (String, TermId),
>)
    ensures
        crate::default_hpo_mapper::pair_views(r@) == spec_expansion(
            record_views(records@),
            link_views(links@),
        ),
{
    let ghost recs = record_views(records@);
    let mut out: Vec<(String, TermId)> = Vec::new();
    let n = links.len();
    let mut idx: usize = 0;
    while idx < n
        invariant
            idx <= n,
            n == links@.len(),
            recs == record_views(records@),
            crate::default_hpo_mapper::pair_views(out@) == spec_expansion(
                recs,
                link_views(links@).subrange(0, idx as int),
            ),
        decreases n - idx,
    {
        let ghost pre = link_views(links@).subrange(0, idx as int);
        let ghost step = link_views(links@).subrange(0, idx as int + 1);
        let ghost under = link_views(links@)[idx as int].0;
        let ghost ids = link_views(links@)[idx as int].1;
        proof {
            assert(step.drop_last() =~= pre);
            assert(step.last() == link_views(links@)[idx as int]);
            assert(under == links@[idx as int].0@);
            assert(ids == links@[idx as int].1@.map_values(|t: TermId| t@));
        }
        let m = links[idx].1.len();
        let mut k: usize = 0;
        while k < m
            invariant
                k <= m,
                idx < n,
                n == links@.len(),
                m == links@[idx as int].1@.len(),
                recs == record_views(records@),
                under == link_views(links@)[idx as int].0,
                ids == link_views(links@)[idx as int].1,
                under == links@[idx as int].0@,
                ids.len() == m as int,
                crate::default_hpo_mapper::pair_views(out@) == spec_expansion(
                    recs,
                    link_views(links@).subrange(0, idx as int),
                ) + spec_expansion_for(recs, under, ids.subrange(0, k as int)),
            decreases m - k,
        {
            let ghost ipre = ids.subrange(0, k as int);
            let ghost istep = ids.subrange(0, k as int + 1);
            proof {
                assert(istep.drop_last() =~= ipre);
                assert(istep.last() == ids[k as int]);
                assert(ids[k as int] == links@[idx as int].1@[k as int]@);
            }
            let ghost before = crate::default_hpo_mapper::pair_views(out@);
            match find_concept(records, &links[idx].1[k]) {
                Some(ri) => {
                    push_record_pairs(&mut out, &records[ri], &links[idx].0);
                    proof {
                        assert(spec_expansion_for(recs, under, istep) == spec_expansion_for(
                            recs,
                            under,
                            ipre,
                        ) + record_pairs_under(recs[ri as int], under));
                        assert(crate::default_hpo_mapper::pair_views(out@) =~= spec_expansion(
                            recs,
                            link_views(links@).subrange(0, idx as int),
                        ) + spec_expansion_for(recs, under, istep));
                    }
                },
                None => {
                    proof {
                        assert(spec_expansion_for(recs, under, istep) =~= spec_expansion_for(
                            recs,
                            under,
                            ipre,
                        ));
                    }
                },
            }
            k += 1;
        }
        proof {
            assert(ids.subrange(0, m as int) =~= ids);
        }
        idx += 1;
    }
    proof {
        assert(link_views(links@).subrange(0, n as int) =~= link_views(links@));
    }
    out
}

} // verus!
