use vstd::prelude::*;
use crate::simple_token::{token_views, SimpleToken};
use crate::term_id::TermId;
use crate::text::{char_seqs, chars_eq, norm_phrase, phrase_at};

verus! {

/// Why building a lexicon failed.
#[derive(Debug, Clone, Copy, PartialEq, Eq, Structural)]
pub enum LexiconError {
    /// Two phrases with the same normalized form were registered for
    /// different concept identifiers.
    PhraseConflict,
    /// A phrase normalized to zero tokens.
    EmptyPhrase,
}

/// One lexicon entry: a normalized phrase mapped to a concept identifier.
#[derive(Debug)]
pub struct LexiconEntry {
    phrase: Vec<Vec<char>>,
    tid: TermId,
}

/// The mathematical content of one lexicon entry.
pub struct EntryModel {
    pub phrase: Seq<Seq<char>>,
    pub tid: Seq<char>,
}

impl View for LexiconEntry {
    type V = EntryModel;

    closed spec fn view(&self) -> EntryModel {
        EntryModel { phrase: char_seqs(self.phrase@), tid: self.tid@ }
    }
}

/// The models of an entry sequence.
pub open spec fn entry_views(s: Seq<LexiconEntry>) -> Seq<EntryModel> {
    s.map_values(|e: LexiconEntry| e@)
}

/// The mathematical content of a lexicon: the phrase table and the length of
/// its longest phrase.
pub struct LexModel {
    pub phrases: Map<Seq<Seq<char>>, Seq<char>>,
    pub max_len: int,
}

/// The phrase table that a sequence of entries denotes, later entries
/// overwriting earlier ones.
pub open spec fn lex_map(entries: Seq<EntryModel>) -> Map<Seq<Seq<char>>, Seq<char>>
    decreases entries.len(),
{
    if entries.len() == 0 {
        Map::empty()
    } else {
        lex_map(entries.drop_last()).insert(entries.last().phrase, entries.last().tid)
    }
}

/// A phrase is in the table exactly when some entry carries it.
pub proof fn lemma_lex_map_domain(entries: Seq<EntryModel>, p: Seq<Seq<char>>)
    ensures
        lex_map(entries).contains_key(p) <==> exists|i: int|
            0 <= i < entries.len() && (#[trigger] entries[i]).phrase == p,
    decreases entries.len(),
{
    if entries.len() > 0 {
        lemma_lex_map_domain(entries.drop_last(), p);
        if lex_map(entries).contains_key(p) {
            if entries.last().phrase != p {
                let i = choose|i: int|
                    0 <= i < entries.drop_last().len() && (#[trigger] entries.drop_last()[i]).phrase
                        == p;
                assert(entries[i].phrase == p);
            } else {
                assert(entries[entries.len() - 1].phrase == p);
            }
        }
        if exists|i: int| 0 <= i < entries.len() && (#[trigger] entries[i]).phrase == p {
            let i = choose|i: int| 0 <= i < entries.len() && (#[trigger] entries[i]).phrase == p;
            if i < entries.len() - 1 {
                assert(entries.drop_last()[i].phrase == p);
            }
        }
    }
}

/// Distinct phrases across the entries.
pub open spec fn entries_unique(entries: Seq<EntryModel>) -> bool {
    forall|i: int, j: int|
        0 <= i < j < entries.len() ==> (#[trigger] entries[i]).phrase != (
        #[trigger] entries[j]).phrase
}

/// Under distinct phrases, the table maps each entry's phrase to its
/// identifier.
pub proof fn lemma_lex_map_value(entries: Seq<EntryModel>, i: int)
    requires
        entries_unique(entries),
        0 <= i < entries.len(),
    ensures
        lex_map(entries).contains_key(entries[i].phrase),
        lex_map(entries)[entries[i].phrase] == entries[i].tid,
    decreases entries.len(),
{
    if i == entries.len() - 1 {
        lemma_lex_map_domain(entries, entries[i].phrase);
    } else {
        assert(entries_unique(entries.drop_last()));
        lemma_lex_map_value(entries.drop_last(), i);
        assert(entries.drop_last()[i] == entries[i]);
        assert(entries.last().phrase != entries[i].phrase);
    }
}

/// The lexicon: an immutable lookup table from normalized multi-token phrases
/// to concept identifiers, together with the longest phrase length.
#[derive(Debug)]
pub struct DefaultHpoMapper {
    entries: Vec<LexiconEntry>,
    max_len: usize,
}

impl View for DefaultHpoMapper {
    type V = LexModel;

    closed spec fn view(&self) -> LexModel {
        LexModel { phrases: lex_map(entry_views(self.entries@)), max_len: self.max_len as int }
    }
}

impl DefaultHpoMapper {
    /// Internal consistency: phrases are distinct, non-empty, and no longer
    /// than the recorded maximum.
    pub closed spec fn wf(&self) -> bool {
        &&& entries_unique(entry_views(self.entries@))
        &&& forall|i: int|
            0 <= i < self.entries@.len() ==> 1 <= (#[trigger] entry_views(self.entries@)[i]).phrase.len()
                <= self.max_len as int
    }

    /// Every phrase of a well-formed lexicon has between one token and
    /// `max_len` tokens.
    pub proof fn lemma_wf_phrase_lens(&self, p: Seq<Seq<char>>)
        requires
            self.wf(),
            self@.phrases.contains_key(p),
        ensures
            1 <= p.len() <= self@.max_len,
    {
        lemma_lex_map_domain(entry_views(self.entries@), p);
        let i = choose|i: int|
            0 <= i < entry_views(self.entries@).len() && (#[trigger] entry_views(
                self.entries@,
            )[i]).phrase == p;
        assert(entry_views(self.entries@)[i].phrase == p);
    }

    /// The length of the longest phrase in the lexicon.
    pub fn max_phrase_len(&self) -> (r: usize)
        ensures
            r as int == self@.max_len,
    {
        self.max_len
    }

    /// Build a lexicon from explicit (phrase, identifier) pairs, registered
    /// in order. A phrase that normalizes to zero tokens is rejected; a
    /// phrase registered again under a different identifier is a conflict,
    /// fatal unless `last_wins` was chosen, in which case the later entry
    /// wins.
    pub fn from_map(pairs: &Vec<(String, TermId)>, last_wins: bool) -> (r: Result<
        Self,
        LexiconError,
    >)
        ensures
            match r {
                Ok(lex) => lex.wf() && spec_build(pair_views(pairs@), last_wins)
                    == Ok::<LexModel, LexiconError>(lex@),
                Err(e) => spec_build(pair_views(pairs@), last_wins) == Err::<
                    LexModel,
                    LexiconError,
                >(e),
            },
    {
        let mut entries: Vec<LexiconEntry> = Vec::new();
        let mut max_len: usize = 0;
        let n = pairs.len();
        let mut idx: usize = 0;
        while idx < n
            invariant
                idx <= n,
                n == pairs@.len(),
                entries_unique(entry_views(entries@)),
                forall|i: int|
                    0 <= i < entries@.len() ==> 1 <= (#[trigger] entry_views(
                        entries@,
                    )[i]).phrase.len() <= max_len as int,
                spec_build(pair_views(pairs@).subrange(0, idx as int), last_wins) == Ok::<
                    LexModel,
                    LexiconError,
                >(
                    LexModel {
                        phrases: lex_map(entry_views(entries@)),
                        max_len: max_len as int,
                    },
                ),
            decreases n - idx,
        {
            let ghost prefix = pair_views(pairs@).subrange(0, idx as int);
            let ghost step = pair_views(pairs@).subrange(0, idx as int + 1);
            let ghost cur = LexModel {
                phrases: lex_map(entry_views(entries@)),
                max_len: max_len as int,
            };
            proof {
                assert(step.drop_last() =~= prefix);
                assert(step.last() == pair_views(pairs@)[idx as int]);
                assert(pair_views(pairs@)[idx as int].0 == pairs@[idx as int].0@);
                assert(pair_views(pairs@)[idx as int].1 == pairs@[idx as int].1@);
            }
            let words = crate::core_document::norm_words(pairs[idx].0.as_str());
            let ghost p = norm_phrase(pairs@[idx as int].0@);
            if words.len() == 0 {
                proof {
                    assert(spec_build(step, last_wins) == Err::<LexModel, LexiconError>(
                        LexiconError::EmptyPhrase,
                    ));
                    lemma_spec_build_err(pair_views(pairs@), last_wins, idx as int + 1);
                }
                return Err(LexiconError::EmptyPhrase);
            }
            match find_phrase(&entries, &words) {
                Some(i) => {
                    proof {
                        lemma_lex_map_value(entry_views(entries@), i as int);
                    }
                    if entries[i].tid == pairs[idx].1 {
                        proof {
                            assert(cur.phrases.insert(p, pairs@[idx as int].1@) =~= cur.phrases);
                            assert(spec_build(step, last_wins) == Ok::<LexModel, LexiconError>(
                                cur,
                            ));
                        }
                    } else if last_wins {
                        let ghost old_entries = entries@;
                        let tid = pairs[idx].1.clone();
                        let e2 = LexiconEntry { phrase: words, tid };
                        proof {
                            assert(e2@.phrase == entry_views(entries@)[i as int].phrase);
                        }
                        entries.set(i, e2);
                        proof {
                            assert(entry_views(entries@) =~= entry_views(old_entries).update(
                                i as int,
                                entry_views(entries@)[i as int],
                            ));
                            lemma_lex_map_update(
                                entry_views(old_entries),
                                i as int,
                                entry_views(entries@)[i as int],
                            );
                            assert forall|a: int, b: int|
                                0 <= a < b < entry_views(entries@).len() implies (
                            #[trigger] entry_views(entries@)[a]).phrase != (#[trigger] entry_views(
                                entries@,
                            )[b]).phrase by {
                                assert(entry_views(entries@)[a].phrase == entry_views(
                                    old_entries,
                                )[a].phrase);
                                assert(entry_views(entries@)[b].phrase == entry_views(
                                    old_entries,
                                )[b].phrase);
                            }
                            assert forall|k: int| 0 <= k < entries@.len() implies 1 <= (
                            #[trigger] entry_views(entries@)[k]).phrase.len()
                                <= max_len as int by {
                                assert(entry_views(entries@)[k].phrase == entry_views(
                                    old_entries,
                                )[k].phrase);
                            }
                            assert(spec_build(step, last_wins) == Ok::<LexModel, LexiconError>(
                                LexModel {
                                    phrases: lex_map(entry_views(entries@)),
                                    max_len: max_len as int,
                                },
                            ));
                        }
                    } else {
                        proof {
                            assert(spec_build(step, last_wins) == Err::<LexModel, LexiconError>(
                                LexiconError::PhraseConflict,
                            ));
                            lemma_spec_build_err(pair_views(pairs@), last_wins, idx as int + 1);
                        }
                        return Err(LexiconError::PhraseConflict);
                    }
                },
                None => {
                    proof {
                        lemma_lex_map_domain(entry_views(entries@), p);
                    }
                    let ghost old_entries = entries@;
                    let tid = pairs[idx].1.clone();
                    let wl = words.len();
                    entries.push(LexiconEntry { phrase: words, tid });
                    if wl > max_len {
                        max_len = wl;
                    }
                    proof {
                        assert(entry_views(entries@).drop_last() =~= entry_views(old_entries));
                        assert(entry_views(entries@).last().phrase == p);
                        assert(entry_views(entries@).last().tid == pairs@[idx as int].1@);
                        assert forall|a: int, b: int|
                            0 <= a < b < entry_views(entries@).len() implies (
                        #[trigger] entry_views(entries@)[a]).phrase != (#[trigger] entry_views(
                            entries@,
                        )[b]).phrase by {
                            if b < entry_views(entries@).len() - 1 {
                                assert(entry_views(entries@)[a] == entry_views(old_entries)[a]);
                                assert(entry_views(entries@)[b] == entry_views(old_entries)[b]);
                            } else {
                                assert(entry_views(entries@)[a] == entry_views(old_entries)[a]);
                            }
                        }
                        assert forall|k: int| 0 <= k < entries@.len() implies 1 <= (
                        #[trigger] entry_views(entries@)[k]).phrase.len() <= max_len as int by {
                            if k < entries@.len() - 1 {
                                assert(entry_views(entries@)[k] == entry_views(old_entries)[k]);
                            } else {
                                assert(entry_views(entries@)[k].phrase.len() == wl as int);
                            }
                        }
                        assert(spec_build(step, last_wins) == Ok::<LexModel, LexiconError>(
                            LexModel {
                                phrases: lex_map(entry_views(entries@)),
                                max_len: max_len as int,
                            },
                        ));
                    }
                },
            }
            idx += 1;
        }
        proof {
            assert(pair_views(pairs@).subrange(0, n as int) =~= pair_views(pairs@));
        }
        Ok(DefaultHpoMapper { entries, max_len })
    }

    /// Look the given token window up in the lexicon: the window matches an
    /// entry when the case-folded forms of its tokens equal the entry's
    /// phrase, word for word.
    pub fn lookup_window(&self, tokens: &Vec<SimpleToken>, start: usize, len: usize) -> (r: Option<
        &TermId,
    >)
        requires
            self.wf(),
            start + len <= tokens@.len(),
    ensures
        match r {
            Some(tid) => self@.phrases.contains_key(
                phrase_at(token_views(tokens@), start as int, len as int),
            ) && tid@ == self@.phrases[phrase_at(token_views(tokens@), start as int, len as int)],
            None => !self@.phrases.contains_key(
                phrase_at(token_views(tokens@), start as int, len as int),
            ),
        },
    {
        let ghost win = phrase_at(token_views(tokens@), start as int, len as int);
        let n = self.entries.len();
        let mut idx: usize = 0;
        while idx < n
            invariant
                self.wf(),
                start + len <= tokens@.len(),
                idx <= n,
                n == self.entries@.len(),
                win == phrase_at(token_views(tokens@), start as int, len as int),
                forall|e: int|
                    0 <= e < idx as int ==> (#[trigger] entry_views(self.entries@)[e]).phrase
                        != win,
            decreases n - idx,
        {
            let entry = &self.entries[idx];
            if entry.phrase.len() == len && window_matches(&entry.phrase, tokens, start, len) {
                proof {
                    assert(entry_views(self.entries@)[idx as int].phrase == win);
                    lemma_lex_map_value(entry_views(self.entries@), idx as int);
                }
                return Some(&entry.tid);
            }
            proof {
                if entry_views(self.entries@)[idx as int].phrase == win {
                    assert(char_seqs(entry.phrase@).len() == win.len());
                }
            }
            idx += 1;
        }
        proof {
            lemma_lex_map_domain(entry_views(self.entries@), win);
        }
        None
    }
}

/// The contents of a sequence of (phrase, identifier) pairs.
pub open spec fn pair_views(pairs: Seq<(String, TermId)>) -> Seq<(Seq<char>, Seq<char>)> {
    pairs.map_values(|p: (String, TermId)| (p.0@, p.1@))
}

/// What registering the pairs one after the other yields: each phrase is
/// normalized and entered under its identifier. A phrase that normalizes to
/// zero tokens is rejected. A phrase already present under a different
/// identifier is a conflict, fatal unless `last_wins` lets the later entry
/// overwrite the earlier one.
pub open spec fn spec_build(pairs: Seq<(Seq<char>, Seq<char>)>, last_wins: bool) -> Result<
    LexModel,
    LexiconError,
>
    decreases pairs.len(),
{
    if pairs.len() == 0 {
        Ok(LexModel { phrases: Map::empty(), max_len: 0 })
    } else {
        match spec_build(pairs.drop_last(), last_wins) {
            Err(e) => Err(e),
            Ok(m) => {
                let p = norm_phrase(pairs.last().0);
                if p.len() == 0 {
                    Err(LexiconError::EmptyPhrase)
                } else if m.phrases.contains_key(p) && m.phrases[p] != pairs.last().1
                    && !last_wins {
                    Err(LexiconError::PhraseConflict)
                } else {
                    Ok(
                        LexModel {
                            phrases: m.phrases.insert(p, pairs.last().1),
                            max_len: if p.len() > m.max_len {
                                p.len() as int
                            } else {
                                m.max_len
                            },
                        },
                    )
                }
            },
        }
    }
}

/// Once a prefix of the pairs fails to build, the whole sequence fails the
/// same way.
pub proof fn lemma_spec_build_err(pairs: Seq<(Seq<char>, Seq<char>)>, last_wins: bool, k: int)
    requires
        0 <= k <= pairs.len(),
        spec_build(pairs.subrange(0, k), last_wins) is Err,
    ensures
        spec_build(pairs, last_wins) == spec_build(pairs.subrange(0, k), last_wins),
    decreases pairs.len(),
{
    if k == pairs.len() {
        assert(pairs.subrange(0, k) =~= pairs);
    } else {
        assert(pairs.drop_last().subrange(0, k) =~= pairs.subrange(0, k));
        lemma_spec_build_err(pairs.drop_last(), last_wins, k);
    }
}

/// Overwriting the identifier of the entry that carries a phrase changes the
/// table the way a fresh insertion would.
pub proof fn lemma_lex_map_update(entries: Seq<EntryModel>, i: int, e2: EntryModel)
    requires
        entries_unique(entries),
        0 <= i < entries.len(),
        e2.phrase == entries[i].phrase,
    ensures
        lex_map(entries.update(i, e2)) =~= lex_map(entries).insert(e2.phrase, e2.tid),
    decreases entries.len(),
{
    if i == entries.len() - 1 {
        assert(entries.update(i, e2).drop_last() =~= entries.drop_last());
        assert(entries.update(i, e2).last() == e2);
    } else {
        assert(entries_unique(entries.drop_last()));
        assert(entries.drop_last()[i] == entries[i]);
        lemma_lex_map_update(entries.drop_last(), i, e2);
        assert(entries.update(i, e2).drop_last() =~= entries.drop_last().update(i, e2));
        assert(entries.update(i, e2).last() == entries.last());
        assert(entries.last().phrase != e2.phrase);
        assert(lex_map(entries.update(i, e2)) =~= lex_map(entries).insert(e2.phrase, e2.tid));
    }
}

/// Find the entry that carries the given normalized phrase, if any.
fn find_phrase(entries: &Vec<LexiconEntry>, words: &Vec<Vec<char>>) -> (r: Option<usize>)
    ensures
        match r {
            Some(i) => i < entries@.len() && entry_views(entries@)[i as int].phrase == char_seqs(
                words@,
            ),
            None => forall|e: int|
                0 <= e < entries@.len() ==> (#[trigger] entry_views(entries@)[e]).phrase
                    != char_seqs(words@),
        },
{
    let n = entries.len();
    let mut idx: usize = 0;
    while idx < n
        invariant
            idx <= n,
            n == entries@.len(),
            forall|e: int|
                0 <= e < idx as int ==> (#[trigger] entry_views(entries@)[e]).phrase != char_seqs(
                    words@,
                ),
        decreases n - idx,
    {
        if phrases_eq(&entries[idx].phrase, words) {
            return Some(idx);
        }
        idx += 1;
    }
    None
}

/// Compare two normalized phrases word for word.
fn phrases_eq(a: &Vec<Vec<char>>, b: &Vec<Vec<char>>) -> (r: bool)
    ensures
        r == (char_seqs(a@) == char_seqs(b@)),
{
    if a.len() != b.len() {
        proof {
            assert(char_seqs(a@).len() != char_seqs(b@).len());
        }
        return false;
    }
    let n = a.len();
    let mut k: usize = 0;
    while k < n
        invariant
            k <= n,
            n == a@.len() && n == b@.len(),
            forall|m: int| 0 <= m < k as int ==> char_seqs(a@)[m] == char_seqs(b@)[m],
        decreases n - k,
    {
        if !chars_eq(&a[k], &b[k]) {
            proof {
                assert(char_seqs(a@)[k as int] == a@[k as int]@);
                assert(char_seqs(b@)[k as int] == b@[k as int]@);
                assert(char_seqs(a@) != char_seqs(b@));
            }
            return false;
        }
        proof {
            assert(char_seqs(a@)[k as int] == a@[k as int]@);
            assert(char_seqs(b@)[k as int] == b@[k as int]@);
        }
        k += 1;
    }
    proof {
        assert(char_seqs(a@) =~= char_seqs(b@));
    }
    true
}

/// Compare an entry phrase with the case-folded forms of a token window.
fn window_matches(phrase: &Vec<Vec<char>>, tokens: &Vec<SimpleToken>, start: usize, len: usize) -> (r:
    bool)
    requires
        start + len <= tokens@.len(),
        phrase@.len() == len as int,
    ensures
        r == (char_seqs(phrase@) == phrase_at(token_views(tokens@), start as int, len as int)),
{
    let ghost win = phrase_at(token_views(tokens@), start as int, len as int);
    let tlen = tokens.len();
    let mut k: usize = 0;
    while k < len
        invariant
            k <= len,
            tlen == tokens@.len(),
            start + len <= tokens@.len(),
            phrase@.len() == len as int,
            win == phrase_at(token_views(tokens@), start as int, len as int),
            forall|m: int| 0 <= m < k as int ==> char_seqs(phrase@)[m] == win[m],
        decreases len - k,
    {
        if !chars_eq(&phrase[k], tokens[start + k].norm()) {
            proof {
                assert(char_seqs(phrase@)[k as int] == phrase@[k as int]@);
                assert(win[k as int] == token_views(tokens@)[start as int + k as int].norm);
                assert(char_seqs(phrase@) != win);
            }
            return false;
        }
        proof {
            assert(char_seqs(phrase@)[k as int] == phrase@[k as int]@);
            assert(win[k as int] == token_views(tokens@)[start as int + k as int].norm);
        }
        k += 1;
    }
    proof {
        assert(char_seqs(phrase@) =~= win);
    }
    true
}

} // verus!
