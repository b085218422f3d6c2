use vstd::prelude::*;

verus! {

/// The mathematical content of one lexical token: its surface text, its
/// case-folded comparison form, and its character span in the source text.
pub struct TokenModel {
    pub text: Seq<char>,
    pub norm: Seq<char>,
    pub start: int,
    pub end: int,
}

/// The case-folded form of one character: an ASCII capital folds to its lower
/// case, every other character stays as it is.
pub open spec fn lower_char(c: char) -> char {
    if 65 <= c as u32 && c as u32 <= 90 {
        (((c as u32) + 32) as u8) as char
    } else {
        c
    }
}

/// The case-folded form of a character sequence.
pub open spec fn lower(s: Seq<char>) -> Seq<char> {
    s.map_values(|c: char| lower_char(c))
}

/// True of the characters that end a sentence.
pub open spec fn is_sentence_end(c: char) -> bool {
    c == '.' || c == '!' || c == '?'
}

/// True of the characters that separate tokens: whitespace and punctuation.
pub open spec fn is_separator(c: char) -> bool {
    ||| c == ' '
    ||| c == '\t'
    ||| c == '\n'
    ||| c == '\r'
    ||| is_sentence_end(c)
    ||| c == ','
    ||| c == ';'
    ||| c == ':'
    ||| c == '('
    ||| c == ')'
    ||| c == '"'
}

/// The token spanning `text[i..j)`.
pub open spec fn token_model_at(text: Seq<char>, i: int, j: int) -> TokenModel {
    TokenModel {
        text: text.subrange(i, j),
        norm: lower(text.subrange(i, j)),
        start: i,
        end: j,
    }
}

/// The index of the first separator at or after `i`, capped at `end`.
pub open spec fn run_end(text: Seq<char>, i: int, end: int) -> int
    decreases end - i,
{
    if i < 0 || i >= end || i >= text.len() {
        end
    } else if is_separator(text[i]) {
        i
    } else {
        run_end(text, i + 1, end)
    }
}

/// The tokens of `text[from..end)`: each maximal run of non-separator
/// characters, with its span and its case-folded form.
pub open spec fn spec_tokens_in(text: Seq<char>, from: int, end: int) -> Seq<TokenModel>
    decreases end - from,
{
    if from < 0 || from >= end || end > text.len() {
        Seq::empty()
    } else if is_separator(text[from]) {
        spec_tokens_in(text, from + 1, end)
    } else {
        let j = run_end(text, from, end);
        if from < j <= end {
            seq![token_model_at(text, from, j)] + spec_tokens_in(text, j, end)
        } else {
            Seq::empty()
        }
    }
}

/// The contents of a sequence of character vectors.
pub open spec fn char_seqs(s: Seq<Vec<char>>) -> Seq<Seq<char>> {
    s.map_values(|v: Vec<char>| v@)
}

/// The normalized phrase of the `l` tokens that start at position `i`: their
/// case-folded forms, in order.
pub open spec fn phrase_at(toks: Seq<TokenModel>, i: int, l: int) -> Seq<Seq<char>> {
    Seq::new(l as nat, |k: int| toks[i + k].norm)
}

/// The normalized phrase of a text: the case-folded forms of its tokens, in
/// order.
pub open spec fn norm_phrase(s: Seq<char>) -> Seq<Seq<char>> {
    spec_tokens_in(s, 0, s.len() as int).map_values(|t: TokenModel| t.norm)
}

/// Well-formed token sequences: every span lies inside the text, no span is
/// reversed, and the spans run left to right without overlap.
pub open spec fn tokens_well_formed(toks: Seq<TokenModel>, text_len: int) -> bool {
    &&& forall|k: int|
        0 <= k < toks.len() ==> 0 <= (#[trigger] toks[k]).start <= toks[k].end <= text_len
    &&& forall|k: int| 1 <= k < toks.len() ==> toks[k - 1].end <= (#[trigger] toks[k]).start
}

/// In a well-formed token sequence, an earlier token starts no later than a
/// later token ends, and both bounds lie inside the text.
pub proof fn lemma_wf_order(toks: Seq<TokenModel>, text_len: int, a: int, b: int)
    requires
        tokens_well_formed(toks, text_len),
        0 <= a <= b < toks.len(),
    ensures
        0 <= toks[a].start <= toks[b].end <= text_len,
    decreases b - a,
{
    if a < b {
        lemma_wf_order(toks, text_len, a, b - 1);
    }
}

/// The tokens of `text[from..end)` have strictly increasing, non-overlapping
/// spans inside `[from, end]`.
pub proof fn lemma_tokens_in_spans(text: Seq<char>, from: int, end: int)
    requires
        0 <= from <= end <= text.len(),
    ensures
        forall|k: int|
            0 <= k < spec_tokens_in(text, from, end).len() ==> from <= (#[trigger] spec_tokens_in(
                text,
                from,
                end,
            )[k]).start < spec_tokens_in(text, from, end)[k].end <= end,
        forall|k: int|
            1 <= k < spec_tokens_in(text, from, end).len() ==> spec_tokens_in(text, from, end)[k
                - 1].end <= (#[trigger] spec_tokens_in(text, from, end)[k]).start,
    decreases end - from,
{
    if from >= end {
    } else if is_separator(text[from]) {
        lemma_tokens_in_spans(text, from + 1, end);
        assert(spec_tokens_in(text, from, end) == spec_tokens_in(text, from + 1, end));
    } else {
        let j = run_end(text, from, end);
        lemma_run_end(text, from, end);
        assert(from < j) by {
            if j == from {
                assert(is_separator(text[from]));
            }
        }
        lemma_tokens_in_spans(text, j, end);
        let rest = spec_tokens_in(text, j, end);
        let toks = spec_tokens_in(text, from, end);
        assert(toks == seq![token_model_at(text, from, j)] + rest);
        assert forall|k: int| 0 <= k < toks.len() implies from <= (#[trigger] toks[k]).start
            < toks[k].end <= end by {
            if k > 0 {
                assert(toks[k] == rest[k - 1]);
            }
        }
        assert forall|k: int| 1 <= k < toks.len() implies toks[k - 1].end
            <= (#[trigger] toks[k]).start by {
            assert(toks[k] == rest[k - 1]);
            if k > 1 {
                assert(toks[k - 1] == rest[k - 2]);
            }
        }
    }
}

/// The tokens of `text[from..end)` are well formed with respect to the text.
pub proof fn lemma_tokens_in_well_formed(text: Seq<char>, from: int, end: int)
    requires
        0 <= from <= end <= text.len(),
    ensures
        tokens_well_formed(spec_tokens_in(text, from, end), text.len() as int),
{
    lemma_tokens_in_spans(text, from, end);
}

/// `run_end` stays within `[i, end]`, skips no separator, and stops at one.
pub proof fn lemma_run_end(text: Seq<char>, i: int, end: int)
    requires
        0 <= i <= end <= text.len(),
    ensures
        i <= run_end(text, i, end) <= end,
        forall|k: int| i <= k < run_end(text, i, end) ==> !is_separator(text[k]),
        run_end(text, i, end) < end ==> is_separator(text[run_end(text, i, end)]),
    decreases end - i,
{
    if i < end && !is_separator(text[i]) {
        lemma_run_end(text, i + 1, end);
    }
}

/// Case-fold one character.
pub fn lower_char_exec(c: char) -> (r: char)
    ensures
        r == lower_char(c),
{
    let u = c as u32;
    if 65 <= u && u <= 90 {
        ((u + 32) as u8) as char
    } else {
        c
    }
}

/// Case-fold a string into a character vector.
pub fn lower_str(s: &str) -> (r: Vec<char>)
    ensures
        r@ == lower(s@),
{
    let n = s.unicode_len();
    let mut r: Vec<char> = Vec::new();
    let mut i: usize = 0;
    while i < n
        invariant
            i <= n,
            n == s@.len(),
            r@.len() == i as int,
            forall|k: int| 0 <= k < i as int ==> r@[k] == lower_char(s@[k]),
        decreases n - i,
    {
        r.push(lower_char_exec(s.get_char(i)));
        i += 1;
    }
    proof {
        assert(r@ =~= lower(s@));
    }
    r
}

/// Decide whether a character ends a sentence.
pub fn is_sentence_end_exec(c: char) -> (r: bool)
    ensures
        r == is_sentence_end(c),
{
    c == '.' || c == '!' || c == '?'
}

/// Decide whether a character separates tokens.
pub fn is_separator_exec(c: char) -> (r: bool)
    ensures
        r == is_separator(c),
{
    c == ' ' || c == '\t' || c == '\n' || c == '\r' || is_sentence_end_exec(c) || c == ','
        || c == ';' || c == ':' || c == '(' || c == ')' || c == '"'
}

/// Compare two character vectors for equality of their contents.
pub fn chars_eq(a: &Vec<char>, b: &Vec<char>) -> (r: bool)
    ensures
        r == (a@ == b@),
{
    if a.len() != b.len() {
        proof {
            assert(a@ != b@);
        }
        return false;
    }
    let n = a.len();
    let mut i: usize = 0;
    while i < n
        invariant
            i <= n,
            n == a@.len() && n == b@.len(),
            forall|k: int| 0 <= k < i as int ==> a@[k] == b@[k],
        decreases n - i,
    {
        if a[i] != b[i] {
            proof {
                assert(a@ != b@);
            }
            return false;
        }
        i += 1;
    }
    proof {
        assert(a@ =~= b@);
    }
    true
}

/// Copy a character vector, keeping its contents.
pub fn clone_char_vec(v: &Vec<char>) -> (r: Vec<char>)
    ensures
        r@ == v@,
{
    let r = v.clone();
    proof {
        assert forall|i: int| 0 <= i < v@.len() implies r@[i] == v@[i] by {
            assert(vstd::pervasive::cloned::<char>(v@[i], r@[i]));
        }
        assert(r@ =~= v@);
    }
    r
}

/// Find the end of the token run that starts at `i`: the exec counterpart of
/// `run_end`.
pub fn find_run_end(s: &str, i: usize, end: usize) -> (r: usize)
    requires
        i <= end <= s@.len(),
    ensures
        r as int == run_end(s@, i as int, end as int),
        i <= r <= end,
{
    let mut j: usize = i;
    while j < end
        invariant
            i <= j <= end,
            end <= s@.len(),
            run_end(s@, i as int, end as int) == run_end(s@, j as int, end as int),
        decreases end - j,
    {
        if is_separator_exec(s.get_char(j)) {
            proof {
                assert(run_end(s@, j as int, end as int) == j as int);
            }
            return j;
        }
        j += 1;
    }
    proof {
        assert(run_end(s@, j as int, end as int) == end as int);
    }
    j
}

} // verus!
