//! The grid search: a depth-five backtracking walk over the corpus that
//! places one across word per row and prunes a branch as soon as any column,
//! read down, is no longer a prefix of a corpus word.  A completed grid is
//! accepted only when every column is itself a corpus word distinct from all
//! five across words.

use crate::hints::chars_of;
use crate::models::{is_upper_word, upper_chars, wf_corpus, word_views, ClueWord};
use crate::prefix::{is_corpus_prefix, PrefixIndex};
use rand::seq::SliceRandom;
use vstd::prelude::*;

verus! {

/// The character sequences viewed by each row vector.
pub open spec fn row_views(rows: Seq<Vec<char>>) -> Seq<Seq<char>> {
    rows.map_values(|r: Vec<char>| r@)
}

/// Column `j` of the partially filled grid, read top to bottom.
pub open spec fn col_of(rows: Seq<Seq<char>>, j: int) -> Seq<char> {
    Seq::new(rows.len(), |i: int| rows[i][j])
}

/// `s` is one of `words`.
pub open spec fn in_words(words: Seq<Seq<char>>, s: Seq<char>) -> bool {
    exists|k: int| #![auto] 0 <= k < words.len() && words[k] == s
}

/// The partial-validity predicate over the rows placed so far: every column,
/// read down, is a prefix of some corpus word, and, once all five rows are
/// placed, no column word equals any across word.
pub open spec fn rows_ok(words: Seq<Seq<char>>, rows: Seq<Seq<char>>) -> bool {
    &&& forall|j: int| 0 <= j < 5 ==> is_corpus_prefix(words, #[trigger] col_of(rows, j))
    &&& rows.len() == 5 ==> forall|j: int| 0 <= j < 5 ==> !rows.contains(
        #[trigger] col_of(rows, j),
    )
}

/// A fully valid grid: five across rows drawn from the corpus whose five
/// columns are corpus words too, none of them equal to an across row.
pub open spec fn valid_rows(words: Seq<Seq<char>>, rows: Seq<Seq<char>>) -> bool {
    &&& rows.len() == 5
    &&& forall|i: int| 0 <= i < 5 ==> in_words(words, #[trigger] rows[i])
    &&& forall|j: int|
        0 <= j < 5 ==> in_words(words, #[trigger] col_of(rows, j)) && !rows.contains(
            col_of(rows, j),
        )
}

/// The rows selected by the index choice `c`.
pub open spec fn choice_rows(words: Seq<Seq<char>>, c: Seq<int>) -> Seq<Seq<char>> {
    c.map_values(|k: int| words[k])
}

/// `c` selects, by corpus index, five words that form a fully valid grid.
pub open spec fn valid_choice(words: Seq<Seq<char>>, c: Seq<int>) -> bool {
    &&& c.len() == 5
    &&& forall|k: int| 0 <= k < 5 ==> 0 <= #[trigger] c[k] < words.len()
    &&& valid_rows(words, choice_rows(words, c))
}

/// `a` comes before `b` in lexicographic order on index choices.
pub open spec fn lex_before(a: Seq<int>, b: Seq<int>) -> bool
    recommends
        a.len() == 5,
        b.len() == 5,
{
    exists|k: int|
        #![auto]
        0 <= k < 5 && a[k] < b[k] && (forall|m: int| 0 <= m < k ==> a[m] == b[m])
}

/// The indices chosen so far, as mathematical integers.
pub open spec fn ichoice(c: Seq<usize>) -> Seq<int> {
    c.map_values(|u: usize| u as int)
}

/// Whether two character vectors hold the same characters.
fn chars_eq(a: &Vec<char>, b: &Vec<char>) -> (r: bool)
    ensures
        r == (a@ == b@),
{
    if a.len() != b.len() {
        return false;
    }
    let mut i: usize = 0;
    while i < a.len()
        invariant
            i <= a@.len(),
            a@.len() == b@.len(),
            forall|k: int| 0 <= k < i ==> a@[k] == b@[k],
        decreases a@.len() - i,
    {
        if a[i] != b[i] {
            return false;
        }
        i += 1;
    }
    proof {
        assert(a@ =~= b@);
    }
    true
}

/// Column `i` of the rows placed so far, read top to bottom.
pub fn down_word_at_i(rows: &Vec<Vec<char>>, i: usize) -> (w: Vec<char>)
    requires
        i < 5,
        forall|r: int| 0 <= r < rows@.len() ==> i < #[trigger] rows@[r]@.len(),
    ensures
        w@ == col_of(row_views(rows@), i as int),
{
    let mut w: Vec<char> = Vec::new();
    let mut r: usize = 0;
    while r < rows.len()
        invariant
            r <= rows@.len(),
            i < 5,
            forall|k: int| 0 <= k < rows@.len() ==> i < #[trigger] rows@[k]@.len(),
            w@.len() == r,
            forall|k: int| 0 <= k < r ==> w@[k] == rows@[k]@[i as int],
        decreases rows@.len() - r,
    {
        let row = &rows[r];
        w.push(row[i]);
        r += 1;
    }
    proof {
        assert(w@ =~= col_of(row_views(rows@), i as int));
    }
    w
}

/// The partial-validity check over the rows placed so far: every column
/// prefix must be a prefix of some corpus word, and a full grid must not
/// reuse an across word as a down word.
pub fn test(index: &PrefixIndex, rows: &Vec<Vec<char>>) -> (ok: bool)
    requires
        index.wf(),
        1 <= rows@.len() <= 5,
        forall|i: int| 0 <= i < rows@.len() ==> is_upper_word(#[trigger] rows@[i]@),
    ensures
        ok == rows_ok(index.words(), row_views(rows@)),
{
    let depth = rows.len();
    let ghost rws = row_views(rows@);
    let mut j: usize = 0;
    while j < 5
        invariant
            j <= 5,
            index.wf(),
            1 <= rows@.len() <= 5,
            depth == rows@.len(),
            forall|i: int| 0 <= i < rows@.len() ==> is_upper_word(#[trigger] rows@[i]@),
            rws == row_views(rows@),
            forall|jj: int|
                0 <= jj < j ==> is_corpus_prefix(index.words(), #[trigger] col_of(rws, jj)),
            rows@.len() == 5 ==> forall|jj: int|
                0 <= jj < j ==> !rws.contains(#[trigger] col_of(rws, jj)),
        decreases 5 - j,
    {
        let col = down_word_at_i(rows, j);
        proof {
            assert(upper_chars(col@)) by {
                assert(forall|k: int|
                    0 <= k < col@.len() ==> #[trigger] col@[k] == rws[k][j as int]);
            }
        }
        if !index.contains(&col) {
            return false;
        }
        if depth == 5 {
            let mut i: usize = 0;
            while i < 5
                invariant
                    i <= 5,
                    j < 5,
                    rows@.len() == 5,
                    rws == row_views(rows@),
                    col@ == col_of(rws, j as int),
                    forall|k: int| 0 <= k < i ==> rws[k] != col@,
                decreases 5 - i,
            {
                if chars_eq(&rows[i], &col) {
                    proof {
                        assert(rws[i as int] == rows@[i as int]@);
                        assert(rws[i as int] == col_of(rws, j as int));
                        assert(rws.contains(col_of(rws, j as int)));
                        assert(!rows_ok(index.words(), row_views(rows@))) by {
                            let r2 = row_views(rows@);
                            assert(r2.contains(col_of(r2, j as int)));
                        }
                    }
                    return false;
                }
                proof {
                    assert(rws[i as int] == rows@[i as int]@);
                }
                i += 1;
            }
            proof {
                assert(!rws.contains(col_of(rws, j as int)));
            }
        }
        j += 1;
    }
    true
}

/// `e` is the first corpus entry whose word is `w`.
pub open spec fn first_entry_for(corpus: Seq<ClueWord>, w: Seq<char>, e: ClueWord) -> bool {
    exists|k: int|
        #![auto]
        {
            &&& 0 <= k < corpus.len()
            &&& corpus[k].word@ == w
            &&& e == corpus[k]
            &&& forall|m: int| 0 <= m < k ==> corpus[m].word@ != w
        }
}

/// A solved grid: the five across entries are corpus entries whose rows form
/// a fully valid grid, and each down entry is the first corpus entry whose
/// word reads down the matching column.
pub open spec fn solved_grid(corpus: Seq<ClueWord>, across: Seq<ClueWord>, down: Seq<ClueWord>) -> bool {
    &&& across.len() == 5
    &&& down.len() == 5
    &&& valid_rows(word_views(corpus), word_views(across))
    &&& forall|i: int| 0 <= i < 5 ==> corpus.contains(#[trigger] across[i])
    &&& forall|j: int|
        0 <= j < 5 ==> first_entry_for(
            corpus,
            col_of(word_views(across), j),
            #[trigger] down[j],
        )
}

/// Whether the characters of `s` are exactly `w`.
fn str_eq_chars(s: &str, w: &Vec<char>) -> (r: bool)
    ensures
        r == (s@ == w@),
{
    let sc = chars_of(s);
    chars_eq(&sc, w)
}

/// The first corpus entry whose word is `w`, which must exist.
fn find_first_entry(corpus: &Vec<ClueWord>, w: &Vec<char>) -> (e: ClueWord)
    requires
        exists|k: int| #![auto] 0 <= k < corpus@.len() && corpus@[k].word@ == w@,
    ensures
        first_entry_for(corpus@, w@, e),
{
    let mut k: usize = 0;
    while k < corpus.len()
        invariant
            k <= corpus@.len(),
            exists|k2: int| #![auto] 0 <= k2 < corpus@.len() && corpus@[k2].word@ == w@,
            forall|m: int| 0 <= m < k ==> corpus@[m].word@ != w@,
        decreases corpus@.len() - k,
    {
        if str_eq_chars(corpus[k].word.as_str(), w) {
            return corpus[k].duplicate();
        }
        k += 1;
    }
    proof {
        assert(false);
    }
    corpus[0].duplicate()
}

/// The corpus word list inherits well-formedness from the corpus.
proof fn lemma_words_wf(corpus: Seq<ClueWord>)
    requires
        wf_corpus(corpus),
    ensures
        forall|k: int|
            0 <= k < word_views(corpus).len() ==> is_upper_word(#[trigger] word_views(corpus)[k]),
{
    assert forall|k: int|
        0 <= k < word_views(corpus).len() implies is_upper_word(
        #[trigger] word_views(corpus)[k],
    ) by {
        assert(word_views(corpus)[k] == corpus[k].word@);
    }
}

/// Cutting a fully valid grid after its first `d` rows leaves a stack that
/// passes the partial-validity predicate: each cut column is a prefix of the
/// corpus word that the full column reads as.
proof fn lemma_prefix_of_valid(words: Seq<Seq<char>>, full: Seq<Seq<char>>, d: int)
    requires
        forall|k: int| 0 <= k < words.len() ==> is_upper_word(#[trigger] words[k]),
        valid_rows(words, full),
        1 <= d <= 5,
    ensures
        rows_ok(words, full.take(d)),
{
    let part = full.take(d);
    assert forall|j: int| 0 <= j < 5 implies is_corpus_prefix(
        words,
        #[trigger] col_of(part, j),
    ) by {
        let fc = col_of(full, j);
        assert(in_words(words, fc));
        let k = choose|k: int| #![auto] 0 <= k < words.len() && words[k] == fc;
        assert(col_of(part, j) =~= words[k].take(d)) by {
            assert(forall|i: int| 0 <= i < d ==> #[trigger] part[i] == full[i]);
        }
        assert(col_of(part, j).len() == d);
        assert(col_of(part, j) == words[k].take(col_of(part, j).len() as int));
    }
    if d == 5 {
        assert(part =~= full);
    }
}

/// A full stack of corpus rows that passes the partial-validity predicate is
/// a fully valid grid: a column that is a length-five prefix of a corpus
/// word is that corpus word.
proof fn lemma_full_ok_valid(words: Seq<Seq<char>>, rows: Seq<Seq<char>>)
    requires
        forall|k: int| 0 <= k < words.len() ==> is_upper_word(#[trigger] words[k]),
        rows.len() == 5,
        forall|i: int| 0 <= i < 5 ==> in_words(words, #[trigger] rows[i]),
        rows_ok(words, rows),
    ensures
        valid_rows(words, rows),
{
    assert forall|j: int| 0 <= j < 5 implies in_words(words, #[trigger] col_of(rows, j)) by {
        let p = col_of(rows, j);
        assert(is_corpus_prefix(words, p));
        let k = choose|k: int|
            0 <= k < words.len() && p == #[trigger] words[k].take(p.len() as int);
        assert(words[k].take(5) =~= words[k]);
        assert(in_words(words, p));
    }
}

/// One level of the backtracking search.  With the first `depth` across
/// words placed (`rows` holds their characters, `chosen` their corpus
/// indices), tries every corpus word at row `depth` in corpus order,
/// pruning by the partial-validity check, and recurses.  Returns whether
/// the placed rows extend to a fully valid grid, and, if so, leaves the
/// lexicographically first such extension, in index order, in `rows` and
/// `chosen`.
fn solve_rec(
    corpus: &Vec<ClueWord>,
    index: &PrefixIndex,
    depth: usize,
    rows: &mut Vec<Vec<char>>,
    chosen: &mut Vec<usize>,
) -> (found: bool)
    requires
        index.wf(),
        index.words() == word_views(corpus@),
        wf_corpus(corpus@),
        depth == old(rows)@.len(),
        depth == old(chosen)@.len(),
        depth < 5,
        forall|i: int| 0 <= i < depth ==> old(chosen)@[i] < corpus@.len(),
        forall|i: int|
            0 <= i < depth ==> old(rows)@[i]@ == word_views(corpus@)[#[trigger] old(
                chosen,
            )@[i] as int],
    ensures
        found <==> exists|c: Seq<int>|
            #[trigger] valid_choice(word_views(corpus@), c) && c.take(depth as int) == ichoice(
                old(chosen)@,
            ),
        found ==> ({
            &&& final(chosen)@.len() == 5
            &&& final(rows)@.len() == 5
            &&& ichoice(final(chosen)@).take(depth as int) == ichoice(old(chosen)@)
            &&& valid_choice(word_views(corpus@), ichoice(final(chosen)@))
            &&& forall|i: int| 0 <= i < 5 ==> #[trigger] final(chosen)@[i] < corpus@.len()
            &&& forall|i: int|
                0 <= i < 5 ==> final(rows)@[i]@
                    == word_views(corpus@)[#[trigger] final(chosen)@[i] as int]
            &&& forall|c2: Seq<int>|
                #[trigger] valid_choice(word_views(corpus@), c2) && c2.take(depth as int)
                    == ichoice(old(chosen)@) && c2 != ichoice(final(chosen)@) ==> lex_before(
                    ichoice(final(chosen)@),
                    c2,
                )
        }),
        !found ==> final(rows)@ == old(rows)@ && final(chosen)@ == old(chosen)@,
    decreases 5 - depth,
{
    let ghost words = word_views(corpus@);
    let ghost base = ichoice(old(chosen)@);
    proof {
        lemma_words_wf(corpus@);
    }
    let n = corpus.len();
    let mut i: usize = 0;
    while i < n
        invariant
            index.wf(),
            index.words() == words,
            words == word_views(corpus@),
            wf_corpus(corpus@),
            forall|k: int| 0 <= k < words.len() ==> is_upper_word(#[trigger] words[k]),
            i <= n,
            n == corpus@.len(),
            depth == rows@.len(),
            depth == chosen@.len(),
            depth < 5,
            rows@ == old(rows)@,
            chosen@ == old(chosen)@,
            base == ichoice(old(chosen)@),
            forall|k: int| 0 <= k < depth ==> #[trigger] chosen@[k] < corpus@.len(),
            forall|k: int| 0 <= k < depth ==> rows@[k]@ == words[#[trigger] chosen@[k] as int],
            forall|c: Seq<int>|
                #[trigger] valid_choice(words, c) && c.take(depth as int) == base ==> c[depth as int]
                    >= i,
        decreases n - i,
    {
        let w = chars_of(corpus[i].word.as_str());
        let ghost wv = w@;
        proof {
            assert(wv == words[i as int]) by {
                assert(words[i as int] == corpus@[i as int].word@);
            }
        }
        rows.push(w);
        chosen.push(i);
        let ghost pushed = ichoice(chosen@);
        let ghost rows_at_test = rows@;
        proof {
            assert(pushed =~= base.push(i as int));
            assert(pushed.take(depth as int) =~= base);
            assert forall|k: int| 0 <= k < depth + 1 implies rows@[k]@ == words[#[trigger] pushed[k]] by {
                if k < depth {
                    assert(rows@[k]@ == words[chosen@[k as int] as int]);
                }
            }
            assert forall|k: int| 0 <= k < rows@.len() implies is_upper_word(
                #[trigger] rows@[k]@,
            ) by {
                assert(rows@[k]@ == words[pushed[k]]);
                assert(0 <= pushed[k] < words.len());
            }
        }
        let ok = test(index, rows);
        if ok {
            if depth + 1 == 5 {
                proof {
                    assert forall|r: int| 0 <= r < 5 implies in_words(
                        words,
                        #[trigger] row_views(rows@)[r],
                    ) by {
                        assert(row_views(rows@)[r] == rows@[r]@);
                        assert(rows@[r]@ == words[pushed[r]]);
                        assert(0 <= pushed[r] < words.len());
                    }
                    lemma_full_ok_valid(words, row_views(rows@));
                    assert(choice_rows(words, pushed) =~= row_views(rows@)) by {
                        assert(forall|r: int|
                            0 <= r < 5 ==> #[trigger] choice_rows(words, pushed)[r]
                                == words[pushed[r]]);
                        assert(forall|r: int|
                            0 <= r < 5 ==> #[trigger] row_views(rows@)[r] == rows@[r]@);
                    }
                    assert(valid_choice(words, pushed));
                    assert forall|c2: Seq<int>|
                        #[trigger] valid_choice(words, c2) && c2.take(depth as int) == base && c2
                            != pushed implies lex_before(pushed, c2) by {
                        assert(c2[depth as int] >= i);
                        if c2[depth as int] == i {
                            assert(c2 =~= pushed) by {
                                assert(forall|m: int|
                                    0 <= m < depth ==> c2[m] == #[trigger] c2.take(depth as int)[m]);
                            }
                            assert(false);
                        } else {
                            assert(pushed[depth as int] == i);
                            assert(forall|m: int|
                                0 <= m < depth ==> #[trigger] pushed[m] == c2[m]) by {
                                assert(forall|m: int|
                                    0 <= m < depth ==> c2[m] == #[trigger] c2.take(depth as int)[m]);
                            }
                            assert(lex_before(pushed, c2));
                        }
                    }
                }
                return true;
            }
            let found_sub = solve_rec(corpus, index, depth + 1, rows, chosen);
            if found_sub {
                proof {
                    let fin = ichoice(chosen@);
                    assert(fin.take(depth + 1) == pushed);
                    assert(fin.take(depth as int) =~= base) by {
                        assert(forall|m: int|
                            0 <= m < depth ==> #[trigger] fin.take(depth as int)[m] == fin[m]);
                        assert(forall|m: int|
                            0 <= m < depth + 1 ==> #[trigger] fin.take(depth + 1)[m] == fin[m]);
                        assert(forall|m: int|
                            0 <= m < depth ==> #[trigger] pushed.take(depth as int)[m] == pushed[m]);
                    }
                    assert forall|c2: Seq<int>|
                        #[trigger] valid_choice(words, c2) && c2.take(depth as int) == base && c2
                            != fin implies lex_before(fin, c2) by {
                        assert(c2[depth as int] >= i);
                        assert(forall|m: int|
                            0 <= m < depth ==> c2[m] == #[trigger] c2.take(depth as int)[m]);
                        if c2[depth as int] == i {
                            assert(c2.take(depth + 1) =~= pushed);
                            assert(lex_before(fin, c2));
                        } else {
                            assert(fin[depth as int] == pushed[depth as int] == i) by {
                                assert(fin.take(depth + 1)[depth as int] == fin[depth as int]);
                            }
                            assert forall|m: int| 0 <= m < depth implies #[trigger] fin[m]
                                == c2[m] by {
                                assert(fin[m] == fin.take(depth + 1)[m]);
                                assert(fin[m] == pushed[m]);
                                assert(pushed[m] == base[m]);
                                assert(c2[m] == c2.take(depth as int)[m]);
                            }
                            assert(lex_before(fin, c2));
                        }
                    }
                }
                return true;
            }
        }
        rows.pop();
        chosen.pop();
        proof {
            assert(rows@ =~= old(rows)@);
            assert(chosen@ =~= old(chosen)@);
            assert forall|c: Seq<int>|
                #[trigger] valid_choice(words, c) && c.take(depth as int) == base implies c[depth as int]
                >= i + 1 by {
                assert(c[depth as int] >= i);
                if c[depth as int] == i {
                    assert(forall|m: int|
                        0 <= m < depth ==> c[m] == #[trigger] c.take(depth as int)[m]);
                    assert(c.take(depth + 1) =~= pushed);
                    if !ok {
                        let full = choice_rows(words, c);
                        lemma_prefix_of_valid(words, full, depth + 1);
                        assert(row_views(rows_at_test) =~= full.take(depth + 1)) by {
                            assert(forall|r: int|
                                0 <= r < depth + 1 ==> #[trigger] row_views(rows_at_test)[r]
                                    == rows_at_test[r]@);
                            assert(forall|r: int|
                                0 <= r < depth + 1 ==> #[trigger] full[r] == words[c[r]]);
                            assert(forall|r: int|
                                0 <= r < depth + 1 ==> #[trigger] rows_at_test[r]@
                                    == words[pushed[r]]);
                        }
                        assert(false);
                    } else {
                        assert(false);
                    }
                }
            }
        }
        i += 1;
    }
    proof {
        assert(words.len() == corpus@.len());
        if exists|c: Seq<int>|
            #[trigger] valid_choice(words, c) && c.take(depth as int) == base {
            let c = choose|c: Seq<int>|
                #[trigger] valid_choice(words, c) && c.take(depth as int) == base;
            assert(c[depth as int] >= n);
            assert(0 <= c[depth as int] < words.len());
            assert(false);
        }
    }
    false
}

/// Searches the corpus, in its given order, for five across words whose
/// columns read as corpus words distinct from every across word, and
/// resolves each column back to the first corpus entry carrying that word.
/// Succeeds exactly when some fully valid grid can be drawn from the corpus,
/// and returns the first satisfying assignment in lexicographic order of
/// corpus indices: a first-fit search, not a uniform sample.
pub fn solve(corpus: &Vec<ClueWord>, index: &PrefixIndex) -> (r: Option<
    (Vec<ClueWord>, Vec<ClueWord>),
>)
    requires
        wf_corpus(corpus@),
        index.wf(),
        index.words() == word_views(corpus@),
    ensures
        r is Some <==> exists|c: Seq<int>| #[trigger] valid_choice(word_views(corpus@), c),
        r matches Some((across, down)) ==> solved_grid(corpus@, across@, down@),
        r matches Some((across, down)) ==> exists|c: Seq<int>|
            {
                &&& #[trigger] valid_choice(word_views(corpus@), c)
                &&& forall|k: int| 0 <= k < 5 ==> across@[k] == corpus@[#[trigger] c[k]]
                &&& forall|c2: Seq<int>|
                    #[trigger] valid_choice(word_views(corpus@), c2) && c2 != c ==> lex_before(
                        c,
                        c2,
                    )
            },
{
    let ghost words = word_views(corpus@);
    let mut rows: Vec<Vec<char>> = Vec::new();
    let mut chosen: Vec<usize> = Vec::new();
    let ghost base = ichoice(chosen@);
    let found = solve_rec(corpus, index, 0, &mut rows, &mut chosen);
    if !found {
        proof {
            if exists|c: Seq<int>| #[trigger] valid_choice(words, c) {
                let c = choose|c: Seq<int>| #[trigger] valid_choice(words, c);
                assert(c.take(0) =~= base);
            }
        }
        return None;
    }
    let ghost fin = ichoice(chosen@);
    proof {
        assert(fin.take(0) =~= base);
        assert forall|c2: Seq<int>|
            #[trigger] valid_choice(words, c2) && c2 != fin implies lex_before(fin, c2) by {
            assert(c2.take(0) =~= base);
        }
    }
    let mut across: Vec<ClueWord> = Vec::new();
    let mut k: usize = 0;
    while k < 5
        invariant
            k <= 5,
            chosen@.len() == 5,
            across@.len() == k,
            forall|m: int| 0 <= m < 5 ==> #[trigger] chosen@[m] < corpus@.len(),
            forall|m: int| 0 <= m < k ==> #[trigger] across@[m] == corpus@[chosen@[m] as int],
        decreases 5 - k,
    {
        across.push(corpus[chosen[k]].duplicate());
        k += 1;
    }
    proof {
        assert forall|m: int| 0 <= m < 5 implies #[trigger] word_views(across@)[m] == words[fin[m]] by {
            assert(word_views(across@)[m] == across@[m].word@);
            assert(across@[m] == corpus@[chosen@[m] as int]);
            assert(words[fin[m]] == corpus@[fin[m]].word@);
        }
        assert(word_views(across@) =~= choice_rows(words, fin)) by {
            assert(forall|m: int|
                0 <= m < 5 ==> #[trigger] choice_rows(words, fin)[m] == words[fin[m]]);
        }
        assert(valid_rows(words, word_views(across@)));
        assert forall|m: int| 0 <= m < 5 implies corpus@.contains(#[trigger] across@[m]) by {
            assert(across@[m] == corpus@[chosen@[m] as int]);
        }
        assert forall|m: int| 0 <= m < 5 implies #[trigger] rows@[m]@ == word_views(across@)[m] by {
            assert(rows@[m]@ == words[chosen@[m] as int]);
        }
        assert(row_views(rows@) =~= word_views(across@));
    }
    let mut down: Vec<ClueWord> = Vec::new();
    let mut j: usize = 0;
    while j < 5
        invariant
            j <= 5,
            down@.len() == j,
            rows@.len() == 5,
            words == word_views(corpus@),
            forall|m: int| 0 <= m < 5 ==> #[trigger] rows@[m]@.len() == 5,
            row_views(rows@) == word_views(across@),
            valid_rows(words, word_views(across@)),
            forall|jj: int|
                0 <= jj < j ==> first_entry_for(
                    corpus@,
                    col_of(word_views(across@), jj),
                    #[trigger] down@[jj],
                ),
        decreases 5 - j,
    {
        let col = down_word_at_i(&rows, j);
        proof {
            assert(col@ == col_of(word_views(across@), j as int));
            assert(in_words(words, col_of(word_views(across@), j as int)));
            let kw = choose|kw: int|
                #![auto]
                0 <= kw < words.len() && words[kw] == col_of(word_views(across@), j as int);
            assert(corpus@[kw].word@ == col@);
        }
        let e = find_first_entry(corpus, &col);
        down.push(e);
        j += 1;
    }
    proof {
        assert(solved_grid(corpus@, across@, down@));
    }
    Some((across, down))
}

/// Relies on rand's `SliceRandom::shuffle`, a Fisher-Yates shuffle drawing
/// from the thread-local generator: it reorders the entries in place by
/// swaps, so the multiset of entries is kept.  Nothing is promised about the
/// order that comes out.
#[verifier::external_body]
fn shuffle_clue_words(entries: &mut Vec<ClueWord>)
    ensures
        final(entries)@.len() == old(entries)@.len(),
        final(entries)@.to_multiset() == old(entries)@.to_multiset(),
{
    entries.shuffle(&mut rand::thread_rng());
}

/// Two corpora with the same entries carry the same words.
proof fn lemma_in_words_transfer(a: Seq<ClueWord>, b: Seq<ClueWord>)
    requires
        a.to_multiset() == b.to_multiset(),
    ensures
        forall|s: Seq<char>| #[trigger] in_words(word_views(a), s) ==> in_words(word_views(b), s),
{
    assert forall|s: Seq<char>| #[trigger] in_words(word_views(a), s) implies in_words(
        word_views(b),
        s,
    ) by {
        let k = choose|k: int| #![auto] 0 <= k < word_views(a).len() && word_views(a)[k] == s;
        assert(word_views(a)[k] == a[k].word@);
        assert(a.contains(a[k]));
        a.to_multiset_ensures();
        b.to_multiset_ensures();
        assert(a.to_multiset().count(a[k]) > 0);
        assert(b.to_multiset().count(a[k]) > 0);
        assert(b.contains(a[k]));
        let m = choose|m: int| #![auto] 0 <= m < b.len() && b[m] == a[k];
        assert(word_views(b)[m] == s);
        assert(in_words(word_views(b), s));
    }
}

/// Full grid validity depends only on which words the corpus carries, not on
/// their order or their multiplicity.
proof fn lemma_valid_rows_transfer(a: Seq<ClueWord>, b: Seq<ClueWord>, rows: Seq<Seq<char>>)
    requires
        a.to_multiset() == b.to_multiset(),
        valid_rows(word_views(a), rows),
    ensures
        valid_rows(word_views(b), rows),
{
    lemma_in_words_transfer(a, b);
}

/// Builds a puzzle grid from the corpus: shuffles a copy of the corpus once,
/// indexes its prefixes, and hands the shuffled order to the first-fit
/// search.  Succeeds exactly when some fully valid grid can be drawn from
/// the corpus; which one comes back depends on the shuffle alone.
pub fn generate_crossword(clue_words: &[ClueWord]) -> (r: Option<(Vec<ClueWord>, Vec<ClueWord>)>)
    requires
        wf_corpus(clue_words@),
    ensures
        r is Some <==> exists|c: Seq<int>| #[trigger] valid_choice(word_views(clue_words@), c),
        r matches Some((across, down)) ==> ({
            &&& across@.len() == 5
            &&& down@.len() == 5
            &&& valid_rows(word_views(clue_words@), word_views(across@))
            &&& forall|i: int| 0 <= i < 5 ==> clue_words@.contains(#[trigger] across@[i])
            &&& forall|j: int| 0 <= j < 5 ==> clue_words@.contains(#[trigger] down@[j])
            &&& forall|j: int|
                0 <= j < 5 ==> #[trigger] down@[j].word@ == col_of(word_views(across@), j)
        }),
{
    let ghost orig = clue_words@;
    let mut shuffled: Vec<ClueWord> = Vec::new();
    let mut k: usize = 0;
    while k < clue_words.len()
        invariant
            k <= clue_words@.len(),
            shuffled@.len() == k,
            forall|m: int| 0 <= m < k ==> #[trigger] shuffled@[m] == clue_words@[m],
        decreases clue_words@.len() - k,
    {
        shuffled.push(clue_words[k].duplicate());
        k += 1;
    }
    proof {
        assert(shuffled@ =~= clue_words@);
    }
    shuffle_clue_words(&mut shuffled);
    proof {
        assert forall|m: int| 0 <= m < shuffled@.len() implies is_upper_word(
            #[trigger] shuffled@[m].word@,
        ) by {
            assert(shuffled@.contains(shuffled@[m]));
            shuffled@.to_multiset_ensures();
            orig.to_multiset_ensures();
            assert(shuffled@.to_multiset().count(shuffled@[m]) > 0);
            assert(orig.to_multiset().count(shuffled@[m]) > 0);
            assert(orig.contains(shuffled@[m]));
            let m2 = choose|m2: int| #![auto] 0 <= m2 < orig.len() && orig[m2] == shuffled@[m];
            assert(is_upper_word(orig[m2].word@));
        }
    }
    let index = PrefixIndex::build(&shuffled);
    let r = solve(&shuffled, &index);
    proof {
        lemma_choice_rows_equivalence(word_views(shuffled@));
        lemma_choice_rows_equivalence(word_views(orig));
        if exists|c: Seq<int>| #[trigger] valid_choice(word_views(shuffled@), c) {
            let rows = choose|rows: Seq<Seq<char>>| #[trigger] valid_rows(word_views(shuffled@), rows);
            lemma_valid_rows_transfer(shuffled@, orig, rows);
        }
        if exists|c: Seq<int>| #[trigger] valid_choice(word_views(orig), c) {
            let rows = choose|rows: Seq<Seq<char>>| #[trigger] valid_rows(word_views(orig), rows);
            lemma_valid_rows_transfer(orig, shuffled@, rows);
        }
        if r is Some {
            let across = r->Some_0.0;
            let down = r->Some_0.1;
            assert(solved_grid(shuffled@, across@, down@));
            lemma_valid_rows_transfer(shuffled@, orig, word_views(across@));
            assert forall|i: int| 0 <= i < 5 implies orig.contains(#[trigger] across@[i]) by {
                assert(shuffled@.contains(across@[i]));
                shuffled@.to_multiset_ensures();
                orig.to_multiset_ensures();
                assert(shuffled@.to_multiset().count(across@[i]) > 0);
                assert(orig.to_multiset().count(across@[i]) > 0);
            }
            assert forall|j: int| 0 <= j < 5 implies orig.contains(#[trigger] down@[j]) by {
                assert(shuffled@.contains(down@[j]));
                shuffled@.to_multiset_ensures();
                orig.to_multiset_ensures();
                assert(shuffled@.to_multiset().count(down@[j]) > 0);
                assert(orig.to_multiset().count(down@[j]) > 0);
            }
            assert forall|j: int| 0 <= j < 5 implies #[trigger] down@[j].word@ == col_of(
                word_views(across@),
                j,
            ) by {
                assert(first_entry_for(shuffled@, col_of(word_views(across@), j), down@[j]));
            }
        }
    }
    r
}

/// Grid consistency: in a solved grid, the down word of column `j` holds,
/// row by row, the `j`-th letter of each across word.
pub proof fn lemma_grid_consistency(
    corpus: Seq<ClueWord>,
    across: Seq<ClueWord>,
    down: Seq<ClueWord>,
)
    requires
        solved_grid(corpus, across, down),
    ensures
        forall|i: int, j: int|
            0 <= i < 5 && 0 <= j < 5 ==> #[trigger] down[j].word@[i] == #[trigger] across[i].word@[j],
{
    assert forall|i: int, j: int|
        0 <= i < 5 && 0 <= j < 5 implies #[trigger] down[j].word@[i]
        == #[trigger] across[i].word@[j] by {
        assert(first_entry_for(corpus, col_of(word_views(across), j), down[j]));
        assert(down[j].word@ == col_of(word_views(across), j));
        assert(col_of(word_views(across), j)[i] == word_views(across)[i][j]);
        assert(word_views(across)[i] == across[i].word@);
    }
}

/// Corpus membership: every across and every down entry of a solved grid is
/// one of the corpus entries, so every grid word is a corpus word.
pub proof fn lemma_corpus_membership(
    corpus: Seq<ClueWord>,
    across: Seq<ClueWord>,
    down: Seq<ClueWord>,
)
    requires
        solved_grid(corpus, across, down),
    ensures
        forall|i: int| 0 <= i < 5 ==> corpus.contains(#[trigger] across[i]),
        forall|j: int| 0 <= j < 5 ==> corpus.contains(#[trigger] down[j]),
{
    assert forall|j: int| 0 <= j < 5 implies corpus.contains(#[trigger] down[j]) by {
        assert(first_entry_for(corpus, col_of(word_views(across), j), down[j]));
        let k = choose|k: int|
            #![auto]
            {
                &&& 0 <= k < corpus.len()
                &&& corpus[k].word@ == col_of(word_views(across), j)
                &&& down[j] == corpus[k]
                &&& forall|m: int|
                    0 <= m < k ==> corpus[m].word@ != col_of(word_views(across), j)
            };
        assert(corpus[k] == down[j]);
    }
}

/// Disjointness: no down word of a solved grid equals any across word, even
/// letter for letter.
pub proof fn lemma_disjointness(corpus: Seq<ClueWord>, across: Seq<ClueWord>, down: Seq<ClueWord>)
    requires
        solved_grid(corpus, across, down),
    ensures
        forall|i: int, j: int|
            0 <= i < 5 && 0 <= j < 5 ==> #[trigger] down[j].word@ != #[trigger] across[i].word@,
{
    assert forall|i: int, j: int|
        0 <= i < 5 && 0 <= j < 5 implies #[trigger] down[j].word@
        != #[trigger] across[i].word@ by {
        assert(first_entry_for(corpus, col_of(word_views(across), j), down[j]));
        assert(down[j].word@ == col_of(word_views(across), j));
        assert(!word_views(across).contains(col_of(word_views(across), j)));
        assert(word_views(across)[i] == across[i].word@);
        if down[j].word@ == across[i].word@ {
            assert(word_views(across).contains(col_of(word_views(across), j)));
        }
    }
}

/// A corpus carrying at most one word can never tile the grid: every row
/// would repeat that word, every column would then read it again, and the
/// exclusion rule forbids a down word equal to an across word.  (A larger
/// corpus can already tile with fewer than five words, when its words
/// interleave; failure below five words is not general.)
pub proof fn lemma_single_word_corpus_unsolvable(words: Seq<Seq<char>>)
    requires
        words.len() <= 1,
    ensures
        !exists|c: Seq<int>| #[trigger] valid_choice(words, c),
{
    if exists|c: Seq<int>| #[trigger] valid_choice(words, c) {
        let c = choose|c: Seq<int>| #[trigger] valid_choice(words, c);
        assert(0 <= c[0] < words.len());
        let rows = choice_rows(words, c);
        assert(rows[0] == words[0]);
        assert(in_words(words, col_of(rows, 0)));
        assert(col_of(rows, 0) == words[0]);
        assert(rows.contains(col_of(rows, 0)));
        assert(false);
    }
}

/// A fully valid grid of corpus words exists exactly when some index choice
/// selects one.
pub proof fn lemma_choice_rows_equivalence(words: Seq<Seq<char>>)
    ensures
        (exists|c: Seq<int>| #[trigger] valid_choice(words, c)) <==> (exists|rows: Seq<Seq<char>>|
            #[trigger] valid_rows(words, rows)),
{
    if exists|c: Seq<int>| #[trigger] valid_choice(words, c) {
        let c = choose|c: Seq<int>| #[trigger] valid_choice(words, c);
        assert(valid_rows(words, choice_rows(words, c)));
    }
    if exists|rows: Seq<Seq<char>>| #[trigger] valid_rows(words, rows) {
        let rows = choose|rows: Seq<Seq<char>>| #[trigger] valid_rows(words, rows);
        let c = Seq::new(5, |i: int| choose|k: int| #![auto] 0 <= k < words.len() && words[k] == rows[i]);
        assert forall|m: int| 0 <= m < 5 implies 0 <= #[trigger] c[m] < words.len() && words[c[m]]
            == rows[m] by {
            assert(in_words(words, rows[m]));
            let k0 = choose|k: int| #![auto] 0 <= k < words.len() && words[k] == rows[m];
            assert(c[m] == k0);
        }
        assert(choice_rows(words, c) =~= rows) by {
            assert(forall|m: int|
                0 <= m < 5 ==> #[trigger] choice_rows(words, c)[m] == words[c[m]]);
        }
        assert(valid_choice(words, c));
    }
}

} // verus!
