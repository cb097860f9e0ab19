//! Corpus-level guarantees of the tokenizer and the dictionary builder,
//! stated and proved once over the specification functions that the
//! executable functions' contracts use.

use vstd::prelude::*;

use crate::builder::carry_of;
use crate::builder::keys2_at;
use crate::builder::keys2_range;
use crate::builder::keys3_range;
use crate::builder::lemma_keys2_range_concat;
use crate::builder::line_keys2;
use crate::builder::line_keys3;
use crate::builder::next_pair_at;
use crate::builder::prev_pair_at;
use crate::builder::toks_of;
use crate::builder::corpus_bigram_counts;
use crate::dict::bump;
use crate::dict::bump_all;
use crate::dict::bump_count;
use crate::dict::count_of;
use crate::rx::content_capture;
use crate::textops::is_wspace_char;
use crate::textops::join2_spec;
use crate::textops::join3_spec;
use crate::textops::split_ws;
use crate::textops::trim_spec;
use crate::infer::derived_pair;
use crate::textops::lemma_split_sep_step;
use crate::textops::lemma_split_sep_whole;
use crate::textops::sep_free;
use crate::tokenizer::censor_chain;
use crate::tokenizer::line_tokens;

verus! {

/// Tokenizer idempotence under no-op censoring: with an empty censoring
/// list, tokenizing a line is plain whitespace-splitting of the matched
/// `Content` payload of the trimmed line (or no tokens when the line does
/// not match).
pub proof fn lemma_tokenize_no_censoring(pat: Seq<char>, line: Seq<char>)
    ensures
        line_tokens(pat, Seq::empty(), line) == match content_capture(pat, trim_spec(line)) {
            None => Seq::<Seq<char>>::empty(),
            Some(content) => split_ws(content),
        },
{
    match content_capture(pat, trim_spec(line)) {
        None => {
        },
        Some(content) => {
            assert(censor_chain(Seq::empty(), seq![' '] + content) == seq![' '] + content);
            let s = seq![' '] + content;
            assert(s[0] == ' ');
            assert(is_wspace_char(' '));
            assert(s.drop_first() =~= content);
            assert(split_ws(s) == split_ws(content));
        },
    }
}

/// A later increment never lowers a count.
proof fn lemma_bump_all_monotone(m: Map<Seq<char>, u64>, ks: Seq<Seq<char>>, k: Seq<char>)
    ensures
        count_of(bump_all(m, ks), k) >= count_of(m, k),
    decreases ks.len(),
{
    if ks.len() > 0 {
        lemma_bump_all_monotone(bump(m, ks[0]), ks.drop_first(), k);
        assert(count_of(bump(m, ks[0]), k) >= count_of(m, k));
    }
}

/// A key that occurs among the counted keys ends with a positive count.
pub proof fn lemma_bump_all_counts_key(m: Map<Seq<char>, u64>, ks: Seq<Seq<char>>, k: Seq<char>)
    requires
        ks.contains(k),
    ensures
        count_of(bump_all(m, ks), k) >= 1,
        bump_all(m, ks).dom().contains(k),
    decreases ks.len(),
{
    if ks[0] == k {
        assert(bump_count(count_of(m, k)) >= 1);
        assert(count_of(bump(m, k), k) >= 1);
        lemma_bump_all_monotone(bump(m, ks[0]), ks.drop_first(), k);
    } else {
        let i = choose|i: int| 0 <= i < ks.len() && ks[i] == k;
        assert(ks.drop_first()[i - 1] == k);
        assert(ks.drop_first().contains(k));
        lemma_bump_all_counts_key(bump(m, ks[0]), ks.drop_first(), k);
    }
}

/// Boundary stitching: when two consecutive lines tokenize to `[a, b]` and
/// `[c, d]`, the corpus bigram dictionary holds the cross-line key `b^c`
/// with a count of at least one, even though `b` and `c` come from
/// different lines.
pub proof fn lemma_boundary_stitching(
    pat: Seq<char>,
    cpats: Seq<Seq<char>>,
    lines: Seq<Seq<char>>,
    i: int,
    a: Seq<char>,
    b: Seq<char>,
    c: Seq<char>,
    d: Seq<char>,
)
    requires
        0 <= i,
        i + 1 < lines.len(),
        line_tokens(pat, cpats, lines[i]) == seq![a, b],
        line_tokens(pat, cpats, lines[i + 1]) == seq![c, d],
    ensures
        corpus_bigram_counts(pat, cpats, lines).dom().contains(join2_spec(b, c)),
        corpus_bigram_counts(pat, cpats, lines)[join2_spec(b, c)] >= 1,
{
    let toks = toks_of(pat, cpats, lines);
    let n = lines.len() as int;
    let key = join2_spec(b, c);

    // the key stands among line i's contributed bigrams
    assert(toks[i] == seq![a, b]);
    assert(toks[i + 1] == seq![c, d]);
    assert(next_pair_at(toks, i).0 == Some(c));
    let prev1 = prev_pair_at(toks, i).0;
    let ext = crate::builder::opt_tok(prev1) + toks[i] + crate::builder::opt_tok(Some(c));
    let p = crate::builder::opt_tok(prev1).len() as int;
    assert(ext[p] == a && ext[p + 1] == b && ext[p + 2] == c);
    assert(keys2_at(toks, i) == crate::builder::bigram_keys(ext));
    assert(crate::builder::bigram_keys(ext)[p + 1] == join2_spec(ext[p + 1], ext[p + 2]));
    assert(keys2_at(toks, i).contains(key)) by {
        assert(keys2_at(toks, i)[p + 1] == key);
    }

    // so it occurs among the keys of the whole corpus
    assert(keys2_range(toks, i, i + 1) == keys2_range(toks, i, i) + keys2_at(toks, i));
    assert(keys2_range(toks, i, i) + keys2_at(toks, i) =~= keys2_at(toks, i));
    lemma_keys2_range_concat(toks, 0, i, i + 1);
    lemma_keys2_range_concat(toks, 0, i + 1, n);
    let full = keys2_range(toks, 0, n);
    assert(full == (keys2_range(toks, 0, i) + keys2_at(toks, i)) + keys2_range(toks, i + 1, n));
    assert(full.contains(key)) by {
        let j = choose|j: int| 0 <= j < keys2_at(toks, i).len() && keys2_at(toks, i)[j] == key;
        assert(full[keys2_range(toks, 0, i).len() + j] == key);
    }
    lemma_bump_all_counts_key(Map::empty(), full, key);
}

/// Empty-line break: a line with no tokens contributes nothing and stops
/// the stitching chain, so for three lines whose middle one is empty, the
/// corpus keys are exactly those of the first and last line counted in
/// isolation: no key joins tokens from before the empty line with tokens
/// from after it.
pub proof fn lemma_empty_line_breaks_stitching(
    pat: Seq<char>,
    cpats: Seq<Seq<char>>,
    l0: Seq<char>,
    l1: Seq<char>,
    l2: Seq<char>,
)
    requires
        line_tokens(pat, cpats, l1).len() == 0,
    ensures
        ({
            let toks = toks_of(pat, cpats, seq![l0, l1, l2]);
            &&& keys2_range(toks, 0, 3) == line_keys2(None, toks[0], None) + line_keys2(
                None,
                toks[2],
                None,
            )
            &&& keys3_range(toks, 0, 3) == line_keys3(None, None, toks[0], None, None)
                + line_keys3(None, None, toks[2], None, None)
        }),
{
    reveal_with_fuel(keys2_range, 5);
    reveal_with_fuel(keys3_range, 5);
    let toks = toks_of(pat, cpats, seq![l0, l1, l2]);
    assert(toks[1].len() == 0);
    assert(prev_pair_at(toks, 0) == (None::<Seq<char>>, None::<Seq<char>>));
    assert(next_pair_at(toks, 0) == (None::<Seq<char>>, None::<Seq<char>>));
    assert(keys2_at(toks, 1) =~= Seq::<Seq<char>>::empty());
    assert(crate::builder::keys3_at(toks, 1) =~= Seq::<Seq<char>>::empty());
    assert(prev_pair_at(toks, 2) == carry_of(toks[1]));
    assert(carry_of(toks[1]) == (None::<Seq<char>>, None::<Seq<char>>));
    assert(next_pair_at(toks, 2) == (None::<Seq<char>>, None::<Seq<char>>));
    assert(keys2_range(toks, 0, 3) =~= line_keys2(None, toks[0], None) + line_keys2(
        None,
        toks[2],
        None,
    ));
    assert(keys3_range(toks, 0, 3) =~= line_keys3(None, None, toks[0], None, None) + line_keys3(
        None,
        None,
        toks[2],
        None,
        None,
    ));
}

} // verus!

verus! {

/// Unambiguity of n-gram keys: under the data-model invariant that tokens
/// never contain the n-gram join separator, splitting a joined trigram key
/// recovers exactly its three tokens, so the two bigrams derived from it
/// are exactly the two adjacent bigram keys of those tokens. The
/// classifier's derivation step (and the expectation that every derived
/// bigram of a counted trigram was itself counted) rests on this; a token
/// holding the separator breaks it.
pub proof fn lemma_derived_pair_of_join3(a: Seq<char>, b: Seq<char>, c: Seq<char>)
    requires
        sep_free(a),
        sep_free(b),
        sep_free(c),
    ensures
        derived_pair(join3_spec(a, b, c)) == (join2_spec(a, b), join2_spec(b, c)),
{
    let tail = b + seq![crate::textops::sep_char()] + c;
    assert(join3_spec(a, b, c) =~= a + seq![crate::textops::sep_char()] + tail);
    lemma_split_sep_step(a, tail);
    lemma_split_sep_step(b, c);
    lemma_split_sep_whole(c);
    let parts = crate::textops::split_sep(join3_spec(a, b, c));
    assert(parts =~= seq![a, b, c]);
    assert(parts[0] == a && parts[1] == b && parts[2] == c);
}

} // verus!
