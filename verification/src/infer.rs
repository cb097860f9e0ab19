//! The dynamic-token inference engine. Over a (possibly context-extended)
//! token sequence it finds the trigrams that the corpus saw but saw rarely,
//! derives their overlapping bigrams, keeps the rare ones, and classifies a
//! token as dynamic exactly when both bigrams of some window it centers are
//! rare. A derived bigram absent from the bigram dictionary is reported as
//! an error: every bigram of a trigram the corpus counted must have been
//! counted too, so absence means the sample was classified against
//! dictionaries built from a different corpus or format. The derivation
//! step depends on the data-model invariant that tokens never contain the
//! n-gram join separator (see `crate::laws::lemma_derived_pair_of_join3`):
//! only then does splitting a joined key recover the tokens it joined.

use vstd::prelude::*;

use crate::builder::first_seen;
use crate::builder::trigram_keys;
use crate::dict::Dict;
use crate::dict::count_of;
use crate::textops::count_sep;
use crate::textops::join2;
use crate::textops::join2_spec;
use crate::textops::join3;
use crate::textops::join3_spec;
use crate::textops::lemma_count_sep_concat;
use crate::textops::lemma_split_sep_len;
use crate::textops::sep_char;
use crate::textops::split_sep;
use crate::textops::split_sep_str;

verus! {

/// The two overlapping bigrams derived from a trigram key: the key is split
/// on the separator and its first three parts are rejoined pairwise.
pub open spec fn derived_pair(t: Seq<char>) -> (Seq<char>, Seq<char>) {
    let parts = split_sep(t);
    (join2_spec(parts[0], parts[1]), join2_spec(parts[1], parts[2]))
}

/// Both derived bigrams of every trigram, in order.
pub open spec fn derived_flat(tris: Seq<Seq<char>>) -> Seq<Seq<char>>
    decreases tris.len(),
{
    if tris.len() == 0 {
        Seq::empty()
    } else {
        seq![derived_pair(tris[0]).0, derived_pair(tris[0]).1] + derived_flat(tris.drop_first())
    }
}

/// The trigram keys of `ks` that the trigram dictionary holds with a count
/// below the cutoff, in window order (duplicates kept). A key absent from
/// the dictionary is not rare: absence is not rarity.
pub open spec fn rare_known_keys(
    ks: Seq<Seq<char>>,
    d: Map<Seq<char>, u64>,
    cutoff: u64,
) -> Seq<Seq<char>>
    decreases ks.len(),
{
    if ks.len() == 0 {
        Seq::empty()
    } else {
        rare_known_keys(ks.drop_last(), d, cutoff) + (if d.dom().contains(ks.last())
            && d[ks.last()] < cutoff {
            seq![ks.last()]
        } else {
            Seq::empty()
        })
    }
}

/// The uncommon trigram keys of an extended token sequence.
pub open spec fn uncommon_trigram_keys(
    ext: Seq<Seq<char>>,
    trpl: Map<Seq<char>, u64>,
    cutoff: u64,
) -> Seq<Seq<char>> {
    rare_known_keys(trigram_keys(ext), trpl, cutoff)
}

/// The derived bigrams of the uncommon trigrams, deduplicated in first-seen
/// order.
pub open spec fn derived_deduped(
    ext: Seq<Seq<char>>,
    trpl: Map<Seq<char>, u64>,
    cutoff: u64,
) -> Seq<Seq<char>> {
    first_seen(Seq::empty(), derived_flat(uncommon_trigram_keys(ext, trpl, cutoff)))
}

/// Whether the bigram dictionary holds every key of `ded`.
pub open spec fn all_present(ded: Seq<Seq<char>>, dbl: Map<Seq<char>, u64>) -> bool {
    forall|i: int| 0 <= i < ded.len() ==> dbl.dom().contains(ded[i])
}

/// The first position of `ded` whose key the bigram dictionary lacks.
pub open spec fn first_absent(ded: Seq<Seq<char>>, dbl: Map<Seq<char>, u64>) -> int
    decreases ded.len(),
{
    if ded.len() == 0 {
        0
    } else if !dbl.dom().contains(ded[0]) {
        0
    } else {
        1 + first_absent(ded.drop_first(), dbl)
    }
}

proof fn lemma_first_absent_is(ded: Seq<Seq<char>>, dbl: Map<Seq<char>, u64>, i: int)
    requires
        0 <= i < ded.len(),
        forall|m: int| 0 <= m < i ==> dbl.dom().contains(ded[m]),
        !dbl.dom().contains(ded[i]),
    ensures
        first_absent(ded, dbl) == i,
    decreases ded.len(),
{
    if i > 0 {
        lemma_first_absent_is(ded.drop_first(), dbl, i - 1);
    }
}

/// The derived bigrams (all present) whose own count is below the cutoff.
pub open spec fn uncommon_bigrams_spec(
    ded: Seq<Seq<char>>,
    dbl: Map<Seq<char>, u64>,
    cutoff: u64,
) -> Seq<Seq<char>>
    decreases ded.len(),
{
    if ded.len() == 0 {
        Seq::empty()
    } else {
        uncommon_bigrams_spec(ded.drop_last(), dbl, cutoff) + (if count_of(dbl, ded.last())
            < cutoff {
            seq![ded.last()]
        } else {
            Seq::empty()
        })
    }
}

/// The tokens classified dynamic, scanning windows from `w` on: a window's
/// center is dynamic when both its bigrams are uncommon.
pub open spec fn dyn_tokens_from(
    ext: Seq<Seq<char>>,
    ub: Seq<Seq<char>>,
    w: int,
) -> Seq<Seq<char>>
    decreases ext.len() - w,
{
    if w < 0 || w + 2 >= ext.len() {
        Seq::empty()
    } else {
        (if ub.contains(join2_spec(ext[w], ext[w + 1])) && ub.contains(
            join2_spec(ext[w + 1], ext[w + 2]),
        ) {
            seq![ext[w + 1]]
        } else {
            Seq::empty()
        }) + dyn_tokens_from(ext, ub, w + 1)
    }
}

/// The full classification of an extended token sequence against the two
/// dictionaries and the cutoff.
pub open spec fn inferred_dynamic_tokens(
    ext: Seq<Seq<char>>,
    trpl: Map<Seq<char>, u64>,
    dbl: Map<Seq<char>, u64>,
    cutoff: u64,
) -> Seq<Seq<char>> {
    dyn_tokens_from(
        ext,
        uncommon_bigrams_spec(derived_deduped(ext, trpl, cutoff), dbl, cutoff),
        0,
    )
}

/// A trigram key joins three parts, so it holds at least two separators.
pub proof fn lemma_join3_seps(a: Seq<char>, b: Seq<char>, c: Seq<char>)
    ensures
        count_sep(join3_spec(a, b, c)) >= 2,
{
    let s1 = seq![sep_char()];
    assert(count_sep(s1) == 1) by {
        assert(s1.drop_first() =~= Seq::<char>::empty());
        assert(count_sep(Seq::<char>::empty()) == 0);
    }
    lemma_count_sep_concat(a + s1 + b + s1, c);
    lemma_count_sep_concat(a + s1 + b, s1);
    lemma_count_sep_concat(a + s1, b);
    lemma_count_sep_concat(a, s1);
}

/// A derived bigram lookup failed: the sample was classified against
/// dictionaries that did not count it.
#[derive(Debug)]
pub struct MissingBigram {
    /// The derived bigram key that the bigram dictionary lacks.
    pub key: String,
}

/// Splits a trigram key on the separator and rejoins its first three parts
/// into the two overlapping bigram keys.
pub fn derive_2grams_from_trigram(trigram: &str) -> (r: Vec<String>)
    requires
        split_sep(trigram@).len() >= 3,
    ensures
        r.deep_view() == seq![derived_pair(trigram@).0, derived_pair(trigram@).1],
{
    let grams = split_sep_str(trigram);
    proof {
        assert(grams@.len() == grams.deep_view().len());
    }
    let g1 = join2(grams[0].as_str(), grams[1].as_str());
    let g2 = join2(grams[1].as_str(), grams[2].as_str());
    let mut r: Vec<String> = Vec::new();
    r.push(g1);
    r.push(g2);
    proof {
        assert(grams@[0]@ == grams.deep_view()[0]);
        assert(grams@[1]@ == grams.deep_view()[1]);
        assert(grams@[2]@ == grams.deep_view()[2]);
        assert(r.deep_view() =~= seq![derived_pair(trigram@).0, derived_pair(trigram@).1]);
    }
    r
}

/// Classifies the tokens of the extended sequence `ext` as dynamic or
/// fixed: a token is dynamic when, for some window of three it centers,
/// both bigrams of that window were seen rarely (derived from an uncommon
/// trigram and themselves below the cutoff). Returns the dynamic tokens in
/// window order, or the first derived bigram that the bigram dictionary
/// lacks (a sign the dictionaries belong to another corpus or format).
pub fn classify_dynamic_tokens(ext: &Vec<String>, dbl: &Dict, trpl: &Dict, cutoff: u64) -> (r:
    Result<Vec<String>, MissingBigram>)
    requires
        dbl.wf(),
        trpl.wf(),
    ensures
        ({
            let ded = derived_deduped(ext.deep_view(), trpl@, cutoff);
            &&& all_present(ded, dbl@) ==> (r matches Ok(v) && v.deep_view()
                == inferred_dynamic_tokens(ext.deep_view(), trpl@, dbl@, cutoff))
            &&& !all_present(ded, dbl@) ==> (r matches Err(e) && e.key@ == ded[first_absent(
                ded,
                dbl@,
            )])
        }),
{
    let ghost ev = ext.deep_view();
    let ghost ks = trigram_keys(ev);

    // pass 1: trigrams of the extended sequence that the corpus saw rarely
    let mut uncommon_3grams: Vec<String> = Vec::new();
    let n = ext.len();
    if n >= 3 {
        let mut w: usize = 0;
        proof {
            assert(ks.subrange(0, 0) =~= Seq::<Seq<char>>::empty());
            assert(rare_known_keys(ks.subrange(0, 0), trpl@, cutoff) =~= Seq::<Seq<char>>::empty());
            assert(uncommon_3grams.deep_view() =~= Seq::<Seq<char>>::empty());
        }
        while w + 2 < n
            invariant
                0 <= w <= n - 2,
                n >= 3,
                n == ev.len(),
                ev == ext.deep_view(),
                ks == trigram_keys(ev),
                trpl.wf(),
                uncommon_3grams.deep_view() == rare_known_keys(
                    ks.subrange(0, w as int),
                    trpl@,
                    cutoff,
                ),
                forall|m: int|
                    0 <= m < w ==> #[trigger] ks.subrange(0, w as int)[m] == ks[m],
                forall|m: int|
                    0 <= m < uncommon_3grams.deep_view().len() ==> count_sep(
                        #[trigger] uncommon_3grams.deep_view()[m],
                    ) >= 2,
            decreases n - w,
        {
            let three_gram = join3(ext[w].as_str(), ext[w + 1].as_str(), ext[w + 2].as_str());
            proof {
                assert(ev[w as int] == ext@[w as int]@);
                assert(three_gram@ == ks[w as int]);
                lemma_join3_seps(ev[w as int], ev[w + 1], ev[w + 2]);
            }
            let ghost pre = uncommon_3grams.deep_view();
            let keep = match trpl.get(&three_gram) {
                Some(c) => c < cutoff,
                None => false,
            };
            if keep {
                uncommon_3grams.push(three_gram);
            }
            proof {
                assert(ks.subrange(0, w + 1).drop_last() =~= ks.subrange(0, w as int));
                assert(ks.subrange(0, w + 1).last() == ks[w as int]);
                if keep {
                    assert(uncommon_3grams.deep_view() =~= pre.push(ks[w as int]));
                    assert(uncommon_3grams.deep_view() =~= pre + seq![ks[w as int]]);
                } else {
                    assert(pre + Seq::<Seq<char>>::empty() =~= pre);
                }
            }
            w = w + 1;
        }
        proof {
            assert(ks.subrange(0, (n - 2) as int) =~= ks);
        }
    } else {
        proof {
            assert(ks.len() == 0);
            assert(rare_known_keys(ks, trpl@, cutoff) =~= Seq::<Seq<char>>::empty());
            assert(uncommon_3grams.deep_view() =~= Seq::<Seq<char>>::empty());
        }
    }
    let ghost tris = uncommon_trigram_keys(ev, trpl@, cutoff);
    proof {
        assert(uncommon_3grams.deep_view() == tris);
    }

    // pass 2: derive the overlapping bigrams, deduplicated in first-seen order
    let mut deduped: Vec<String> = Vec::new();
    let tn = uncommon_3grams.len();
    let mut i: usize = 0;
    proof {
        assert(tris.subrange(0, tn as int) =~= tris);
        assert(deduped.deep_view() =~= Seq::<Seq<char>>::empty());
    }
    while i < tn
        invariant
            0 <= i <= tn,
            tn == tris.len(),
            tris == uncommon_3grams.deep_view(),
            first_seen(Seq::empty(), derived_flat(tris)) == first_seen(
                deduped.deep_view(),
                derived_flat(tris.subrange(i as int, tn as int)),
            ),
            forall|m: int|
                0 <= m < tris.len() ==> count_sep(#[trigger] tris[m]) >= 2,
        decreases tn - i,
    {
        let ghost tail = tris.subrange(i as int, tn as int);
        proof {
            assert(tail[0] == tris[i as int]);
            assert(tail.drop_first() =~= tris.subrange(i + 1, tn as int));
            lemma_split_sep_len(tris[i as int]);
        }
        let two_gs = derive_2grams_from_trigram(uncommon_3grams[i].as_str());
        let ghost pair = derived_pair(tris[i as int]);
        let ghost rest = derived_flat(tris.subrange(i + 1, tn as int));
        proof {
            assert(two_gs.deep_view()[0] == two_gs@[0]@);
            assert(two_gs.deep_view()[1] == two_gs@[1]@);
            assert(two_gs@[0]@ == pair.0);
            assert(two_gs@[1]@ == pair.1);
        }
        let ghost pre = deduped.deep_view();
        let ghost acc1 = if pre.contains(pair.0) {
            pre
        } else {
            pre.push(pair.0)
        };
        if !crate::builder::vec_has_string(&deduped, &two_gs[0]) {
            deduped.push(two_gs[0].clone());
            proof {
                assert(deduped.deep_view() =~= pre.push(pair.0));
            }
        }
        proof {
            assert(deduped.deep_view() == acc1);
        }
        let ghost acc2 = if acc1.contains(pair.1) {
            acc1
        } else {
            acc1.push(pair.1)
        };
        if !crate::builder::vec_has_string(&deduped, &two_gs[1]) {
            deduped.push(two_gs[1].clone());
            proof {
                assert(deduped.deep_view() =~= acc1.push(pair.1));
            }
        }
        proof {
            assert(deduped.deep_view() == acc2);
            let flat_tail = derived_flat(tail);
            assert(flat_tail == seq![pair.0, pair.1] + rest);
            assert(flat_tail[0] == pair.0);
            assert(flat_tail.drop_first() =~= seq![pair.1] + rest);
            assert(first_seen(pre, flat_tail) == first_seen(acc1, flat_tail.drop_first()));
            assert((seq![pair.1] + rest)[0] == pair.1);
            assert((seq![pair.1] + rest).drop_first() =~= rest);
            assert(first_seen(acc1, seq![pair.1] + rest) == first_seen(acc2, rest));
        }
        i = i + 1;
    }
    proof {
        assert(tris.subrange(tn as int, tn as int) =~= Seq::<Seq<char>>::empty());
        assert(derived_flat(Seq::<Seq<char>>::empty()) =~= Seq::<Seq<char>>::empty());
    }
    let ghost ded = derived_deduped(ev, trpl@, cutoff);
    proof {
        assert(deduped.deep_view() == ded);
    }

    // pass 3: keep the rare derived bigrams; a missing one is an error
    let mut uncommon_2grams: Vec<String> = Vec::new();
    let dn = deduped.len();
    let mut j: usize = 0;
    proof {
        assert(ded.subrange(0, 0) =~= Seq::<Seq<char>>::empty());
        assert(uncommon_bigrams_spec(ded.subrange(0, 0), dbl@, cutoff) =~= Seq::<
            Seq<char>,
        >::empty());
        assert(uncommon_2grams.deep_view() =~= Seq::<Seq<char>>::empty());
    }
    while j < dn
        invariant
            0 <= j <= dn,
            dn == ded.len(),
            ded == deduped.deep_view(),
            ded == derived_deduped(ext.deep_view(), trpl@, cutoff),
            dbl.wf(),
            forall|m: int| 0 <= m < j ==> dbl@.dom().contains(#[trigger] ded[m]),
            uncommon_2grams.deep_view() == uncommon_bigrams_spec(
                ded.subrange(0, j as int),
                dbl@,
                cutoff,
            ),
        decreases dn - j,
    {
        let ghost pre = uncommon_2grams.deep_view();
        proof {
            assert(ded[j as int] == deduped.deep_view()[j as int]);
        }
        match dbl.get(&deduped[j]) {
            None => {
                proof {
                    assert(deduped.deep_view()[j as int] == deduped@[j as int]@);
                    lemma_first_absent_is(ded, dbl@, j as int);
                    assert(!all_present(ded, dbl@));
                }
                return Err(MissingBigram { key: deduped[j].clone() });
            },
            Some(c) => {
                if c < cutoff {
                    uncommon_2grams.push(deduped[j].clone());
                }
            },
        }
        proof {
            assert(ded.subrange(0, j + 1).drop_last() =~= ded.subrange(0, j as int));
            assert(ded.subrange(0, j + 1).last() == ded[j as int]);
            if count_of(dbl@, ded[j as int]) < cutoff {
                assert(uncommon_2grams.deep_view() =~= pre + seq![ded[j as int]]);
            } else {
                assert(pre + Seq::<Seq<char>>::empty() =~= pre);
            }
        }
        j = j + 1;
    }
    proof {
        assert(ded.subrange(0, dn as int) =~= ded);
    }
    let ghost ub = uncommon_bigrams_spec(ded, dbl@, cutoff);

    // pass 4: a window's center is dynamic when both its bigrams are rare
    let mut dynamic_tokens: Vec<String> = Vec::new();
    if n >= 3 {
        let mut w: usize = 0;
        proof {
            assert(dynamic_tokens.deep_view() =~= Seq::<Seq<char>>::empty());
            assert(dynamic_tokens.deep_view() + dyn_tokens_from(ev, ub, 0) =~= dyn_tokens_from(
                ev,
                ub,
                0,
            ));
        }
        while w + 2 < n
            invariant
                0 <= w <= n - 2,
                n >= 3,
                n == ev.len(),
                ev == ext.deep_view(),
                ub == uncommon_bigrams_spec(ded, dbl@, cutoff),
                uncommon_2grams.deep_view() == ub,
                dyn_tokens_from(ev, ub, 0) == dynamic_tokens.deep_view() + dyn_tokens_from(
                    ev,
                    ub,
                    w as int,
                ),
            decreases n - w,
        {
            let two_gram1 = join2(ext[w].as_str(), ext[w + 1].as_str());
            let two_gram2 = join2(ext[w + 1].as_str(), ext[w + 2].as_str());
            let ghost pre = dynamic_tokens.deep_view();
            proof {
                assert(ev[w as int] == ext@[w as int]@);
                assert(two_gram1@ == join2_spec(ev[w as int], ev[w + 1]));
                assert(two_gram2@ == join2_spec(ev[w + 1], ev[w + 2]));
            }
            if crate::builder::vec_has_string(&uncommon_2grams, &two_gram1)
                && crate::builder::vec_has_string(&uncommon_2grams, &two_gram2) {
                dynamic_tokens.push(ext[w + 1].clone());
                proof {
                    assert(dynamic_tokens.deep_view() =~= pre.push(ev[w + 1]));
                    assert(dynamic_tokens.deep_view() =~= pre + seq![ev[w + 1]]);
                    assert(pre + (seq![ev[w + 1]] + dyn_tokens_from(ev, ub, w + 1)) =~= (pre
                        + seq![ev[w + 1]]) + dyn_tokens_from(ev, ub, w + 1));
                }
            } else {
                proof {
                    assert(pre + (Seq::<Seq<char>>::empty() + dyn_tokens_from(ev, ub, w + 1)) =~= pre
                        + dyn_tokens_from(ev, ub, w + 1));
                }
            }
            w = w + 1;
        }
        proof {
            assert(dyn_tokens_from(ev, ub, (n - 2) as int) =~= Seq::<Seq<char>>::empty());
            assert(dynamic_tokens.deep_view() + Seq::<Seq<char>>::empty() =~= dynamic_tokens.deep_view());
        }
    } else {
        proof {
            assert(dyn_tokens_from(ev, ub, 0) =~= Seq::<Seq<char>>::empty());
            assert(dynamic_tokens.deep_view() =~= Seq::<Seq<char>>::empty());
        }
    }
    Ok(dynamic_tokens)
}

} // verus!

verus! {

/// How context on one side of the sample line is supplied: not at all, as
/// literal whitespace-separated tokens, or as a full adjacent log line from
/// which the nearest two tokens are taken.
pub enum ContextSpec {
    Absent,
    Literal(String),
    FromLine(String),
}

/// The left context tokens: nothing, the literal tokens, or the last two
/// tokens of the adjacent line (`None` when that line yields fewer than
/// two tokens).
pub fn before_context(
    src: ContextSpec,
    re: &crate::rx::LineMatcher,
    regexps: &Vec<crate::rx::CensorPattern>,
) -> (r: Option<Vec<String>>)
    ensures
        match src {
            ContextSpec::Absent => r matches Some(v) && v.deep_view() == Seq::<Seq<char>>::empty(),
            ContextSpec::Literal(s) => r matches Some(v) && v.deep_view()
                == crate::textops::split_ws(s@),
            ContextSpec::FromLine(l) => ({
                let ts = crate::tokenizer::line_tokens(
                    re.pattern(),
                    crate::tokenizer::censor_pats(regexps@),
                    l@,
                );
                if ts.len() >= 2 {
                    r matches Some(v) && v.deep_view() == ts.subrange(
                        ts.len() - 2,
                        ts.len() as int,
                    )
                } else {
                    r is None
                }
            }),
        },
{
    match src {
        ContextSpec::Absent => {
            let v: Vec<String> = Vec::new();
            proof {
                assert(v.deep_view() =~= Seq::<Seq<char>>::empty());
            }
            Some(v)
        },
        ContextSpec::Literal(s) => Some(crate::textops::split_whitespace_str(s.as_str())),
        ContextSpec::FromLine(l) => {
            let ts = crate::tokenizer::token_splitter(l, re, regexps);
            if ts.len() >= 2 {
                let mut v: Vec<String> = Vec::new();
                v.push(ts[ts.len() - 2].clone());
                v.push(ts[ts.len() - 1].clone());
                proof {
                    let tv = ts.deep_view();
                    assert(v.deep_view() =~= tv.subrange(tv.len() - 2, tv.len() as int));
                }
                Some(v)
            } else {
                None
            }
        },
    }
}

/// The right context tokens: nothing, the literal tokens, or the first two
/// tokens of the adjacent line (`None` when that line yields fewer than
/// two tokens).
pub fn after_context(
    src: ContextSpec,
    re: &crate::rx::LineMatcher,
    regexps: &Vec<crate::rx::CensorPattern>,
) -> (r: Option<Vec<String>>)
    ensures
        match src {
            ContextSpec::Absent => r matches Some(v) && v.deep_view() == Seq::<Seq<char>>::empty(),
            ContextSpec::Literal(s) => r matches Some(v) && v.deep_view()
                == crate::textops::split_ws(s@),
            ContextSpec::FromLine(l) => ({
                let ts = crate::tokenizer::line_tokens(
                    re.pattern(),
                    crate::tokenizer::censor_pats(regexps@),
                    l@,
                );
                if ts.len() >= 2 {
                    r matches Some(v) && v.deep_view() == ts.subrange(0, 2)
                } else {
                    r is None
                }
            }),
        },
{
    match src {
        ContextSpec::Absent => {
            let v: Vec<String> = Vec::new();
            proof {
                assert(v.deep_view() =~= Seq::<Seq<char>>::empty());
            }
            Some(v)
        },
        ContextSpec::Literal(s) => Some(crate::textops::split_whitespace_str(s.as_str())),
        ContextSpec::FromLine(l) => {
            let ts = crate::tokenizer::token_splitter(l, re, regexps);
            if ts.len() >= 2 {
                let mut v: Vec<String> = Vec::new();
                v.push(ts[0].clone());
                v.push(ts[1].clone());
                proof {
                    assert(v.deep_view() =~= ts.deep_view().subrange(0, 2));
                }
                Some(v)
            } else {
                None
            }
        },
    }
}

} // verus!
