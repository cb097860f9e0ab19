//! The n-gram dictionary builder. One sequential sweep processes each line
//! with one token of carried context on the left and one line of lookahead on
//! the right: for a line with tokens `ts`, bigrams are counted over
//! `[prev1] + ts + [next1]` and trigrams over `[prev2, prev1] + ts + [next1,
//! next2]`, where `prev1`/`prev2` are the last two tokens of the previous
//! line and `next1`/`next2` the first two tokens of the next line. An
//! n-gram that spans a line boundary is therefore observed from both of its
//! sides, once through the lookahead of the earlier line and once through
//! the carry into the later line, and bears count two per occurrence; only
//! in-line n-grams bear count one. A line
//! with no tokens contributes nothing and resets the carried context. The
//! corpus can be partitioned into consecutive chunks and the chunks counted
//! independently and merged: the resulting dictionaries are proved identical
//! to the sequential sweep's, whatever the partition.

use vstd::prelude::*;

use crate::dash::CountsHandle;
use crate::dash::dash_counts;
use crate::dash::dash_get;
use crate::dash::dash_insert;
use crate::dash::dash_new;
use crate::dash::dash_pairs;
use crate::dict::Dict;
use crate::dict::bump_all;
use crate::registry::LogFormat;
use crate::registry::censor_sources_spec;
use crate::registry::format_string;
use crate::registry::format_string_spec;
use crate::rx::CensorPattern;
use crate::rx::LineMatcher;
use crate::template::regex_generator;
use crate::template::template_pattern;
use crate::textops::join2;
use crate::textops::join2_spec;
use crate::textops::join3;
use crate::textops::join3_spec;
use crate::tokenizer::censor_pats;
use crate::tokenizer::censored_regexps;
use crate::tokenizer::line_tokens;
use crate::tokenizer::token_splitter;

verus! {

/// The text of an optional token, as a sequence of zero or one tokens.
pub open spec fn opt_tok(t: Option<Seq<char>>) -> Seq<Seq<char>> {
    match t {
        None => Seq::empty(),
        Some(x) => seq![x],
    }
}

/// The view of an optional owned token.
pub open spec fn opt_view(t: Option<String>) -> Option<Seq<char>> {
    match t {
        None => None,
        Some(s) => Some(s@),
    }
}

/// The carried context a token list leaves behind: its last token and its
/// second-to-last token, where present.
pub open spec fn carry_of(ts: Seq<Seq<char>>) -> (Option<Seq<char>>, Option<Seq<char>>) {
    if ts.len() == 0 {
        (None, None)
    } else if ts.len() == 1 {
        (Some(ts[0]), None)
    } else {
        (Some(ts[ts.len() - 1]), Some(ts[ts.len() - 2]))
    }
}

/// The lookahead context a token list offers: its first and second tokens,
/// where present.
pub open spec fn lead_of(ts: Seq<Seq<char>>) -> (Option<Seq<char>>, Option<Seq<char>>) {
    if ts.len() == 0 {
        (None, None)
    } else if ts.len() == 1 {
        (Some(ts[0]), None)
    } else {
        (Some(ts[0]), Some(ts[1]))
    }
}

/// The bigram keys of a token list: every adjacent pair, joined.
pub open spec fn bigram_keys(ts: Seq<Seq<char>>) -> Seq<Seq<char>> {
    Seq::new(
        if ts.len() < 2 {
            0
        } else {
            (ts.len() - 1) as nat
        },
        |i: int| join2_spec(ts[i], ts[i + 1]),
    )
}

/// The trigram keys of a token list: every adjacent triple, joined.
pub open spec fn trigram_keys(ts: Seq<Seq<char>>) -> Seq<Seq<char>> {
    Seq::new(
        if ts.len() < 3 {
            0
        } else {
            (ts.len() - 2) as nat
        },
        |i: int| join3_spec(ts[i], ts[i + 1], ts[i + 2]),
    )
}

/// The bigram keys one line contributes, given its tokens and context: none
/// when the line has no tokens.
pub open spec fn line_keys2(
    prev1: Option<Seq<char>>,
    ts: Seq<Seq<char>>,
    next1: Option<Seq<char>>,
) -> Seq<Seq<char>> {
    if ts.len() == 0 {
        Seq::empty()
    } else {
        bigram_keys(opt_tok(prev1) + ts + opt_tok(next1))
    }
}

/// The trigram keys one line contributes, given its tokens and context.
pub open spec fn line_keys3(
    prev2: Option<Seq<char>>,
    prev1: Option<Seq<char>>,
    ts: Seq<Seq<char>>,
    next1: Option<Seq<char>>,
    next2: Option<Seq<char>>,
) -> Seq<Seq<char>> {
    if ts.len() == 0 {
        Seq::empty()
    } else {
        trigram_keys(opt_tok(prev2) + (opt_tok(prev1) + ts + opt_tok(next1)) + opt_tok(next2))
    }
}

/// The lookahead pair a line offers: the first two tokens of its token list.
pub open spec fn lookahead_pair(
    pat: Seq<char>,
    cpats: Seq<Seq<char>>,
    lookahead: Option<Seq<char>>,
) -> (Option<Seq<char>>, Option<Seq<char>>) {
    match lookahead {
        None => (None, None),
        Some(l) => lead_of(line_tokens(pat, cpats, l)),
    }
}

/// Distinct tokens in order of first appearance, continuing from `acc`.
pub open spec fn first_seen(acc: Seq<Seq<char>>, ts: Seq<Seq<char>>) -> Seq<Seq<char>>
    decreases ts.len(),
{
    if ts.len() == 0 {
        acc
    } else {
        first_seen(
            if acc.contains(ts[0]) {
                acc
            } else {
                acc.push(ts[0])
            },
            ts.drop_first(),
        )
    }
}

/// Whether `v` holds a string with the text of `s`.
pub(crate) fn vec_has_string(v: &Vec<String>, s: &String) -> (b: bool)
    ensures
        b == v.deep_view().contains(s@),
{
    let n = v.len();
    let mut i: usize = 0;
    while i < n
        invariant
            0 <= i <= n,
            n == v@.len(),
            forall|m: int| 0 <= m < i ==> v@[m]@ != s@,
        decreases n - i,
    {
        if v[i] == *s {
            proof {
                assert(v.deep_view()[i as int] == s@);
            }
            return true;
        }
        i = i + 1;
    }
    proof {
        assert forall|m: int| 0 <= m < v.deep_view().len() implies v.deep_view()[m] != s@ by {
            assert(v.deep_view()[m] == v@[m]@);
        }
    }
    false
}

/// Appends to `list` every token of `tokens` not yet present, in order.
fn record_tokens(list: &mut Vec<String>, tokens: &Vec<String>)
    ensures
        final(list).deep_view() == first_seen(old(list).deep_view(), tokens.deep_view()),
{
    let ghost acc0 = list.deep_view();
    let ghost ts = tokens.deep_view();
    let n = tokens.len();
    let mut i: usize = 0;
    proof {
        assert(ts.subrange(0, n as int) =~= ts);
    }
    while i < n
        invariant
            0 <= i <= n,
            n == ts.len(),
            ts == tokens.deep_view(),
            first_seen(acc0, ts) == first_seen(
                list.deep_view(),
                ts.subrange(i as int, n as int),
            ),
        decreases n - i,
    {
        let ghost tail = ts.subrange(i as int, n as int);
        proof {
            assert(tail[0] == ts[i as int]);
            assert(tail.drop_first() =~= ts.subrange(i + 1, n as int));
        }
        let ghost pre = list.deep_view();
        if !vec_has_string(list, &tokens[i]) {
            list.push(tokens[i].clone());
            proof {
                assert(list.deep_view() =~= pre.push(ts[i as int]));
            }
        }
        i = i + 1;
    }
    proof {
        assert(ts.subrange(n as int, n as int) =~= Seq::<Seq<char>>::empty());
    }
}

/// Processes one line: counts its bigram and trigram keys (with carried and
/// lookahead context) into the two dictionaries, records its distinct
/// tokens, and returns the carried context it leaves for the next line. A
/// line with no tokens contributes nothing and resets the carry.
pub fn process_dictionary_builder_line(
    line: String,
    lookahead_line: Option<String>,
    regexp: &LineMatcher,
    regexps: &Vec<CensorPattern>,
    dbl: &mut Dict,
    trpl: &mut Dict,
    all_token_list: &mut Vec<String>,
    prev1: Option<String>,
    prev2: Option<String>,
) -> (r: (Option<String>, Option<String>))
    requires
        old(dbl).wf(),
        old(trpl).wf(),
    ensures
        final(dbl).wf(),
        final(trpl).wf(),
        ({
            let pat = regexp.pattern();
            let cpats = censor_pats(regexps@);
            let ts = line_tokens(pat, cpats, line@);
            let nx = lookahead_pair(pat, cpats, opt_view(lookahead_line));
            &&& final(dbl)@ == bump_all(old(dbl)@, line_keys2(opt_view(prev1), ts, nx.0))
            &&& final(trpl)@ == bump_all(
                old(trpl)@,
                line_keys3(opt_view(prev2), opt_view(prev1), ts, nx.0, nx.1),
            )
            &&& final(all_token_list).deep_view() == first_seen(
                old(all_token_list).deep_view(),
                ts,
            )
            &&& opt_view(r.0) == carry_of(ts).0
            &&& opt_view(r.1) == carry_of(ts).1
        }),
{
    let ghost pat = regexp.pattern();
    let ghost cpats = censor_pats(regexps@);
    let (next1, next2) = match lookahead_line {
        None => (None, None),
        Some(ll) => {
            let next_tokens = token_splitter(ll, regexp, regexps);
            if next_tokens.len() == 0 {
                (None, None)
            } else if next_tokens.len() == 1 {
                (Some(next_tokens[0].clone()), None)
            } else {
                (Some(next_tokens[0].clone()), Some(next_tokens[1].clone()))
            }
        },
    };
    let tokens = token_splitter(line, regexp, regexps);
    let ghost ts = tokens.deep_view();
    if tokens.len() == 0 {
        proof {
            assert(ts.len() == 0);
            assert(first_seen(old(all_token_list).deep_view(), ts) == old(
                all_token_list,
            ).deep_view());
        }
        return (None, None);
    }
    record_tokens(all_token_list, &tokens);

    let last1 = Some(tokens[tokens.len() - 1].clone());
    let last2 = if tokens.len() >= 2 {
        Some(tokens[tokens.len() - 2].clone())
    } else {
        None
    };

    // [prev1?] + tokens + [next1?]
    let mut tokens2: Vec<String> = Vec::new();
    match prev1 {
        None => (),
        Some(x) => {
            tokens2.push(x);
        },
    }
    let mut moved_tokens = tokens;
    tokens2.append(&mut moved_tokens);
    match next1 {
        None => (),
        Some(x) => {
            tokens2.push(x);
        },
    }
    proof {
        assert(tokens2.deep_view() =~= opt_tok(opt_view(prev1)) + ts + opt_tok(
            lookahead_pair(pat, cpats, opt_view(lookahead_line)).0,
        ));
    }
    count_bigrams(dbl, &tokens2);

    // [prev2?] + tokens2 + [next2?]
    let mut tokens3: Vec<String> = Vec::new();
    match prev2 {
        None => (),
        Some(x) => {
            tokens3.push(x);
        },
    }
    let mut moved_tokens2 = tokens2;
    tokens3.append(&mut moved_tokens2);
    match next2 {
        None => (),
        Some(x) => {
            tokens3.push(x);
        },
    }
    proof {
        let nx = lookahead_pair(pat, cpats, opt_view(lookahead_line));
        assert(tokens3.deep_view() =~= opt_tok(opt_view(prev2)) + (opt_tok(opt_view(prev1)) + ts
            + opt_tok(nx.0)) + opt_tok(nx.1));
    }
    count_trigrams(trpl, &tokens3);

    (last1, last2)
}

/// Counts every adjacent pair of `tokens` into `d`.
fn count_bigrams(d: &mut Dict, tokens: &Vec<String>)
    requires
        old(d).wf(),
    ensures
        final(d).wf(),
        final(d)@ == bump_all(old(d)@, bigram_keys(tokens.deep_view())),
{
    let ghost ks = bigram_keys(tokens.deep_view());
    let ghost m0 = d@;
    if tokens.len() < 2 {
        proof {
            assert(ks.len() == 0);
        }
        return ;
    }
    let n = tokens.len() - 1;
    let mut w: usize = 0;
    proof {
        assert(ks.subrange(0, 0) =~= Seq::<Seq<char>>::empty());
    }
    while w < n
        invariant
            0 <= w <= n,
            n + 1 <= usize::MAX,
            n + 1 == tokens.deep_view().len(),
            ks == bigram_keys(tokens.deep_view()),
            d.wf(),
            d@ == bump_all(m0, ks.subrange(0, w as int)),
        decreases n - w,
    {
        let key = join2(tokens[w].as_str(), tokens[w + 1].as_str());
        proof {
            assert(key@ == ks[w as int]);
        }
        d.increment(key);
        proof {
            assert(ks.subrange(0, w + 1) =~= ks.subrange(0, w as int).push(ks[w as int]));
            crate::dict::lemma_bump_all_snoc(m0, ks.subrange(0, w as int), ks[w as int]);
        }
        w = w + 1;
    }
    proof {
        assert(ks.subrange(0, n as int) =~= ks);
    }
}

/// Counts every adjacent triple of `tokens` into `d`.
fn count_trigrams(d: &mut Dict, tokens: &Vec<String>)
    requires
        old(d).wf(),
    ensures
        final(d).wf(),
        final(d)@ == bump_all(old(d)@, trigram_keys(tokens.deep_view())),
{
    let ghost ks = trigram_keys(tokens.deep_view());
    let ghost m0 = d@;
    if tokens.len() < 3 {
        proof {
            assert(ks.len() == 0);
        }
        return ;
    }
    let n = tokens.len() - 2;
    let mut w: usize = 0;
    proof {
        assert(ks.subrange(0, 0) =~= Seq::<Seq<char>>::empty());
    }
    while w < n
        invariant
            0 <= w <= n,
            n + 2 <= usize::MAX,
            n + 2 == tokens.deep_view().len(),
            ks == trigram_keys(tokens.deep_view()),
            d.wf(),
            d@ == bump_all(m0, ks.subrange(0, w as int)),
        decreases n - w,
    {
        let key = join3(tokens[w].as_str(), tokens[w + 1].as_str(), tokens[w + 2].as_str());
        proof {
            assert(key@ == ks[w as int]);
        }
        d.increment(key);
        proof {
            assert(ks.subrange(0, w + 1) =~= ks.subrange(0, w as int).push(ks[w as int]));
            crate::dict::lemma_bump_all_snoc(m0, ks.subrange(0, w as int), ks[w as int]);
        }
        w = w + 1;
    }
    proof {
        assert(ks.subrange(0, n as int) =~= ks);
    }
}

/// Recovers the carried context that a line leaves behind: the last and
/// second-to-last of its tokens (none when the line has no tokens).
pub fn get_prev_values(line: String, regexp: &LineMatcher, regexps: &Vec<CensorPattern>) -> (r: (
    Option<String>,
    Option<String>,
))
    ensures
        ({
            let ts = line_tokens(regexp.pattern(), censor_pats(regexps@), line@);
            opt_view(r.0) == carry_of(ts).0 && opt_view(r.1) == carry_of(ts).1
        }),
{
    let tokens = token_splitter(line, regexp, regexps);
    if tokens.len() == 0 {
        return (None, None);
    }
    let last1 = Some(tokens[tokens.len() - 1].clone());
    let last2 = if tokens.len() >= 2 {
        Some(tokens[tokens.len() - 2].clone())
    } else {
        None
    };
    (last1, last2)
}

} // verus!

verus! {

/// The per-line token lists of a corpus.
pub open spec fn toks_of(pat: Seq<char>, cpats: Seq<Seq<char>>, lines: Seq<Seq<char>>) -> Seq<
    Seq<Seq<char>>,
> {
    Seq::new(lines.len(), |i: int| line_tokens(pat, cpats, lines[i]))
}

/// The carried context in force when line `i` is processed: what the
/// previous line left behind (none at the first line, and none after a line
/// with no tokens).
pub open spec fn prev_pair_at(toks: Seq<Seq<Seq<char>>>, i: int) -> (
    Option<Seq<char>>,
    Option<Seq<char>>,
) {
    if i <= 0 {
        (None, None)
    } else {
        carry_of(toks[i - 1])
    }
}

/// The lookahead context in force when line `i` is processed: the first two
/// tokens of the next line, when there is one.
pub open spec fn next_pair_at(toks: Seq<Seq<Seq<char>>>, i: int) -> (
    Option<Seq<char>>,
    Option<Seq<char>>,
) {
    if i + 1 >= toks.len() {
        (None, None)
    } else {
        lead_of(toks[i + 1])
    }
}

/// The bigram keys line `i` contributes to the corpus count.
pub open spec fn keys2_at(toks: Seq<Seq<Seq<char>>>, i: int) -> Seq<Seq<char>> {
    line_keys2(prev_pair_at(toks, i).0, toks[i], next_pair_at(toks, i).0)
}

/// The trigram keys line `i` contributes to the corpus count.
pub open spec fn keys3_at(toks: Seq<Seq<Seq<char>>>, i: int) -> Seq<Seq<char>> {
    line_keys3(
        prev_pair_at(toks, i).1,
        prev_pair_at(toks, i).0,
        toks[i],
        next_pair_at(toks, i).0,
        next_pair_at(toks, i).1,
    )
}

/// All bigram keys contributed by lines `lo .. hi`, in order.
pub open spec fn keys2_range(toks: Seq<Seq<Seq<char>>>, lo: int, hi: int) -> Seq<Seq<char>>
    decreases hi - lo,
{
    if lo >= hi {
        Seq::empty()
    } else {
        keys2_range(toks, lo, hi - 1) + keys2_at(toks, hi - 1)
    }
}

/// All trigram keys contributed by lines `lo .. hi`, in order.
pub open spec fn keys3_range(toks: Seq<Seq<Seq<char>>>, lo: int, hi: int) -> Seq<Seq<char>>
    decreases hi - lo,
{
    if lo >= hi {
        Seq::empty()
    } else {
        keys3_range(toks, lo, hi - 1) + keys3_at(toks, hi - 1)
    }
}

/// The distinct tokens of lines `lo .. hi` in first-seen order, continuing
/// from `acc`.
pub open spec fn tokens_range(
    toks: Seq<Seq<Seq<char>>>,
    lo: int,
    hi: int,
    acc: Seq<Seq<char>>,
) -> Seq<Seq<char>>
    decreases hi - lo,
{
    if lo >= hi {
        acc
    } else {
        first_seen(tokens_range(toks, lo, hi - 1, acc), toks[hi - 1])
    }
}

/// Consecutive key ranges concatenate.
pub proof fn lemma_keys2_range_concat(toks: Seq<Seq<Seq<char>>>, a: int, b: int, c: int)
    requires
        a <= b <= c,
    ensures
        keys2_range(toks, a, b) + keys2_range(toks, b, c) == keys2_range(toks, a, c),
    decreases c - b,
{
    if b == c {
        assert(keys2_range(toks, a, b) + Seq::<Seq<char>>::empty() =~= keys2_range(toks, a, b));
    } else {
        lemma_keys2_range_concat(toks, a, b, c - 1);
        assert(keys2_range(toks, a, b) + (keys2_range(toks, b, c - 1) + keys2_at(toks, c - 1))
            =~= (keys2_range(toks, a, b) + keys2_range(toks, b, c - 1)) + keys2_at(toks, c - 1));
    }
}

/// Consecutive key ranges concatenate.
pub proof fn lemma_keys3_range_concat(toks: Seq<Seq<Seq<char>>>, a: int, b: int, c: int)
    requires
        a <= b <= c,
    ensures
        keys3_range(toks, a, b) + keys3_range(toks, b, c) == keys3_range(toks, a, c),
    decreases c - b,
{
    if b == c {
        assert(keys3_range(toks, a, b) + Seq::<Seq<char>>::empty() =~= keys3_range(toks, a, b));
    } else {
        lemma_keys3_range_concat(toks, a, b, c - 1);
        assert(keys3_range(toks, a, b) + (keys3_range(toks, b, c - 1) + keys3_at(toks, c - 1))
            =~= (keys3_range(toks, a, b) + keys3_range(toks, b, c - 1)) + keys3_at(toks, c - 1));
    }
}

/// Processes the lines `lo .. hi` of the corpus in order, carrying context
/// from line `lo - 1` (when there is one) and looking one line ahead past
/// `hi` (when there is one): exactly the contribution these lines make in a
/// full sequential sweep.
pub fn process_range(
    lines: &Vec<String>,
    lo: usize,
    hi: usize,
    regexp: &LineMatcher,
    regexps: &Vec<CensorPattern>,
    dbl: &mut Dict,
    trpl: &mut Dict,
    all_token_list: &mut Vec<String>,
)
    requires
        lo <= hi <= lines@.len(),
        old(dbl).wf(),
        old(trpl).wf(),
    ensures
        final(dbl).wf(),
        final(trpl).wf(),
        ({
            let toks = toks_of(regexp.pattern(), censor_pats(regexps@), lines.deep_view());
            &&& final(dbl)@ == bump_all(old(dbl)@, keys2_range(toks, lo as int, hi as int))
            &&& final(trpl)@ == bump_all(old(trpl)@, keys3_range(toks, lo as int, hi as int))
            &&& final(all_token_list).deep_view() == tokens_range(
                toks,
                lo as int,
                hi as int,
                old(all_token_list).deep_view(),
            )
        }),
{
    let ghost pat = regexp.pattern();
    let ghost cpats = censor_pats(regexps@);
    let ghost toks = toks_of(pat, cpats, lines.deep_view());
    let ghost m2 = dbl@;
    let ghost m3 = trpl@;
    let ghost acc0 = all_token_list.deep_view();

    let mut prev1: Option<String> = None;
    let mut prev2: Option<String> = None;
    if lo > 0 {
        let (p1, p2) = get_prev_values(lines[lo - 1].clone(), regexp, regexps);
        prev1 = p1;
        prev2 = p2;
        proof {
            assert(lines.deep_view()[lo - 1] == lines@[lo - 1]@);
        }
    }
    let mut i: usize = lo;
    while i < hi
        invariant
            lo <= i <= hi <= lines@.len(),
            pat == regexp.pattern(),
            cpats == censor_pats(regexps@),
            toks == toks_of(pat, cpats, lines.deep_view()),
            dbl.wf(),
            trpl.wf(),
            dbl@ == bump_all(m2, keys2_range(toks, lo as int, i as int)),
            trpl@ == bump_all(m3, keys3_range(toks, lo as int, i as int)),
            all_token_list.deep_view() == tokens_range(toks, lo as int, i as int, acc0),
            opt_view(prev1) == prev_pair_at(toks, i as int).0,
            opt_view(prev2) == prev_pair_at(toks, i as int).1,
        decreases hi - i,
    {
        let ghost d2 = dbl@;
        let ghost d3 = trpl@;
        let lookahead: Option<String> = if i + 1 < lines.len() {
            Some(lines[i + 1].clone())
        } else {
            None
        };
        proof {
            assert(match lookahead {
                Some(l) => l@ == lines.deep_view()[i + 1],
                None => i + 1 >= lines.deep_view().len(),
            });
            assert(lookahead_pair(pat, cpats, opt_view(lookahead)) == next_pair_at(
                toks,
                i as int,
            ));
        }
        let (p1, p2) = process_dictionary_builder_line(
            lines[i].clone(),
            lookahead,
            regexp,
            regexps,
            dbl,
            trpl,
            all_token_list,
            prev1,
            prev2,
        );
        prev1 = p1;
        prev2 = p2;
        proof {
            assert(lines.deep_view()[i as int] == lines@[i as int]@);
            assert(line_tokens(pat, cpats, lines.deep_view()[i as int]) == toks[i as int]);
            assert(dbl@ == bump_all(d2, keys2_at(toks, i as int)));
            assert(trpl@ == bump_all(d3, keys3_at(toks, i as int)));
            crate::dict::lemma_bump_all_concat(
                m2,
                keys2_range(toks, lo as int, i as int),
                keys2_at(toks, i as int),
            );
            crate::dict::lemma_bump_all_concat(
                m3,
                keys3_range(toks, lo as int, i as int),
                keys3_at(toks, i as int),
            );
        }
        i = i + 1;
    }
}

/// One sequential sweep over the whole corpus: builds both dictionaries and
/// the distinct-token list from scratch.
pub fn dictionary_builder(
    lines: &Vec<String>,
    regexp: &LineMatcher,
    regexps: &Vec<CensorPattern>,
) -> (r: (Dict, Dict, Vec<String>))
    ensures
        r.0.wf(),
        r.1.wf(),
        ({
            let toks = toks_of(regexp.pattern(), censor_pats(regexps@), lines.deep_view());
            let n = lines@.len() as int;
            &&& r.0@ == bump_all(Map::empty(), keys2_range(toks, 0, n))
            &&& r.1@ == bump_all(Map::empty(), keys3_range(toks, 0, n))
            &&& r.2.deep_view() == tokens_range(toks, 0, n, Seq::empty())
        }),
{
    let mut dbl = Dict::new();
    let mut trpl = Dict::new();
    let mut all_token_list: Vec<String> = Vec::new();
    let n = lines.len();
    proof {
        assert(all_token_list.deep_view() =~= Seq::<Seq<char>>::empty());
    }
    process_range(lines, 0, n, regexp, regexps, &mut dbl, &mut trpl, &mut all_token_list);
    (dbl, trpl, all_token_list)
}

} // verus!

verus! {

/// Start of chunk `k` when `n` lines are split into `w` chunks of `cs =
/// n / w` lines each, the last chunk absorbing the remainder: every line
/// belongs to exactly one chunk.
pub open spec fn chunk_bound(n: int, cs: int, w: int, k: int) -> int
    decreases k,
{
    if k <= 0 {
        0
    } else if k >= w {
        n
    } else {
        chunk_bound(n, cs, w, k - 1) + cs
    }
}

proof fn lemma_chunk_bound_val(n: int, cs: int, w: int, k: int)
    requires
        0 <= k < w,
    ensures
        chunk_bound(n, cs, w, k) == k * cs,
    decreases k,
{
    if k > 0 {
        lemma_chunk_bound_val(n, cs, w, k - 1);
        assert((k - 1) * cs + cs == k * cs) by (nonlinear_arith);
    } else {
        assert(k * cs == 0) by (nonlinear_arith)
            requires
                k == 0,
        ;
    }
}

/// The chunk bounds are ordered, stay within the corpus, and advance by
/// `cs` between inner chunks.
pub proof fn lemma_chunk_bound_props(n: int, cs: int, w: int, k: int)
    requires
        w >= 1,
        cs == n / w,
        n >= 0,
        0 <= k <= w,
    ensures
        0 <= chunk_bound(n, cs, w, k) <= n,
        k < w ==> chunk_bound(n, cs, w, k) <= chunk_bound(n, cs, w, k + 1),
        k + 1 < w ==> chunk_bound(n, cs, w, k + 1) == chunk_bound(n, cs, w, k) + cs,
        k == w ==> chunk_bound(n, cs, w, k) == n,
        k == 0 ==> chunk_bound(n, cs, w, k) == 0,
{
    vstd::arithmetic::div_mod::lemma_fundamental_div_mod(n, w);
    vstd::arithmetic::div_mod::lemma_mod_bound(n, w);
    vstd::arithmetic::div_mod::lemma_div_pos_is_pos(n, w);
    assert(w * cs <= n);
    if k < w {
        lemma_chunk_bound_val(n, cs, w, k);
        assert(k * cs <= w * cs) by (nonlinear_arith)
            requires
                0 <= k <= w,
                cs >= 0,
        ;
        assert(0 <= k * cs) by (nonlinear_arith)
            requires
                0 <= k,
                cs >= 0,
        ;
        if k + 1 < w {
            lemma_chunk_bound_val(n, cs, w, k + 1);
            assert((k + 1) * cs <= w * cs) by (nonlinear_arith)
                requires
                    0 <= k + 1 <= w,
                    cs >= 0,
            ;
        }
    }
}

/// The concatenation, in chunk order, of each chunk's own first-seen token
/// list (duplicates across chunks are kept), for the first `k` chunks.
pub open spec fn chunk_token_lists(
    toks: Seq<Seq<Seq<char>>>,
    n: int,
    cs: int,
    w: int,
    k: int,
) -> Seq<Seq<char>>
    decreases k,
{
    if k <= 0 {
        Seq::empty()
    } else {
        chunk_token_lists(toks, n, cs, w, k - 1) + tokens_range(
            toks,
            chunk_bound(n, cs, w, k - 1),
            chunk_bound(n, cs, w, k),
            Seq::empty(),
        )
    }
}

/// The corpus-wide bigram counts: what one sequential sweep over all lines
/// accumulates.
pub open spec fn corpus_bigram_counts(
    pat: Seq<char>,
    cpats: Seq<Seq<char>>,
    lines: Seq<Seq<char>>,
) -> Map<Seq<char>, u64> {
    bump_all(Map::empty(), keys2_range(toks_of(pat, cpats, lines), 0, lines.len() as int))
}

/// The corpus-wide trigram counts.
pub open spec fn corpus_trigram_counts(
    pat: Seq<char>,
    cpats: Seq<Seq<char>>,
    lines: Seq<Seq<char>>,
) -> Map<Seq<char>, u64> {
    bump_all(Map::empty(), keys3_range(toks_of(pat, cpats, lines), 0, lines.len() as int))
}

/// Local-then-merge strategy: each chunk is counted into its own pair of
/// dictionaries, which are then merged in chunk order. The result equals
/// the sequential sweep's, whatever `num_of_threads` is: this is the
/// partition-invariance and merge-equivalence guarantee.
pub fn parallelized_dictionary_builder(
    lines: &Vec<String>,
    regexp: &LineMatcher,
    regexps: &Vec<CensorPattern>,
    num_of_threads: usize,
) -> (r: (Dict, Dict, Vec<String>))
    requires
        num_of_threads >= 1,
    ensures
        r.0.wf(),
        r.1.wf(),
        ({
            let pat = regexp.pattern();
            let cpats = censor_pats(regexps@);
            let lv = lines.deep_view();
            let n = lines@.len() as int;
            let cs = n / (num_of_threads as int);
            &&& r.0@ == corpus_bigram_counts(pat, cpats, lv)
            &&& r.1@ == corpus_trigram_counts(pat, cpats, lv)
            &&& r.2.deep_view() == chunk_token_lists(
                toks_of(pat, cpats, lv),
                n,
                cs,
                num_of_threads as int,
                num_of_threads as int,
            )
        }),
{
    let ghost pat = regexp.pattern();
    let ghost cpats = censor_pats(regexps@);
    let ghost toks = toks_of(pat, cpats, lines.deep_view());
    let n = lines.len();
    let w = num_of_threads;
    let cs = n / w;
    let ghost ni = n as int;
    let ghost wi = w as int;
    let ghost csi = cs as int;

    let mut dbl = Dict::new();
    let mut trpl = Dict::new();
    let mut all_tokens: Vec<String> = Vec::new();
    let mut lo: usize = 0;
    let mut k: usize = 0;
    proof {
        lemma_chunk_bound_props(ni, csi, wi, 0);
        assert(all_tokens.deep_view() =~= Seq::<Seq<char>>::empty());
        assert(keys2_range(toks, 0, 0) =~= Seq::<Seq<char>>::empty());
        assert(keys3_range(toks, 0, 0) =~= Seq::<Seq<char>>::empty());
    }
    while k < w
        invariant
            0 <= k <= w,
            w >= 1,
            n == lines@.len(),
            cs as int == csi,
            w as int == wi,
            n as int == ni,
            csi == ni / wi,
            pat == regexp.pattern(),
            cpats == censor_pats(regexps@),
            toks == toks_of(pat, cpats, lines.deep_view()),
            lo as int == chunk_bound(ni, csi, wi, k as int),
            dbl.wf(),
            trpl.wf(),
            dbl@ == bump_all(Map::empty(), keys2_range(toks, 0, lo as int)),
            trpl@ == bump_all(Map::empty(), keys3_range(toks, 0, lo as int)),
            all_tokens.deep_view() == chunk_token_lists(toks, ni, csi, wi, k as int),
        decreases w - k,
    {
        proof {
            lemma_chunk_bound_props(ni, csi, wi, k as int);
            lemma_chunk_bound_props(ni, csi, wi, k + 1);
        }
        let hi: usize = if k + 1 == w {
            n
        } else {
            lo + cs
        };
        proof {
            assert(hi as int == chunk_bound(ni, csi, wi, k + 1));
        }
        let mut ldbl = Dict::new();
        let mut ltrpl = Dict::new();
        let mut ltokens: Vec<String> = Vec::new();
        proof {
            assert(ltokens.deep_view() =~= Seq::<Seq<char>>::empty());
        }
        process_range(lines, lo, hi, regexp, regexps, &mut ldbl, &mut ltrpl, &mut ltokens);
        let ghost c2 = dbl@;
        let ghost c3 = trpl@;
        dbl.merge_from(&ldbl);
        trpl.merge_from(&ltrpl);
        let mut lt = ltokens;
        all_tokens.append(&mut lt);
        proof {
            crate::dict::lemma_merge_is_bump_all(c2, keys2_range(toks, lo as int, hi as int));
            crate::dict::lemma_merge_is_bump_all(c3, keys3_range(toks, lo as int, hi as int));
            crate::dict::lemma_bump_all_concat(
                Map::empty(),
                keys2_range(toks, 0, lo as int),
                keys2_range(toks, lo as int, hi as int),
            );
            crate::dict::lemma_bump_all_concat(
                Map::empty(),
                keys3_range(toks, 0, lo as int),
                keys3_range(toks, lo as int, hi as int),
            );
            lemma_keys2_range_concat(toks, 0, lo as int, hi as int);
            lemma_keys3_range_concat(toks, 0, lo as int, hi as int);
        }
        k = k + 1;
        lo = hi;
    }
    proof {
        lemma_chunk_bound_props(ni, csi, wi, wi);
    }
    (dbl, trpl, all_tokens)
}

} // verus!

verus! {

/// Increments the count of `key` in the shared map, inserting it with
/// count 1 when absent (an increment-or-insert on one key).
pub fn dash_increment(m: &mut CountsHandle, key: String)
    ensures
        dash_counts(*final(m)) == crate::dict::bump(dash_counts(*old(m)), key@),
{
    let c = match dash_get(m, &key) {
        Some(c) => c,
        None => 0,
    };
    let nc = if c < u64::MAX {
        c + 1
    } else {
        c
    };
    dash_insert(m, key, nc);
}

/// Counts every adjacent pair of `tokens` into the shared map.
fn count_bigrams_shared(d: &mut CountsHandle, tokens: &Vec<String>)
    ensures
        dash_counts(*final(d)) == bump_all(dash_counts(*old(d)), bigram_keys(tokens.deep_view())),
{
    let ghost ks = bigram_keys(tokens.deep_view());
    let ghost m0 = dash_counts(*d);
    if tokens.len() < 2 {
        proof {
            assert(ks.len() == 0);
        }
        return ;
    }
    let n = tokens.len() - 1;
    let mut w: usize = 0;
    proof {
        assert(ks.subrange(0, 0) =~= Seq::<Seq<char>>::empty());
    }
    while w < n
        invariant
            0 <= w <= n,
            n + 1 <= usize::MAX,
            n + 1 == tokens.deep_view().len(),
            ks == bigram_keys(tokens.deep_view()),
            dash_counts(*d) == bump_all(m0, ks.subrange(0, w as int)),
        decreases n - w,
    {
        let key = join2(tokens[w].as_str(), tokens[w + 1].as_str());
        proof {
            assert(key@ == ks[w as int]);
        }
        dash_increment(d, key);
        proof {
            assert(ks.subrange(0, w + 1) =~= ks.subrange(0, w as int).push(ks[w as int]));
            crate::dict::lemma_bump_all_snoc(m0, ks.subrange(0, w as int), ks[w as int]);
        }
        w = w + 1;
    }
    proof {
        assert(ks.subrange(0, n as int) =~= ks);
    }
}

/// Counts every adjacent triple of `tokens` into the shared map.
fn count_trigrams_shared(d: &mut CountsHandle, tokens: &Vec<String>)
    ensures
        dash_counts(*final(d)) == bump_all(
            dash_counts(*old(d)),
            trigram_keys(tokens.deep_view()),
        ),
{
    let ghost ks = trigram_keys(tokens.deep_view());
    let ghost m0 = dash_counts(*d);
    if tokens.len() < 3 {
        proof {
            assert(ks.len() == 0);
        }
        return ;
    }
    let n = tokens.len() - 2;
    let mut w: usize = 0;
    proof {
        assert(ks.subrange(0, 0) =~= Seq::<Seq<char>>::empty());
    }
    while w < n
        invariant
            0 <= w <= n,
            n + 2 <= usize::MAX,
            n + 2 == tokens.deep_view().len(),
            ks == trigram_keys(tokens.deep_view()),
            dash_counts(*d) == bump_all(m0, ks.subrange(0, w as int)),
        decreases n - w,
    {
        let key = join3(tokens[w].as_str(), tokens[w + 1].as_str(), tokens[w + 2].as_str());
        proof {
            assert(key@ == ks[w as int]);
        }
        dash_increment(d, key);
        proof {
            assert(ks.subrange(0, w + 1) =~= ks.subrange(0, w as int).push(ks[w as int]));
            crate::dict::lemma_bump_all_snoc(m0, ks.subrange(0, w as int), ks[w as int]);
        }
        w = w + 1;
    }
    proof {
        assert(ks.subrange(0, n as int) =~= ks);
    }
}

/// Processes one line as `process_dictionary_builder_line` does, but counts
/// into the shared maps of the shared-concurrent strategy.
pub fn process_dictionary_builder_line_2(
    line: String,
    lookahead_line: Option<String>,
    regexp: &LineMatcher,
    regexps: &Vec<CensorPattern>,
    dbl: &mut CountsHandle,
    trpl: &mut CountsHandle,
    all_token_list: &mut Vec<String>,
    prev1: Option<String>,
    prev2: Option<String>,
) -> (r: (Option<String>, Option<String>))
    ensures
        ({
            let pat = regexp.pattern();
            let cpats = censor_pats(regexps@);
            let ts = line_tokens(pat, cpats, line@);
            let nx = lookahead_pair(pat, cpats, opt_view(lookahead_line));
            &&& dash_counts(*final(dbl)) == bump_all(
                dash_counts(*old(dbl)),
                line_keys2(opt_view(prev1), ts, nx.0),
            )
            &&& dash_counts(*final(trpl)) == bump_all(
                dash_counts(*old(trpl)),
                line_keys3(opt_view(prev2), opt_view(prev1), ts, nx.0, nx.1),
            )
            &&& final(all_token_list).deep_view() == first_seen(
                old(all_token_list).deep_view(),
                ts,
            )
            &&& opt_view(r.0) == carry_of(ts).0
            &&& opt_view(r.1) == carry_of(ts).1
        }),
{
    let ghost pat = regexp.pattern();
    let ghost cpats = censor_pats(regexps@);
    let (next1, next2) = match lookahead_line {
        None => (None, None),
        Some(ll) => {
            let next_tokens = token_splitter(ll, regexp, regexps);
            if next_tokens.len() == 0 {
                (None, None)
            } else if next_tokens.len() == 1 {
                (Some(next_tokens[0].clone()), None)
            } else {
                (Some(next_tokens[0].clone()), Some(next_tokens[1].clone()))
            }
        },
    };
    let tokens = token_splitter(line, regexp, regexps);
    let ghost ts = tokens.deep_view();
    if tokens.len() == 0 {
        proof {
            assert(ts.len() == 0);
            assert(first_seen(old(all_token_list).deep_view(), ts) == old(
                all_token_list,
            ).deep_view());
        }
        return (None, None);
    }
    record_tokens(all_token_list, &tokens);

    let last1 = Some(tokens[tokens.len() - 1].clone());
    let last2 = if tokens.len() >= 2 {
        Some(tokens[tokens.len() - 2].clone())
    } else {
        None
    };

    let mut tokens2: Vec<String> = Vec::new();
    match prev1 {
        None => (),
        Some(x) => {
            tokens2.push(x);
        },
    }
    let mut moved_tokens = tokens;
    tokens2.append(&mut moved_tokens);
    match next1 {
        None => (),
        Some(x) => {
            tokens2.push(x);
        },
    }
    proof {
        assert(tokens2.deep_view() =~= opt_tok(opt_view(prev1)) + ts + opt_tok(
            lookahead_pair(pat, cpats, opt_view(lookahead_line)).0,
        ));
    }
    count_bigrams_shared(dbl, &tokens2);

    let mut tokens3: Vec<String> = Vec::new();
    match prev2 {
        None => (),
        Some(x) => {
            tokens3.push(x);
        },
    }
    let mut moved_tokens2 = tokens2;
    tokens3.append(&mut moved_tokens2);
    match next2 {
        None => (),
        Some(x) => {
            tokens3.push(x);
        },
    }
    proof {
        let nx = lookahead_pair(pat, cpats, opt_view(lookahead_line));
        assert(tokens3.deep_view() =~= opt_tok(opt_view(prev2)) + (opt_tok(opt_view(prev1)) + ts
            + opt_tok(nx.0)) + opt_tok(nx.1));
    }
    count_trigrams_shared(trpl, &tokens3);

    (last1, last2)
}

/// Processes the lines `lo .. hi` into the shared maps, as `process_range`
/// does into local dictionaries.
fn process_range_shared(
    lines: &Vec<String>,
    lo: usize,
    hi: usize,
    regexp: &LineMatcher,
    regexps: &Vec<CensorPattern>,
    dbl: &mut CountsHandle,
    trpl: &mut CountsHandle,
    all_token_list: &mut Vec<String>,
)
    requires
        lo <= hi <= lines@.len(),
    ensures
        ({
            let toks = toks_of(regexp.pattern(), censor_pats(regexps@), lines.deep_view());
            &&& dash_counts(*final(dbl)) == bump_all(
                dash_counts(*old(dbl)),
                keys2_range(toks, lo as int, hi as int),
            )
            &&& dash_counts(*final(trpl)) == bump_all(
                dash_counts(*old(trpl)),
                keys3_range(toks, lo as int, hi as int),
            )
            &&& final(all_token_list).deep_view() == tokens_range(
                toks,
                lo as int,
                hi as int,
                old(all_token_list).deep_view(),
            )
        }),
{
    let ghost pat = regexp.pattern();
    let ghost cpats = censor_pats(regexps@);
    let ghost toks = toks_of(pat, cpats, lines.deep_view());
    let ghost m2 = dash_counts(*dbl);
    let ghost m3 = dash_counts(*trpl);
    let ghost acc0 = all_token_list.deep_view();

    let mut prev1: Option<String> = None;
    let mut prev2: Option<String> = None;
    if lo > 0 {
        let (p1, p2) = get_prev_values(lines[lo - 1].clone(), regexp, regexps);
        prev1 = p1;
        prev2 = p2;
        proof {
            assert(lines.deep_view()[lo - 1] == lines@[lo - 1]@);
        }
    }
    let mut i: usize = lo;
    while i < hi
        invariant
            lo <= i <= hi <= lines@.len(),
            pat == regexp.pattern(),
            cpats == censor_pats(regexps@),
            toks == toks_of(pat, cpats, lines.deep_view()),
            dash_counts(*dbl) == bump_all(m2, keys2_range(toks, lo as int, i as int)),
            dash_counts(*trpl) == bump_all(m3, keys3_range(toks, lo as int, i as int)),
            all_token_list.deep_view() == tokens_range(toks, lo as int, i as int, acc0),
            opt_view(prev1) == prev_pair_at(toks, i as int).0,
            opt_view(prev2) == prev_pair_at(toks, i as int).1,
        decreases hi - i,
    {
        let ghost d2 = dash_counts(*dbl);
        let ghost d3 = dash_counts(*trpl);
        let lookahead: Option<String> = if i + 1 < lines.len() {
            Some(lines[i + 1].clone())
        } else {
            None
        };
        proof {
            assert(match lookahead {
                Some(l) => l@ == lines.deep_view()[i + 1],
                None => i + 1 >= lines.deep_view().len(),
            });
            assert(lookahead_pair(pat, cpats, opt_view(lookahead)) == next_pair_at(
                toks,
                i as int,
            ));
        }
        let (p1, p2) = process_dictionary_builder_line_2(
            lines[i].clone(),
            lookahead,
            regexp,
            regexps,
            dbl,
            trpl,
            all_token_list,
            prev1,
            prev2,
        );
        prev1 = p1;
        prev2 = p2;
        proof {
            assert(lines.deep_view()[i as int] == lines@[i as int]@);
            assert(line_tokens(pat, cpats, lines.deep_view()[i as int]) == toks[i as int]);
            assert(dash_counts(*dbl) == bump_all(d2, keys2_at(toks, i as int)));
            assert(dash_counts(*trpl) == bump_all(d3, keys3_at(toks, i as int)));
            crate::dict::lemma_bump_all_concat(
                m2,
                keys2_range(toks, lo as int, i as int),
                keys2_at(toks, i as int),
            );
            crate::dict::lemma_bump_all_concat(
                m3,
                keys3_range(toks, lo as int, i as int),
                keys3_at(toks, i as int),
            );
        }
        i = i + 1;
    }
}

/// Reads the shared map out into a dictionary.
fn dash_to_dict(m: &CountsHandle) -> (d: Dict)
    ensures
        d.wf(),
        d@ == dash_counts(*m),
{
    let pairs = dash_pairs(m);
    let mut d = Dict::new();
    let ghost evs = crate::dict::ev_of(pairs@);
    let n = pairs.len();
    let mut i: usize = 0;
    proof {
        assert(evs.subrange(0, 0) =~= Seq::<(Seq<char>, u64)>::empty());
    }
    while i < n
        invariant
            0 <= i <= n,
            n == pairs@.len(),
            evs == crate::dict::ev_of(pairs@),
            d.wf(),
            d@ == crate::dict::fold_add(Map::empty(), evs.subrange(0, i as int)),
        decreases n - i,
    {
        let e = &pairs[i];
        d.add(e.0.clone(), e.1);
        proof {
            assert(evs.subrange(0, i + 1).drop_last() =~= evs.subrange(0, i as int));
            assert(evs.subrange(0, i + 1).last() == evs[i as int]);
            assert(evs[i as int] == (pairs@[i as int].0@, pairs@[i as int].1));
        }
        i = i + 1;
    }
    proof {
        assert(evs.subrange(0, n as int) =~= evs);
        crate::dict::lemma_fold_add_is_merge(Map::empty(), pairs@);
        crate::dict::lemma_merge_empty_left(crate::dict::entries_map(pairs@));
    }
    d
}

/// Shared-concurrent strategy: every chunk is counted into one pair of
/// shared maps by repeated increment-or-insert, and the maps are read out
/// at the end. The result equals the local-then-merge strategy's and the
/// sequential sweep's, whatever `num_of_threads` is.
pub fn concurrent_map_dictionary_builder(
    lines: &Vec<String>,
    regexp: &LineMatcher,
    regexps: &Vec<CensorPattern>,
    num_of_threads: usize,
) -> (r: (Dict, Dict, Vec<String>))
    requires
        num_of_threads >= 1,
    ensures
        r.0.wf(),
        r.1.wf(),
        ({
            let pat = regexp.pattern();
            let cpats = censor_pats(regexps@);
            let lv = lines.deep_view();
            let n = lines@.len() as int;
            let cs = n / (num_of_threads as int);
            &&& r.0@ == corpus_bigram_counts(pat, cpats, lv)
            &&& r.1@ == corpus_trigram_counts(pat, cpats, lv)
            &&& r.2.deep_view() == chunk_token_lists(
                toks_of(pat, cpats, lv),
                n,
                cs,
                num_of_threads as int,
                num_of_threads as int,
            )
        }),
{
    let ghost pat = regexp.pattern();
    let ghost cpats = censor_pats(regexps@);
    let ghost toks = toks_of(pat, cpats, lines.deep_view());
    let n = lines.len();
    let w = num_of_threads;
    let cs = n / w;
    let ghost ni = n as int;
    let ghost wi = w as int;
    let ghost csi = cs as int;

    let mut combined_dbl = dash_new();
    let mut combined_trpl = dash_new();
    let mut all_tokens: Vec<String> = Vec::new();
    let mut lo: usize = 0;
    let mut k: usize = 0;
    proof {
        lemma_chunk_bound_props(ni, csi, wi, 0);
        assert(all_tokens.deep_view() =~= Seq::<Seq<char>>::empty());
        assert(dash_counts(combined_dbl) =~= Map::<Seq<char>, u64>::empty());
        assert(dash_counts(combined_trpl) =~= Map::<Seq<char>, u64>::empty());
        assert(keys2_range(toks, 0, 0) =~= Seq::<Seq<char>>::empty());
        assert(keys3_range(toks, 0, 0) =~= Seq::<Seq<char>>::empty());
    }
    while k < w
        invariant
            0 <= k <= w,
            w >= 1,
            n == lines@.len(),
            cs as int == csi,
            w as int == wi,
            n as int == ni,
            csi == ni / wi,
            pat == regexp.pattern(),
            cpats == censor_pats(regexps@),
            toks == toks_of(pat, cpats, lines.deep_view()),
            lo as int == chunk_bound(ni, csi, wi, k as int),
            dash_counts(combined_dbl) == bump_all(Map::empty(), keys2_range(toks, 0, lo as int)),
            dash_counts(combined_trpl) == bump_all(
                Map::empty(),
                keys3_range(toks, 0, lo as int),
            ),
            all_tokens.deep_view() == chunk_token_lists(toks, ni, csi, wi, k as int),
        decreases w - k,
    {
        proof {
            lemma_chunk_bound_props(ni, csi, wi, k as int);
            lemma_chunk_bound_props(ni, csi, wi, k + 1);
        }
        let hi: usize = if k + 1 == w {
            n
        } else {
            lo + cs
        };
        proof {
            assert(hi as int == chunk_bound(ni, csi, wi, k + 1));
        }
        let mut ltokens: Vec<String> = Vec::new();
        proof {
            assert(ltokens.deep_view() =~= Seq::<Seq<char>>::empty());
        }
        process_range_shared(
            lines,
            lo,
            hi,
            regexp,
            regexps,
            &mut combined_dbl,
            &mut combined_trpl,
            &mut ltokens,
        );
        let mut lt = ltokens;
        all_tokens.append(&mut lt);
        proof {
            crate::dict::lemma_bump_all_concat(
                Map::empty(),
                keys2_range(toks, 0, lo as int),
                keys2_range(toks, lo as int, hi as int),
            );
            crate::dict::lemma_bump_all_concat(
                Map::empty(),
                keys3_range(toks, 0, lo as int),
                keys3_range(toks, lo as int, hi as int),
            );
            lemma_keys2_range_concat(toks, 0, lo as int, hi as int);
            lemma_keys3_range_concat(toks, 0, lo as int, hi as int);
        }
        k = k + 1;
        lo = hi;
    }
    proof {
        lemma_chunk_bound_props(ni, csi, wi, wi);
    }
    let dbl = dash_to_dict(&combined_dbl);
    let trpl = dash_to_dict(&combined_trpl);
    (dbl, trpl, all_tokens)
}

} // verus!

verus! {

/// Whether the pattern engine accepts the compiled, anchored line template
/// of a format.
pub open spec fn template_accepted(lf: LogFormat) -> bool {
    crate::rx::pattern_accepted(crate::rx::anchored(template_pattern(format_string_spec(lf))))
}

/// Whether the pattern engine accepts every censoring pattern source of a
/// format.
pub open spec fn censors_accepted(lf: LogFormat) -> bool {
    forall|m: int|
        0 <= m < censor_sources_spec(lf).len() ==> crate::rx::pattern_accepted(
            #[trigger] censor_sources_spec(lf)[m],
        )
}

/// A configuration defect found while preparing a build: the fixed registry
/// produced pattern text that the pattern engine rejected.
#[derive(Clone, Copy, Debug, PartialEq, Eq, Structural)]
pub enum BuildError {
    /// The compiled line template was rejected.
    TemplateRejected,
    /// A censoring pattern was rejected.
    CensorRejected,
}

/// Builds the bigram and trigram dictionaries and the distinct-token list
/// for a corpus of lines under the given format. Whichever strategy
/// `single_map` selects (`true`: local-then-merge; `false`:
/// shared-concurrent) and whatever `num_of_threads` is, the dictionaries
/// are the ones a single sequential sweep yields; only the advisory token
/// list depends on the partition. Errors are configuration defects of the
/// fixed registry, not properties of the input lines.
pub fn parse_lines(
    lines: &Vec<String>,
    lf: &LogFormat,
    single_map: bool,
    num_of_threads: usize,
) -> (r: Result<(Dict, Dict, Vec<String>), BuildError>)
    requires
        num_of_threads >= 1,
    ensures
        r is Ok <==> template_accepted(*lf) && censors_accepted(*lf),
        (r matches Err(e) && e == BuildError::TemplateRejected) <==> !template_accepted(*lf),
        (r matches Err(e) && e == BuildError::CensorRejected) <==> template_accepted(*lf)
            && !censors_accepted(*lf),
        r matches Ok(t) ==> ({
            let pat = template_pattern(format_string_spec(*lf));
            let cpats = censor_sources_spec(*lf);
            let lv = lines.deep_view();
            let n = lines@.len() as int;
            let cs = n / (num_of_threads as int);
            &&& t.0.wf()
            &&& t.1.wf()
            &&& t.0@ == corpus_bigram_counts(pat, cpats, lv)
            &&& t.1@ == corpus_trigram_counts(pat, cpats, lv)
            &&& t.2.deep_view() == chunk_token_lists(
                toks_of(pat, cpats, lv),
                n,
                cs,
                num_of_threads as int,
                num_of_threads as int,
            )
        }),
{
    let fs = format_string(lf);
    let re = match regex_generator(fs) {
        Some(m) => m,
        None => {
            return Err(BuildError::TemplateRejected);
        },
    };
    let cps = match censored_regexps(lf) {
        Some(c) => c,
        None => {
            return Err(BuildError::CensorRejected);
        },
    };
    let r = if single_map {
        parallelized_dictionary_builder(lines, &re, &cps, num_of_threads)
    } else {
        concurrent_map_dictionary_builder(lines, &re, &cps, num_of_threads)
    };
    Ok(r)
}

} // verus!

verus! {

/// The chunk boundaries for `n` lines split across `w` workers: `w + 1`
/// ascending positions from `0` to `n`, chunk `k` owning the lines between
/// positions `k` and `k + 1`.
pub fn chunk_bounds(n: usize, w: usize) -> (r: Vec<usize>)
    requires
        w >= 1,
    ensures
        r@.len() == w + 1,
        forall|k: int|
            0 <= k <= w ==> #[trigger] r@[k] as int == chunk_bound(
                n as int,
                (n / w) as int,
                w as int,
                k,
            ),
        forall|k: int| 0 <= k < w ==> #[trigger] r@[k] <= r@[k + 1] <= n,
        r@[0] == 0,
        r@[w as int] == n,
{
    let cs = n / w;
    let ghost ni = n as int;
    let ghost wi = w as int;
    let ghost csi = cs as int;
    let mut r: Vec<usize> = Vec::new();
    r.push(0);
    let mut k: usize = 1;
    while k < w
        invariant
            1 <= k <= w,
            w >= 1,
            cs as int == csi,
            csi == ni / wi,
            n as int == ni,
            w as int == wi,
            r@.len() == k,
            forall|m: int|
                0 <= m < k ==> #[trigger] r@[m] as int == chunk_bound(ni, csi, wi, m),
        decreases w - k,
    {
        let prev = r[k - 1];
        proof {
            lemma_chunk_bound_props(ni, csi, wi, k - 1);
            lemma_chunk_bound_props(ni, csi, wi, k as int);
            assert(prev as int == chunk_bound(ni, csi, wi, k - 1));
            assert(chunk_bound(ni, csi, wi, k as int) == chunk_bound(ni, csi, wi, k - 1) + csi);
            assert(chunk_bound(ni, csi, wi, k as int) <= ni);
        }
        r.push(prev + cs);
        k = k + 1;
    }
    r.push(n);
    proof {
        lemma_chunk_bound_props(ni, csi, wi, wi);
        assert(r@[wi] as int == chunk_bound(ni, csi, wi, wi));
    }
    proof {
        assert forall|k2: int| 0 <= k2 < w implies #[trigger] r@[k2] <= r@[k2 + 1] <= n by {
            lemma_chunk_bound_props(ni, csi, wi, k2);
            lemma_chunk_bound_props(ni, csi, wi, k2 + 1);
        }
        lemma_chunk_bound_props(ni, csi, wi, 0);
        lemma_chunk_bound_props(ni, csi, wi, wi);
    }
    r
}

} // verus!
