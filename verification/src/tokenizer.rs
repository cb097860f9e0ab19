//! The line tokenizer: a log line is trimmed, matched against the compiled
//! line template, its `Content` payload is censored (every match of each
//! censoring pattern replaced by `<*>`, in list order, after prepending one
//! space), and the result is split on whitespace into tokens. A line that
//! does not match contributes no tokens.

use vstd::prelude::*;

use crate::registry::LogFormat;
use crate::registry::censor_sources;
use crate::registry::censor_sources_spec;
use crate::rx::CensorPattern;
use crate::rx::LineMatcher;
use crate::rx::censored_of;
use crate::rx::content_capture;
use crate::rx::pattern_accepted;
use crate::textops::split_whitespace_str;
use crate::textops::split_ws;
use crate::textops::trim_spec;
use crate::textops::trim_str;

verus! {

/// The pattern texts of a list of censoring patterns, in order.
pub open spec fn censor_pats(cs: Seq<CensorPattern>) -> Seq<Seq<char>> {
    cs.map_values(|c: CensorPattern| c.pattern())
}

/// `s` after applying each censoring pattern in list order.
pub open spec fn censor_chain(pats: Seq<Seq<char>>, s: Seq<char>) -> Seq<char>
    decreases pats.len(),
{
    if pats.len() == 0 {
        s
    } else {
        censor_chain(pats.drop_first(), censored_of(pats[0], s))
    }
}

/// The tokens of `line`: the whitespace-split censored `Content` payload of
/// the trimmed line, or no tokens at all when the line does not match the
/// template pattern.
pub open spec fn line_tokens(pat: Seq<char>, cpats: Seq<Seq<char>>, line: Seq<char>) -> Seq<
    Seq<char>,
> {
    match content_capture(pat, trim_spec(line)) {
        None => Seq::empty(),
        Some(content) => split_ws(censor_chain(cpats, seq![' '] + content)),
    }
}

/// Compiles the censoring patterns of a format, in order; `None` exactly
/// when some pattern text fails to compile (which indicates a defect in the
/// built-in registry, not a property of any input line).
pub fn censored_regexps(lf: &LogFormat) -> (r: Option<Vec<CensorPattern>>)
    ensures
        r is Some <==> (forall|m: int|
            0 <= m < censor_sources_spec(*lf).len() ==> pattern_accepted(
                #[trigger] censor_sources_spec(*lf)[m],
            )),
        r matches Some(cs) ==> censor_pats(cs@) == censor_sources_spec(*lf),
{
    let sources = censor_sources(lf);
    let ghost srcs = censor_sources_spec(*lf);
    let mut out: Vec<CensorPattern> = Vec::new();
    let mut i: usize = 0;
    while i < sources.len()
        invariant
            0 <= i <= sources.len(),
            sources.deep_view() == srcs,
            srcs == censor_sources_spec(*lf),
            out@.len() == i,
            forall|m: int| 0 <= m < i ==> #[trigger] out@[m].pattern() == srcs[m],
            forall|m: int| 0 <= m < i ==> pattern_accepted(#[trigger] srcs[m]),
        decreases sources.len() - i,
    {
        let src = sources[i].clone();
        assert(src@ == srcs[i as int]);
        match CensorPattern::compile(src) {
            Some(c) => {
                out.push(c);
            },
            None => {
                proof {
                    assert(!pattern_accepted(srcs[i as int]));
                }
                return None;
            },
        }
        i = i + 1;
    }
    proof {
        assert(censor_pats(out@) =~= srcs);
    }
    Some(out)
}

/// Prepends one space to the line and applies every censoring pattern in
/// list order, replacing each match with the `<*>` placeholder.
pub fn apply_domain_specific_re(log_line: String, domain_specific_re: &Vec<CensorPattern>) -> (r:
    String)
    ensures
        r@ == censor_chain(censor_pats(domain_specific_re@), seq![' '] + log_line@),
{
    let ghost pats = censor_pats(domain_specific_re@);
    let mut line = String::from_str(" ");
    line.append(log_line.as_str());
    proof {
        reveal_strlit(" ");
        assert(line@ =~= seq![' '] + log_line@);
    }
    let ghost start = line@;
    let n = domain_specific_re.len();
    let mut i: usize = 0;
    proof {
        assert(pats.subrange(0, n as int) =~= pats);
    }
    while i < n
        invariant
            0 <= i <= n,
            n == domain_specific_re@.len(),
            pats == censor_pats(domain_specific_re@),
            censor_chain(pats, start) == censor_chain(
                pats.subrange(i as int, n as int),
                line@,
            ),
        decreases n - i,
    {
        let ghost mid = pats.subrange(i as int, n as int);
        line = domain_specific_re[i].censor(line.as_str());
        proof {
            assert(mid.drop_first() =~= pats.subrange(i + 1, n as int));
            assert(mid[0] == domain_specific_re@[i as int].pattern());
        }
        i = i + 1;
    }
    proof {
        assert(pats.subrange(n as int, n as int) =~= Seq::<Seq<char>>::empty());
    }
    line
}

/// Tokenizes one log line: trims it, extracts the `Content` capture of the
/// line-matching pattern, censors it, and splits it on whitespace. A line
/// that does not match yields no tokens.
pub fn token_splitter(
    log_line: String,
    re: &LineMatcher,
    domain_specific_re: &Vec<CensorPattern>,
) -> (r: Vec<String>)
    ensures
        r.deep_view() == line_tokens(re.pattern(), censor_pats(domain_specific_re@), log_line@),
{
    let trimmed = trim_str(log_line.as_str());
    match re.capture_content(trimmed.as_str()) {
        Some(message) => {
            let line = apply_domain_specific_re(message, domain_specific_re);
            split_whitespace_str(line.as_str())
        },
        None => {
            let r: Vec<String> = Vec::new();
            proof {
                assert(r.deep_view() =~= Seq::<Seq<char>>::empty());
            }
            r
        },
    }
}

} // verus!
