//! The template compiler: converts a declarative format template (literal
//! separators around `<FieldName>` placeholders) into line-matching pattern
//! text. Each placeholder becomes a named non-greedy capture group
//! `(?P<Name>.*?)`, each run of spaces between placeholders becomes `\s+`,
//! and text before the first or after the last placeholder is dropped. The
//! full pattern is then compiled anchored at both ends.

use vstd::prelude::*;

use crate::rx::LineMatcher;

verus! {

/// Length of the maximal prefix of `s` free of `<` and `>`.
pub open spec fn angle_run(s: Seq<char>) -> nat
    decreases s.len(),
{
    if s.len() == 0 || s[0] == '<' || s[0] == '>' {
        0
    } else {
        1 + angle_run(s.drop_first())
    }
}

pub proof fn lemma_angle_run_is(s: Seq<char>, k: int)
    requires
        0 <= k <= s.len(),
        forall|m: int| 0 <= m < k ==> s[m] != '<' && s[m] != '>',
        k == s.len() || s[k] == '<' || s[k] == '>',
    ensures
        angle_run(s) == k,
    decreases s.len(),
{
    if k > 0 {
        lemma_angle_run_is(s.drop_first(), k - 1);
    }
}

/// A `<FieldName>` placeholder begins at position `p`: a `<`, then at least
/// one character that is neither `<` nor `>`, then a `>`.
pub open spec fn is_placeholder_at(s: Seq<char>, p: int) -> bool {
    let r = angle_run(s.subrange(p + 1, s.len() as int)) as int;
    &&& 0 <= p < s.len()
    &&& s[p] == '<'
    &&& r >= 1
    &&& p + 1 + r < s.len()
    &&& s[p + 1 + r] == '>'
}

/// End position (exclusive) of the placeholder beginning at `p`.
pub open spec fn placeholder_end(s: Seq<char>, p: int) -> int {
    p + 2 + angle_run(s.subrange(p + 1, s.len() as int))
}

/// Length of the maximal prefix of `s` made of spaces.
pub open spec fn space_run(s: Seq<char>) -> nat
    decreases s.len(),
{
    if s.len() == 0 || s[0] != ' ' {
        0
    } else {
        1 + space_run(s.drop_first())
    }
}

pub proof fn lemma_space_run_le(s: Seq<char>)
    ensures
        space_run(s) <= s.len(),
    decreases s.len(),
{
    if s.len() > 0 && s[0] == ' ' {
        lemma_space_run_le(s.drop_first());
    }
}

pub proof fn lemma_space_run_is(s: Seq<char>, k: int)
    requires
        0 <= k <= s.len(),
        forall|m: int| 0 <= m < k ==> s[m] == ' ',
        k == s.len() || s[k] != ' ',
    ensures
        space_run(s) == k,
    decreases s.len(),
{
    if k > 0 {
        lemma_space_run_is(s.drop_first(), k - 1);
    }
}

/// `s` with every maximal run of spaces replaced by `\s+`.
pub open spec fn collapse_spaces(s: Seq<char>) -> Seq<char>
    decreases s.len(),
    via collapse_spaces_decreases
{
    if s.len() == 0 {
        Seq::empty()
    } else if s[0] == ' ' {
        let r = space_run(s) as int;
        r"\s+"@ + collapse_spaces(s.subrange(r, s.len() as int))
    } else {
        seq![s[0]] + collapse_spaces(s.drop_first())
    }
}

#[via_fn]
proof fn collapse_spaces_decreases(s: Seq<char>) {
    if s.len() > 0 && s[0] == ' ' {
        lemma_space_run_le(s);
        assert(space_run(s) >= 1);
    }
}

/// A space-free prefix passes through `collapse_spaces` unchanged.
pub proof fn lemma_collapse_plain_prefix(s: Seq<char>, k: int)
    requires
        0 <= k <= s.len(),
        forall|m: int| 0 <= m < k ==> s[m] != ' ',
    ensures
        collapse_spaces(s) == s.subrange(0, k) + collapse_spaces(s.subrange(k, s.len() as int)),
    decreases k,
{
    assert(s.subrange(0, s.len() as int) =~= s);
    if k == 0 {
        assert(s.subrange(0, 0) + collapse_spaces(s) =~= collapse_spaces(s));
    } else {
        assert(s[0] != ' ');
        assert(collapse_spaces(s) == seq![s[0]] + collapse_spaces(s.drop_first()));
        lemma_collapse_plain_prefix(s.drop_first(), k - 1);
        assert(s.drop_first().subrange(0, k - 1) =~= s.subrange(1, k));
        assert(s.drop_first().subrange(k - 1, s.drop_first().len() as int) =~= s.subrange(
            k,
            s.len() as int,
        ));
        assert(seq![s[0]] + (s.subrange(1, k) + collapse_spaces(s.subrange(k, s.len() as int)))
            =~= s.subrange(0, k) + collapse_spaces(s.subrange(k, s.len() as int)));
    }
}

/// The compiled pattern text contributed by `s` from position `p` on, where
/// `prev_end` is the end of the previous placeholder if one was seen: each
/// placeholder `<Name>` becomes `(?P<Name>.*?)`, preceded (when a
/// placeholder was already seen) by the intervening literal text with space
/// runs collapsed to `\s+`.
pub open spec fn compile_from(s: Seq<char>, p: int, prev_end: Option<int>) -> Seq<char>
    decreases s.len() - p,
{
    if p < 0 || p >= s.len() {
        Seq::empty()
    } else if is_placeholder_at(s, p) {
        let e = placeholder_end(s, p);
        let grp = "(?P<"@ + s.subrange(p + 1, e - 1) + ">.*?)"@;
        let pre = match prev_end {
            None => Seq::<char>::empty(),
            Some(pe) => collapse_spaces(s.subrange(pe, p)),
        };
        pre + grp + compile_from(s, e, Some(e))
    } else {
        compile_from(s, p + 1, prev_end)
    }
}

/// The full compiled pattern body of a template.
pub open spec fn template_pattern(s: Seq<char>) -> Seq<char> {
    compile_from(s, 0, None)
}

/// Replaces every maximal run of spaces in `s` with `\s+`.
fn collapse_spaces_str(s: &str) -> (r: String)
    ensures
        r@ == collapse_spaces(s@),
{
    let n = s.unicode_len();
    let mut out = String::new();
    let mut i: usize = 0;
    proof {
        assert(s@.subrange(0, n as int) =~= s@);
        assert(out@ + collapse_spaces(s@) =~= collapse_spaces(s@));
    }
    while i < n
        invariant
            0 <= i <= n,
            n == s@.len(),
            collapse_spaces(s@) == out@ + collapse_spaces(s@.subrange(i as int, n as int)),
        decreases n - i,
    {
        let ghost pre = out@;
        let ghost tail = s@.subrange(i as int, n as int);
        if s.get_char(i) == ' ' {
            let mut j = i + 1;
            while j < n && s.get_char(j) == ' '
                invariant
                    i < j <= n,
                    n == s@.len(),
                    forall|m: int| i <= m < j ==> s@[m] == ' ',
                decreases n - j,
            {
                j = j + 1;
            }
            proof {
                lemma_space_run_is(tail, j - i);
                assert(tail.subrange(j - i, tail.len() as int) =~= s@.subrange(
                    j as int,
                    n as int,
                ));
            }
            out.append(r"\s+");
            proof {
                assert(out@ + collapse_spaces(s@.subrange(j as int, n as int)) =~= pre + (r"\s+"@
                    + collapse_spaces(s@.subrange(j as int, n as int))));
            }
            i = j;
        } else {
            let mut j = i + 1;
            while j < n && !(s.get_char(j) == ' ')
                invariant
                    i < j <= n,
                    n == s@.len(),
                    forall|m: int| i <= m < j ==> s@[m] != ' ',
                decreases n - j,
            {
                j = j + 1;
            }
            proof {
                lemma_collapse_plain_prefix(tail, j - i);
                assert(tail.subrange(0, j - i) =~= s@.subrange(i as int, j as int));
                assert(tail.subrange(j - i, tail.len() as int) =~= s@.subrange(
                    j as int,
                    n as int,
                ));
            }
            out.append(s.substring_char(i, j));
            proof {
                assert(out@ + collapse_spaces(s@.subrange(j as int, n as int)) =~= pre + (
                s@.subrange(i as int, j as int) + collapse_spaces(
                    s@.subrange(j as int, n as int),
                )));
            }
            i = j;
        }
    }
    proof {
        assert(s@.subrange(n as int, n as int) =~= Seq::<char>::empty());
        assert(out@ + collapse_spaces(Seq::<char>::empty()) =~= out@);
    }
    out
}

/// Compiles a format template into pattern text: each `<FieldName>`
/// placeholder becomes the named non-greedy group `(?P<FieldName>.*?)`, the
/// literal text between two placeholders keeps its characters except that
/// space runs become `\s+`, and text before the first or after the last
/// placeholder is dropped.
pub fn regex_generator_helper(format: String) -> (r: String)
    ensures
        r@ == template_pattern(format@),
{
    let s = format.as_str();
    let n = s.unicode_len();
    let mut out = String::new();
    let mut p: usize = 0;
    let mut prev_end: Option<usize> = None;
    proof {
        assert(out@ + compile_from(s@, 0, None) =~= compile_from(s@, 0, None));
    }
    while p < n
        invariant
            0 <= p <= n,
            n == s@.len(),
            match prev_end {
                None => template_pattern(s@) == out@ + compile_from(s@, p as int, None),
                Some(pe) => pe <= p && template_pattern(s@) == out@ + compile_from(
                    s@,
                    p as int,
                    Some(pe as int),
                ),
            },
        decreases n - p,
    {
        let ghost pre = out@;
        let ghost pe_view: Option<int> = match prev_end {
            None => None,
            Some(pe) => Some(pe as int),
        };
        let ghost tail = s@.subrange(p + 1, n as int);
        if s.get_char(p) == '<' {
            let mut j = p + 1;
            while j < n && !(s.get_char(j) == '<') && !(s.get_char(j) == '>')
                invariant
                    p < j <= n,
                    n == s@.len(),
                    forall|m: int| p < m < j ==> s@[m] != '<' && s@[m] != '>',
                decreases n - j,
            {
                j = j + 1;
            }
            proof {
                lemma_angle_run_is(tail, j - (p + 1));
            }
            if j < n && j > p + 1 && s.get_char(j) == '>' {
                // a placeholder spans positions p ..= j
                proof {
                    assert(is_placeholder_at(s@, p as int));
                    assert(placeholder_end(s@, p as int) == j + 1);
                }
                match prev_end {
                    None => (),
                    Some(pe) => {
                        out.append(collapse_spaces_str(s.substring_char(pe, p)).as_str());
                    },
                }
                out.append("(?P<");
                out.append(s.substring_char(p + 1, j));
                out.append(">.*?)");
                proof {
                    let e = j + 1 as int;
                    let grp = "(?P<"@ + s@.subrange(p + 1, j as int) + ">.*?)"@;
                    let pre2 = match pe_view {
                        None => Seq::<char>::empty(),
                        Some(pe) => collapse_spaces(s@.subrange(pe, p as int)),
                    };
                    assert(compile_from(s@, p as int, pe_view) == pre2 + grp + compile_from(
                        s@,
                        e,
                        Some(e),
                    ));
                    assert(out@ =~= pre + pre2 + grp);
                    assert(out@ + compile_from(s@, e, Some(e)) =~= pre + (pre2 + grp
                        + compile_from(s@, e, Some(e))));
                }
                p = j + 1;
                prev_end = Some(p);
            } else {
                proof {
                    assert(!is_placeholder_at(s@, p as int));
                }
                p = p + 1;
            }
        } else {
            proof {
                assert(!is_placeholder_at(s@, p as int));
            }
            p = p + 1;
        }
    }
    out
}

/// Compiles a format template into an anchored line matcher; `None` exactly
/// when the compiled pattern text is rejected by the pattern engine (a
/// defect in the template, not a property of any input line).
pub fn regex_generator(format: String) -> (r: Option<LineMatcher>)
    ensures
        r is Some <==> crate::rx::pattern_accepted(
            crate::rx::anchored(template_pattern(format@)),
        ),
        r matches Some(m) ==> m.pattern() == template_pattern(format@),
{
    LineMatcher::compile(regex_generator_helper(format))
}

} // verus!
