//! Verified character and string utilities: whitespace classification,
//! trimming, whitespace splitting, and splitting/joining on the n-gram
//! separator character `^`.

use vstd::prelude::*;

verus! {

/// A character with the Unicode `White_Space` property; the set that both
/// trimming and whitespace splitting use.
pub open spec fn is_wspace_char(c: char) -> bool {
    c == '\u{0009}' || c == '\u{000A}' || c == '\u{000B}' || c == '\u{000C}' || c == '\u{000D}'
        || c == '\u{0020}' || c == '\u{0085}' || c == '\u{00A0}' || c == '\u{1680}' || c
        == '\u{2000}' || c == '\u{2001}' || c == '\u{2002}' || c == '\u{2003}' || c == '\u{2004}'
        || c == '\u{2005}' || c == '\u{2006}' || c == '\u{2007}' || c == '\u{2008}' || c
        == '\u{2009}' || c == '\u{200A}' || c == '\u{2028}' || c == '\u{2029}' || c == '\u{202F}'
        || c == '\u{205F}' || c == '\u{3000}'
}

/// Decides `is_wspace_char`.
pub fn is_wspace(c: char) -> (b: bool)
    ensures
        b == is_wspace_char(c),
{
    c == '\u{0009}' || c == '\u{000A}' || c == '\u{000B}' || c == '\u{000C}' || c == '\u{000D}'
        || c == '\u{0020}' || c == '\u{0085}' || c == '\u{00A0}' || c == '\u{1680}' || c
        == '\u{2000}' || c == '\u{2001}' || c == '\u{2002}' || c == '\u{2003}' || c == '\u{2004}'
        || c == '\u{2005}' || c == '\u{2006}' || c == '\u{2007}' || c == '\u{2008}' || c
        == '\u{2009}' || c == '\u{200A}' || c == '\u{2028}' || c == '\u{2029}' || c == '\u{202F}'
        || c == '\u{205F}' || c == '\u{3000}'
}

/// Length of the maximal non-whitespace prefix of `s`.
pub open spec fn token_end(s: Seq<char>) -> nat
    decreases s.len(),
{
    if s.len() == 0 || is_wspace_char(s[0]) {
        0
    } else {
        1 + token_end(s.drop_first())
    }
}

pub proof fn lemma_token_end_le(s: Seq<char>)
    ensures
        token_end(s) <= s.len(),
    decreases s.len(),
{
    if s.len() > 0 && !is_wspace_char(s[0]) {
        lemma_token_end_le(s.drop_first());
    }
}

/// `token_end(s)` is the position of the first whitespace character, i.e.
/// the unique boundary `k` with only non-whitespace before it and either the
/// end of the sequence or a whitespace character at it.
pub proof fn lemma_token_end_is(s: Seq<char>, k: int)
    requires
        0 <= k <= s.len(),
        forall|m: int| 0 <= m < k ==> !is_wspace_char(s[m]),
        k == s.len() || is_wspace_char(s[k]),
    ensures
        token_end(s) == k,
    decreases s.len(),
{
    if k == 0 {
    } else {
        lemma_token_end_is(s.drop_first(), k - 1);
    }
}

/// The sequence of maximal non-whitespace runs of `s`, in order: what
/// whitespace splitting yields.
pub open spec fn split_ws(s: Seq<char>) -> Seq<Seq<char>>
    decreases s.len(),
    via split_ws_decreases
{
    if s.len() == 0 {
        Seq::empty()
    } else if is_wspace_char(s[0]) {
        split_ws(s.drop_first())
    } else {
        let k = token_end(s) as int;
        seq![s.subrange(0, k)] + split_ws(s.subrange(k, s.len() as int))
    }
}

#[via_fn]
proof fn split_ws_decreases(s: Seq<char>) {
    if s.len() > 0 && !is_wspace_char(s[0]) {
        lemma_token_end_le(s);
        assert(token_end(s) >= 1);
    }
}

/// Length of the maximal whitespace prefix of `s`.
pub open spec fn lead_ws(s: Seq<char>) -> nat
    decreases s.len(),
{
    if s.len() == 0 || !is_wspace_char(s[0]) {
        0
    } else {
        1 + lead_ws(s.drop_first())
    }
}

pub proof fn lemma_lead_ws_is(s: Seq<char>, k: int)
    requires
        0 <= k <= s.len(),
        forall|m: int| 0 <= m < k ==> is_wspace_char(s[m]),
        k == s.len() || !is_wspace_char(s[k]),
    ensures
        lead_ws(s) == k,
    decreases s.len(),
{
    if k == 0 {
    } else {
        lemma_lead_ws_is(s.drop_first(), k - 1);
    }
}

/// Length of the maximal whitespace suffix of `s`.
pub open spec fn trail_ws(s: Seq<char>) -> nat
    decreases s.len(),
{
    if s.len() == 0 || !is_wspace_char(s.last()) {
        0
    } else {
        1 + trail_ws(s.drop_last())
    }
}

pub proof fn lemma_trail_ws_le(s: Seq<char>)
    ensures
        trail_ws(s) <= s.len(),
    decreases s.len(),
{
    if s.len() > 0 && is_wspace_char(s.last()) {
        lemma_trail_ws_le(s.drop_last());
    }
}

pub proof fn lemma_trail_ws_is(s: Seq<char>, k: int)
    requires
        0 <= k <= s.len(),
        forall|m: int| s.len() - k <= m < s.len() ==> is_wspace_char(s[m]),
        k == s.len() || !is_wspace_char(s[s.len() - k - 1]),
    ensures
        trail_ws(s) == k,
    decreases s.len(),
{
    if k == 0 {
    } else {
        assert(s.drop_last() =~= s.subrange(0, s.len() - 1));
        lemma_trail_ws_is(s.drop_last(), k - 1);
    }
}

/// `s` with its leading and trailing whitespace removed.
pub open spec fn trim_spec(s: Seq<char>) -> Seq<char> {
    let a = lead_ws(s) as int;
    let b = s.len() - trail_ws(s);
    if a < b {
        s.subrange(a, b)
    } else {
        Seq::empty()
    }
}

/// Trims leading and trailing whitespace, as `str::trim` does.
pub fn trim_str(s: &str) -> (r: String)
    ensures
        r@ == trim_spec(s@),
{
    let n = s.unicode_len();
    let mut a: usize = 0;
    while a < n && is_wspace(s.get_char(a))
        invariant
            0 <= a <= n,
            n == s@.len(),
            forall|m: int| 0 <= m < a ==> is_wspace_char(s@[m]),
        decreases n - a,
    {
        a = a + 1;
    }
    proof {
        lemma_lead_ws_is(s@, a as int);
    }
    if a == n {
        // all whitespace
        proof {
            lemma_trail_ws_le(s@);
        }
        return String::new();
    }
    let mut b: usize = n;
    while b > a && is_wspace(s.get_char(b - 1))
        invariant
            a <= b <= n,
            n == s@.len(),
            forall|m: int| b <= m < n ==> is_wspace_char(s@[m]),
        decreases b,
    {
        b = b - 1;
    }
    // b > a: position b - 1 holds a non-whitespace character
    proof {
        lemma_trail_ws_is(s@, (n - b) as int);
    }
    String::from_str(s.substring_char(a, b))
}

/// Splits `s` into its maximal non-whitespace runs, as
/// `str::split_whitespace` does.
pub fn split_whitespace_str(s: &str) -> (r: Vec<String>)
    ensures
        r.deep_view() == split_ws(s@),
{
    let n = s.unicode_len();
    let mut r: Vec<String> = Vec::new();
    let mut i: usize = 0;
    proof {
        assert(s@.subrange(0, n as int) =~= s@);
        assert(r.deep_view() + split_ws(s@) =~= split_ws(s@));
    }
    while i < n
        invariant
            0 <= i <= n,
            n == s@.len(),
            split_ws(s@) == r.deep_view() + split_ws(s@.subrange(i as int, n as int)),
        decreases n - i,
    {
        let ghost pre = r.deep_view();
        let ghost tail = s@.subrange(i as int, n as int);
        if is_wspace(s.get_char(i)) {
            proof {
                assert(tail.drop_first() =~= s@.subrange(i + 1, n as int));
            }
            i = i + 1;
        } else {
            let start = i;
            let mut j = i + 1;
            while j < n && !is_wspace(s.get_char(j))
                invariant
                    start < j <= n,
                    n == s@.len(),
                    forall|m: int| start <= m < j ==> !is_wspace_char(s@[m]),
                decreases n - j,
            {
                j = j + 1;
            }
            proof {
                lemma_token_end_is(tail, j - i);
                assert(tail.subrange(0, j - i) =~= s@.subrange(start as int, j as int));
                assert(tail.subrange(j - i, tail.len() as int) =~= s@.subrange(
                    j as int,
                    n as int,
                ));
            }
            r.push(String::from_str(s.substring_char(start, j)));
            proof {
                assert(r.deep_view() =~= pre.push(s@.subrange(start as int, j as int)));
                assert(r.deep_view() + split_ws(s@.subrange(j as int, n as int)) =~= pre + (seq![
                    s@.subrange(start as int, j as int),
                ] + split_ws(s@.subrange(j as int, n as int))));
            }
            i = j;
        }
    }
    proof {
        assert(s@.subrange(n as int, n as int) =~= Seq::<char>::empty());
        assert(r.deep_view() =~= r.deep_view() + split_ws(s@.subrange(i as int, n as int)));
    }
    r
}

} // verus!

verus! {

/// The n-gram join separator.
pub open spec fn sep_char() -> char {
    '^'
}

/// Position of the first separator in `s`, or `s.len()` if there is none.
pub open spec fn sep_end(s: Seq<char>) -> nat
    decreases s.len(),
{
    if s.len() == 0 || s[0] == sep_char() {
        0
    } else {
        1 + sep_end(s.drop_first())
    }
}

pub proof fn lemma_sep_end_le(s: Seq<char>)
    ensures
        sep_end(s) <= s.len(),
    decreases s.len(),
{
    if s.len() > 0 && s[0] != sep_char() {
        lemma_sep_end_le(s.drop_first());
    }
}

pub proof fn lemma_sep_end_is(s: Seq<char>, k: int)
    requires
        0 <= k <= s.len(),
        forall|m: int| 0 <= m < k ==> s[m] != sep_char(),
        k == s.len() || s[k] == sep_char(),
    ensures
        sep_end(s) == k,
    decreases s.len(),
{
    if k > 0 {
        lemma_sep_end_is(s.drop_first(), k - 1);
    }
}

/// The parts of `s` between separator characters, in order, empties kept:
/// what splitting on `^` yields.
pub open spec fn split_sep(s: Seq<char>) -> Seq<Seq<char>>
    decreases s.len(),
    via split_sep_decreases
{
    let k = sep_end(s) as int;
    if k == s.len() {
        seq![s]
    } else {
        seq![s.subrange(0, k)] + split_sep(s.subrange(k + 1, s.len() as int))
    }
}

#[via_fn]
proof fn split_sep_decreases(s: Seq<char>) {
    lemma_sep_end_le(s);
}

/// Number of separator characters in `s`.
pub open spec fn count_sep(s: Seq<char>) -> nat
    decreases s.len(),
{
    if s.len() == 0 {
        0
    } else {
        (if s[0] == sep_char() {
            1 as nat
        } else {
            0 as nat
        }) + count_sep(s.drop_first())
    }
}

pub proof fn lemma_count_sep_concat(a: Seq<char>, b: Seq<char>)
    ensures
        count_sep(a + b) == count_sep(a) + count_sep(b),
    decreases a.len(),
{
    if a.len() == 0 {
        assert(a + b =~= b);
    } else {
        assert((a + b).drop_first() =~= a.drop_first() + b);
        lemma_count_sep_concat(a.drop_first(), b);
    }
}

pub proof fn lemma_sep_free_count(s: Seq<char>)
    requires
        forall|m: int| 0 <= m < s.len() ==> s[m] != sep_char(),
    ensures
        count_sep(s) == 0,
    decreases s.len(),
{
    if s.len() > 0 {
        lemma_sep_free_count(s.drop_first());
    }
}

/// Splitting yields exactly one part more than there are separators.
pub proof fn lemma_split_sep_len(s: Seq<char>)
    ensures
        split_sep(s).len() == count_sep(s) + 1,
    decreases s.len(),
{
    lemma_sep_end_le(s);
    let k = sep_end(s) as int;
    if k == s.len() {
        assert forall|m: int| 0 <= m < s.len() implies s[m] != sep_char() by {
            lemma_sep_end_is_converse(s, m);
        }
        lemma_sep_free_count(s);
    } else {
        let head = s.subrange(0, k);
        let tail = s.subrange(k + 1, s.len() as int);
        lemma_split_sep_len(tail);
        lemma_sep_end_at(s);
        assert(s =~= head + (seq![sep_char()] + tail));
        lemma_count_sep_concat(head, seq![sep_char()] + tail);
        lemma_count_sep_concat(seq![sep_char()], tail);
        assert forall|m: int| 0 <= m < head.len() implies head[m] != sep_char() by {
            lemma_sep_end_is_converse(s, m);
        }
        lemma_sep_free_count(head);
        assert(count_sep(seq![sep_char()]) == 1) by {
            assert(seq![sep_char()].drop_first() =~= Seq::<char>::empty());
            assert(count_sep(Seq::<char>::empty()) == 0);
        }
    }
}

/// When `sep_end(s)` is not the end, it indexes a separator character.
pub proof fn lemma_sep_end_at(s: Seq<char>)
    requires
        sep_end(s) < s.len(),
    ensures
        s[sep_end(s) as int] == sep_char(),
    decreases s.len(),
{
    if s.len() > 0 && s[0] != sep_char() {
        lemma_sep_end_at(s.drop_first());
    }
}

/// No separator occurs strictly before `sep_end(s)`.
pub proof fn lemma_sep_end_is_converse(s: Seq<char>, m: int)
    requires
        0 <= m < sep_end(s),
    ensures
        s[m] != sep_char(),
    decreases s.len(),
{
    lemma_sep_end_le(s);
    assert(sep_end(s) > 0);
    assert(s.len() > 0 && s[0] != sep_char());
    if m > 0 {
        lemma_sep_end_is_converse(s.drop_first(), m - 1);
        assert(s.drop_first()[m - 1] == s[m]);
    }
}

/// Splits `s` on every separator character, keeping empty parts.
pub fn split_sep_str(s: &str) -> (r: Vec<String>)
    ensures
        r.deep_view() == split_sep(s@),
{
    let n = s.unicode_len();
    let mut r: Vec<String> = Vec::new();
    let mut i: usize = 0;
    let mut fin: bool = false;
    proof {
        assert(s@.subrange(0, n as int) =~= s@);
        assert(r.deep_view() + split_sep(s@) =~= split_sep(s@));
    }
    while !fin
        invariant
            n == s@.len(),
            fin ==> r.deep_view() == split_sep(s@),
            !fin ==> i <= n && split_sep(s@) == r.deep_view() + split_sep(
                s@.subrange(i as int, n as int),
            ),
        decreases n - i + (if fin {
            0 as int
        } else {
            1 as int
        }),
    {
        let ghost pre = r.deep_view();
        let ghost tail = s@.subrange(i as int, n as int);
        let mut j = i;
        while j < n && !(s.get_char(j) == '^')
            invariant
                i <= j <= n,
                n == s@.len(),
                forall|m: int| i <= m < j ==> s@[m] != sep_char(),
            decreases n - j,
        {
            j = j + 1;
        }
        proof {
            lemma_sep_end_is(tail, j - i);
            assert(tail.subrange(0, j - i) =~= s@.subrange(i as int, j as int));
        }
        r.push(String::from_str(s.substring_char(i, j)));
        proof {
            assert(r.deep_view() =~= pre.push(s@.subrange(i as int, j as int)));
        }
        if j < n {
            proof {
                assert(tail.subrange(j - i + 1, tail.len() as int) =~= s@.subrange(
                    j + 1,
                    n as int,
                ));
                assert(r.deep_view() + split_sep(s@.subrange(j + 1, n as int)) =~= pre + (seq![
                    s@.subrange(i as int, j as int),
                ] + split_sep(s@.subrange(j + 1, n as int))));
            }
            i = j + 1;
        } else {
            proof {
                assert(tail =~= s@.subrange(i as int, j as int));
                assert(r.deep_view() =~= pre + seq![tail]);
            }
            fin = true;
        }
    }
    r
}

/// Two parts joined by the separator.
pub open spec fn join2_spec(a: Seq<char>, b: Seq<char>) -> Seq<char> {
    a + seq![sep_char()] + b
}

/// Three parts joined by the separator.
pub open spec fn join3_spec(a: Seq<char>, b: Seq<char>, c: Seq<char>) -> Seq<char> {
    a + seq![sep_char()] + b + seq![sep_char()] + c
}

/// Joins two parts with the separator.
pub fn join2(a: &str, b: &str) -> (r: String)
    ensures
        r@ == join2_spec(a@, b@),
{
    let mut r = String::from_str(a);
    r.append("^");
    r.append(b);
    proof {
        reveal_strlit("^");
        assert(("^")@ =~= seq![sep_char()]);
        assert(r@ =~= join2_spec(a@, b@));
    }
    r
}

/// Joins three parts with the separator.
pub fn join3(a: &str, b: &str, c: &str) -> (r: String)
    ensures
        r@ == join3_spec(a@, b@, c@),
{
    let mut r = String::from_str(a);
    r.append("^");
    r.append(b);
    r.append("^");
    r.append(c);
    proof {
        reveal_strlit("^");
        assert(("^")@ =~= seq![sep_char()]);
        assert(r@ =~= join3_spec(a@, b@, c@));
    }
    r
}

} // verus!

verus! {

/// Free of the n-gram join separator: the data-model invariant tokens must
/// satisfy for n-gram keys to be unambiguous.
pub open spec fn sep_free(s: Seq<char>) -> bool {
    forall|i: int| 0 <= i < s.len() ==> s[i] != sep_char()
}

/// Splitting a separator-free part off the front: the part is recovered
/// whole as the first piece.
pub proof fn lemma_split_sep_step(x: Seq<char>, rest: Seq<char>)
    requires
        sep_free(x),
    ensures
        split_sep(x + seq![sep_char()] + rest) == seq![x] + split_sep(rest),
{
    let s = x + seq![sep_char()] + rest;
    assert forall|m: int| 0 <= m < x.len() implies s[m] != sep_char() by {
        assert(s[m] == x[m]);
    }
    assert(s[x.len() as int] == sep_char());
    lemma_sep_end_is(s, x.len() as int);
    assert(s.subrange(0, x.len() as int) =~= x);
    assert(s.subrange(x.len() as int + 1, s.len() as int) =~= rest);
}

/// A separator-free text splits into itself alone.
pub proof fn lemma_split_sep_whole(x: Seq<char>)
    requires
        sep_free(x),
    ensures
        split_sep(x) == seq![x],
{
    lemma_sep_end_is(x, x.len() as int);
}

} // verus!
