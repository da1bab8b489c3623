//! Character-level string utilities: whitespace classification, splitting a
//! line into whitespace-separated tokens, substring containment, and exact
//! string equality, each with a specification over the string's `Seq<char>`
//! view.

use vstd::prelude::*;

verus! {

/// The characters with Unicode's White_Space property, the set that
/// `str::split_whitespace` splits on.
pub open spec fn is_space(c: char) -> bool {
    ||| c == ' '
    ||| c == '\t'
    ||| c == '\n'
    ||| c == '\r'
    ||| c == '\u{b}'
    ||| c == '\u{c}'
    ||| c == '\u{85}'
    ||| c == '\u{a0}'
    ||| c == '\u{1680}'
    ||| (0x2000 <= c as u32 && c as u32 <= 0x200a)
    ||| c == '\u{2028}'
    ||| c == '\u{2029}'
    ||| c == '\u{202f}'
    ||| c == '\u{205f}'
    ||| c == '\u{3000}'
}

pub fn is_space_exec(c: char) -> (r: bool)
    ensures
        r == is_space(c),
{
    c == ' ' || c == '\t' || c == '\n' || c == '\r' || c == '\u{b}' || c == '\u{c}' || c
        == '\u{85}' || c == '\u{a0}' || c == '\u{1680}' || (0x2000 <= c as u32 && c as u32
        <= 0x200a) || c == '\u{2028}' || c == '\u{2029}' || c == '\u{202f}' || c == '\u{205f}' || c
        == '\u{3000}'
}

/// Index of the first non-space character at or after `i`, or `s.len()` if
/// every remaining character is a space.
pub open spec fn next_non_space(s: Seq<char>, i: int) -> int
    decreases s.len() - i,
{
    if i < 0 || i >= s.len() {
        s.len() as int
    } else if !is_space(s[i]) {
        i
    } else {
        next_non_space(s, i + 1)
    }
}

/// Index of the first space character at or after `i`, or `s.len()` if every
/// remaining character is a non-space.
pub open spec fn token_end(s: Seq<char>, i: int) -> int
    decreases s.len() - i,
{
    if i < 0 || i >= s.len() {
        s.len() as int
    } else if is_space(s[i]) {
        i
    } else {
        token_end(s, i + 1)
    }
}

pub proof fn lemma_next_non_space(s: Seq<char>, i: int)
    requires
        0 <= i <= s.len(),
    ensures
        i <= next_non_space(s, i) <= s.len(),
        next_non_space(s, i) < s.len() ==> !is_space(s[next_non_space(s, i)]),
        forall|k: int| i <= k < next_non_space(s, i) ==> is_space(s[k]),
    decreases s.len() - i,
{
    if i < s.len() && is_space(s[i]) {
        lemma_next_non_space(s, i + 1);
    }
}

pub proof fn lemma_token_end(s: Seq<char>, i: int)
    requires
        0 <= i <= s.len(),
    ensures
        i <= token_end(s, i) <= s.len(),
        token_end(s, i) < s.len() ==> is_space(s[token_end(s, i)]),
        forall|k: int| i <= k < token_end(s, i) ==> !is_space(s[k]),
    decreases s.len() - i,
{
    if i < s.len() && !is_space(s[i]) {
        lemma_token_end(s, i + 1);
    }
}

/// `next_non_space` is determined by where the spaces stop.
pub proof fn lemma_next_non_space_is(s: Seq<char>, i: int, j: int)
    requires
        0 <= i <= j <= s.len(),
        forall|k: int| i <= k < j ==> is_space(s[k]),
        j < s.len() ==> !is_space(s[j]),
    ensures
        next_non_space(s, i) == j,
    decreases j - i,
{
    if i < j {
        lemma_next_non_space_is(s, i + 1, j);
    }
}

/// `token_end` is determined by where the non-spaces stop.
pub proof fn lemma_token_end_is(s: Seq<char>, i: int, j: int)
    requires
        0 <= i <= j <= s.len(),
        forall|k: int| i <= k < j ==> !is_space(s[k]),
        j < s.len() ==> is_space(s[j]),
    ensures
        token_end(s, i) == j,
    decreases j - i,
{
    if i < j {
        lemma_token_end_is(s, i + 1, j);
    }
}

/// The first whitespace-separated token at or after position `i`, if any.
pub open spec fn token_after(s: Seq<char>, i: int) -> Option<Seq<char>> {
    let a = next_non_space(s, i);
    if a == s.len() {
        None
    } else {
        Some(s.subrange(a, token_end(s, a)))
    }
}

/// The first whitespace-separated token of `s`, if any.
pub open spec fn first_token(s: Seq<char>) -> Option<Seq<char>> {
    token_after(s, 0)
}

/// The second whitespace-separated token of `s`, if any.
pub open spec fn second_token(s: Seq<char>) -> Option<Seq<char>> {
    let a = next_non_space(s, 0);
    if a == s.len() {
        None
    } else {
        token_after(s, token_end(s, a))
    }
}

/// A label made of exactly two words separated by the single space at
/// position `k` has those words as its first and second tokens.
pub proof fn lemma_two_word_label(s: Seq<char>, k: int)
    requires
        1 <= k < s.len() - 1,
        forall|i: int| 0 <= i < s.len() ==> (is_space(s[i]) <==> i == k),
    ensures
        first_token(s) == Some(s.subrange(0, k)),
        second_token(s) == Some(s.subrange(k + 1, s.len() as int)),
{
    lemma_next_non_space_is(s, 0, 0);
    lemma_token_end_is(s, 0, k);
    lemma_next_non_space_is(s, k, k + 1);
    lemma_token_end_is(s, k + 1, s.len() as int);
}

/// Returns `next_non_space(s@, from)`.
pub fn skip_spaces(s: &str, from: usize) -> (r: usize)
    requires
        from <= s@.len(),
    ensures
        r == next_non_space(s@, from as int),
        from <= r <= s@.len(),
{
    let n = s.unicode_len();
    let mut i = from;
    while i < n
        invariant
            from <= i <= n,
            n == s@.len(),
            next_non_space(s@, from as int) == next_non_space(s@, i as int),
        decreases n - i,
    {
        if !is_space_exec(s.get_char(i)) {
            return i;
        }
        i = i + 1;
    }
    i
}

/// Returns `token_end(s@, from)`.
pub fn scan_token(s: &str, from: usize) -> (r: usize)
    requires
        from <= s@.len(),
    ensures
        r == token_end(s@, from as int),
        from <= r <= s@.len(),
{
    let n = s.unicode_len();
    let mut i = from;
    while i < n
        invariant
            from <= i <= n,
            n == s@.len(),
            token_end(s@, from as int) == token_end(s@, i as int),
        decreases n - i,
    {
        if is_space_exec(s.get_char(i)) {
            return i;
        }
        i = i + 1;
    }
    i
}

/// Exact equality of two strings, decided character by character.
pub fn str_eq(a: &str, b: &str) -> (r: bool)
    ensures
        r == (a@ == b@),
{
    let n = a.unicode_len();
    if n != b.unicode_len() {
        proof {
            assert(a@ != b@) by {
                if a@ == b@ {
                    assert(a@.len() == b@.len());
                }
            }
        }
        return false;
    }
    let mut i: usize = 0;
    while i < n
        invariant
            i <= n,
            n == a@.len(),
            n == b@.len(),
            forall|k: int| 0 <= k < i ==> a@[k] == b@[k],
        decreases n - i,
    {
        if a.get_char(i) != b.get_char(i) {
            proof {
                assert(a@ != b@) by {
                    if a@ == b@ {
                        assert(a@[i as int] == b@[i as int]);
                    }
                }
            }
            return false;
        }
        i = i + 1;
    }
    proof {
        assert(a@ =~= b@);
    }
    true
}

/// `needle` occurs as a contiguous run of characters somewhere in `hay`.
pub open spec fn contains_seq(hay: Seq<char>, needle: Seq<char>) -> bool {
    exists|i: int|
        0 <= i && i + needle.len() <= hay.len() && #[trigger] hay.subrange(i, i + needle.len())
            == needle
}

fn matches_at(hay: &str, needle: &str, at: usize) -> (r: bool)
    requires
        at + needle@.len() <= hay@.len(),
    ensures
        r == (hay@.subrange(at as int, at + needle@.len()) == needle@),
{
    let hn = hay.unicode_len();
    let m = needle.unicode_len();
    let mut j: usize = 0;
    while j < m
        invariant
            j <= m,
            m == needle@.len(),
            hn == hay@.len(),
            at + m <= hay@.len(),
            forall|k: int| 0 <= k < j ==> hay@[at + k] == needle@[k],
        decreases m - j,
    {
        if hay.get_char(at + j) != needle.get_char(j) {
            proof {
                let sub = hay@.subrange(at as int, at + m);
                assert(sub != needle@) by {
                    if sub == needle@ {
                        assert(sub[j as int] == needle@[j as int]);
                    }
                }
            }
            return false;
        }
        j = j + 1;
    }
    proof {
        assert(hay@.subrange(at as int, at + m) =~= needle@);
    }
    true
}

/// Substring search: decides `contains_seq(hay@, needle@)`, the containment
/// test that `str::contains` performs.
pub fn str_contains(hay: &str, needle: &str) -> (r: bool)
    ensures
        r == contains_seq(hay@, needle@),
{
    let n = hay.unicode_len();
    let m = needle.unicode_len();
    if m > n {
        return false;
    }
    if m == 0 {
        proof {
            assert(hay@.subrange(0, 0 + needle@.len() as int) =~= needle@);
        }
        return true;
    }
    let mut i: usize = 0;
    while i <= n - m
        invariant
            m <= n,
            n == hay@.len(),
            m == needle@.len(),
            1 <= m,
            i <= n - m + 1,
            forall|k: int| 0 <= k < i ==> #[trigger] hay@.subrange(k, k + m) != needle@,
        decreases n - i,
    {
        if matches_at(hay, needle, i) {
            return true;
        }
        i = i + 1;
    }
    proof {
        assert(!contains_seq(hay@, needle@)) by {
            if contains_seq(hay@, needle@) {
                let w = choose|w: int|
                    0 <= w && w + needle@.len() <= hay@.len() && #[trigger] hay@.subrange(
                        w,
                        w + needle@.len(),
                    ) == needle@;
                assert(hay@.subrange(w, w + m) != needle@);
            }
        }
    }
    false
}

} // verus!
