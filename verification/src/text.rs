//! Characters and tokens: how a document is cut into the words that the
//! manifest grammar reads.

use vstd::prelude::*;

verus! {

/// The five characters that count as ASCII whitespace: space, tab, line
/// feed, form feed and carriage return.
pub open spec fn is_ascii_space(c: char) -> bool {
    c == ' ' || c == '\t' || c == '\n' || c == '\x0C' || c == '\r'
}

/// A separator ends a token: a comma, a colon or ASCII whitespace.
pub open spec fn is_separator(c: char) -> bool {
    c == ',' || c == ':' || is_ascii_space(c)
}

/// Number of characters from position `i` on up to the next separator or
/// the end of `s`.
pub open spec fn run_len(s: Seq<char>, i: int) -> nat
    decreases s.len() - i,
{
    if 0 <= i < s.len() && !is_separator(s[i]) {
        1 + run_len(s, i + 1)
    } else {
        0
    }
}

/// A run never reaches past the end of the text.
pub proof fn lemma_run_len_bound(s: Seq<char>, i: int)
    requires
        0 <= i <= s.len(),
    ensures
        i + run_len(s, i) <= s.len(),
        i < s.len() && !is_separator(s[i]) ==> run_len(s, i) >= 1,
        i + run_len(s, i) < s.len() ==> is_separator(s[i + run_len(s, i)]),
        forall|k: int| i <= k < i + run_len(s, i) ==> !is_separator(#[trigger] s[k]),
    decreases s.len() - i,
{
    if i < s.len() && !is_separator(s[i]) {
        lemma_run_len_bound(s, i + 1);
    }
}

/// The tokens of `s` that start at position `i` or later, in order.
pub open spec fn tokens_from(s: Seq<char>, i: int) -> Seq<Seq<char>>
    decreases s.len() - i,
    via tokens_from_decreases
{
    if 0 <= i < s.len() {
        if is_separator(s[i]) {
            tokens_from(s, i + 1)
        } else {
            seq![s.subrange(i, i + run_len(s, i))] + tokens_from(s, i + run_len(s, i))
        }
    } else {
        Seq::empty()
    }
}

#[via_fn]
proof fn tokens_from_decreases(s: Seq<char>, i: int) {
    if 0 <= i < s.len() {
        lemma_run_len_bound(s, i);
    }
}

/// The tokens of a document: its maximal runs of characters that are not
/// separators, from left to right. No token is empty.
pub open spec fn tokens(s: Seq<char>) -> Seq<Seq<char>> {
    tokens_from(s, 0)
}

/// A token is a non-empty run of characters without a separator.
pub open spec fn is_token(t: Seq<char>) -> bool {
    t.len() > 0 && forall|k: int| 0 <= k < t.len() ==> !is_separator(#[trigger] t[k])
}

/// Every token of a text is a non-empty run of characters without a
/// separator.
pub proof fn lemma_tokens_from_are_tokens(s: Seq<char>, i: int)
    requires
        0 <= i,
    ensures
        forall|k: int|
            0 <= k < tokens_from(s, i).len() ==> is_token(#[trigger] tokens_from(s, i)[k]),
    decreases s.len() - i,
{
    if i < s.len() {
        if is_separator(s[i]) {
            lemma_tokens_from_are_tokens(s, i + 1);
            assert(tokens_from(s, i) == tokens_from(s, i + 1));
        } else {
            lemma_run_len_bound(s, i);
            let end = i + run_len(s, i);
            lemma_tokens_from_are_tokens(s, end);
            let first = s.subrange(i, end);
            assert(is_token(first)) by {
                assert forall|k: int| 0 <= k < first.len() implies !is_separator(
                    #[trigger] first[k],
                ) by {
                    assert(first[k] == s[i + k]);
                }
            }
            assert forall|k: int| 0 <= k < tokens_from(s, i).len() implies is_token(
                #[trigger] tokens_from(s, i)[k],
            ) by {
                assert(tokens_from(s, i) == seq![first] + tokens_from(s, end));
                if k > 0 {
                    assert(tokens_from(s, i)[k] == tokens_from(s, end)[k - 1]);
                } else {
                    assert(tokens_from(s, i)[0] == first);
                }
            }
        }
    } else {
        assert(tokens_from(s, i).len() == 0);
    }
}

/// Every token of a document is a non-empty run of characters without a
/// separator.
pub proof fn lemma_tokens_are_tokens(s: Seq<char>)
    ensures
        forall|k: int| 0 <= k < tokens(s).len() ==> is_token(#[trigger] tokens(s)[k]),
{
    lemma_tokens_from_are_tokens(s, 0);
}

/// A run is the same in a text and in the text with more in front of it.
pub proof fn lemma_run_len_shift(front: Seq<char>, s: Seq<char>, i: int)
    requires
        0 <= i,
    ensures
        run_len(front + s, front.len() + i) == run_len(s, i),
    decreases s.len() - i,
{
    if i < s.len() {
        assert((front + s)[front.len() + i] == s[i]);
        if !is_separator(s[i]) {
            lemma_run_len_shift(front, s, i + 1);
        }
    }
}

/// The tokens of a text are the same in the text with more in front of
/// it.
pub proof fn lemma_tokens_from_shift(front: Seq<char>, s: Seq<char>, i: int)
    requires
        0 <= i,
    ensures
        tokens_from(front + s, front.len() + i) == tokens_from(s, i),
    decreases s.len() - i,
{
    if i < s.len() {
        let whole = front + s;
        let at = front.len() + i;
        assert(whole[at] == s[i]);
        if is_separator(s[i]) {
            lemma_tokens_from_shift(front, s, i + 1);
        } else {
            lemma_run_len_shift(front, s, i);
            lemma_run_len_bound(s, i);
            let run = run_len(s, i) as int;
            lemma_tokens_from_shift(front, s, i + run);
            assert(whole.subrange(at, at + run) =~= s.subrange(i, i + run));
        }
    }
}

/// A separator ends the run that reaches it: up to the separator a run is
/// the same whatever follows the separator.
pub proof fn lemma_run_len_stops(a: Seq<char>, c: char, b: Seq<char>, i: int)
    requires
        is_separator(c),
        0 <= i <= a.len(),
    ensures
        run_len(a + seq![c] + b, i) == run_len(a, i),
    decreases a.len() - i,
{
    let whole = a + seq![c] + b;
    if i < a.len() {
        assert(whole[i] == a[i]);
        if !is_separator(a[i]) {
            lemma_run_len_stops(a, c, b, i + 1);
        }
    } else {
        assert(whole[i] == c);
    }
}

/// The tokens of a text that is cut by a separator are the tokens before
/// the separator and then the tokens after it.
pub proof fn lemma_tokens_from_split(a: Seq<char>, c: char, b: Seq<char>, i: int)
    requires
        is_separator(c),
        0 <= i <= a.len(),
    ensures
        tokens_from(a + seq![c] + b, i) == tokens_from(a, i) + tokens(b),
    decreases a.len() - i,
{
    let whole = a + seq![c] + b;
    if i < a.len() {
        assert(whole[i] == a[i]);
        if is_separator(a[i]) {
            lemma_tokens_from_split(a, c, b, i + 1);
        } else {
            lemma_run_len_stops(a, c, b, i);
            lemma_run_len_bound(a, i);
            let run = run_len(a, i) as int;
            lemma_tokens_from_split(a, c, b, i + run);
            assert(whole.subrange(i, i + run) =~= a.subrange(i, i + run));
            assert(seq![a.subrange(i, i + run)] + (tokens_from(a, i + run) + tokens(b)) =~= (seq![
                a.subrange(i, i + run),
            ] + tokens_from(a, i + run)) + tokens(b));
        }
    } else {
        assert(whole[i] == c);
        lemma_tokens_from_shift(a + seq![c], b, 0);
        assert(tokens_from(a, i) =~= Seq::<Seq<char>>::empty());
        assert(tokens_from(a, i) + tokens(b) =~= tokens(b));
    }
}

/// A text without characters has no token.
pub proof fn lemma_tokens_of_nothing()
    ensures
        tokens(Seq::<char>::empty()) == Seq::<Seq<char>>::empty(),
{
}

/// A text that is one token has that token and no other.
pub proof fn lemma_tokens_of_a_token(t: Seq<char>)
    requires
        is_token(t),
    ensures
        tokens(t) == seq![t],
{
    lemma_run_reaches_end(t, 0);
    assert(t.subrange(0, t.len() as int) =~= t);
    assert(tokens_from(t, t.len() as int) =~= Seq::<Seq<char>>::empty());
    assert(seq![t] + Seq::<Seq<char>>::empty() =~= seq![t]);
}

/// In a text without separators a run reaches the end.
pub proof fn lemma_run_reaches_end(t: Seq<char>, i: int)
    requires
        0 <= i <= t.len(),
        forall|k: int| 0 <= k < t.len() ==> !is_separator(#[trigger] t[k]),
    ensures
        i + run_len(t, i) == t.len(),
    decreases t.len() - i,
{
    if i < t.len() {
        lemma_run_reaches_end(t, i + 1);
    }
}

/// Tokens are what separators leave: the tokens of two texts with a
/// separator between them are the tokens of the first and then the tokens
/// of the second.
pub proof fn lemma_tokens_split(a: Seq<char>, c: char, b: Seq<char>)
    requires
        is_separator(c),
    ensures
        tokens(a + seq![c] + b) == tokens(a) + tokens(b),
{
    lemma_tokens_from_split(a, c, b, 0);
}

pub fn is_separator_char(c: char) -> (r: bool)
    ensures
        r == is_separator(c),
{
    c == ',' || c == ':' || c == ' ' || c == '\t' || c == '\n' || c == '\x0C' || c == '\r'
}

/// The characters of a string slice, one by one.
pub fn chars_of(s: &str) -> (r: Vec<char>)
    ensures
        r@ == s@,
{
    let mut out: Vec<char> = Vec::new();
    for c in it: s.chars()
        invariant
            it.seq() == s@,
            out@ == it.seq().take(it.index()),
    {
        out.push(c);
    }
    out
}

/// Tells whether the characters of `chars` between `start` and `end` spell
/// `word`.
pub fn span_is(chars: &Vec<char>, start: usize, end: usize, word: &Vec<char>) -> (r: bool)
    requires
        start <= end <= chars@.len(),
    ensures
        r == (chars@.subrange(start as int, end as int) == word@),
{
    let ghost piece = chars@.subrange(start as int, end as int);
    if end - start != word.len() {
        return false;
    }
    let mut k: usize = 0;
    while k < word.len()
        invariant
            start <= end <= chars@.len(),
            end - start == word@.len(),
            k <= word@.len(),
            piece == chars@.subrange(start as int, end as int),
            forall|j: int| 0 <= j < k ==> piece[j] == word@[j],
        decreases word@.len() - k,
    {
        if chars[start + k] != word[k] {
            assert(piece[k as int] != word@[k as int]);
            return false;
        }
        k += 1;
    }
    assert(piece =~= word@);
    true
}

/// Tells whether two string slices hold the same characters.
pub fn same_text(a: &str, b: &str) -> (r: bool)
    ensures
        r == (a@ == b@),
{
    let left = chars_of(a);
    let right = chars_of(b);
    let n = left.len();
    assert(left@.subrange(0, n as int) =~= left@);
    span_is(&left, 0, n, &right)
}

/// The pieces of `doc` that a list of spans marks, each span a pair of a
/// start and an end position.
pub open spec fn spans_text(doc: Seq<char>, spans: Seq<(usize, usize)>) -> Seq<Seq<char>> {
    Seq::new(spans.len(), |k: int| doc.subrange(spans[k].0 as int, spans[k].1 as int))
}

/// Every span lies inside a text of `len` characters and is not empty.
pub open spec fn spans_within(spans: Seq<(usize, usize)>, len: nat) -> bool {
    forall|k: int| 0 <= k < spans.len() ==> (#[trigger] spans[k]).0 < spans[k].1 <= len
}

/// Cuts a document into its tokens and returns where each one starts and
/// ends.
pub fn token_spans(chars: &Vec<char>) -> (spans: Vec<(usize, usize)>)
    ensures
        spans_within(spans@, chars@.len()),
        spans_text(chars@, spans@) == tokens(chars@),
{
    let n = chars.len();
    let mut spans: Vec<(usize, usize)> = Vec::new();
    let mut i: usize = 0;
    while i < n
        invariant
            i <= n,
            n == chars@.len(),
            spans_within(spans@, chars@.len()),
            tokens(chars@) == spans_text(chars@, spans@) + tokens_from(chars@, i as int),
        decreases n - i,
    {
        if is_separator_char(chars[i]) {
            i += 1;
        } else {
            let start = i;
            while i < n && !is_separator_char(chars[i])
                invariant
                    start <= i <= n,
                    n == chars@.len(),
                    run_len(chars@, start as int) == (i - start) + run_len(chars@, i as int),
                decreases n - i,
            {
                i += 1;
            }
            proof {
                let ghost_before = spans_text(chars@, spans@);
                assert(run_len(chars@, start as int) == i - start);
                assert(tokens_from(chars@, start as int) == seq![
                    chars@.subrange(start as int, i as int),
                ] + tokens_from(chars@, i as int));
                assert(spans_text(chars@, spans@.push((start, i))) =~= ghost_before + seq![
                    chars@.subrange(start as int, i as int),
                ]);
                assert(ghost_before + (seq![chars@.subrange(start as int, i as int)]
                    + tokens_from(chars@, i as int)) =~= (ghost_before + seq![
                    chars@.subrange(start as int, i as int),
                ]) + tokens_from(chars@, i as int));
            }
            spans.push((start, i));
        }
    }
    proof {
        assert(spans_text(chars@, spans@) + tokens_from(chars@, i as int) =~= spans_text(
            chars@,
            spans@,
        ));
    }
    spans
}

} // verus!
