//! Decimal rendering of integers, as the library's messages print them.
use vstd::prelude::*;

verus! {

/// The character of a decimal digit `d` (`0 <= d < 10`).
pub open spec fn digit_char(d: nat) -> char {
    seq!['0', '1', '2', '3', '4', '5', '6', '7', '8', '9'][d as int]
}

/// Decimal notation of a natural number: no sign, no leading zeros, "0" for zero.
pub open spec fn decimal(n: nat) -> Seq<char>
    decreases n,
{
    if n < 10 {
        seq![digit_char(n)]
    } else {
        decimal(n / 10).push(digit_char(n % 10))
    }
}

/// Decimal notation of an integer: a leading '-' for negative values.
pub open spec fn signed_decimal(n: int) -> Seq<char> {
    if n < 0 {
        seq!['-'] + decimal((-n) as nat)
    } else {
        decimal(n as nat)
    }
}

/// `u64::to_string` (std's `Display` for `u64`): the decimal notation of the value.
#[verifier::external_body]
pub(crate) fn u64_to_decimal(n: u64) -> (s: String)
    ensures
        s@ == decimal(n as nat),
{
    n.to_string()
}

/// `i32::to_string` (std's `Display` for `i32`): the decimal notation, with '-' when negative.
#[verifier::external_body]
pub(crate) fn i32_to_decimal(n: i32) -> (s: String)
    ensures
        s@ == signed_decimal(n as int),
{
    n.to_string()
}

/// Unicode's `White_Space` property, the whitespace that `str::trim` removes.
pub open spec fn is_white_space(c: char) -> bool {
    let u = c as u32;
    ||| 0x9 <= u <= 0xd
    ||| u == 0x20
    ||| u == 0x85
    ||| u == 0xa0
    ||| u == 0x1680
    ||| 0x2000 <= u <= 0x200a
    ||| u == 0x2028
    ||| u == 0x2029
    ||| u == 0x202f
    ||| u == 0x205f
    ||| u == 0x3000
}

/// The text without its leading whitespace.
pub open spec fn trim_start(s: Seq<char>) -> Seq<char>
    decreases s.len(),
{
    if s.len() > 0 && is_white_space(s[0]) {
        trim_start(s.drop_first())
    } else {
        s
    }
}

/// The text without its trailing whitespace.
pub open spec fn trim_end(s: Seq<char>) -> Seq<char>
    decreases s.len(),
{
    if s.len() > 0 && is_white_space(s.last()) {
        trim_end(s.drop_last())
    } else {
        s
    }
}

/// The text without leading and trailing whitespace.
pub open spec fn trimmed(s: Seq<char>) -> Seq<char> {
    trim_end(trim_start(s))
}

/// `str::trim`: the slice without leading and trailing Unicode whitespace.
#[verifier::external_body]
pub(crate) fn trim(s: &str) -> (t: &str)
    ensures
        t@ == trimmed(s@),
{
    s.trim()
}

/// Every character of the text is Unicode whitespace.
pub open spec fn all_white_space(s: Seq<char>) -> bool {
    forall|i: int| 0 <= i < s.len() ==> #[trigger] is_white_space(s[i])
}

proof fn lemma_trim_start_after_white_space(w: Seq<char>, x: Seq<char>)
    requires
        all_white_space(w),
    ensures
        trim_start(w + x) == trim_start(x),
    decreases w.len(),
{
    if w.len() == 0 {
        assert(w + x =~= x);
    } else {
        assert((w + x)[0] == w[0]);
        assert((w + x).drop_first() =~= w.drop_first() + x);
        lemma_trim_start_after_white_space(w.drop_first(), x);
    }
}

proof fn lemma_trim_end_before_white_space(x: Seq<char>, w: Seq<char>)
    requires
        all_white_space(w),
    ensures
        trim_end(x + w) == trim_end(x),
    decreases w.len(),
{
    if w.len() == 0 {
        assert(x + w =~= x);
    } else {
        assert((x + w).last() == w.last());
        assert((x + w).drop_last() =~= x + w.drop_last());
        lemma_trim_end_before_white_space(x, w.drop_last());
    }
}

proof fn lemma_trim_start_append(x: Seq<char>, y: Seq<char>)
    ensures
        trim_start(x + y) == (if trim_start(x).len() > 0 {
            trim_start(x) + y
        } else {
            trim_start(y)
        }),
    decreases x.len(),
{
    if x.len() == 0 {
        assert(x + y =~= y);
    } else {
        assert((x + y)[0] == x[0]);
        if is_white_space(x[0]) {
            assert((x + y).drop_first() =~= x.drop_first() + y);
            lemma_trim_start_append(x.drop_first(), y);
        }
    }
}

/// Whitespace around a text does not change what trimming it gives.
pub proof fn law_trim_ignores_surrounding_white_space(w1: Seq<char>, p: Seq<char>, w2: Seq<char>)
    requires
        all_white_space(w1),
        all_white_space(w2),
    ensures
        trimmed(w1 + p + w2) == trimmed(p),
{
    assert(w1 + p + w2 =~= w1 + (p + w2));
    lemma_trim_start_after_white_space(w1, p + w2);
    lemma_trim_start_append(p, w2);
    if trim_start(p).len() > 0 {
        lemma_trim_end_before_white_space(trim_start(p), w2);
    } else {
        lemma_trim_start_after_white_space(w2, Seq::<char>::empty());
        assert(w2 + Seq::<char>::empty() =~= w2);
        assert(trim_start(p) =~= Seq::<char>::empty());
    }
}

/// The word in progress, as a list of at most one word.
pub open spec fn finish_word(current: Seq<char>) -> Seq<Seq<char>> {
    if current.len() > 0 {
        seq![current]
    } else {
        Seq::empty()
    }
}

/// The words of `s`, split on Unicode whitespace, after the word `current` that is in
/// progress.
pub open spec fn split_from(s: Seq<char>, current: Seq<char>) -> Seq<Seq<char>>
    decreases s.len(),
{
    if s.len() == 0 {
        finish_word(current)
    } else if is_white_space(s[0]) {
        finish_word(current) + split_from(s.drop_first(), Seq::empty())
    } else {
        split_from(s.drop_first(), current.push(s[0]))
    }
}

/// The words of a text: its maximal runs of characters that are not Unicode whitespace,
/// in order (what `str::split_whitespace` yields).
pub open spec fn split_words(s: Seq<char>) -> Seq<Seq<char>> {
    split_from(s, Seq::empty())
}

proof fn lemma_split_white_space_only(w: Seq<char>, current: Seq<char>)
    requires
        all_white_space(w),
    ensures
        split_from(w, current) == finish_word(current),
    decreases w.len(),
{
    if w.len() > 0 {
        lemma_split_white_space_only(w.drop_first(), Seq::empty());
        assert(finish_word(current) + Seq::<Seq<char>>::empty() =~= finish_word(current));
    }
}

proof fn lemma_split_before_white_space(x: Seq<char>, w: Seq<char>, current: Seq<char>)
    requires
        all_white_space(w),
    ensures
        split_from(x + w, current) == split_from(x, current),
    decreases x.len(),
{
    if x.len() == 0 {
        assert(x + w =~= w);
        lemma_split_white_space_only(w, current);
    } else {
        assert((x + w)[0] == x[0]);
        assert((x + w).drop_first() =~= x.drop_first() + w);
        if is_white_space(x[0]) {
            lemma_split_before_white_space(x.drop_first(), w, Seq::empty());
        } else {
            lemma_split_before_white_space(x.drop_first(), w, current.push(x[0]));
        }
    }
}

proof fn lemma_split_trim_start(p: Seq<char>)
    ensures
        split_words(trim_start(p)) == split_words(p),
    decreases p.len(),
{
    if p.len() > 0 && is_white_space(p[0]) {
        lemma_split_trim_start(p.drop_first());
        assert(finish_word(Seq::<char>::empty()) + split_words(p.drop_first()) =~= split_words(
            p.drop_first(),
        ));
    }
}

proof fn lemma_split_trim_end(x: Seq<char>, current: Seq<char>)
    ensures
        split_from(trim_end(x), current) == split_from(x, current),
    decreases x.len(),
{
    if x.len() > 0 && is_white_space(x.last()) {
        lemma_split_trim_end(x.drop_last(), current);
        let tail = seq![x.last()];
        assert(all_white_space(tail));
        assert(x =~= x.drop_last() + tail);
        lemma_split_before_white_space(x.drop_last(), tail, current);
    }
}

/// Trimming a text keeps its words.
pub proof fn law_trim_keeps_words(p: Seq<char>)
    ensures
        split_words(trimmed(p)) == split_words(p),
{
    lemma_split_trim_end(trim_start(p), Seq::empty());
    lemma_split_trim_start(p);
}

} // verus!
