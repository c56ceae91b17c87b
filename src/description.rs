//! The swap sentence `<party> swapped <amount> <SYMBOL> for <amount> <SYMBOL>`.
//!
//! `<party>` is a run of ASCII letters and digits, `<amount>` a run of ASCII
//! digits and dots, `<SYMBOL>` a run of uppercase ASCII letters. The sentence
//! may stand anywhere in the text; the leftmost occurrence is the one taken.
//! Amount digits are ASCII only: a run holding another script's decimal
//! digits is no amount, so such a sentence is passed over and a later one
//! may be taken.
use vstd::prelude::*;
use vstd::string::*;
use crate::text::{all_in, chars_of, find_run_end, in_class, lemma_run_end_at, run_end, CharClass};

verus! {

broadcast use vstd::string::group_string_axioms;

/// The five pieces of a matched sentence, as text.
pub ghost struct SwapText {
    pub sender: Seq<char>,
    pub from_amount: Seq<char>,
    pub from_token: Seq<char>,
    pub to_amount: Seq<char>,
    pub to_token: Seq<char>,
}

pub open spec fn swapped_word() -> Seq<char> {
    seq![' ', 's', 'w', 'a', 'p', 'p', 'e', 'd', ' ']
}

pub open spec fn for_word() -> Seq<char> {
    seq![' ', 'f', 'o', 'r', ' ']
}

pub open spec fn word_at(s: Seq<char>, k: int, w: Seq<char>) -> bool {
    0 <= k && k + w.len() <= s.len() && s.subrange(k, k + w.len()) == w
}

/// The sentence that starts exactly at position `i` of `s`, if any. Each run
/// is as long as it can be, which is the only way for the literal words
/// around it to follow.
pub open spec fn match_at(s: Seq<char>, i: int) -> Option<SwapText> {
    let a = run_end(s, i, CharClass::Alnum);
    let b0 = a + 9;
    let b = run_end(s, b0, CharClass::AmountChar);
    let c0 = b + 1;
    let c = run_end(s, c0, CharClass::Upper);
    let d0 = c + 5;
    let d = run_end(s, d0, CharClass::AmountChar);
    let e0 = d + 1;
    let e = run_end(s, e0, CharClass::Upper);
    if 0 <= i && a > i && word_at(s, a, swapped_word()) && b > b0 && word_at(s, b, seq![' '])
        && c > c0 && word_at(s, c, for_word()) && d > d0 && word_at(s, d, seq![' ']) && e > e0 {
        Some(
            SwapText {
                sender: s.subrange(i, a),
                from_amount: s.subrange(b0, b),
                from_token: s.subrange(c0, c),
                to_amount: s.subrange(d0, d),
                to_token: s.subrange(e0, e),
            },
        )
    } else {
        None
    }
}

/// The first sentence that starts at `i` or later.
pub open spec fn leftmost_match(s: Seq<char>, i: int) -> Option<SwapText>
    decreases s.len() + 1 - i,
{
    if i < 0 || i > s.len() {
        None
    } else if match_at(s, i) is Some {
        match_at(s, i)
    } else {
        leftmost_match(s, i + 1)
    }
}

/// A matched sentence.
pub struct DescriptionMatch {
    pub sender: String,
    pub from_amount: String,
    pub from_token: String,
    pub to_amount: String,
    pub to_token: String,
}

impl View for DescriptionMatch {
    type V = SwapText;

    open spec fn view(&self) -> SwapText {
        SwapText {
            sender: self.sender@,
            from_amount: self.from_amount@,
            from_token: self.from_token@,
            to_amount: self.to_amount@,
            to_token: self.to_token@,
        }
    }
}

fn word_at_exec(s: &Vec<char>, k: usize, w: &Vec<char>) -> (r: bool)
    ensures
        r == word_at(s@, k as int, w@),
{
    if w.len() > s.len() || k > s.len() - w.len() {
        return false;
    }
    let mut j: usize = 0;
    while j < w.len()
        invariant
            k + w@.len() <= s@.len(),
            j <= w@.len(),
            forall|t: int| 0 <= t < j ==> s@[k + t] == w@[t],
        decreases w@.len() - j,
    {
        assert(k + j < s.len());
        if s[k + j] != w[j] {
            assert(s@.subrange(k as int, k + w@.len())[j as int] != w@[j as int]);
            return false;
        }
        j = j + 1;
    }
    assert(s@.subrange(k as int, k + w@.len()) =~= w@);
    true
}

fn piece(input: &str, from: usize, to: usize) -> (r: String)
    requires
        from <= to <= input@.len(),
    ensures
        r@ == input@.subrange(from as int, to as int),
{
    input.substring_char(from, to).to_owned()
}

fn match_at_exec(
    input: &str,
    s: &Vec<char>,
    i: usize,
    swapped: &Vec<char>,
    for_w: &Vec<char>,
    space: &Vec<char>,
) -> (r: Option<DescriptionMatch>)
    requires
        s@ == input@,
        i <= s@.len(),
        swapped@ == swapped_word(),
        for_w@ == for_word(),
        space@ == seq![' '],
    ensures
        match r {
            Some(m) => match_at(s@, i as int) == Some(m@),
            None => match_at(s@, i as int) is None,
        },
{
    let n = s.len();
    assert(n == s@.len());
    let a = find_run_end(s, i, CharClass::Alnum);
    if a == i || !word_at_exec(s, a, swapped) {
        return None;
    }
    let b0 = a + 9;
    let b = find_run_end(s, b0, CharClass::AmountChar);
    if b == b0 || !word_at_exec(s, b, space) {
        return None;
    }
    let c0 = b + 1;
    let c = find_run_end(s, c0, CharClass::Upper);
    if c == c0 || !word_at_exec(s, c, for_w) {
        return None;
    }
    let d0 = c + 5;
    let d = find_run_end(s, d0, CharClass::AmountChar);
    if d == d0 || !word_at_exec(s, d, space) {
        return None;
    }
    let e0 = d + 1;
    let e = find_run_end(s, e0, CharClass::Upper);
    if e == e0 {
        return None;
    }
    Some(
        DescriptionMatch {
            sender: piece(input, i, a),
            from_amount: piece(input, b0, b),
            from_token: piece(input, c0, c),
            to_amount: piece(input, d0, d),
            to_token: piece(input, e0, e),
        },
    )
}

/// Finds the leftmost swap sentence in `input`.
pub fn match_description(input: &str) -> (r: Option<DescriptionMatch>)
    ensures
        match r {
            Some(m) => leftmost_match(input@, 0) == Some(m@),
            None => leftmost_match(input@, 0) is None,
        },
{
    let s = chars_of(input);
    let swapped: Vec<char> = vec![' ', 's', 'w', 'a', 'p', 'p', 'e', 'd', ' '];
    let for_w: Vec<char> = vec![' ', 'f', 'o', 'r', ' '];
    let space: Vec<char> = vec![' '];
    assert(swapped@ =~= swapped_word());
    assert(for_w@ =~= for_word());
    assert(space@ =~= seq![' ']);
    let n = s.len();
    let mut i: usize = 0;
    while i < n
        invariant
            n == s@.len(),
            s@ == input@,
            i <= n,
            swapped@ == swapped_word(),
            for_w@ == for_word(),
            space@ == seq![' '],
            leftmost_match(input@, 0) == leftmost_match(input@, i as int),
        decreases n - i,
    {
        match match_at_exec(input, &s, i, &swapped, &for_w, &space) {
            Some(m) => {
                return Some(m);
            },
            None => {},
        }
        i = i + 1;
    }
    assert(run_end(input@, n as int, CharClass::Alnum) == n);
    assert(match_at(input@, n as int) is None);
    assert(leftmost_match(input@, n + 1) is None);
    None
}

/// The sentence built from its five pieces, followed by `rest`.
pub open spec fn sentence(p: SwapText, rest: Seq<char>) -> Seq<char> {
    p.sender + swapped_word() + p.from_amount + seq![' '] + p.from_token + for_word() + p.to_amount
        + seq![' '] + p.to_token + rest
}

/// Pieces that the grammar admits: a non-empty party of letters and digits,
/// non-empty amounts of digits and dots, non-empty uppercase symbols.
pub open spec fn well_formed_pieces(p: SwapText) -> bool {
    &&& p.sender.len() > 0 && all_in(p.sender, CharClass::Alnum)
    &&& p.from_amount.len() > 0 && all_in(p.from_amount, CharClass::AmountChar)
    &&& p.from_token.len() > 0 && all_in(p.from_token, CharClass::Upper)
    &&& p.to_amount.len() > 0 && all_in(p.to_amount, CharClass::AmountChar)
    &&& p.to_token.len() > 0 && all_in(p.to_token, CharClass::Upper)
}

/// A description that is a swap sentence reads back as exactly its pieces,
/// whatever follows the last symbol, provided that it does not continue it.
pub proof fn lemma_sentence_reads_back(p: SwapText, rest: Seq<char>)
    requires
        well_formed_pieces(p),
        rest.len() == 0 || !in_class(CharClass::Upper, rest[0]),
    ensures
        leftmost_match(sentence(p, rest), 0) == Some(p),
{
    let s = sentence(p, rest);
    let a = p.sender.len() as int;
    let b0 = a + 9;
    let b = b0 + p.from_amount.len();
    let c0 = b + 1;
    let c = c0 + p.from_token.len();
    let d0 = c + 5;
    let d = d0 + p.to_amount.len();
    let e0 = d + 1;
    let e = e0 + p.to_token.len();
    assert(s.len() == e + rest.len());
    assert(s.subrange(0, a) =~= p.sender);
    assert(s.subrange(a, b0) =~= swapped_word());
    assert(s.subrange(b0, b) =~= p.from_amount);
    assert(s.subrange(b, c0) =~= seq![' ']);
    assert(s.subrange(c0, c) =~= p.from_token);
    assert(s.subrange(c, d0) =~= for_word());
    assert(s.subrange(d0, d) =~= p.to_amount);
    assert(s.subrange(d, e0) =~= seq![' ']);
    assert(s.subrange(e0, e) =~= p.to_token);
    assert(s.subrange(e, s.len() as int) =~= rest);
    assert forall|k: int| 0 <= k < a implies in_class(CharClass::Alnum, #[trigger] s[k]) by {
        assert(s[k] == s.subrange(0, a)[k]);
    }
    assert(s[a] == s.subrange(a, b0)[0]);
    lemma_run_end_at(s, 0, a, CharClass::Alnum);
    assert forall|k: int| b0 <= k < b implies in_class(CharClass::AmountChar, #[trigger] s[k]) by {
        assert(s[k] == s.subrange(b0, b)[k - b0]);
    }
    assert(s[b] == s.subrange(b, c0)[0]);
    lemma_run_end_at(s, b0, b, CharClass::AmountChar);
    assert forall|k: int| c0 <= k < c implies in_class(CharClass::Upper, #[trigger] s[k]) by {
        assert(s[k] == s.subrange(c0, c)[k - c0]);
    }
    assert(s[c] == s.subrange(c, d0)[0]);
    lemma_run_end_at(s, c0, c, CharClass::Upper);
    assert forall|k: int| d0 <= k < d implies in_class(CharClass::AmountChar, #[trigger] s[k]) by {
        assert(s[k] == s.subrange(d0, d)[k - d0]);
    }
    assert(s[d] == s.subrange(d, e0)[0]);
    lemma_run_end_at(s, d0, d, CharClass::AmountChar);
    assert forall|k: int| e0 <= k < e implies in_class(CharClass::Upper, #[trigger] s[k]) by {
        assert(s[k] == s.subrange(e0, e)[k - e0]);
    }
    if rest.len() > 0 {
        assert(s[e] == s.subrange(e, s.len() as int)[0]);
    }
    lemma_run_end_at(s, e0, e, CharClass::Upper);
    assert(match_at(s, 0) == Some(p));
}

/// A text in which no swap sentence starts anywhere has no reading.
pub proof fn lemma_no_sentence_no_match(s: Seq<char>, i: int)
    requires
        forall|k: int| 0 <= k <= s.len() ==> #[trigger] match_at(s, k) is None,
    ensures
        leftmost_match(s, i) is None,
    decreases s.len() + 1 - i,
{
    if 0 <= i <= s.len() {
        assert(match_at(s, i) is None);
        lemma_no_sentence_no_match(s, i + 1);
    }
}

} // verus!
