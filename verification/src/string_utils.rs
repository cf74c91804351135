//! Text utilities that work on Unicode scalar values, never on bytes:
//! counting a character, reversing a string and recognising palindromes.

use vstd::prelude::*;
use vstd::std_specs::iter::IteratorSpec;
use vstd::string::StringSliceAdditionalSpecFns;
use vstd::utf8::encode_utf8;

verus! {

/// A text of `n` characters takes at least `n` bytes in UTF-8.
pub proof fn lemma_chars_within_bytes(chars: Seq<char>)
    ensures
        chars.len() <= encode_utf8(chars).len(),
    decreases chars.len(),
{
    if chars.len() > 0 {
        lemma_chars_within_bytes(chars.drop_first());
    }
}

/// The predicate that holds of `target` alone.
pub open spec fn is_char(target: char) -> spec_fn(char) -> bool {
    |c: char| c == target
}

/// How many positions of `text` hold `target`.
pub open spec fn count_spec(text: Seq<char>, target: char) -> nat {
    text.filter(is_char(target)).len()
}

/// `unit` written `times` times in a row.
pub open spec fn repeated(unit: Seq<char>, times: nat) -> Seq<char>
    decreases times,
{
    if times == 0 {
        Seq::empty()
    } else {
        repeated(unit, (times - 1) as nat) + unit
    }
}

/// The count in a concatenation is the sum of the counts in its parts.
pub proof fn lemma_count_concat(a: Seq<char>, b: Seq<char>, target: char)
    ensures
        count_spec(a + b, target) == count_spec(a, target) + count_spec(b, target),
{
    Seq::filter_distributes_over_add(a, b, is_char(target));
}

/// The count in a single character is 1 for the target and 0 for any other.
pub proof fn lemma_count_single(c: char, target: char)
    ensures
        count_spec(seq![c], target) == if c == target {
            1nat
        } else {
            0nat
        },
{
    let empty = Seq::<char>::empty();
    reveal(Seq::filter);
    assert(seq![c].drop_last() =~= empty);
    assert(empty.filter(is_char(target)) =~= empty);
}

/// A text repeated `times` times holds `times` times as many of each
/// character.
pub proof fn lemma_count_repeated(unit: Seq<char>, times: nat, target: char)
    ensures
        count_spec(repeated(unit, times), target) == times * count_spec(unit, target),
    decreases times,
{
    if times == 0 {
        let empty = Seq::<char>::empty();
        assert(empty.filter(is_char(target)).len() == 0) by {
            empty.lemma_filter_len(is_char(target));
        }
    } else {
        let rest = (times - 1) as nat;
        lemma_count_repeated(unit, rest, target);
        lemma_count_concat(repeated(unit, rest), unit, target);
        assert(times * count_spec(unit, target) == rest * count_spec(unit, target) + count_spec(
            unit,
            target,
        )) by (nonlinear_arith)
            requires
                times == rest + 1,
        ;
    }
}

/// In a pair of distinct characters repeated `times` times, each of the two
/// occurs `times` times.
pub proof fn lemma_count_in_repeated_pair(first: char, second: char, times: nat)
    requires
        first != second,
    ensures
        count_spec(repeated(seq![first, second], times), first) == times,
        count_spec(repeated(seq![first, second], times), second) == times,
{
    let pair = seq![first, second];
    assert(pair =~= seq![first] + seq![second]);
    lemma_count_concat(seq![first], seq![second], first);
    lemma_count_concat(seq![first], seq![second], second);
    lemma_count_single(first, first);
    lemma_count_single(second, first);
    lemma_count_single(first, second);
    lemma_count_single(second, second);
    lemma_count_repeated(pair, times, first);
    lemma_count_repeated(pair, times, second);
    assert(times * 1 == times);
}

/// Counts the occurrences of `target` in `s`, character by character and
/// with regard to case.
pub fn count_char(s: &str, target: char) -> (count: usize)
    ensures
        count == count_spec(s@, target),
{
    let byte_len = s.as_bytes().len();
    assert(s@.len() <= byte_len) by {
        lemma_chars_within_bytes(s@);
    }
    let mut count: usize = 0;
    let chars = s.chars();
    for c in it: chars
        invariant
            it.seq() == s@,
            s@.len() <= usize::MAX,
            count == count_spec(s@.take(it.index()), target),
            count <= it.index(),
    {
        proof {
            let seen = s@.take(it.index());
            assert(s@.take(it.index() + 1) == seen.push(c));
            seen.lemma_filter_push(c, is_char(target));
        }
        if c == target {
            count = count + 1;
        }
    }
    assert(s@.take(s@.len() as int) == s@);
    count
}

/// Gathers the characters of `s`, in order.
fn chars_of(s: &str) -> (chars: Vec<char>)
    ensures
        chars@ == s@,
{
    let mut chars: Vec<char> = Vec::new();
    let source = s.chars();
    for c in it: source
        invariant
            it.seq() == s@,
            chars@ == s@.take(it.index()),
    {
        assert(s@.take(it.index() + 1) == s@.take(it.index()).push(c));
        chars.push(c);
    }
    assert(s@.take(s@.len() as int) == s@);
    chars
}

/// `String::push` appends one character to the end of the string and leaves
/// what was there untouched.
pub assume_specification[ String::push ](s: &mut String, ch: char)
    ensures
        final(s)@ == old(s)@.push(ch),
;

/// Reversing twice gives the text back.
pub proof fn lemma_reverse_involution(text: Seq<char>)
    ensures
        text.reverse().reverse() == text,
{
    assert(text.reverse().reverse() =~= text);
}

/// Reversal keeps the number of characters.
pub proof fn lemma_reverse_len(text: Seq<char>)
    ensures
        text.reverse().len() == text.len(),
{
}

/// Reverses the characters of `s`. A character that takes several bytes
/// stays whole.
pub fn reverse_string(s: &str) -> (reversed: String)
    ensures
        reversed@ == s@.reverse(),
{
    let chars = chars_of(s);
    let mut reversed = String::new();
    let mut i: usize = chars.len();
    while i > 0
        invariant
            i <= chars.len(),
            reversed@.len() == chars.len() - i,
            forall|k: int| 0 <= k < reversed@.len() ==> reversed@[k] == chars@[chars.len() - 1 - k],
        decreases i,
    {
        i = i - 1;
        reversed.push(chars[i]);
    }
    assert(reversed@ =~= s@.reverse());
    reversed
}

/// Whether Unicode classes `c` as alphanumeric: the answer of
/// `char::is_alphanumeric`.
pub uninterp spec fn alphanumeric(c: char) -> bool;

/// The lowercase mapping that Unicode gives `c`: the characters that
/// `char::to_lowercase` yields, in order.
pub uninterp spec fn lowercase_mapping(c: char) -> Seq<char>;

/// `char::is_alphanumeric` reports whether the character is alphabetic or
/// numeric by its Unicode category. The answer depends on the character
/// alone.
pub assume_specification[ char::is_alphanumeric ](c: char) -> (answer: bool)
    ensures
        answer == alphanumeric(c),
;

/// Calls `char::to_lowercase` and gathers what it yields. The standard
/// library documents the mapping as one or more characters.
#[verifier::external_body]
fn lowercase_of(c: char) -> (mapping: Vec<char>)
    ensures
        mapping@ == lowercase_mapping(c),
        mapping@.len() >= 1,
{
    c.to_lowercase().collect()
}

/// The character that stands for `c` when case is ignored: the first
/// character of its lowercase mapping. Characters whose lowercase mapping
/// has more than one character are represented by the first alone.
pub open spec fn fold_case(c: char) -> char {
    lowercase_mapping(c)[0]
}

/// The predicate that tells the characters which count in a palindrome.
pub open spec fn keeps() -> spec_fn(char) -> bool {
    |c: char| alphanumeric(c)
}

/// The mapping that erases case.
pub open spec fn folds() -> spec_fn(char) -> char {
    |c: char| fold_case(c)
}

/// What is left of `text` for the palindrome test: its alphanumeric
/// characters, in order, each with its case erased.
pub open spec fn normalized(text: Seq<char>) -> Seq<char> {
    text.filter(keeps()).map_values(folds())
}

/// Whether `text` reads the same forwards and backwards.
pub open spec fn is_symmetric_spec(text: Seq<char>) -> bool {
    text == text.reverse()
}

/// Whether `text` is a palindrome once punctuation, spacing and case are
/// set aside.
pub open spec fn is_palindrome_spec(text: Seq<char>) -> bool {
    is_symmetric_spec(normalized(text))
}

/// Normalising a concatenation normalises its parts.
pub proof fn lemma_normalized_concat(a: Seq<char>, b: Seq<char>)
    ensures
        normalized(a + b) == normalized(a) + normalized(b),
{
    Seq::filter_distributes_over_add(a, b, keeps());
    assert(normalized(a + b) =~= normalized(a) + normalized(b));
}

/// What normalising does to a single character.
pub proof fn lemma_normalized_single(c: char)
    ensures
        normalized(seq![c]) == if alphanumeric(c) {
            seq![fold_case(c)]
        } else {
            Seq::<char>::empty()
        },
{
    let empty = Seq::<char>::empty();
    reveal(Seq::filter);
    assert(seq![c].drop_last() =~= empty);
    assert(empty.filter(keeps()) =~= empty);
    assert(normalized(seq![c]) =~= if alphanumeric(c) {
        seq![fold_case(c)]
    } else {
        empty
    });
}

/// Removing a character that is not alphanumeric changes nothing for the
/// palindrome test.
pub proof fn lemma_palindrome_ignores_other_characters(text: Seq<char>, i: int)
    requires
        0 <= i < text.len(),
        !alphanumeric(text[i]),
    ensures
        normalized(text.remove(i)) == normalized(text),
        is_palindrome_spec(text.remove(i)) == is_palindrome_spec(text),
{
    let before = text.take(i);
    let after = text.skip(i + 1);
    assert(text =~= before + seq![text[i]] + after);
    assert(text.remove(i) =~= before + after);
    lemma_normalized_single(text[i]);
    lemma_normalized_concat(before, seq![text[i]]);
    lemma_normalized_concat(before + seq![text[i]], after);
    lemma_normalized_concat(before, after);
    assert(normalized(before) + Seq::<char>::empty() =~= normalized(before));
}

/// Replacing a character by another of the same class and the same
/// lowercase form, as a change of case does, changes nothing for the
/// palindrome test.
pub proof fn lemma_palindrome_ignores_case(text: Seq<char>, i: int, c: char)
    requires
        0 <= i < text.len(),
        alphanumeric(c) == alphanumeric(text[i]),
        fold_case(c) == fold_case(text[i]),
    ensures
        normalized(text.update(i, c)) == normalized(text),
        is_palindrome_spec(text.update(i, c)) == is_palindrome_spec(text),
{
    let before = text.take(i);
    let after = text.skip(i + 1);
    assert(text =~= before + seq![text[i]] + after);
    assert(text.update(i, c) =~= before + seq![c] + after);
    lemma_normalized_single(text[i]);
    lemma_normalized_single(c);
    lemma_normalized_concat(before, seq![text[i]]);
    lemma_normalized_concat(before + seq![text[i]], after);
    lemma_normalized_concat(before, seq![c]);
    lemma_normalized_concat(before + seq![c], after);
}

/// Keeps the alphanumeric characters of `s` and erases their case.
pub fn normalize(s: &str) -> (cleaned: Vec<char>)
    ensures
        cleaned@ == normalized(s@),
{
    let mut cleaned: Vec<char> = Vec::new();
    let source = s.chars();
    for c in it: source
        invariant
            it.seq() == s@,
            cleaned@ == normalized(s@.take(it.index())),
    {
        proof {
            let seen = s@.take(it.index());
            assert(s@.take(it.index() + 1) == seen + seq![c]);
            lemma_normalized_concat(seen, seq![c]);
            lemma_normalized_single(c);
            assert(normalized(seen) + Seq::<char>::empty() =~= normalized(seen));
        }
        if c.is_alphanumeric() {
            let mapping = lowercase_of(c);
            cleaned.push(mapping[0]);
            assert(normalized(s@.take(it.index())) + seq![fold_case(c)] =~= normalized(
                s@.take(it.index()),
            ).push(fold_case(c)));
        }
    }
    assert(s@.take(s@.len() as int) == s@);
    cleaned
}

/// Tells whether `chars` reads the same forwards and backwards. The empty
/// sequence and a sequence of one character do.
pub fn is_symmetric(chars: &[char]) -> (symmetric: bool)
    ensures
        symmetric == is_symmetric_spec(chars@),
{
    let n = chars.len();
    let mut i: usize = 0;
    while i < n / 2
        invariant
            n == chars@.len(),
            i <= n / 2,
            forall|k: int| 0 <= k < i ==> #[trigger] chars@[k] == chars@[n - 1 - k],
        decreases n / 2 - i,
    {
        if chars[i] != chars[n - 1 - i] {
            assert(chars@.reverse()[i as int] != chars@[i as int]);
            return false;
        }
        i = i + 1;
    }
    assert(chars@ =~= chars@.reverse()) by {
        assert forall|k: int| 0 <= k < n implies #[trigger] chars@[k] == chars@[n - 1 - k] by {
            if k >= n / 2 {
                let mirror = n - 1 - k;
                if mirror < n / 2 {
                    assert(chars@[mirror] == chars@[n - 1 - mirror]);
                }
            }
        }
    }
    true
}

/// Tells whether `s` is a palindrome: whether its alphanumeric characters,
/// with case ignored, read the same forwards and backwards.
pub fn is_palindrome(s: &str) -> (palindrome: bool)
    ensures
        palindrome == is_palindrome_spec(s@),
{
    let cleaned = normalize(s);
    is_symmetric(cleaned.as_slice())
}

/// Tells whether two texts hold the same characters in the same order.
pub fn same_text(a: &str, b: &str) -> (same: bool)
    ensures
        same == (a@ == b@),
{
    broadcast use vstd::string::group_string_axioms;

    let mut left = a.chars();
    let mut right = b.chars();
    let ghost mut matched: int = 0;
    loop
        invariant
            left.obeys_prophetic_iter_laws(),
            right.obeys_prophetic_iter_laws(),
            0 <= matched <= a@.len(),
            matched <= b@.len(),
            left.remaining() == a@.skip(matched),
            right.remaining() == b@.skip(matched),
            a@.take(matched) == b@.take(matched),
        decreases a@.len() - matched,
    {
        let x = left.next();
        let y = right.next();
        match (x, y) {
            (None, None) => {
                assert(a@.take(matched) == a@ && b@.take(matched) == b@);
                return true;
            },
            (Some(c), Some(d)) => {
                if c != d {
                    assert(a@[matched] != b@[matched]);
                    return false;
                }
                proof {
                    assert(a@.take(matched + 1) == a@.take(matched).push(c));
                    assert(b@.take(matched + 1) == b@.take(matched).push(d));
                    assert(a@.skip(matched).drop_first() == a@.skip(matched + 1));
                    assert(b@.skip(matched).drop_first() == b@.skip(matched + 1));
                    matched = matched + 1;
                }
            },
            _ => {
                assert(a@.len() != b@.len());
                return false;
            },
        }
    }
}

} // verus!
