use vstd::prelude::*;
use vstd::string::{StrSliceExecFns, StringExecFns};

verus! {

broadcast use vstd::string::group_string_axioms;

/// `text` starts with `prefix`.
pub open spec fn has_prefix(text: Seq<char>, prefix: Seq<char>) -> bool {
    prefix.len() <= text.len() && text.take(prefix.len() as int) == prefix
}

/// `text` ends with `suffix`.
pub open spec fn has_suffix(text: Seq<char>, suffix: Seq<char>) -> bool {
    suffix.len() <= text.len() && text.skip(text.len() - suffix.len()) == suffix
}

/// `text` with every non-overlapping occurrence of `from`, found from left to
/// right, replaced by `to`.
pub open spec fn replaced(text: Seq<char>, from: Seq<char>, to: Seq<char>) -> Seq<char>
    decreases text.len(),
{
    if text.len() == 0 {
        text
    } else if from.len() > 0 && has_prefix(text, from) {
        to + replaced(text.skip(from.len() as int), from, to)
    } else {
        seq![text[0]] + replaced(text.skip(1), from, to)
    }
}

/// `text` without any occurrence of the character `c`.
pub open spec fn without_char(text: Seq<char>, c: char) -> Seq<char> {
    text.filter(other_than(c))
}

pub open spec fn other_than(c: char) -> spec_fn(char) -> bool {
    |x: char| x != c
}

/// Returns a copy of the characters of the text.
pub fn chars_of(text: &str) -> (chars: Vec<char>)
    ensures
        chars@ == text@,
{
    let length = text.unicode_len();
    let mut chars: Vec<char> = Vec::new();
    let mut index: usize = 0;
    while index < length
        invariant
            length == text@.len(),
            index <= length,
            chars@ == text@.take(index as int),
        decreases length - index,
    {
        chars.push(text.get_char(index));
        index = index + 1;
        assert(chars@ =~= text@.take(index as int));
    }
    assert(text@.take(length as int) =~= text@);
    chars
}

/// Returns true if `prefix` starts the characters of `chars` from `start` on.
fn matches_at(chars: &Vec<char>, start: usize, prefix: &Vec<char>) -> (found: bool)
    requires
        start <= chars@.len(),
    ensures
        found == has_prefix(chars@.skip(start as int), prefix@),
{
    if prefix.len() > chars.len() - start {
        return false;
    }
    let mut index: usize = 0;
    while index < prefix.len()
        invariant
            index <= prefix@.len(),
            start + prefix@.len() <= chars@.len(),
            chars@.len() <= usize::MAX,
            forall|k: int| 0 <= k < index ==> chars@[start + k] == prefix@[k],
        decreases prefix@.len() - index,
    {
        if chars[start + index] != prefix[index] {
            assert(chars@.skip(start as int).take(prefix@.len() as int)[index as int] != prefix@[index as int]);
            return false;
        }
        index = index + 1;
    }
    assert(chars@.skip(start as int).take(prefix@.len() as int) =~= prefix@);
    true
}

/// `pattern` occurs somewhere in `text`.
pub open spec fn has_infix(text: Seq<char>, pattern: Seq<char>) -> bool {
    exists|start: int| 0 <= start <= text.len() && #[trigger] has_prefix(text.skip(start), pattern)
}

/// Returns true if `pattern` occurs in `text`.
pub fn contains_text(text: &str, pattern: &str) -> (found: bool)
    ensures
        found == has_infix(text@, pattern@),
{
    let chars = chars_of(text);
    let pattern_chars = chars_of(pattern);
    let mut start: usize = 0;
    while start < chars.len()
        invariant
            chars@ == text@,
            pattern_chars@ == pattern@,
            start <= chars@.len(),
            forall|k: int| 0 <= k < start ==> !#[trigger] has_prefix(text@.skip(k), pattern@),
        decreases chars@.len() - start,
    {
        if matches_at(&chars, start, &pattern_chars) {
            return true;
        }
        start = start + 1;
    }
    matches_at(&chars, start, &pattern_chars)
}

/// Returns true if the two texts are the same.
pub fn same_text(a: &str, b: &str) -> (same: bool)
    ensures
        same == (a@ == b@),
{
    let a_chars = chars_of(a);
    let b_chars = chars_of(b);
    if a_chars.len() != b_chars.len() {
        return false;
    }
    let found = matches_at(&a_chars, 0, &b_chars);
    proof {
        assert(a@.skip(0) =~= a@);
        if found {
            assert(a@.take(b@.len() as int) =~= a@);
        }
    }
    found
}

/// Returns true if `text` starts with `prefix`.
pub fn starts_with(text: &str, prefix: &str) -> (found: bool)
    ensures
        found == has_prefix(text@, prefix@),
{
    let chars = chars_of(text);
    let prefix_chars = chars_of(prefix);
    assert(chars@.skip(0) =~= chars@);
    matches_at(&chars, 0, &prefix_chars)
}

/// Returns true if `text` ends with `suffix`.
pub fn ends_with(text: &str, suffix: &str) -> (found: bool)
    ensures
        found == has_suffix(text@, suffix@),
{
    let chars = chars_of(text);
    let suffix_chars = chars_of(suffix);
    if suffix_chars.len() > chars.len() {
        return false;
    }
    let start = chars.len() - suffix_chars.len();
    let found = matches_at(&chars, start, &suffix_chars);
    proof {
        assert(chars@.skip(start as int).take(suffix@.len() as int) =~= chars@.skip(start as int));
    }
    found
}

/// Returns the text after `prefix`, if the text starts with it.
pub fn strip_prefix(text: &str, prefix: &str) -> (rest: Option<String>)
    ensures
        rest is Some <==> has_prefix(text@, prefix@),
        rest matches Some(rest) ==> rest@ == text@.skip(prefix@.len() as int),
{
    if !starts_with(text, prefix) {
        return None;
    }
    let chars = chars_of(text);
    let start = prefix.unicode_len();
    let mut rest = String::new();
    let mut index: usize = start;
    while index < chars.len()
        invariant
            start <= index <= chars@.len(),
            chars@ == text@,
            start == prefix@.len(),
            rest@ == text@.subrange(start as int, index as int),
        decreases chars@.len() - index,
    {
        push_char(&mut rest, chars[index]);
        index = index + 1;
        assert(rest@ =~= text@.subrange(start as int, index as int));
    }
    assert(rest@ =~= text@.skip(start as int));
    Some(rest)
}

/// `String::push`: appends the character to the end of the string.
#[verifier::external_body]
pub(crate) fn push_char(text: &mut String, c: char)
    ensures
        final(text)@ == old(text)@.push(c),
{
    text.push(c);
}

/// Replaces every occurrence of `from` in `text` with `to`, from left to right.
pub fn replace_all(text: &str, from: &str, to: &str) -> (result: String)
    ensures
        result@ == replaced(text@, from@, to@),
{
    let chars = chars_of(text);
    let from_chars = chars_of(from);
    let mut result = String::new();
    let mut index: usize = 0;
    proof {
        assert(text@.skip(0) =~= text@);
    }
    while index < chars.len()
        invariant
            index <= chars@.len(),
            chars@ == text@,
            from_chars@ == from@,
            result@ + replaced(text@.skip(index as int), from@, to@) == replaced(text@, from@, to@),
        decreases chars@.len() - index,
    {
        let ghost rest = text@.skip(index as int);
        if from_chars.len() > 0 && matches_at(&chars, index, &from_chars) {
            let ghost before = result@;
            result.append(to);
            proof {
                assert(rest.skip(from@.len() as int) =~= text@.skip(index + from@.len()));
                assert(before + (to@ + replaced(rest.skip(from@.len() as int), from@, to@))
                    =~= (before + to@) + replaced(rest.skip(from@.len() as int), from@, to@));
            }
            index = index + from_chars.len();
        } else {
            let ghost before = result@;
            push_char(&mut result, chars[index]);
            proof {
                assert(rest.skip(1) =~= text@.skip(index + 1));
                assert(rest[0] == chars@[index as int]);
                assert(before + (seq![rest[0]] + replaced(rest.skip(1), from@, to@))
                    =~= before.push(rest[0]) + replaced(rest.skip(1), from@, to@));
            }
            index = index + 1;
        }
    }
    proof {
        assert(text@.skip(index as int) =~= Seq::<char>::empty());
        assert(result@ + Seq::<char>::empty() =~= result@);
    }
    result
}

/// Returns the text without any occurrence of the character `c`.
pub fn remove_char(text: &str, c: char) -> (result: String)
    ensures
        result@ == without_char(text@, c),
{
    let chars = chars_of(text);
    let mut result = String::new();
    let mut index: usize = 0;
    while index < chars.len()
        invariant
            index <= chars@.len(),
            chars@ == text@,
            result@ == without_char(text@.take(index as int), c),
        decreases chars@.len() - index,
    {
        proof {
            assert(text@.take(index + 1) =~= text@.take(index as int).push(text@[index as int]));
            text@.take(index as int).lemma_filter_push(text@[index as int], other_than(c));
        }
        if chars[index] != c {
            push_char(&mut result, chars[index]);
        }
        index = index + 1;
    }
    proof {
        assert(text@.take(index as int) =~= text@);
    }
    result
}

} // verus!
