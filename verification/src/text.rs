use vstd::prelude::*;
use vstd::std_specs::iter::IteratorSpec;

verus! {

/// `String::push` appends one character to the end of the string.
pub assume_specification[ String::push ](s: &mut String, ch: char)
    ensures
        final(s)@ == old(s)@.push(ch),
;

/// The characters of `s[begin..end]`, or nothing where that is no range of `s`.
pub open spec fn slice(s: Seq<char>, begin: int, end: int) -> Seq<char> {
    if 0 <= begin <= end <= s.len() {
        s.subrange(begin, end)
    } else {
        Seq::empty()
    }
}

/// Whether a block-level construct may start at `i`: at the first character
/// of the document or right after a newline.
pub open spec fn line_start(s: Seq<char>, i: int) -> bool {
    i == 0 || (0 < i <= s.len() && s[i - 1] == '\n')
}

/// The first index at or after `from` that holds `a` or `b`; the length of
/// `s` where there is none.
pub open spec fn first_of(s: Seq<char>, from: int, a: char, b: char) -> int
    decreases s.len() - from,
{
    if from < 0 || from >= s.len() {
        s.len() as int
    } else if s[from] == a || s[from] == b {
        from
    } else {
        first_of(s, from + 1, a, b)
    }
}

/// The first index at or after `from` that does not hold `a`; the length of
/// `s` where every character from there on is `a`.
pub open spec fn first_not(s: Seq<char>, from: int, a: char) -> int
    decreases s.len() - from,
{
    if from < 0 || from >= s.len() {
        s.len() as int
    } else if s[from] != a {
        from
    } else {
        first_not(s, from + 1, a)
    }
}

/// Whether `s` holds the characters of `lit` from index `at` on.
pub open spec fn has_at(s: Seq<char>, at: int, lit: Seq<char>) -> bool {
    0 <= at && at + lit.len() <= s.len() && s.subrange(at, at + lit.len()) == lit
}

/// `first_of` finds a match, and nothing before it matches.
pub proof fn lemma_first_of(s: Seq<char>, from: int, a: char, b: char)
    requires
        0 <= from <= s.len(),
    ensures
        from <= first_of(s, from, a, b) <= s.len(),
        first_of(s, from, a, b) < s.len() ==> s[first_of(s, from, a, b)] == a || s[first_of(
            s,
            from,
            a,
            b,
        )] == b,
        forall|j: int| from <= j < first_of(s, from, a, b) ==> s[j] != a && s[j] != b,
    decreases s.len() - from,
{
    if from < s.len() && !(s[from] == a || s[from] == b) {
        lemma_first_of(s, from + 1, a, b);
    }
}

/// `first_not` ends the run of `a` that starts at `from`.
pub proof fn lemma_first_not(s: Seq<char>, from: int, a: char)
    requires
        0 <= from <= s.len(),
    ensures
        from <= first_not(s, from, a) <= s.len(),
        first_not(s, from, a) < s.len() ==> s[first_not(s, from, a)] != a,
        forall|j: int| from <= j < first_not(s, from, a) ==> s[j] == a,
    decreases s.len() - from,
{
    if from < s.len() && s[from] == a {
        lemma_first_not(s, from + 1, a);
    }
}

/// The characters of a string, in order.
pub fn to_chars(s: &str) -> (chars: Vec<char>)
    ensures
        chars@ == s@,
{
    let mut chars: Vec<char> = Vec::new();
    let mut it = s.chars();
    loop
        invariant
            chars@ + it.remaining() == s@,
            it.obeys_prophetic_iter_laws(),
            it.decrease() is Some,
        ensures
            it.remaining().len() == 0,
        decreases it.decrease()->0,
    {
        broadcast use vstd::string::group_string_axioms;

        match it.next() {
            Some(c) => {
                chars.push(c);
            },
            None => {
                break ;
            },
        }
    }
    chars
}

/// Appends `text[begin..end]` to `out`; appends nothing where that is no
/// range of `text`.
pub fn push_slice(out: &mut String, text: &Vec<char>, begin: usize, end: usize)
    ensures
        final(out)@ == old(out)@ + slice(text@, begin as int, end as int),
{
    if begin <= end && end <= text.len() {
        let mut i: usize = begin;
        while i < end
            invariant
                begin <= i <= end <= text@.len(),
                out@ == old(out)@ + text@.subrange(begin as int, i as int),
            decreases end - i,
        {
            out.push(text[i]);
            i = i + 1;
            assert(text@.subrange(begin as int, i as int) == text@.subrange(
                begin as int,
                i as int - 1,
            ).push(text@[i as int - 1]));
        }
    } else {
        assert(old(out)@ + Seq::<char>::empty() == old(out)@);
    }
}

/// A run of `a` from `from` to `end`, where the document ends or another
/// character stands, is the run that `first_not` ends.
pub proof fn lemma_run_ends(s: Seq<char>, from: int, a: char, end: int)
    requires
        0 <= from <= end <= s.len(),
        forall|j: int| from <= j < end ==> s[j] == a,
        end == s.len() || s[end] != a,
    ensures
        first_not(s, from, a) == end,
    decreases end - from,
{
    if from < end {
        lemma_run_ends(s, from + 1, a, end);
    }
}

/// Where neither `a` nor `b` stands from `from` up to `at`, and one of them
/// stands at `at` or the document ends there, `first_of` finds `at`.
pub proof fn lemma_found_at(s: Seq<char>, from: int, a: char, b: char, at: int)
    requires
        0 <= from <= at <= s.len(),
        forall|j: int| from <= j < at ==> s[j] != a && s[j] != b,
        at == s.len() || s[at] == a || s[at] == b,
    ensures
        first_of(s, from, a, b) == at,
    decreases at - from,
{
    if from < at {
        lemma_found_at(s, from + 1, a, b, at);
    }
}

} // verus!
