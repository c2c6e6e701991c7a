//! Searching, splitting and trimming text, character by character.

use vstd::prelude::*;

verus! {

/// `needle` stands in `text` from position `at` on.
pub open spec fn occurs_at(text: Seq<char>, needle: Seq<char>, at: int) -> bool {
    &&& 0 <= at
    &&& at + needle.len() <= text.len()
    &&& text.subrange(at, at + needle.len()) == needle
}

/// `needle` stands somewhere in `text`.
pub open spec fn has_text(text: Seq<char>, needle: Seq<char>) -> bool {
    exists|at: int| occurs_at(text, needle, at)
}

/// `text` up to the first `stop`, or all of it where there is none.
pub open spec fn until(text: Seq<char>, stop: char) -> Seq<char>
    decreases text.len(),
{
    if text.len() == 0 || text[0] == stop {
        Seq::empty()
    } else {
        seq![text[0]] + until(text.drop_first(), stop)
    }
}

/// `text` without the copies of `lead` that it begins with.
pub open spec fn trimmed_start(text: Seq<char>, lead: char) -> Seq<char>
    decreases text.len(),
{
    if text.len() > 0 && text[0] == lead {
        trimmed_start(text.drop_first(), lead)
    } else {
        text
    }
}

/// `text` without the copies of `tail` that it ends with. An empty `tail` takes
/// nothing away.
pub open spec fn trimmed_end(text: Seq<char>, tail: Seq<char>) -> Seq<char>
    decreases text.len(),
{
    if tail.len() > 0 && occurs_at(text, tail, text.len() - tail.len()) {
        trimmed_end(text.take(text.len() - tail.len()), tail)
    } else {
        text
    }
}

/// What the text of an optional string is.
pub open spec fn text_of(value: Option<String>) -> Option<Seq<char>> {
    match value {
        Some(text) => Some(text@),
        None => None,
    }
}

/// `c` is a decimal digit of ASCII.
pub open spec fn is_digit(c: char) -> bool {
    '0' <= c <= '9'
}

/// A copy of an optional text.
pub fn copy_text(value: &Option<String>) -> (copy: Option<String>)
    ensures
        copy == *value,
{
    match value {
        Some(text) => Some(text.clone()),
        None => None,
    }
}

/// The characters of `text`.
pub fn char_vec(text: &str) -> (chars: Vec<char>)
    ensures
        chars@ == text@,
{
    let mut chars: Vec<char> = Vec::new();
    for c in it: text.chars()
        invariant
            it.seq() == text@,
            chars@ == text@.take(it.index() as int),
    {
        chars.push(c);
    }
    chars
}

/// Whether `needle` stands in `text` from position `at` on.
fn matches_at(text: &Vec<char>, needle: &Vec<char>, at: usize) -> (found: bool)
    requires
        at + needle@.len() <= text@.len(),
    ensures
        found == occurs_at(text@, needle@, at as int),
{
    let mut i: usize = 0;
    while i < needle.len()
        invariant
            i <= needle@.len(),
            at + needle@.len() <= text.len(),
            forall|k: int| 0 <= k < i ==> text@[at + k] == needle@[k],
        decreases needle@.len() - i,
    {
        if text[at + i] != needle[i] {
            assert(text@.subrange(at as int, at + needle@.len())[i as int] != needle@[i as int]);
            return false;
        }
        i = i + 1;
    }
    assert(text@.subrange(at as int, at + needle@.len()) =~= needle@);
    true
}

/// Whether `needle` stands somewhere in `text`.
pub fn contains_text(text: &str, needle: &str) -> (found: bool)
    ensures
        found == has_text(text@, needle@),
        found <==> exists|before: Seq<char>, behind: Seq<char>|
            text@ == #[trigger] (before + needle@ + behind),
{
    proof {
        found_text_stands_between(text@, needle@);
    }
    let text_chars = char_vec(text);
    let needle_chars = char_vec(needle);
    if needle_chars.len() > text_chars.len() {
        return false;
    }
    let last: usize = text_chars.len() - needle_chars.len();
    let mut at: usize = 0;
    while at <= last
        invariant
            text_chars@ == text@,
            needle_chars@ == needle@,
            last + needle_chars@.len() == text_chars@.len(),
            at <= last + 1,
            has_text(text@, needle@) <==> exists|before: Seq<char>, behind: Seq<char>|
                text@ == #[trigger] (before + needle@ + behind),
            forall|k: int| 0 <= k < at ==> !occurs_at(text@, needle@, k),
        decreases last + 1 - at,
    {
        if matches_at(&text_chars, &needle_chars, at) {
            return true;
        }
        if at == last {
            return false;
        }
        at = at + 1;
    }
    false
}

/// The part of `text` before the first `stop`, and the part behind it. There is no
/// answer where `stop` does not occur.
pub fn split_first<'a>(text: &'a str, stop: char) -> (parts: Option<(&'a str, &'a str)>)
    ensures
        parts is Some <==> text@.contains(stop),
        parts matches Some((before, behind)) ==> {
            &&& before@ == until(text@, stop)
            &&& behind@ == text@.skip((until(text@, stop).len() + 1) as int)
        },
        parts matches Some((before, behind)) ==> text@ == before@ + seq![stop] + behind@
            && !before@.contains(stop),
{
    let chars = char_vec(text);
    let mut at: usize = 0;
    while at < chars.len()
        invariant
            chars@ == text@,
            at <= chars@.len(),
            forall|k: int| 0 <= k < at ==> text@[k] != stop,
        decreases chars@.len() - at,
    {
        if chars[at] == stop {
            proof {
                lemma_until(text@, stop, at as int);
                assert(text@.contains(text@[at as int]));
                assert(text@.skip(at + 1) =~= text@.subrange(at + 1, text@.len() as int));
                assert(text@.take(at as int) =~= text@.subrange(0, at as int));
                assert(text@ =~= text@.take(at as int) + seq![stop] + text@.skip(at + 1));
            }
            return Some((text.substring_char(0, at), text.substring_char(at + 1, chars.len())));
        }
        at = at + 1;
    }
    None
}

/// `text` up to the first `stop`, or all of it where there is none.
pub fn take_until<'a>(text: &'a str, stop: char) -> (before: &'a str)
    ensures
        before@ == until(text@, stop),
        !before@.contains(stop),
        before@.len() <= text@.len() && before@ == text@.take(before@.len() as int),
        before@.len() < text@.len() ==> text@[before@.len() as int] == stop,
{
    proof {
        until_ends_at_the_first_stop(text@, stop);
    }
    match split_first(text, stop) {
        Some((before, _)) => before,
        None => {
            proof {
                lemma_until(text@, stop, text@.len() as int);
                assert(text@.take(text@.len() as int) =~= text@);
            }
            text
        },
    }
}

/// `text` without the copies of `lead` that it begins with.
pub fn trim_start<'a>(text: &'a str, lead: char) -> (rest: &'a str)
    ensures
        rest@ == trimmed_start(text@, lead),
{
    let chars = char_vec(text);
    let mut at: usize = 0;
    assert(text@.skip(0) =~= text@);
    while at < chars.len() && chars[at] == lead
        invariant
            chars@ == text@,
            at <= chars@.len(),
            trimmed_start(text@, lead) == trimmed_start(text@.skip(at as int), lead),
        decreases chars@.len() - at,
    {
        assert(text@.skip(at as int).drop_first() =~= text@.skip(at + 1));
        at = at + 1;
    }
    assert(text@.skip(at as int) =~= text@.subrange(at as int, text@.len() as int));
    text.substring_char(at, chars.len())
}

/// `text` without the copies of `tail` that it ends with.
pub fn trim_end<'a>(text: &'a str, tail: &str) -> (rest: &'a str)
    ensures
        rest@ == trimmed_end(text@, tail@),
{
    let chars = char_vec(text);
    let tail_chars = char_vec(tail);
    let mut end: usize = chars.len();
    assert(text@.take(end as int) =~= text@);
    while tail_chars.len() > 0 && end >= tail_chars.len()
        invariant
            chars@ == text@,
            tail_chars@ == tail@,
            end <= chars@.len(),
            trimmed_end(text@, tail@) == trimmed_end(text@.take(end as int), tail@),
        decreases end,
    {
        let at: usize = end - tail_chars.len();
        let found = matches_at(&chars, &tail_chars, at);
        proof {
            let part = text@.take(end as int);
            assert(part.subrange(at as int, end as int) =~= text@.subrange(at as int, end as int));
            assert(part.take(at as int) =~= text@.take(at as int));
        }
        if !found {
            assert(text@.take(end as int) =~= text@.subrange(0, end as int));
            return text.substring_char(0, end);
        }
        end = at;
    }
    assert(text@.take(end as int) =~= text@.subrange(0, end as int));
    text.substring_char(0, end)
}

/// Where no `stop` stands before `at`, and one stands there or `at` is the end, `until`
/// takes the text up to `at`.
pub proof fn lemma_until(text: Seq<char>, stop: char, at: int)
    requires
        0 <= at <= text.len(),
        forall|k: int| 0 <= k < at ==> text[k] != stop,
        at < text.len() ==> text[at] == stop,
    ensures
        until(text, stop) == text.take(at),
    decreases text.len(),
{
    if at == 0 {
        assert(text.take(0) =~= Seq::empty());
    } else {
        let rest = text.drop_first();
        assert forall|k: int| 0 <= k < at - 1 implies rest[k] != stop by {
            assert(rest[k] == text[k + 1]);
        }
        lemma_until(rest, stop, at - 1);
        assert(seq![text[0]] + rest.take(at - 1) =~= text.take(at));
    }
}

/// A text is found in another exactly if the other is made up of something, the text, and
/// something.
pub proof fn found_text_stands_between(text: Seq<char>, needle: Seq<char>)
    ensures
        has_text(text, needle) <==> exists|before: Seq<char>, behind: Seq<char>|
            text == #[trigger] (before + needle + behind),
{
    if has_text(text, needle) {
        let at = choose|at: int| occurs_at(text, needle, at);
        let before = text.take(at);
        let behind = text.skip(at + needle.len());
        assert forall|k: int| 0 <= k < needle.len() implies text[at + k] == needle[k] by {
            assert(text.subrange(at, at + needle.len())[k] == needle[k]);
        }
        assert(text =~= before + needle + behind);
    }
    if exists|before: Seq<char>, behind: Seq<char>| text == #[trigger] (before + needle + behind) {
        let (before, behind) = choose|before: Seq<char>, behind: Seq<char>|
            text == #[trigger] (before + needle + behind);
        let at = before.len() as int;
        assert(text.subrange(at, at + needle.len()) =~= needle);
        assert(occurs_at(text, needle, at));
    }
}

/// What stands before the first `stop` begins the text, holds no `stop`, and ends at one
/// or with the text.
pub proof fn until_ends_at_the_first_stop(text: Seq<char>, stop: char)
    ensures
        until(text, stop).len() <= text.len(),
        until(text, stop) == text.take(until(text, stop).len() as int),
        !until(text, stop).contains(stop),
        until(text, stop).len() < text.len() ==> text[until(text, stop).len() as int] == stop,
    decreases text.len(),
{
    let part = until(text, stop);
    if text.len() > 0 && text[0] != stop {
        let rest = text.drop_first();
        until_ends_at_the_first_stop(rest, stop);
        let tail = until(rest, stop);
        assert(part =~= text.take(part.len() as int));
        assert forall|k: int| 0 <= k < part.len() implies part[k] != stop by {
            if k > 0 {
                assert(part[k] == tail[k - 1]);
                assert(tail.contains(tail[k - 1]));
            }
        }
        if part.len() < text.len() {
            assert(text[part.len() as int] == rest[tail.len() as int]);
        }
    } else {
        assert(text.take(0) =~= part);
    }
}

/// Trimming at the start takes away copies of `lead` and nothing else, and leaves none.
pub proof fn start_is_trimmed(text: Seq<char>, lead: char)
    ensures
        trimmed_start(text, lead).len() <= text.len(),
        trimmed_start(text, lead) == text.skip(text.len() - trimmed_start(text, lead).len()),
        forall|k: int|
            0 <= k < text.len() - trimmed_start(text, lead).len() ==> #[trigger] text[k] == lead,
        trimmed_start(text, lead).len() > 0 ==> trimmed_start(text, lead)[0] != lead,
    decreases text.len(),
{
    let rest = trimmed_start(text, lead);
    if text.len() > 0 && text[0] == lead {
        let behind = text.drop_first();
        start_is_trimmed(behind, lead);
        let gone = text.len() - rest.len();
        assert(behind.skip(gone - 1) =~= text.skip(gone));
        assert forall|k: int| 0 <= k < gone implies #[trigger] text[k] == lead by {
            if k > 0 {
                assert(behind[k - 1] == lead);
            }
        }
    } else {
        assert(text.skip(0) =~= text);
    }
}

/// Trimming at the end takes away every copy of `tail` that stands there, and leaves a text
/// alone that does not end with one.
pub proof fn end_is_trimmed(text: Seq<char>, tail: Seq<char>)
    ensures
        trimmed_end(text + tail, tail) == trimmed_end(text, tail),
        tail.len() == 0 || text.len() < tail.len() || text.skip(text.len() - tail.len()) != tail
            ==> trimmed_end(text, tail) == text,
{
    let longer = text + tail;
    if tail.len() == 0 {
        assert(longer =~= text);
    } else {
        let at = longer.len() - tail.len();
        assert(longer.subrange(at, longer.len() as int) =~= tail);
        assert(longer.take(at) =~= text);
        if text.len() >= tail.len() {
            let end = text.len() - tail.len();
            assert(text.subrange(end, end + tail.len()) =~= text.skip(end));
        }
    }
}

/// An optional text is there exactly if it was given, and as it was given.
pub proof fn optional_text_is_as_given(value: Option<String>)
    ensures
        value matches Some(text) ==> text_of(value) == Some(text@),
        value is None ==> text_of(value) is None,
{
}

} // verus!
