//! Choosing the language of the interface from what the system says about
//! its locale.

use vstd::prelude::*;
use vstd::string::StrSliceExecFns;

verus! {

/// Whether `pattern` stands in `text` at `at`.
pub open spec fn occurs_at(text: Seq<char>, pattern: Seq<char>, at: int) -> bool {
    0 <= at && at + pattern.len() <= text.len() && text.subrange(at, at + pattern.len())
        == pattern
}

/// Whether `pattern` stands somewhere in `text`.
pub open spec fn occurs_in(text: Seq<char>, pattern: Seq<char>) -> bool {
    exists|at: int| occurs_at(text, pattern, at)
}

/// The language that goes with a locale in which the language may stand
/// anywhere: Brazilian Portuguese for any Portuguese, Spanish, and English
/// for everything else.
pub open spec fn language_named_in(locale: Seq<char>) -> Seq<char> {
    if occurs_in(locale, "pt"@) {
        "pt-BR"@
    } else if occurs_in(locale, "es"@) {
        "es"@
    } else {
        "en"@
    }
}

/// The language that goes with a locale that begins with its language.
pub open spec fn language_leading(locale: Seq<char>) -> Seq<char> {
    if occurs_at(locale, "pt"@, 0) {
        "pt-BR"@
    } else if occurs_at(locale, "es"@, 0) {
        "es"@
    } else {
        "en"@
    }
}

fn matches_at(text: &str, text_len: usize, pattern: &str, pattern_len: usize, at: usize) -> (found:
    bool)
    requires
        text_len == text@.len(),
        pattern_len == pattern@.len(),
        at + pattern_len <= text_len,
    ensures
        found == occurs_at(text@, pattern@, at as int),
{
    let mut i: usize = 0;
    while i < pattern_len
        invariant
            i <= pattern_len,
            text_len == text@.len(),
            pattern_len == pattern@.len(),
            at + pattern_len <= text_len,
            forall|j: int| 0 <= j < i ==> text@[at + j] == pattern@[j],
        decreases pattern_len - i,
    {
        if text.get_char(at + i) != pattern.get_char(i) {
            assert(text@.subrange(at as int, at + pattern_len)[i as int] != pattern@[i as int]);
            return false;
        }
        i += 1;
    }
    assert(text@.subrange(at as int, at + pattern_len) =~= pattern@);
    true
}

/// Whether `text` begins with `pattern`.
pub fn starts_with(text: &str, pattern: &str) -> (found: bool)
    ensures
        found == occurs_at(text@, pattern@, 0),
{
    let text_len = text.unicode_len();
    let pattern_len = pattern.unicode_len();
    if pattern_len > text_len {
        false
    } else {
        matches_at(text, text_len, pattern, pattern_len, 0)
    }
}

/// Whether `pattern` stands somewhere in `text`.
pub fn contains(text: &str, pattern: &str) -> (found: bool)
    ensures
        found == occurs_in(text@, pattern@),
{
    let text_len = text.unicode_len();
    let pattern_len = pattern.unicode_len();
    if pattern_len > text_len {
        assert forall|at: int| !occurs_at(text@, pattern@, at) by {}
        return false;
    }
    let last = text_len - pattern_len;
    let mut at: usize = 0;
    while at < last
        invariant
            at <= last,
            last == text_len - pattern_len,
            text_len == text@.len(),
            pattern_len == pattern@.len(),
            forall|before: int| 0 <= before < at ==> !occurs_at(text@, pattern@, before),
        decreases last - at,
    {
        if matches_at(text, text_len, pattern, pattern_len, at) {
            return true;
        }
        at += 1;
    }
    if matches_at(text, text_len, pattern, pattern_len, last) {
        return true;
    }
    assert forall|at: int| !occurs_at(text@, pattern@, at) by {}
    false
}

/// The language for a locale such as `pt_BR.UTF-8`, in which the language
/// may stand anywhere.
pub fn language_for_locale(locale: &str) -> (language: &'static str)
    ensures
        language@ == language_named_in(locale@),
{
    if contains(locale, "pt") {
        "pt-BR"
    } else if contains(locale, "es") {
        "es"
    } else {
        "en"
    }
}

/// The language for a culture name such as `es-MX`, which begins with its
/// language.
pub fn language_for_culture(culture: &str) -> (language: &'static str)
    ensures
        language@ == language_leading(culture@),
{
    if starts_with(culture, "pt") {
        "pt-BR"
    } else if starts_with(culture, "es") {
        "es"
    } else {
        "en"
    }
}

} // verus!
