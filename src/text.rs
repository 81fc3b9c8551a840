//! String helpers: the calls into std and outside crates that the logic needs,
//! each with the contract it is relied on for.

use vstd::prelude::*;

verus! {

/// What `str::to_lowercase` returns for the given characters.
pub uninterp spec fn lower_of(s: Seq<char>) -> Seq<char>;

/// What `str::trim` returns for the given characters.
pub uninterp spec fn trim_of(s: Seq<char>) -> Seq<char>;

/// The text of the first capture group of the leftmost match of `pattern`
/// in `text`, as `regex::Regex` finds it; `None` when nothing matches, the
/// group takes no part in the match, or the pattern does not compile.
pub uninterp spec fn regex_group_of(pattern: Seq<char>, text: Seq<char>) -> Option<Seq<char>>;

/// The texts of the successive non-overlapping matches of `pattern` in
/// `text`, as `regex::Regex` finds them; none when the pattern does not compile.
pub uninterp spec fn regex_matches_of(pattern: Seq<char>, text: Seq<char>) -> Seq<Seq<char>>;

/// The characters of an optional string, or none.
pub open spec fn or_empty(o: Option<Seq<char>>) -> Seq<char> {
    match o {
        Some(s) => s,
        None => seq![],
    }
}

/// The view of an optional string.
pub open spec fn opt_view(o: Option<String>) -> Option<Seq<char>> {
    match o {
        Some(s) => Some(s@),
        None => None,
    }
}

/// The score that a freshly made skim fuzzy matcher (default configuration)
/// gives `choice` for `pattern`, or `None` when the pattern does not match.
pub uninterp spec fn skim_score_of(choice: Seq<char>, pattern: Seq<char>) -> Option<i64>;

/// The smallest number of single-character insertions, deletions and
/// substitutions that turn `a` into `b`.
pub open spec fn levenshtein(a: Seq<char>, b: Seq<char>) -> nat
    decreases a.len() + b.len(),
{
    if a.len() == 0 {
        b.len()
    } else if b.len() == 0 {
        a.len()
    } else {
        let sub: nat = if a.last() == b.last() { 0 } else { 1 };
        let del = levenshtein(a.drop_last(), b) + 1;
        let ins = levenshtein(a, b.drop_last()) + 1;
        let rep = levenshtein(a.drop_last(), b.drop_last()) + sub;
        if rep <= del && rep <= ins {
            rep
        } else if del <= ins {
            del
        } else {
            ins
        }
    }
}

/// The characters `s[from..to]` as a string.
pub fn text_between(s: &Vec<char>, from: usize, to: usize) -> (r: String)
    requires
        from <= to <= s.len(),
    ensures
        r@ == s@.subrange(from as int, to as int),
{
    let mut v: Vec<char> = Vec::new();
    let mut i = from;
    while i < to
        invariant
            from <= i <= to <= s.len(),
            v@ == s@.subrange(from as int, i as int),
        decreases to - i,
    {
        v.push(s[i]);
        i += 1;
        assert(v@ =~= s@.subrange(from as int, i as int));
    }
    string_from(&v)
}

/// Relies on `str::chars`: the characters of `s`, in order.
#[verifier::external_body]
pub(crate) fn chars_of(s: &str) -> (r: Vec<char>)
    ensures
        r@ == s@,
{
    s.chars().collect()
}

/// Relies on `String: FromIterator<&char>`: a string of the given characters.
#[verifier::external_body]
pub(crate) fn string_from(v: &Vec<char>) -> (r: String)
    ensures
        r@ == v@,
{
    v.iter().collect()
}

/// Relies on `str::to_lowercase`: the result depends on the characters alone.
#[verifier::external_body]
pub(crate) fn lowercase(s: &str) -> (r: String)
    ensures
        r@ == lower_of(s@),
{
    s.to_lowercase()
}

/// Relies on `str::trim`: leading and trailing white space removed; the
/// result depends on the characters alone.
#[verifier::external_body]
pub(crate) fn trim(s: &str) -> (r: String)
    ensures
        r@ == trim_of(s@),
{
    s.trim().to_string()
}

/// Relies on `regex::Regex::new` and `Regex::captures`: for each text, the
/// first capture group of the leftmost match, which depends on the pattern
/// and the text alone. The pattern is compiled once for all texts.
#[verifier::external_body]
pub(crate) fn regex_groups(pattern: &str, texts: &Vec<String>) -> (r: Vec<Option<String>>)
    ensures
        r.len() == texts.len(),
        forall|i: int|
            0 <= i < r.len() ==> #[trigger] opt_view(r[i]) == regex_group_of(pattern@, texts[i]@),
{
    let re = regex::Regex::new(pattern).ok();
    texts
        .iter()
        .map(|t| match &re {
            Some(re) => re.captures(t).and_then(|c| c.get(1)).map(|m| m.as_str().to_string()),
            None => None,
        })
        .collect()
}

/// Relies on `regex::Regex::new` and `Regex::captures_iter`: the whole text
/// of each successive match, which depends on the pattern and the text alone.
#[verifier::external_body]
pub(crate) fn regex_matches(pattern: &str, text: &str) -> (r: Vec<String>)
    ensures
        r@.map_values(|s: String| s@) == regex_matches_of(pattern@, text@),
{
    match regex::Regex::new(pattern) {
        Ok(re) => re.captures_iter(text).map(|c| c[0].to_string()).collect(),
        Err(_) => Vec::new(),
    }
}

/// The string of an optional string, or an empty one.
pub fn unwrap_or_empty(o: Option<String>) -> (r: String)
    ensures
        r@ == or_empty(opt_view(o)),
{
    match o {
        Some(s) => s,
        None => {
            let e = String::new();
            assert(e@ =~= seq![]);
            e
        },
    }
}

/// Relies on `fuzzy_matcher::skim::SkimMatcherV2::fuzzy_match` with the
/// default configuration: for each choice, the score against `pattern` of a
/// matcher made afresh for that choice, which depends on the two strings
/// alone (a matcher reused across choices keeps scratch state between calls).
#[verifier::external_body]
pub(crate) fn skim_scores(choices: &Vec<String>, pattern: &str) -> (r: Vec<Option<i64>>)
    ensures
        r.len() == choices.len(),
        forall|i: int| 0 <= i < r.len() ==> #[trigger] r[i] == skim_score_of(choices[i]@, pattern@),
{
    choices
        .iter()
        .map(|c| {
            let matcher = fuzzy_matcher::skim::SkimMatcherV2::default();
            fuzzy_matcher::FuzzyMatcher::fuzzy_match(&matcher, c, pattern)
        })
        .collect()
}

/// Relies on `strsim::levenshtein`, documented as the minimum number of
/// insertions, deletions and substitutions between the two strings' chars.
#[verifier::external_body]
pub(crate) fn edit_distance(a: &str, b: &str) -> (r: usize)
    ensures
        r == levenshtein(a@, b@),
{
    strsim::levenshtein(a, b)
}

} // verus!
