//! Compiled regular expressions and the ordered sets the matcher tries them in.
use vstd::prelude::*;
use vstd::string::StringSliceAdditionalSpecFns;
use crate::error::{CompmodeError, ErrorView};

verus! {

#[verifier::external_type_specification]
#[verifier::external_body]
pub struct ExRegex(regex::Regex);

#[verifier::external_type_specification]
#[verifier::external_body]
pub struct ExRegexError(regex::Error);

/// Whether the regex crate accepts `source` as a pattern (syntax and default size limit).
pub uninterp spec fn regex_accepts(source: Seq<char>) -> bool;

/// Byte span of the leftmost-first match of the pattern `source` in `haystack`.
pub uninterp spec fn regex_find(source: Seq<char>, haystack: Seq<char>) -> Option<(usize, usize)>;

/// Text of the group called `name` in the first match of `source` in `haystack`;
/// `None` where nothing matches or the group took no part in the match.
pub uninterp spec fn regex_group(source: Seq<char>, haystack: Seq<char>, name: Seq<char>) -> Option<
    Seq<char>,
>;

/// Relies on `regex::Regex::new`: whether the pattern compiles depends on its text alone.
#[verifier::external_body]
fn compile(source: &str) -> (r: Result<regex::Regex, regex::Error>)
    ensures
        r is Ok <==> regex_accepts(source@),
{
    regex::Regex::new(source)
}

/// A compiled regular expression together with the text it was compiled from.
///
/// Both fields are private and `Pattern::new` is the only constructor, so `regex`
/// is always the compilation of `source`.
pub struct Pattern {
    source: String,
    regex: regex::Regex,
}

impl View for Pattern {
    type V = Seq<char>;

    closed spec fn view(&self) -> Seq<char> {
        self.source@
    }
}

/// Relies on `regex::Regex::find`: the leftmost-first match, reported as byte offsets
/// into the haystack with `start <= end <= haystack.len()`.
#[verifier::external_body]
fn find_in(pattern: &Pattern, haystack: &str) -> (r: Option<(usize, usize)>)
    ensures
        r == regex_find(pattern@, haystack@),
        r matches Some(m) ==> m.0 <= m.1 <= haystack.spec_bytes().len(),
{
    pattern.regex.find(haystack).map(|m| (m.start(), m.end()))
}

/// Relies on `regex::Regex::captures` and `regex::Captures::name`: the text of a named
/// group in the first match, `None` where there is no match or the group did not take part.
#[verifier::external_body]
fn group_in(pattern: &Pattern, haystack: &str, name: &str) -> (r: Option<String>)
    ensures
        match r {
            Some(t) => regex_group(pattern@, haystack@, name@) == Some(t@),
            None => regex_group(pattern@, haystack@, name@) is None,
        },
{
    pattern.regex.captures(haystack).and_then(|c| c.name(name)).map(|m| m.as_str().to_string())
}

impl Pattern {
    /// Compiles `source`; `None` where the regex crate refuses it.
    pub fn new(source: &str) -> (r: Option<Pattern>)
        ensures
            r is Some <==> regex_accepts(source@),
            r matches Some(p) ==> p@ == source@,
    {
        match compile(source) {
            Ok(regex) => Some(Pattern { source: String::from_str(source), regex }),
            Err(_) => None,
        }
    }

    /// The text the pattern was compiled from.
    pub fn source(&self) -> (r: &str)
        ensures
            r@ == self@,
    {
        self.source.as_str()
    }

    /// Byte span of the first match in `haystack`.
    pub fn find(&self, haystack: &str) -> (r: Option<(usize, usize)>)
        ensures
            r == regex_find(self@, haystack@),
            r matches Some(m) ==> m.0 <= m.1 <= haystack.spec_bytes().len(),
    {
        find_in(self, haystack)
    }

    /// Text of the named group in the first match in `haystack`.
    pub fn group(&self, haystack: &str, name: &str) -> (r: Option<String>)
        ensures
            match r {
                Some(t) => regex_group(self@, haystack@, name@) == Some(t@),
                None => regex_group(self@, haystack@, name@) is None,
            },
    {
        group_in(self, haystack, name)
    }
}

/// The ordered list of patterns a matcher tries, first to last.
pub struct PatternSet {
    patterns: Vec<Pattern>,
}

impl View for PatternSet {
    type V = Seq<Seq<char>>;

    closed spec fn view(&self) -> Seq<Seq<char>> {
        self.patterns@.map_values(|p: Pattern| p@)
    }
}

/// Where the first pattern (in set order) that matches `input` matches it:
/// the pattern's index and the byte span of its match.
pub open spec fn first_hit_from(pats: Seq<Seq<char>>, input: Seq<char>, k: int) -> Option<
    (int, usize, usize),
>
    decreases pats.len() - k,
{
    if k < 0 || k >= pats.len() {
        None
    } else {
        match regex_find(pats[k], input) {
            Some(m) => Some((k, m.0, m.1)),
            None => first_hit_from(pats, input, k + 1),
        }
    }
}

pub open spec fn first_hit(pats: Seq<Seq<char>>, input: Seq<char>) -> Option<(int, usize, usize)> {
    first_hit_from(pats, input, 0)
}

/// The pattern sources all compile.
pub open spec fn all_accepted(sources: Seq<Seq<char>>) -> bool {
    forall|i: int| 0 <= i < sources.len() ==> regex_accepts(#[trigger] sources[i])
}

/// `sources[i]` is the first source that does not compile.
pub open spec fn first_rejected(sources: Seq<Seq<char>>, i: int) -> bool {
    &&& 0 <= i < sources.len()
    &&& !regex_accepts(sources[i])
    &&& forall|j: int| 0 <= j < i ==> regex_accepts(#[trigger] sources[j])
}

pub open spec fn pattern_view(p: Pattern) -> Seq<char> {
    p@
}

/// The first match found by a pattern set.
pub struct Hit {
    /// Index of the matching pattern within the set.
    pub pattern: usize,
    pub start: usize,
    pub end: usize,
}

impl PatternSet {
    /// Compiles every source, in order; the first source that does not compile is
    /// reported with its text.
    pub fn compile(sources: &Vec<&str>) -> (r: Result<PatternSet, CompmodeError>)
        ensures
            r is Ok <==> all_accepted(sources@.map_values(|s: &str| s@)),
            r matches Ok(set) ==> set@ == sources@.map_values(|s: &str| s@),
            r matches Err(e) ==> exists|i: int|
                first_rejected(sources@.map_values(|s: &str| s@), i) && e@ == (
                ErrorView::PatternCompilation { pattern: sources@[i]@ }),
    {
        let mut patterns: Vec<Pattern> = Vec::new();
        let mut i: usize = 0;
        while i < sources.len()
            invariant
                i <= sources@.len(),
                patterns@.len() == i,
                forall|j: int| 0 <= j < i ==> regex_accepts(#[trigger] sources@[j]@),
                forall|j: int| 0 <= j < i ==> pattern_view(#[trigger] patterns@[j]) == sources@[j]@,
            decreases sources@.len() - i,
        {
            match Pattern::new(sources[i]) {
                Some(p) => patterns.push(p),
                None => {
                    proof {
                        let srcs = sources@.map_values(|s: &str| s@);
                        assert(first_rejected(srcs, i as int));
                    }
                    return Err(
                        CompmodeError::PatternCompilation { pattern: String::from_str(sources[i]) },
                    );
                },
            }
            i = i + 1;
        }
        let set = PatternSet { patterns };
        assert(set@ =~= sources@.map_values(|s: &str| s@));
        Ok(set)
    }

    /// A set with no patterns; it never matches.
    pub fn empty() -> (r: PatternSet)
        ensures
            r@ == Seq::<Seq<char>>::empty(),
    {
        let r = PatternSet { patterns: Vec::new() };
        assert(r@ =~= Seq::<Seq<char>>::empty());
        r
    }

    pub fn len(&self) -> (r: usize)
        ensures
            r == self@.len(),
    {
        self.patterns.len()
    }

    pub fn get(&self, i: usize) -> (r: &Pattern)
        requires
            i < self@.len(),
        ensures
            r@ == self@[i as int],
    {
        &self.patterns[i]
    }
}

/// Tries the patterns in order and reports where the first one that matches `input`
/// matches it.
pub fn capture_first(patterns: &PatternSet, input: &str) -> (r: Option<Hit>)
    ensures
        match r {
            Some(h) => first_hit(patterns@, input@) == Some((h.pattern as int, h.start, h.end)),
            None => first_hit(patterns@, input@) is None,
        },
        r matches Some(h) ==> h.pattern < patterns@.len() && h.start <= h.end
            <= input.spec_bytes().len(),
{
    let n = patterns.len();
    let mut k: usize = 0;
    while k < n
        invariant
            k <= n,
            n == patterns@.len(),
            first_hit(patterns@, input@) == first_hit_from(patterns@, input@, k as int),
        decreases n - k,
    {
        match patterns.get(k).find(input) {
            Some(m) => {
                return Some(Hit { pattern: k, start: m.0, end: m.1 });
            },
            None => {},
        }
        k = k + 1;
    }
    None
}

} // verus!
