//! The boundary to the `regex` crate: the type declarations, the
//! names given to its results, and the trusted wrappers through which
//! every pattern is compiled and every search is made.  Everything
//! else in the crate is verified against the contracts written here.

use vstd::prelude::*;

verus! {

#[verifier::external_type_specification]
#[verifier::external_body]
pub struct ExRegex(regex::bytes::Regex);

#[verifier::external_type_specification]
#[verifier::external_body]
pub struct ExRegexError(regex::Error);

/// Whether a pattern string compiles: it is well-formed regex syntax
/// and its compiled form fits the compiler's size limit.  A function
/// of the pattern alone.
pub uninterp spec fn regex_ok(pat: Seq<char>) -> bool;

/// The result of a leftmost search of a pattern's compiled form in a
/// byte haystack: the span of the whole match and the text of every
/// capture group, or `None` when the pattern matches nowhere.  A
/// function of the pattern and the haystack alone.
pub uninterp spec fn regex_search(pat: Seq<char>, hay: Seq<u8>) -> Option<
    (int, int, Seq<Option<Seq<u8>>>),
>;

/// The characters that have significance in a regex pattern; the
/// `regex` crate documents this set as fixed.
pub open spec fn is_meta_char(c: char) -> bool {
    c == '\\' || c == '.' || c == '+' || c == '*' || c == '?' || c == '(' || c == ')' || c == '|'
        || c == '[' || c == ']' || c == '{' || c == '}' || c == '^' || c == '$' || c == '#'
        || c == '&' || c == '-' || c == '~'
}

/// The pattern that matches its argument literally: a backslash
/// before every metacharacter, every other character unchanged.
pub open spec fn escape_of(s: Seq<char>) -> Seq<char> {
    s.flat_map(
        |c: char|
            if is_meta_char(c) {
                seq!['\\', c]
            } else {
                seq![c]
            },
    )
}

/// A compiled search pattern, carrying the pattern text it was
/// compiled from.
#[derive(Debug)]
pub struct CompiledRegex {
    re: regex::bytes::Regex,
    pattern: String,
}

impl CompiledRegex {
    /// The pattern text this regex was compiled from.
    pub closed spec fn pat(&self) -> Seq<char> {
        self.pattern@
    }
}

/// One match: the span of the whole match within the haystack that
/// was searched, and the bytes of every capture group (`None` for a
/// group that did not participate in the match).
#[derive(Debug)]
pub struct MatchCaps {
    pub start: usize,
    pub end: usize,
    pub groups: Vec<Option<Vec<u8>>>,
}

/// The mathematical form of a match's capture groups.
pub open spec fn groups_view(groups: Seq<Option<Vec<u8>>>) -> Seq<Option<Seq<u8>>> {
    Seq::new(
        groups.len(),
        |i: int|
            match groups[i] {
                Some(v) => Some(v@),
                None => None,
            },
    )
}

/// Relies on `regex::bytes::Regex::new`: compiling a pattern returns a
/// regex exactly when the pattern is valid and within the size limit,
/// and the returned regex is the compiled form of that pattern.
#[verifier::external_body]
pub(crate) fn regex_new(pat: &str) -> (r: Result<CompiledRegex, regex::Error>)
    ensures
        r is Ok <==> regex_ok(pat@),
        r matches Ok(c) ==> c.pat() == pat@,
{
    match regex::bytes::Regex::new(pat) {
        Ok(re) => Ok(CompiledRegex { re, pattern: pat.to_string() }),
        Err(e) => Err(e),
    }
}

/// Relies on `regex::escape`: the returned string is the argument
/// with a backslash put before every metacharacter, so it can be
/// used as a literal pattern.
#[verifier::external_body]
pub(crate) fn regex_escape(s: &str) -> (r: String)
    ensures
        r@ == escape_of(s@),
{
    regex::escape(s)
}

/// Relies on `regex::bytes::Regex::captures`: the leftmost match and
/// its capture groups are a function of the pattern and the haystack
/// alone; the match span lies within the haystack; there is at least
/// group 0, which holds the whole matched span.
#[verifier::external_body]
pub(crate) fn regex_captures(re: &CompiledRegex, hay: &[u8]) -> (r: Option<MatchCaps>)
    ensures
        match r {
            Some(m) => {
                &&& regex_search(re.pat(), hay@) == Some(
                    (m.start as int, m.end as int, groups_view(m.groups@)),
                )
                &&& m.start <= m.end <= hay@.len()
                &&& m.groups@.len() >= 1
                &&& groups_view(m.groups@)[0] == Some(
                    hay@.subrange(m.start as int, m.end as int),
                )
            },
            None => regex_search(re.pat(), hay@) is None,
        },
{
    let caps = re.re.captures(hay)?;
    let m0 = caps.get(0).unwrap();
    let groups = caps.iter().map(|g| g.map(|m| m.as_bytes().to_vec())).collect();
    Some(MatchCaps { start: m0.start(), end: m0.end(), groups })
}

} // verus!
