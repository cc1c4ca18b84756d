use vstd::prelude::*;
use regex::Regex;
use crate::models::opt_view;

verus! {

#[verifier::external_type_specification]
#[verifier::external_body]
pub struct ExRegex(Regex);

/// Whether `Regex::new` accepts a pattern (valid, and within the default size limit).
pub uninterp spec fn regex_compiles(pattern: Seq<char>) -> bool;

/// The first capture group of the first match of `pattern` in `text` (the empty text
/// when that group took no part), or `None` when nothing matches.
pub uninterp spec fn first_group(pattern: Seq<char>, text: Seq<char>) -> Option<Seq<char>>;

/// The text with every regular-expression meta character escaped.
pub uninterp spec fn regex_escaped(s: Seq<char>) -> Seq<char>;

/// A compiled regular expression with the pattern it was compiled from.
pub struct CompiledRegex {
    re: Regex,
    pattern: String,
}

impl CompiledRegex {
    pub closed spec fn pattern_view(&self) -> Seq<char> {
        self.pattern@
    }
}

/// Compiles `pattern` with `Regex::new`. Claims the regex exists exactly when
/// `regex_compiles` holds of the pattern, and keeps the pattern with it.
#[verifier::external_body]
pub(crate) fn compile_regex(pattern: &str) -> (r: Option<CompiledRegex>)
    ensures
        r is Some == regex_compiles(pattern@),
        r is Some ==> r.unwrap().pattern_view() == pattern@,
{
    match Regex::new(pattern) {
        Ok(re) => Some(CompiledRegex { re, pattern: pattern.to_string() }),
        Err(_) => None,
    }
}

/// `Regex::captures` on `text`, then capture group 1 (`""` if it took no part). Claims
/// the result is `first_group` of the regex's pattern and the text.
#[verifier::external_body]
pub(crate) fn first_capture(r: &CompiledRegex, text: &str) -> (g: Option<String>)
    ensures
        opt_view(g) == first_group(r.pattern_view(), text@),
{
    match r.re.captures(text) {
        Some(c) => Some(c.get(1).map_or(String::new(), |m| m.as_str().to_string())),
        None => None,
    }
}

/// `regex::escape`. Claims the result is `regex_escaped` of the text.
#[verifier::external_body]
pub(crate) fn escape_regex(s: &str) -> (r: String)
    ensures
        r@ == regex_escaped(s@),
{
    regex::escape(s)
}

} // verus!
