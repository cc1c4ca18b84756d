use vstd::prelude::*;
use crate::patterns::{regex_compiles, regex_escaped};
use crate::strmap::StrMap;
use crate::xml::{
    attr_of, fold_events, lemma_fold_events_next, tokenize, views, xml_events, ElementView,
    EventView, XmlElement, XmlEvent, XmlParseError, unescape_text, xml_unescaped,
};
use crate::text::{
    chars_of, is_ws, occurs_at, replace_all, replace_chars, split, split_chars, string_of, trim,
    trim_chars,
};

verus! {

/// Localization pages: page id to (entry id to text).
pub type Localization = StrMap<StrMap<String>>;

// ---------------------------------------------------------------------------
// Localization references `{page,entry}`.
// ---------------------------------------------------------------------------

/// Index of the first `}` in `s`, or `s.len()` when there is none.
pub open spec fn first_close(s: Seq<char>) -> nat
    decreases s.len(),
{
    if s.len() == 0 {
        0
    } else if s[0] == '}' {
        0
    } else {
        1 + first_close(s.drop_first())
    }
}

/// The matches of the regex `\{([^}]+)\}`, leftmost first and not overlapping: each
/// is the whole match (`{...}`) with its inner text.
pub open spec fn brace_refs(s: Seq<char>) -> Seq<(Seq<char>, Seq<char>)>
    decreases s.len(),
{
    if s.len() == 0 {
        Seq::empty()
    } else {
        let j: int = 1 + first_close(s.drop_first()) as int;
        if s[0] == '{' && 2 <= j < s.len() {
            seq![(s.take(j + 1), s.subrange(1, j))] + brace_refs(s.skip(j + 1))
        } else {
            brace_refs(s.drop_first())
        }
    }
}

proof fn lemma_first_close(s: Seq<char>)
    ensures
        first_close(s) <= s.len(),
        first_close(s) < s.len() ==> s[first_close(s) as int] == '}',
    decreases s.len(),
{
    if s.len() > 0 && s[0] != '}' {
        lemma_first_close(s.drop_first());
    }
}

proof fn lemma_brace_refs_long(s: Seq<char>)
    ensures
        forall|i: int| 0 <= i < brace_refs(s).len() ==> (#[trigger] brace_refs(s)[i]).0.len() >= 3,
    decreases s.len(),
{
    if s.len() > 0 {
        lemma_first_close(s.drop_first());
        let j: int = 1 + first_close(s.drop_first()) as int;
        if s[0] == '{' && 2 <= j < s.len() {
            lemma_brace_refs_long(s.skip(j + 1));
            let r = brace_refs(s.skip(j + 1));
            assert forall|i: int| 0 <= i < brace_refs(s).len() implies (#[trigger] brace_refs(s)[i]).0.len() >= 3 by {
                if i > 0 {
                    assert(brace_refs(s)[i] == r[i - 1]);
                } else {
                    assert(brace_refs(s)[0].0 == s.take(j + 1));
                }
            }
        } else {
            lemma_brace_refs_long(s.drop_first());
            assert(brace_refs(s) == brace_refs(s.drop_first()));
        }
    }
}

// ---------------------------------------------------------------------------
// The regular expressions of name resolution and cleaning.
// ---------------------------------------------------------------------------

/// A `{...}` reference, its inner text captured.
pub open spec fn brace_pattern() -> Seq<char> {
    "\\{([^}]+)\\}"@
}

/// A parenthesized voice hint, `(speak ...)` or `(voice: ...)` in any letter case.
pub open spec fn voice_hint_pattern() -> Seq<char> {
    "\\((?i:speak[^)]*|voice:[^)]*)\\)"@
}

/// The leading text before any parenthesis, leading whitespace skipped.
pub open spec fn leading_pattern() -> Seq<char> {
    "^\\s*([^()]+)"@
}

/// The parts of the pattern of a parenthesized copy around the escaped base text.
pub open spec fn paren_open() -> Seq<char> {
    "\\(\\s*"@
}

pub open spec fn paren_close() -> Seq<char> {
    "\\s*\\)"@
}

/// A run of two or more whitespace characters.
pub open spec fn whitespace_run_pattern() -> Seq<char> {
    "\\s{2,}"@
}

/// Finds the `{...}` references of `s` with the regex `pattern`, which is `brace_pattern`
/// (`Regex::new`, then `Regex::captures_iter`). Claims the whole matches and their first groups, in order,
/// are those that `brace_refs` states.
#[verifier::external_body]
fn brace_references(s: &str, pattern: &str) -> (refs: Vec<(String, String)>)
    requires
        pattern@ == brace_pattern(),
    ensures
        refs@.map_values(|p: (String, String)| (p.0@, p.1@)) == brace_refs(s@),
{
    let re = regex::Regex::new(pattern).unwrap();
    re.captures_iter(s).map(|c| (c[0].to_string(), c[1].to_string())).collect()
}

/// Depth to which references inside looked-up texts are followed.
pub const RESOLVE_DEPTH: u64 = 0xffff_ffff;

/// `identity` with every reference `{page,entry}` replaced, in the order the references
/// occur, by the (recursively resolved) localized text, or by its trimmed inner text when
/// it does not name an entry.
pub open spec fn resolve(identity: Seq<char>, loc: Map<Seq<char>, Map<Seq<char>, Seq<char>>>, depth: nat) -> Seq<char>
    decreases depth, brace_refs(identity).len() + 1,
{
    resolve_refs(identity, brace_refs(identity), loc, depth)
}

/// The text that replaces a reference with inner text `inner`.
pub open spec fn reference_text(inner: Seq<char>, loc: Map<Seq<char>, Map<Seq<char>, Seq<char>>>, depth: nat) -> Option<Seq<char>> {
    let parts = split(inner, ',');
    if parts.len() == 2 && depth > 0 {
        let page = trim(parts[0]);
        let entry = trim(parts[1]);
        if loc.contains_key(page) && loc[page].contains_key(entry) {
            Some(loc[page][entry])
        } else {
            None
        }
    } else {
        None
    }
}

pub open spec fn resolve_refs(
    acc: Seq<char>,
    refs: Seq<(Seq<char>, Seq<char>)>,
    loc: Map<Seq<char>, Map<Seq<char>, Seq<char>>>,
    depth: nat,
) -> Seq<char>
    decreases depth, refs.len(),
{
    if refs.len() == 0 {
        acc
    } else {
        let seg = refs[0].0;
        let inner = refs[0].1;
        let rep = match reference_text(inner, loc, depth) {
            Some(text) => resolve(text, loc, (depth - 1) as nat),
            None => trim(inner),
        };
        resolve_refs(replace_all(acc, seg, rep), refs.drop_first(), loc, depth)
    }
}

/// The localized name of `identity`, references followed to `RESOLVE_DEPTH` levels.
pub open spec fn resolved_name(identity: Seq<char>, loc: Map<Seq<char>, Map<Seq<char>, Seq<char>>>) -> Seq<char> {
    resolve(identity, loc, RESOLVE_DEPTH as nat)
}

/// A name without `{...}` references resolves to itself.
pub proof fn law_resolve_plain(identity: Seq<char>, loc: Map<Seq<char>, Map<Seq<char>, Seq<char>>>)
    requires
        brace_refs(identity).len() == 0,
    ensures
        resolved_name(identity, loc) == identity,
{
}

fn resolve_to_depth(identity: &str, localization: &Localization, depth: u64) -> (r: Vec<char>)
    ensures
        r@ == resolve(identity@, localization@, depth as nat),
    decreases depth,
{
    let refs = brace_references(identity, "\\{([^}]+)\\}");
    let ghost rs = refs@.map_values(|p: (String, String)| (p.0@, p.1@));
    proof {
        lemma_brace_refs_long(identity@);
    }
    let mut result = chars_of(identity);
    let mut i: usize = 0;
    proof {
        assert(rs.skip(0) =~= rs);
        assert(resolve(identity@, localization@, depth as nat) == resolve_refs(identity@, rs, localization@, depth as nat));
    }
    while i < refs.len()
        invariant
            i <= refs@.len(),
            rs == refs@.map_values(|p: (String, String)| (p.0@, p.1@)),
            rs == brace_refs(identity@),
            forall|j: int| 0 <= j < rs.len() ==> (#[trigger] rs[j]).0.len() >= 3,
            resolve(identity@, localization@, depth as nat) == resolve_refs(
                result@,
                rs.skip(i as int),
                localization@,
                depth as nat,
            ),
        decreases refs.len() - i,
    {
        proof {
            if i == 0 {
                assert(rs.skip(0) =~= rs);
            }
            assert(rs.skip(i as int).drop_first() =~= rs.skip(i + 1));
            assert(rs.skip(i as int)[0] == rs[i as int]);
        }
        let seg = chars_of(refs[i].0.as_str());
        let inner = chars_of(refs[i].1.as_str());
        let parts = split_chars(inner.as_slice(), ',');
        let ghost ps = parts@.map_values(|p: Vec<char>| p@);
        let mut found: Option<Vec<char>> = None;
        if parts.len() == 2 && depth > 0 {
            let page_id = trim_chars(parts[0].as_slice());
            let entry_id = trim_chars(parts[1].as_slice());
            match localization.get_chars(page_id.as_slice()) {
                Some(page) => match page.get_chars(entry_id.as_slice()) {
                    Some(text) => {
                        let sub = resolve_to_depth(text.as_str(), localization, depth - 1);
                        found = Some(sub);
                    },
                    None => {},
                },
                None => {},
            }
        }
        let rep = match found {
            Some(sub) => sub,
            None => trim_chars(inner.as_slice()),
        };
        proof {
            let t = reference_text(inner@, localization@, depth as nat);
            assert(rep@ == match t {
                Some(text) => resolve(text, localization@, (depth - 1) as nat),
                None => trim(inner@),
            });
        }
        result = replace_chars(result.as_slice(), seg.as_slice(), rep.as_slice());
        i += 1;
    }
    result
}

/// Resolves localized names like `{20104,1001}` with the localization map, following
/// references inside the texts found.
pub fn resolve_name(identity: &str, localization: &Localization) -> (r: String)
    ensures
        r@ == resolved_name(identity@, localization@),
{
    let v = resolve_to_depth(identity, localization, RESOLVE_DEPTH);
    string_of(v.as_slice())
}

// ---------------------------------------------------------------------------
// Cleaning resolved names.
// ---------------------------------------------------------------------------

/// Number of whitespace characters at the start of `s`.
pub open spec fn ws_run(s: Seq<char>) -> nat
    decreases s.len(),
{
    if s.len() > 0 && is_ws(s[0]) {
        1 + ws_run(s.drop_first())
    } else {
        0
    }
}

/// Number of characters at the start of `s` that are neither `(` nor `)`.
pub open spec fn non_paren_run(s: Seq<char>) -> nat
    decreases s.len(),
{
    if s.len() > 0 && s[0] != '(' && s[0] != ')' {
        1 + non_paren_run(s.drop_first())
    } else {
        0
    }
}

/// The first group of the regex `^\s*([^()]+)` on `s`, if it matches.
pub open spec fn leading_group(s: Seq<char>) -> Option<Seq<char>> {
    let k = ws_run(s) as int;
    let r = non_paren_run(s.skip(k)) as int;
    if r > 0 {
        Some(s.subrange(k, k + r))
    } else if k > 0 {
        Some(s.subrange(k - 1, k))
    } else {
        None
    }
}

/// Length of a match of `\(\s*BASE\s*\)` at the start of `s`, if there is one.
pub open spec fn paren_copy_len(s: Seq<char>, base: Seq<char>) -> Option<nat> {
    if s.len() > 0 && s[0] == '(' {
        let a = 1 + ws_run(s.drop_first()) as int;
        if occurs_at(s, base, a) {
            let b = a + base.len();
            let c = b + ws_run(s.skip(b)) as int;
            if c < s.len() && s[c] == ')' {
                Some((c + 1) as nat)
            } else {
                None
            }
        } else {
            None
        }
    } else {
        None
    }
}

/// `s` with every match of `\(\s*BASE\s*\)` removed, leftmost first, not overlapping.
pub open spec fn paren_removed(s: Seq<char>, base: Seq<char>) -> Seq<char>
    decreases s.len(),
{
    if s.len() == 0 {
        s
    } else {
        match paren_copy_len(s, base) {
            Some(n) => if 0 < n <= s.len() {
                paren_removed(s.skip(n as int), base)
            } else {
                s
            },
            None => seq![s[0]] + paren_removed(s.drop_first(), base),
        }
    }
}

/// `s` with every run of two or more whitespace characters replaced by one space
/// (the regex `\s{2,}`).
pub open spec fn collapse_ws(s: Seq<char>) -> Seq<char>
    decreases s.len(),
{
    if s.len() == 0 {
        s
    } else {
        let k = ws_run(s);
        if k >= 2 && k <= s.len() {
            seq![' '] + collapse_ws(s.skip(k as int))
        } else {
            seq![s[0]] + collapse_ws(s.drop_first())
        }
    }
}

/// Whether `c` matches the lower-case letter or sign `k` when letter case is ignored
/// as the regex's `(?i)` ignores it (Unicode simple case folding): `k` itself, its ASCII
/// upper case, and for `s` the long s `ſ`, for `k` the Kelvin sign.
pub open spec fn folds_to(c: char, k: char) -> bool {
    ||| c == k
    ||| ('a' <= k <= 'z' && c as int == k as int - 32)
    ||| (k == 's' && c == '\u{17F}')
    ||| (k == 'k' && c == '\u{212A}')
}

/// `s` starts with `word` when letter case is ignored.
pub open spec fn starts_folded(s: Seq<char>, word: Seq<char>) -> bool {
    word.len() <= s.len() && forall|i: int| 0 <= i < word.len() ==> folds_to(#[trigger] s[i], word[i])
}

/// The position of the first `)` of `s` at or after `from`.
pub open spec fn close_from(s: Seq<char>, from: int) -> Option<int>
    decreases s.len() - from,
{
    if from < 0 || from >= s.len() {
        None
    } else if s[from] == ')' {
        Some(from)
    } else {
        close_from(s, from + 1)
    }
}

/// The length of a voice hint at the start of `s`: `(`, then `speak` or `voice:` with
/// letter case ignored, then everything up to and including the next `)`.
pub open spec fn hint_len(s: Seq<char>) -> Option<int> {
    if s.len() > 0 && s[0] == '(' && (starts_folded(s.drop_first(), seq!['s', 'p', 'e', 'a', 'k'])
        || starts_folded(s.drop_first(), seq!['v', 'o', 'i', 'c', 'e', ':'])) {
        match close_from(s, 1) {
            Some(j) => Some(j + 1),
            None => None,
        }
    } else {
        None
    }
}

/// `s` with the parenthesized hints `(speak ...)` and `(voice: ...)`, in any letter case,
/// removed, leftmost first and not overlapping: what the regex
/// `\((?i:speak[^)]*|voice:[^)]*)\)` replaced by nothing gives.
pub open spec fn voice_hints_removed(s: Seq<char>) -> Seq<char>
    decreases s.len(),
{
    if s.len() == 0 {
        s
    } else {
        match hint_len(s) {
            Some(n) => if 0 < n <= s.len() {
                voice_hints_removed(s.skip(n))
            } else {
                s
            },
            None => seq![s[0]] + voice_hints_removed(s.drop_first()),
        }
    }
}

/// Removes voice hints with the regex `pattern`, which is `voice_hint_pattern`
/// (`Regex::new`, then `Regex::replace_all` with an empty replacement). Claims the result is
/// `voice_hints_removed` of the argument.
#[verifier::external_body]
fn strip_voice_hints(s: &str, pattern: &str) -> (r: String)
    requires
        pattern@ == voice_hint_pattern(),
    ensures
        r@ == voice_hints_removed(s@),
{
    let re = regex::Regex::new(pattern).unwrap();
    re.replace_all(s, "").to_string()
}

/// First group of the regex `pattern`, which is `leading_pattern` (`Regex::new`, then
/// `Regex::captures`). Claims it is the group
/// that `leading_group` states: `\s` is Unicode whitespace, and the greedy `\s*` gives
/// back one character only when nothing else can follow.
#[verifier::external_body]
fn leading_text(s: &str, pattern: &str) -> (r: Option<String>)
    requires
        pattern@ == leading_pattern(),
    ensures
        match r {
            Some(g) => leading_group(s@) == Some(g@),
            None => leading_group(s@).is_none(),
        },
{
    let re = regex::Regex::new(pattern).unwrap();
    re.captures(s).and_then(|c| c.get(1)).map(|m| m.as_str().to_string())
}

/// The pattern of parenthesized copies of `base`, spaces allowed inside the
/// parentheses: `\(\s*BASE\s*\)` with BASE the escaped text of `base`.
pub open spec fn paren_pattern(base: Seq<char>) -> Seq<char> {
    paren_open() + regex_escaped(base) + paren_close()
}

/// `s` with the parenthesized copies of `base` removed where their pattern compiles,
/// else `s` as it is.
pub open spec fn paren_step(s: Seq<char>, base: Seq<char>) -> Seq<char> {
    if regex_compiles(paren_pattern(base)) {
        paren_removed(s, base)
    } else {
        s
    }
}

/// Removes `(BASE)` copies with the regex `open` BASE `close`, that is `\(\s*BASE\s*\)`,
/// BASE escaped by `regex::escape` (`Regex::new`, then `Regex::replace_all` with an empty replacement).
/// Claims: where the pattern compiles, the result is `paren_removed` (since `base`
/// neither starts nor ends with whitespace, the greedy `\s*` runs match all the
/// whitespace there is); where `Regex::new` refuses it (a base of megabytes exceeds the
/// size limit), the text comes back unchanged.
#[verifier::external_body]
fn remove_paren_copies(s: &str, base: &str, open: &str, close: &str) -> (r: String)
    requires
        open@ == paren_open(),
        close@ == paren_close(),
        base@.len() > 0,
        !is_ws(base@[0]),
        !is_ws(base@.last()),
    ensures
        regex_compiles(paren_pattern(base@)) ==> r@ == paren_removed(s@, base@),
        !regex_compiles(paren_pattern(base@)) ==> r@ == s@,
{
    let pattern = format!("{}{}{}", open, regex::escape(base), close);
    match regex::Regex::new(&pattern) {
        Ok(re) => re.replace_all(s, "").to_string(),
        Err(_) => s.to_string(),
    }
}

/// Replaces runs of two or more whitespace characters by one space with the regex
/// `pattern`, which is `whitespace_run_pattern` (`Regex::new`, then `Regex::replace_all`). Claims the result is `collapse_ws` of the argument.
#[verifier::external_body]
fn collapse_whitespace(s: &str, pattern: &str) -> (r: String)
    requires
        pattern@ == whitespace_run_pattern(),
    ensures
        r@ == collapse_ws(s@),
{
    let re = regex::Regex::new(pattern).unwrap();
    re.replace_all(s, " ").to_string()
}

pub proof fn lemma_paren_removed_len(s: Seq<char>, base: Seq<char>)
    ensures
        paren_removed(s, base).len() <= s.len(),
        paren_removed(s, base).len() == s.len() ==> paren_removed(s, base) == s,
    decreases s.len(),
{
    if s.len() > 0 {
        match paren_copy_len(s, base) {
            Some(n) => {
                if 0 < n <= s.len() {
                    lemma_paren_removed_len(s.skip(n as int), base);
                }
            },
            None => {
                lemma_paren_removed_len(s.drop_first(), base);
                if paren_removed(s, base).len() == s.len() {
                    assert(s =~= seq![s[0]] + s.drop_first());
                }
            },
        }
    }
}

proof fn lemma_trim_ends(s: Seq<char>)
    ensures
        trim(s).len() > 0 ==> !is_ws(trim(s)[0]) && !is_ws(trim(s).last()),
        trim(s).len() <= s.len(),
{
    lemma_trim_start(s);
    lemma_trim_end(crate::text::trim_start(s));
}

proof fn lemma_trim_start(s: Seq<char>)
    ensures
        crate::text::trim_start(s).len() > 0 ==> !is_ws(crate::text::trim_start(s)[0]),
        crate::text::trim_start(s).len() <= s.len(),
        forall|j: int| 0 <= j < crate::text::trim_start(s).len() ==> #[trigger] crate::text::trim_start(s)[j] == s[j + s.len() - crate::text::trim_start(s).len()],
    decreases s.len(),
{
    if s.len() > 0 && is_ws(s[0]) {
        lemma_trim_start(s.drop_first());
    }
}

proof fn lemma_trim_end(s: Seq<char>)
    ensures
        crate::text::trim_end(s).len() > 0 ==> !is_ws(crate::text::trim_end(s).last()),
        crate::text::trim_end(s).len() > 0 && s.len() > 0 && !is_ws(s[0]) ==> !is_ws(crate::text::trim_end(s)[0]),
        crate::text::trim_end(s).len() <= s.len(),
        crate::text::trim_end(s) == s.take(crate::text::trim_end(s).len() as int),
    decreases s.len(),
{
    if s.len() > 0 && is_ws(s.last()) {
        lemma_trim_end(s.drop_last());
        assert(s.drop_last().take(crate::text::trim_end(s).len() as int) =~= s.take(crate::text::trim_end(s).len() as int));
    } else {
        assert(s.take(s.len() as int) =~= s);
    }
}

/// One pass of removing parenthesized copies of the leading text.
pub open spec fn dedup_step(s: Seq<char>) -> Seq<char> {
    match leading_group(s) {
        Some(g) => if trim(g).len() > 0 {
            paren_step(s, trim(g))
        } else {
            s
        },
        None => s,
    }
}

pub proof fn lemma_dedup_step_len(s: Seq<char>)
    ensures
        dedup_step(s).len() <= s.len(),
        dedup_step(s).len() == s.len() ==> dedup_step(s) == s,
{
    match leading_group(s) {
        Some(g) => if trim(g).len() > 0 {
            if regex_compiles(paren_pattern(trim(g))) {
                lemma_paren_removed_len(s, trim(g));
            }
        },
        None => {},
    }
}

/// Passes of `dedup_step` until nothing changes.
pub open spec fn dedup_fix(s: Seq<char>) -> Seq<char>
    decreases s.len(),
{
    let t = dedup_step(s);
    if t == s {
        s
    } else {
        proof {
            lemma_dedup_step_len(s);
        }
        dedup_fix(t)
    }
}

/// The cleaned form of a resolved name: voice hints removed, `Name (Name)` copies
/// collapsed, empty `()` removed, whitespace runs collapsed, ends trimmed.
pub open spec fn cleaned(s: Seq<char>) -> Seq<char> {
    trim(collapse_ws(replace_all(dedup_fix(voice_hints_removed(s)), seq!['(', ')'], Seq::empty())))
}

/// Removes voice hints and duplicate parenthesized names from a resolved name.
pub fn clean_name(input: &str) -> (r: String)
    ensures
        r@ == cleaned(input@),
{
    let mut s = strip_voice_hints(input, "\\((?i:speak[^)]*|voice:[^)]*)\\)");
    let ghost s0 = s@;
    loop
        invariant
            dedup_fix(s0) == dedup_fix(s@),
        ensures
            dedup_fix(s0) == s@,
        decreases s@.len(),
    {
        let mut next: Option<String> = None;
        match leading_text(s.as_str(), "^\\s*([^()]+)") {
            Some(g) => {
                let gc = chars_of(g.as_str());
                let base = trim_chars(gc.as_slice());
                if base.len() > 0 {
                    proof {
                        lemma_trim_ends(g@);
                    }
                    let b = string_of(base.as_slice());
                    next = Some(remove_paren_copies(s.as_str(), b.as_str(), "\\(\\s*", "\\s*\\)"));
                }
            },
            None => {},
        }
        proof {
            lemma_dedup_step_len(s@);
        }
        match next {
            Some(t) => {
                let tc = chars_of(t.as_str());
                let sc = chars_of(s.as_str());
                assert(t@ == dedup_step(s@));
                if tc.len() == sc.len() {
                    assert(dedup_step(s@) == s@);
                    assert(dedup_fix(s@) == s@);
                    break;
                }
                assert(dedup_step(s@) != s@);
                assert(dedup_fix(s@) == dedup_fix(t@));
                s = t;
            },
            None => {
                assert(dedup_step(s@) == s@);
                assert(dedup_fix(s@) == s@);
                break;
            },
        }
    }
    let sc = chars_of(s.as_str());
    let empty: Vec<char> = Vec::new();
    let paren = vec!['(', ')'];
    let replaced = replace_chars(sc.as_slice(), paren.as_slice(), empty.as_slice());
    let collapsed = collapse_whitespace(string_of(replaced.as_slice()).as_str(), "\\s{2,}");
    let cc = chars_of(collapsed.as_str());
    let trimmed = trim_chars(cc.as_slice());
    proof {
        assert(paren@ =~= seq!['(', ')']);
        assert(empty@ =~= Seq::<char>::empty());
    }
    string_of(trimmed.as_slice())
}

// ---------------------------------------------------------------------------
// Language files.
// ---------------------------------------------------------------------------

/// Localization pages as a mathematical map.
pub type LocView = Map<Seq<char>, Map<Seq<char>, Seq<char>>>;

/// The values of the `id` attributes, in order.
pub open spec fn id_values(attrs: Seq<(Seq<char>, Seq<char>)>) -> Seq<Seq<char>>
    decreases attrs.len(),
{
    if attrs.len() == 0 {
        Seq::empty()
    } else if attrs.last().0 == "id"@ {
        id_values(attrs.drop_last()).push(attrs.last().1)
    } else {
        id_values(attrs.drop_last())
    }
}

/// `loc` with an empty page added for each id not present yet.
pub open spec fn open_pages(loc: LocView, ids: Seq<Seq<char>>) -> LocView
    decreases ids.len(),
{
    if ids.len() == 0 {
        loc
    } else {
        let l = open_pages(loc, ids.drop_last());
        if l.contains_key(ids.last()) {
            l
        } else {
            l.insert(ids.last(), Map::empty())
        }
    }
}

/// State of a scan of a language file.
pub struct LocScan {
    /// The `id` of the `language` element, once seen.
    pub lang: Option<Seq<char>>,
    /// The page being read.
    pub page: Option<Seq<char>>,
    pub loc: LocView,
    /// Page and entry id of a `t` element whose text is the next event.
    pub awaiting: Option<(Seq<char>, Seq<char>)>,
    pub failed: bool,
}

/// Entries are taken when the file names `lang_id` or names no language.
pub open spec fn accepts_lang(lang: Option<Seq<char>>, lang_id: Seq<char>) -> bool {
    lang is None || lang == Some(lang_id)
}

pub open spec fn loc_element(st: LocScan, e: ElementView, lang_id: Seq<char>) -> LocScan {
    if e.name == "language"@ {
        match attr_of(e.attrs, "id"@) {
            Some(v) => LocScan { lang: Some(v), ..st },
            None => st,
        }
    } else if e.name == "page"@ {
        let ids = id_values(e.attrs);
        if ids.len() > 0 {
            LocScan { page: Some(ids.last()), loc: open_pages(st.loc, ids), ..st }
        } else {
            st
        }
    } else if e.name == "t"@ {
        if accepts_lang(st.lang, lang_id) && st.page is Some && attr_of(e.attrs, "id"@) is Some {
            LocScan { awaiting: Some((st.page.unwrap(), attr_of(e.attrs, "id"@).unwrap())), ..st }
        } else {
            st
        }
    } else {
        st
    }
}

/// One event of a language file. The event after an accepted `t` element is consumed
/// whatever it is; when it is text, it becomes the entry's text, entities replaced.
pub open spec fn loc_step(lang_id: Seq<char>, st: LocScan, ev: EventView) -> LocScan {
    if st.failed {
        st
    } else {
        match st.awaiting {
            Some(pt) => LocScan {
                awaiting: None,
                loc: match ev {
                    EventView::Text(x) => if st.loc.contains_key(pt.0) {
                        st.loc.insert(pt.0, st.loc[pt.0].insert(pt.1, xml_unescaped(x)))
                    } else {
                        st.loc
                    },
                    _ => st.loc,
                },
                ..st
            },
            None => match ev {
                EventView::Start(e) => loc_element(st, e, lang_id),
                EventView::Empty(e) => loc_element(st, e, lang_id),
                EventView::Error => LocScan { failed: true, ..st },
                _ => st,
            },
        }
    }
}

pub open spec fn loc_start() -> LocScan {
    LocScan { lang: None, page: None, loc: Map::empty(), awaiting: None, failed: false }
}

/// The pages of a language file for language `lang_id`, or `None` when the file does not
/// parse.
pub open spec fn localization_in(evs: Seq<EventView>, lang_id: Seq<char>) -> Option<LocView> {
    let st = fold_events(evs, loc_start(), |s: LocScan, e: EventView| loc_step(lang_id, s, e));
    if st.failed {
        None
    } else {
        Some(st.loc)
    }
}

spec fn scan_state(
    lang: Option<String>,
    page: Option<String>,
    loc: LocView,
    awaiting: Option<(String, String)>,
    failed: bool,
) -> LocScan {
    LocScan {
        lang: match lang {
            Some(l) => Some(l@),
            None => None,
        },
        page: match page {
            Some(p) => Some(p@),
            None => None,
        },
        loc: loc,
        awaiting: match awaiting {
            Some(pt) => Some((pt.0@, pt.1@)),
            None => None,
        },
        failed: failed,
    }
}

fn opt_seq(o: &Option<String>) -> (r: Option<String>)
    ensures
        match r {
            Some(s) => *o is Some && s@ == o.unwrap()@,
            None => *o is None,
        },
{
    match o {
        Some(s) => Some(s.clone()),
        None => None,
    }
}

/// Handles a `page` element: each `id` attribute opens its page and makes it current.
fn open_page_element(loc: &mut Localization, page: &mut Option<String>, e: &XmlElement)
    ensures
        ({
            let ids = id_values(e@.attrs);
            &&& final(loc)@ == open_pages(old(loc)@, ids)
            &&& ids.len() > 0 ==> *final(page) is Some && final(page).unwrap()@ == ids.last()
            &&& ids.len() == 0 ==> *final(page) == *old(page)
        }),
{
    let ghost attrs = e@.attrs;
    let ghost loc0 = loc@;
    let ghost page0 = *page;
    let mut i: usize = 0;
    while i < e.attrs.len()
        invariant
            i <= e.attrs@.len(),
            attrs == e@.attrs,
            loc@ == open_pages(loc0, id_values(attrs.take(i as int))),
            id_values(attrs.take(i as int)).len() > 0 ==> *page is Some
                && page.unwrap()@ == id_values(attrs.take(i as int)).last(),
            id_values(attrs.take(i as int)).len() == 0 ==> *page == page0,
        decreases e.attrs.len() - i,
    {
        proof {
            assert(attrs.take(i + 1).drop_last() =~= attrs.take(i as int));
            assert(attrs.take(i + 1).last() == (e.attrs@[i as int].key@, e.attrs@[i as int].value@));
        }
        if str_eq_id(&e.attrs[i].key) {
            let v = e.attrs[i].value.clone();
            let ghost ids = id_values(attrs.take(i + 1));
            proof {
                assert(ids.drop_last() == id_values(attrs.take(i as int)));
                assert(open_pages(loc0, ids) == {
                    let l = open_pages(loc0, ids.drop_last());
                    if l.contains_key(ids.last()) { l } else { l.insert(ids.last(), Map::empty()) }
                });
            }
            loc.insert_if_absent(v.clone(), StrMap::new());
            *page = Some(v);
        }
        i += 1;
    }
    proof {
        assert(attrs.take(e.attrs@.len() as int) =~= attrs);
    }
}

fn str_eq_id(k: &String) -> (b: bool)
    ensures
        b == (k@ == "id"@),
{
    crate::text::str_eq(k.as_str(), "id")
}

/// Localization pages from one language file, for language `lang_id`; a file that names
/// no language is taken as well. Fails when the file is not well-formed XML.
pub fn extract_localization(xml_content: &str, lang_id: &str) -> (r: Result<Localization, XmlParseError>)
    ensures
        match r {
            Ok(m) => localization_in(xml_events(xml_content@), lang_id@) == Some(m@),
            Err(_) => localization_in(xml_events(xml_content@), lang_id@) is None,
        },
{
    let events = tokenize(xml_content);
    localization_from_events(events.as_slice(), lang_id)
}

/// The same as `extract_localization`, on the events of the text.
pub fn localization_from_events(events: &[XmlEvent], lang_id: &str) -> (r: Result<Localization, XmlParseError>)
    ensures
        match r {
            Ok(m) => localization_in(views(events@), lang_id@) == Some(m@),
            Err(_) => localization_in(views(events@), lang_id@) is None,
        },
{
    let ghost evs = views(events@);
    let ghost lid = lang_id@;
    let mut lang: Option<String> = None;
    let mut page: Option<String> = None;
    let mut loc: Localization = StrMap::new();
    let mut awaiting: Option<(String, String)> = None;
    let mut failed = false;
    let mut i: usize = 0;
    while i < events.len()
        invariant
            i <= events@.len(),
            evs == views(events@),
            lid == lang_id@,
            fold_events(evs.take(i as int), loc_start(), |s: LocScan, e: EventView| loc_step(lid, s, e))
                == scan_state(lang, page, loc@, awaiting, failed),
        decreases events.len() - i,
    {
        proof {
            lemma_fold_events_next(evs, i as int, loc_start(), |s: LocScan, e: EventView| loc_step(lid, s, e));
            assert(evs[i as int] == events@[i as int]@);
        }
        let ghost st0 = scan_state(lang, page, loc@, awaiting, failed);
        if !failed {
            match awaiting {
                Some(pt) => {
                    awaiting = None;
                    match &events[i] {
                        XmlEvent::Text(x) => {
                            let pc = chars_of(pt.0.as_str());
                            match loc.index_of(pc.as_slice()) {
                                Some(idx) => {
                                    let ghost l0 = loc@;
                                    let mut pg = loc.replace_value(idx, StrMap::new());
                                    pg.insert(pt.1, unescape_text(x.as_str()));
                                    loc.replace_value(idx, pg);
                                    assert(loc@ =~= l0.insert(pt.0@, l0[pt.0@].insert(pt.1@, xml_unescaped(x@))));
                                },
                                None => {},
                            }
                        },
                        _ => {},
                    }
                },
                None => {
                    match &events[i] {
                        XmlEvent::Start(e) | XmlEvent::Empty(e) => {
                            if e.is("language") {
                                match e.attr("id") {
                                    Some(v) => {
                                        lang = Some(v.clone());
                                    },
                                    None => {},
                                }
                            } else if e.is("page") {
                                open_page_element(&mut loc, &mut page, e);
                            } else if e.is("t") {
                                let accepted = match &lang {
                                    Some(l) => crate::text::str_eq(l.as_str(), lang_id),
                                    None => true,
                                };
                                if accepted {
                                    match (opt_seq(&page), e.attr("id")) {
                                        (Some(p), Some(tid)) => {
                                            awaiting = Some((p, tid.clone()));
                                        },
                                        _ => {},
                                    }
                                }
                            }
                        },
                        XmlEvent::Error => {
                            failed = true;
                        },
                        _ => {},
                    }
                },
            }
        }
        assert(loc_step(lid, st0, evs[i as int]) == scan_state(lang, page, loc@, awaiting, failed));
        i += 1;
    }
    proof {
        assert(evs.take(events@.len() as int) =~= evs);
    }
    if failed {
        Err(XmlParseError)
    } else {
        Ok(loc)
    }
}

} // verus!
