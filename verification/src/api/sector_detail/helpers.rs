use vstd::prelude::*;
use crate::strmap::StrMap;
use crate::text::{
    append_chars, char_to_upper, chars_of, ends_with, ends_with_chars, is_whitespace, is_ws, join, join_chars,
    split, split_chars, string_of, to_upper, upper, upper_char,
};

verus! {

/// Roman numeral by the greedy table X, IX, V, IV, I (no L, C, ...).
pub open spec fn roman(n: nat) -> Seq<char>
    decreases n,
{
    if n >= 10 {
        seq!['X'] + roman((n - 10) as nat)
    } else if n >= 9 {
        seq!['I', 'X'] + roman((n - 9) as nat)
    } else if n >= 5 {
        seq!['V'] + roman((n - 5) as nat)
    } else if n >= 4 {
        seq!['I', 'V'] + roman((n - 4) as nat)
    } else if n >= 1 {
        seq!['I'] + roman((n - 1) as nat)
    } else {
        Seq::empty()
    }
}

/// Converts a number to Roman numerals built from X, IX, V, IV and I.
pub fn to_roman(n: u32) -> (r: String)
    ensures
        r@ == roman(n as nat),
{
    let mut out: Vec<char> = Vec::new();
    let mut num = n;
    proof {
        assert(out@ + roman(num as nat) =~= roman(n as nat));
    }
    while num > 0
        invariant
            out@ + roman(num as nat) == roman(n as nat),
        decreases num,
    {
        let ghost out0 = out@;
        if num >= 10 {
            out.push('X');
            proof {
                assert(out@ + roman((num - 10) as nat) =~= out0 + roman(num as nat));
            }
            num -= 10;
        } else if num >= 9 {
            out.push('I');
            out.push('X');
            proof {
                assert(out@ + roman((num - 9) as nat) =~= out0 + roman(num as nat));
            }
            num -= 9;
        } else if num >= 5 {
            out.push('V');
            proof {
                assert(out@ + roman((num - 5) as nat) =~= out0 + roman(num as nat));
            }
            num -= 5;
        } else if num >= 4 {
            out.push('I');
            out.push('V');
            proof {
                assert(out@ + roman((num - 4) as nat) =~= out0 + roman(num as nat));
            }
            num -= 4;
        } else {
            out.push('I');
            proof {
                assert(out@ + roman((num - 1) as nat) =~= out0 + roman(num as nat));
            }
            num -= 1;
        }
    }
    proof {
        assert(out@ =~= out@ + roman(0));
    }
    string_of(out.as_slice())
}

/// The pieces of `s` between whitespace characters, empty pieces included.
pub open spec fn split_ws(s: Seq<char>) -> Seq<Seq<char>>
    decreases s.len(),
{
    if s.len() == 0 {
        seq![Seq::<char>::empty()]
    } else {
        let rest = split_ws(s.drop_first());
        if is_ws(s[0]) {
            seq![Seq::<char>::empty()] + rest
        } else {
            rest.update(0, seq![s[0]] + rest[0])
        }
    }
}

/// The non-empty members of `parts`, in order.
pub open spec fn non_empty(parts: Seq<Seq<char>>) -> Seq<Seq<char>>
    decreases parts.len(),
{
    if parts.len() == 0 {
        Seq::empty()
    } else if parts.last().len() == 0 {
        non_empty(parts.drop_last())
    } else {
        non_empty(parts.drop_last()).push(parts.last())
    }
}

/// `str::split_whitespace`: the maximal runs of non-whitespace characters.
pub open spec fn words(s: Seq<char>) -> Seq<Seq<char>> {
    non_empty(split_ws(s))
}

/// A word with its first character upper-cased.
pub open spec fn capitalize(w: Seq<char>) -> Seq<char> {
    if w.len() == 0 {
        Seq::empty()
    } else {
        upper_char(w[0]) + w.drop_first()
    }
}

pub open spec fn capitalize_all(ws: Seq<Seq<char>>) -> Seq<Seq<char>> {
    ws.map_values(|w: Seq<char>| capitalize(w))
}

/// A string with its first character upper-cased (`char::to_uppercase` on the first,
/// the rest as it is).
pub fn capitalize_first(s: &str) -> (r: String)
    ensures
        r@ == capitalize(s@),
{
    let cs = chars_of(s);
    if cs.len() == 0 {
        proof {
            assert(cs@ =~= Seq::<char>::empty());
        }
        return string_of(cs.as_slice());
    }
    let mut out = char_to_upper(cs[0]);
    let mut i: usize = 1;
    while i < cs.len()
        invariant
            1 <= i <= cs@.len(),
            out@ == upper_char(cs@[0]) + cs@.subrange(1, i as int),
        decreases cs.len() - i,
    {
        out.push(cs[i]);
        proof {
            assert(out@ =~= upper_char(cs@[0]) + cs@.subrange(1, i + 1));
        }
        i += 1;
    }
    proof {
        assert(cs@.subrange(1, cs@.len() as int) =~= s@.drop_first());
    }
    string_of(out.as_slice())
}

/// Each whitespace-separated word capitalized, joined by single spaces.
pub open spec fn capitalized_words(s: Seq<char>) -> Seq<char> {
    join(capitalize_all(words(s)), seq![' '])
}

proof fn lemma_split_ws_nonempty(s: Seq<char>)
    ensures
        split_ws(s).len() >= 1,
    decreases s.len(),
{
    if s.len() > 0 {
        lemma_split_ws_nonempty(s.drop_first());
    }
}

fn split_ws_chars(s: &[char]) -> (parts: Vec<Vec<char>>)
    ensures
        parts@.map_values(|p: Vec<char>| p@) == split_ws(s@),
{
    let mut parts: Vec<Vec<char>> = Vec::new();
    parts.push(Vec::new());
    let mut i = s.len();
    proof {
        assert(s@.skip(i as int) =~= Seq::<char>::empty());
        assert(parts@.map_values(|p: Vec<char>| p@) =~= split_ws(s@.skip(i as int)));
    }
    while i > 0
        invariant
            i <= s@.len(),
            parts@.map_values(|p: Vec<char>| p@) == split_ws(s@.skip(i as int)),
        decreases i,
    {
        let ghost old_parts = parts@.map_values(|p: Vec<char>| p@);
        proof {
            assert(s@.skip(i - 1).drop_first() =~= s@.skip(i as int));
            lemma_split_ws_nonempty(s@.skip(i as int));
        }
        let ch = s[i - 1];
        if is_whitespace(ch) {
            parts.insert(0, Vec::new());
            proof {
                assert(parts@.map_values(|p: Vec<char>| p@) =~= seq![Seq::<char>::empty()]
                    + old_parts);
            }
        } else {
            let mut first = parts.remove(0);
            proof {
                assert(parts@.map_values(|p: Vec<char>| p@) =~= old_parts.drop_first());
                assert(first@ == old_parts[0]);
            }
            first.insert(0, ch);
            proof {
                assert(first@ =~= seq![ch] + old_parts[0]);
            }
            parts.insert(0, first);
            proof {
                assert(parts@.map_values(|p: Vec<char>| p@) =~= old_parts.update(
                    0,
                    seq![ch] + old_parts[0],
                ));
            }
        }
        i -= 1;
    }
    proof {
        assert(s@.skip(0) =~= s@);
    }
    parts
}

/// `str::split_whitespace`, each word capitalized.
fn capitalized_word_list(s: &[char]) -> (r: Vec<Vec<char>>)
    ensures
        r@.map_values(|p: Vec<char>| p@) == capitalize_all(words(s@)),
{
    let parts = split_ws_chars(s);
    let ghost ps = parts@.map_values(|p: Vec<char>| p@);
    let mut r: Vec<Vec<char>> = Vec::new();
    let mut i: usize = 0;
    while i < parts.len()
        invariant
            i <= parts@.len(),
            ps == parts@.map_values(|p: Vec<char>| p@),
            r@.map_values(|p: Vec<char>| p@) == capitalize_all(non_empty(ps.take(i as int))),
        decreases parts.len() - i,
    {
        let ghost r0 = r@.map_values(|p: Vec<char>| p@);
        proof {
            assert(ps.take(i + 1).drop_last() =~= ps.take(i as int));
        }
        let w = &parts[i];
        if w.len() > 0 {
            let mut cw = char_to_upper(w[0]);
            let mut k: usize = 1;
            while k < w.len()
                invariant
                    1 <= k <= w@.len(),
                    cw@ == upper_char(w@[0]) + w@.subrange(1, k as int),
                decreases w.len() - k,
            {
                cw.push(w[k]);
                proof {
                    assert(cw@ =~= upper_char(w@[0]) + w@.subrange(1, k + 1));
                }
                k += 1;
            }
            proof {
                assert(w@.subrange(1, w@.len() as int) =~= w@.drop_first());
                assert(cw@ == capitalize(w@));
            }
            r.push(cw);
            proof {
                assert(r@.map_values(|p: Vec<char>| p@) =~= r0.push(capitalize(w@)));
                assert(capitalize_all(non_empty(ps.take(i + 1))) =~= capitalize_all(
                    non_empty(ps.take(i as int)),
                ).push(capitalize(w@)));
            }
        }
        i += 1;
    }
    proof {
        assert(ps.take(parts@.len() as int) =~= ps);
    }
    r
}

/// Capitalizes each whitespace-separated word and joins them by single spaces.
pub fn capitalize_words(s: &str) -> (r: String)
    ensures
        r@ == capitalized_words(s@),
{
    let cs = chars_of(s);
    let list = capitalized_word_list(cs.as_slice());
    let sep = vec![' '];
    proof {
        assert(sep@ =~= seq![' ']);
    }
    let joined = join_chars(list.as_slice(), sep.as_slice());
    string_of(joined.as_slice())
}

/// `w` with a space put before its last `n` characters.
pub open spec fn space_before_last(w: Seq<char>, n: int) -> Seq<char> {
    w.take(w.len() - n) + seq![' '] + w.skip(w.len() - n)
}

/// A ware word of an entry with a `parts` tail set apart, as in `hullparts`, which names
/// the factory of "Hull Parts": the tail after at least one character. Other words are
/// kept whole.
pub open spec fn split_compound(w: Seq<char>) -> Seq<char> {
    if w.len() > 5 && ends_with(w, "parts"@) {
        space_before_last(w, 5)
    } else {
        w
    }
}

/// Factory name from a source entry such as `arg_hullparts` and a name index:
/// upper-cased faction, the ware words (a `parts` tail split off, see `split_compound`)
/// capitalized, `Factory`, Roman index.
pub open spec fn factory_name(entry: Seq<char>, nameindex: nat) -> Seq<char> {
    let parts = split(entry, '_');
    if parts.len() >= 2 {
        upper(parts[0]) + seq![' '] + capitalized_words(
            join(parts.skip(1).map_values(|p: Seq<char>| split_compound(p)), seq![' ']),
        ) + seq![' ', 'F', 'a', 'c', 't', 'o', 'r', 'y', ' '] + roman(nameindex)
    } else {
        entry
    }
}

fn space_before_last_exec(w: &[char], n: usize) -> (r: Vec<char>)
    requires
        n <= w@.len(),
    ensures
        r@ == space_before_last(w@, n as int),
{
    let k = w.len() - n;
    let mut r: Vec<char> = Vec::new();
    let mut i: usize = 0;
    while i < w.len()
        invariant
            k <= w@.len(),
            i <= w@.len(),
            i <= k ==> r@ == w@.take(i as int),
            i > k ==> r@ == w@.take(k as int) + seq![' '] + w@.subrange(k as int, i as int),
        decreases w.len() - i,
    {
        if i == k {
            r.push(' ');
            proof {
                assert(r@ =~= w@.take(k as int) + seq![' '] + w@.subrange(k as int, k as int));
            }
        }
        let ghost r0 = r@;
        r.push(w[i]);
        proof {
            if i < k {
                assert(r@ =~= w@.take(i + 1));
            } else {
                assert(r@ =~= w@.take(k as int) + seq![' '] + w@.subrange(k as int, i + 1));
            }
        }
        i += 1;
    }
    if k == w.len() {
        r.push(' ');
    }
    proof {
        assert(w@.subrange(k as int, w@.len() as int) =~= w@.skip(k as int));
        assert(w@.take(w@.len() as int) =~= w@);
        assert(r@ =~= space_before_last(w@, n as int));
    }
    r
}

/// The ware word with its `parts` tail set apart (see `split_compound`).
pub fn split_compound_word(w: &[char]) -> (r: Vec<char>)
    ensures
        r@ == split_compound(w@),
{
    let parts = chars_of("parts");
    proof {
        reveal_strlit("parts");
    }
    if w.len() > 5 && ends_with_chars(w, parts.as_slice()) {
        space_before_last_exec(w, 5)
    } else {
        let mut r: Vec<char> = Vec::new();
        append_chars(&mut r, w);
        proof {
            assert(r@ =~= w@);
        }
        r
    }
}

/// Builds a factory name from a source entry of the form `faction_ware`: `"arg_hullparts"`
/// with index 1 gives `"ARG Hull Parts Factory I"`. An entry without `_` is returned as it
/// is. The component names are not consulted.
pub fn build_factory_name(entry: &str, nameindex: u32, _component_names: &StrMap<String>) -> (r: String)
    ensures
        r@ == factory_name(entry@, nameindex as nat),
{
    factory_name_of(entry, nameindex)
}

/// The factory name of a source entry and name index.
pub fn factory_name_of(entry: &str, nameindex: u32) -> (r: String)
    ensures
        r@ == factory_name(entry@, nameindex as nat),
{
    let cs = chars_of(entry);
    let parts = split_chars(cs.as_slice(), '_');
    let ghost ps = parts@.map_values(|p: Vec<char>| p@);
    if parts.len() >= 2 {
        let faction = to_upper(string_of(parts[0].as_slice()).as_str());
        let mut rest: Vec<Vec<char>> = Vec::new();
        let mut i: usize = 1;
        while i < parts.len()
            invariant
                1 <= i <= parts@.len(),
                ps == parts@.map_values(|p: Vec<char>| p@),
                rest@.map_values(|p: Vec<char>| p@) == ps.subrange(1, i as int).map_values(
                    |p: Seq<char>| split_compound(p),
                ),
            decreases parts.len() - i,
        {
            let piece = split_compound_word(parts[i].as_slice());
            proof {
                assert(piece@ == split_compound(ps[i as int]));
            }
            let ghost r0 = rest@.map_values(|p: Vec<char>| p@);
            rest.push(piece);
            proof {
                assert(rest@.map_values(|p: Vec<char>| p@) =~= r0.push(split_compound(ps[i as int])));
                assert(ps.subrange(1, i + 1) =~= ps.subrange(1, i as int).push(ps[i as int]));
                assert(rest@.map_values(|p: Vec<char>| p@) =~= ps.subrange(1, i + 1).map_values(
                    |p: Seq<char>| split_compound(p),
                ));
            }
            i += 1;
        }
        proof {
            assert(ps.subrange(1, parts@.len() as int) =~= ps.skip(1));
        }
        let sep = vec![' '];
        proof {
            assert(sep@ =~= seq![' ']);
            assert(faction@ == upper(ps[0]));
        }
        let ware = join_chars(rest.as_slice(), sep.as_slice());
        let cap = capitalize_words(string_of(ware.as_slice()).as_str());
        let mut out = chars_of(faction.as_str());
        out.push(' ');
        let capc = chars_of(cap.as_str());
        append_chars(&mut out, capc.as_slice());
        let fac = vec![' ', 'F', 'a', 'c', 't', 'o', 'r', 'y', ' '];
        append_chars(&mut out, fac.as_slice());
        let rom = to_roman(nameindex);
        let romc = chars_of(rom.as_str());
        append_chars(&mut out, romc.as_slice());
        proof {
            assert(ware@ == join(ps.skip(1).map_values(|p: Seq<char>| split_compound(p)), seq![' ']));
            assert(fac@ =~= seq![' ', 'F', 'a', 'c', 't', 'o', 'r', 'y', ' ']);
            assert(out@ =~= factory_name(entry@, nameindex as nat));
        }
        string_of(out.as_slice())
    } else {
        string_of(cs.as_slice())
    }
}

} // verus!
