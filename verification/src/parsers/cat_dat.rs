use vstd::prelude::*;
use crate::numbers::{is_digit, parse_u64, parse_u64_chars};
use crate::text::{
    chars_of, ends_with, ends_with_chars, join, join_chars, replace_all, replace_chars, split,
    split_chars, starts_with, starts_with_chars, string_of,
};

verus! {

/// A file extracted from a CAT/DAT pair.
pub struct XmlEntry {
    pub name: String,
    pub content: String,
}

/// Reads XML files from X4's CAT/DAT file pairs: the CAT file indexes the contents of
/// the DAT file of the same name.
pub struct CatDatReader {
    cat_path: String,
    dat_path: String,
}

impl CatDatReader {
    pub closed spec fn cat_path_view(&self) -> Seq<char> {
        self.cat_path@
    }

    pub closed spec fn dat_path_view(&self) -> Seq<char> {
        self.dat_path@
    }

    /// A reader for the CAT file at `cat_path`; its DAT file is the path with `.cat`
    /// replaced by `.dat`.
    pub fn new(cat_path: &str) -> (r: Self)
        ensures
            r.cat_path_view() == cat_path@,
            r.dat_path_view() == replace_all(cat_path@, ".cat"@, ".dat"@),
    {
        let cs = chars_of(cat_path);
        let pat = chars_of(".cat");
        let rep = chars_of(".dat");
        proof {
            reveal_strlit(".cat");
        }
        let dat = replace_chars(cs.as_slice(), pat.as_slice(), rep.as_slice());
        CatDatReader { cat_path: string_of(cs.as_slice()), dat_path: string_of(dat.as_slice()) }
    }

    /// The path of the CAT file.
    pub fn cat_path(&self) -> (r: &str)
        ensures
            r@ == self.cat_path_view(),
    {
        self.cat_path.as_str()
    }

    /// The path of the DAT file.
    pub fn dat_path(&self) -> (r: &str)
        ensures
            r@ == self.dat_path_view(),
    {
        self.dat_path.as_str()
    }
}

/// A line of the CAT index with the place of its file in the DAT file.
pub struct CatEntry {
    pub name: String,
    pub offset: u64,
    pub size: u64,
}

pub struct CatEntryView {
    pub name: Seq<char>,
    pub offset: int,
    pub size: int,
}

impl View for CatEntry {
    type V = CatEntryView;

    open spec fn view(&self) -> CatEntryView {
        CatEntryView { name: self.name@, offset: self.offset as int, size: self.size as int }
    }
}

/// Why a CAT index cannot be read.
pub enum CatIndexError {
    /// The size of the named file is not an unsigned integer.
    BadSize(String),
    /// The sizes add up beyond what a DAT offset can hold.
    OffsetOverflow,
}

pub enum CatIndexErrorView {
    BadSize(Seq<char>),
    OffsetOverflow,
}

impl View for CatIndexError {
    type V = CatIndexErrorView;

    open spec fn view(&self) -> CatIndexErrorView {
        match self {
            CatIndexError::BadSize(n) => CatIndexErrorView::BadSize(n@),
            CatIndexError::OffsetOverflow => CatIndexErrorView::OffsetOverflow,
        }
    }
}

/// A line without a trailing carriage return.
pub open spec fn strip_cr(s: Seq<char>) -> Seq<char> {
    if s.len() > 0 && s.last() == '\r' {
        s.drop_last()
    } else {
        s
    }
}

/// The lines of a text as `BufRead::lines` reads them: split at `\n`, a `\r` before the
/// `\n` dropped, no empty line after a final `\n`.
pub open spec fn text_lines(t: Seq<char>) -> Seq<Seq<char>> {
    let parts = split(t, '\n');
    let heads = parts.drop_last().map_values(|p: Seq<char>| strip_cr(p));
    if parts.last().len() == 0 {
        heads
    } else {
        heads.push(parts.last())
    }
}

/// State of the reading of a CAT index.
pub struct CatScan {
    pub entries: Seq<CatEntryView>,
    pub offset: int,
    pub error: Option<CatIndexErrorView>,
}

/// One line: `name size timestamp hash`, the name possibly holding spaces. A line with
/// fewer fields is passed over; an `.xml` file is listed at the current offset; every
/// file moves the offset on by its size.
pub open spec fn cat_line(st: CatScan, line: Seq<char>) -> CatScan {
    let tokens = split(line, ' ');
    if st.error is Some || tokens.len() < 4 {
        st
    } else {
        let name = join(tokens.take(tokens.len() - 3), seq![' ']);
        match parse_u64(tokens[tokens.len() - 3]) {
            None => CatScan { error: Some(CatIndexErrorView::BadSize(name)), ..st },
            Some(size) => {
                let entries = if ends_with(name, ".xml"@) {
                    st.entries.push(CatEntryView { name, offset: st.offset, size })
                } else {
                    st.entries
                };
                if st.offset + size > u64::MAX {
                    CatScan { entries, offset: st.offset + size, error: Some(CatIndexErrorView::OffsetOverflow) }
                } else {
                    CatScan { entries, offset: st.offset + size, error: None }
                }
            },
        }
    }
}

pub open spec fn cat_scan(lines: Seq<Seq<char>>) -> CatScan
    decreases lines.len(),
{
    if lines.len() == 0 {
        CatScan { entries: Seq::empty(), offset: 0, error: None }
    } else {
        cat_line(cat_scan(lines.drop_last()), lines.last())
    }
}

/// The `.xml` files that a CAT index lists, with their offsets and sizes in the DAT file.
pub open spec fn cat_index(text: Seq<char>) -> Result<Seq<CatEntryView>, CatIndexErrorView> {
    let st = cat_scan(text_lines(text));
    match st.error {
        Some(e) => Err(e),
        None => Ok(st.entries),
    }
}

/// The listed files lie one after another in the DAT file, without overlap, each ending
/// within `bound`, and each is an `.xml` file.
pub open spec fn entries_laid_out(es: Seq<CatEntryView>, bound: int) -> bool {
    &&& forall|i: int, j: int|
        #![trigger es[i], es[j]]
        0 <= i < j < es.len() ==> es[i].offset + es[i].size <= es[j].offset
    &&& forall|i: int|
        #![trigger es[i]]
        0 <= i < es.len() ==> 0 <= es[i].offset && 0 <= es[i].size && es[i].offset + es[i].size <= bound
    &&& forall|i: int| #![trigger es[i]] 0 <= i < es.len() ==> ends_with(es[i].name, ".xml"@)
}

proof fn lemma_cat_scan_laid_out(lines: Seq<Seq<char>>)
    ensures
        entries_laid_out(cat_scan(lines).entries, cat_scan(lines).offset),
        cat_scan(lines).offset >= 0,
        cat_scan(lines).error is None ==> cat_scan(lines).offset <= u64::MAX,
    decreases lines.len(),
{
    if lines.len() > 0 {
        lemma_cat_scan_laid_out(lines.drop_last());
        let st = cat_scan(lines.drop_last());
        let r = cat_scan(lines);
        assert(r == cat_line(st, lines.last()));
        if r.offset != st.offset {
            let es = r.entries;
            assert forall|i: int| #![trigger es[i]] 0 <= i < es.len() implies 0 <= es[i].offset && 0
                <= es[i].size && es[i].offset + es[i].size <= r.offset by {
                if i < st.entries.len() {
                    assert(es[i] == st.entries[i]);
                }
            }
            assert forall|i: int, j: int| #![trigger es[i], es[j]] 0 <= i < j < es.len() implies es[i].offset
                + es[i].size <= es[j].offset by {
                assert(es[i] == st.entries[i]);
                if j < st.entries.len() {
                    assert(es[j] == st.entries[j]);
                }
            }
            assert forall|i: int| #![trigger es[i]] 0 <= i < es.len() implies ends_with(es[i].name, ".xml"@) by {
                if i < st.entries.len() {
                    assert(es[i] == st.entries[i]);
                }
            }
        }
    }
}

/// What a CAT index lists lies in order in the DAT file: each file starts at or after the
/// end of the one before it, every file ends within `u64`, and every listed file is an
/// `.xml` file.
pub proof fn law_cat_entries_laid_out(text: Seq<char>)
    requires
        cat_index(text) is Ok,
    ensures
        entries_laid_out(cat_index(text)->Ok_0, u64::MAX as int),
{
    let st = cat_scan(text_lines(text));
    lemma_cat_scan_laid_out(text_lines(text));
    let es = st.entries;
    assert forall|i: int| #![trigger es[i]] 0 <= i < es.len() implies 0 <= es[i].offset && 0 <= es[i].size
        && es[i].offset + es[i].size <= u64::MAX by {}
}

proof fn lemma_cat_error_sticks(ls: Seq<Seq<char>>, k: int)
    requires
        0 <= k <= ls.len(),
        cat_scan(ls.take(k)).error is Some,
    ensures
        cat_scan(ls).error == cat_scan(ls.take(k)).error,
    decreases ls.len() - k,
{
    if k < ls.len() {
        assert(ls.take(k + 1).drop_last() =~= ls.take(k));
        lemma_cat_error_sticks(ls, k + 1);
    } else {
        assert(ls.take(k) =~= ls);
    }
}

fn strip_cr_exec(v: &Vec<char>) -> (r: Vec<char>)
    ensures
        r@ == strip_cr(v@),
{
    let mut r: Vec<char> = Vec::new();
    let n = if v.len() > 0 && v[v.len() - 1] == '\r' { v.len() - 1 } else { v.len() };
    let mut i: usize = 0;
    while i < n
        invariant
            i <= n <= v@.len(),
            r@ == v@.take(i as int),
        decreases n - i,
    {
        r.push(v[i]);
        proof {
            assert(r@ =~= v@.take(i + 1));
        }
        i += 1;
    }
    proof {
        assert(v@.take(n as int) =~= strip_cr(v@));
    }
    r
}

/// The `.xml` files listed in a CAT index (its text), each with its offset and size in
/// the DAT file. Fails on a size that is not an unsigned integer, or when the sizes add
/// up beyond `u64`.
pub fn parse_cat_index(text: &str) -> (r: Result<Vec<CatEntry>, CatIndexError>)
    ensures
        match r {
            Ok(v) => cat_index(text@) == Ok::<Seq<CatEntryView>, CatIndexErrorView>(v@.map_values(|e: CatEntry| e@)),
            Err(e) => cat_index(text@) == Err::<Seq<CatEntryView>, CatIndexErrorView>(e@),
        },
{
    let tc = chars_of(text);
    let parts = split_chars(tc.as_slice(), '\n');
    let ghost pv = parts@.map_values(|p: Vec<char>| p@);
    proof {
        crate::text::lemma_split_len(tc@, '\n');
    }
    let np = parts.len();
    let mut lines: Vec<Vec<char>> = Vec::new();
    let mut k: usize = 0;
    while k + 1 < np
        invariant
            np == parts@.len(),
            np >= 1,
            k + 1 <= np,
            pv == parts@.map_values(|p: Vec<char>| p@),
            lines@.map_values(|p: Vec<char>| p@) == pv.take(k as int).map_values(|p: Seq<char>| strip_cr(p)),
        decreases np - k,
    {
        let l = strip_cr_exec(&parts[k]);
        let ghost lv = lines@.map_values(|p: Vec<char>| p@);
        lines.push(l);
        proof {
            assert(pv.take(k + 1) =~= pv.take(k as int).push(pv[k as int]));
            assert(pv.take(k + 1).map_values(|p: Seq<char>| strip_cr(p)) =~= pv.take(k as int).map_values(
                |p: Seq<char>| strip_cr(p),
            ).push(strip_cr(pv[k as int])));
            assert(lines@.map_values(|p: Vec<char>| p@) =~= lv.push(strip_cr(pv[k as int])));
        }
        k += 1;
    }
    if parts[np - 1].len() > 0 {
        let mut last: Vec<char> = Vec::new();
        crate::text::append_chars(&mut last, parts[np - 1].as_slice());
        let ghost lv = lines@.map_values(|p: Vec<char>| p@);
        lines.push(last);
        proof {
            assert(lines@.map_values(|p: Vec<char>| p@) =~= lv.push(pv.last()));
        }
    }
    proof {
        assert(pv.take(np - 1) =~= pv.drop_last());
        assert(lines@.map_values(|p: Vec<char>| p@) =~= text_lines(text@));
    }
    let ghost ls = text_lines(text@);
    let mut entries: Vec<CatEntry> = Vec::new();
    let mut offset: u64 = 0;
    let mut i: usize = 0;
    proof {
        assert(ls.take(0) =~= Seq::<Seq<char>>::empty());
        assert(entries@.map_values(|e: CatEntry| e@) =~= Seq::<CatEntryView>::empty());
    }
    while i < lines.len()
        invariant
            i <= lines@.len(),
            ls == lines@.map_values(|p: Vec<char>| p@),
            ls == text_lines(text@),
            cat_scan(ls.take(i as int)) == (CatScan {
                entries: entries@.map_values(|e: CatEntry| e@),
                offset: offset as int,
                error: None,
            }),
        decreases lines.len() - i,
    {
        proof {
            assert(ls.take(i + 1).drop_last() =~= ls.take(i as int));
            assert(ls.take(i + 1).last() == lines@[i as int]@);
        }
        let tokens = split_chars(lines[i].as_slice(), ' ');
        let ghost tv = tokens@.map_values(|p: Vec<char>| p@);
        let nt = tokens.len();
        if nt >= 4 {
            let mut head: Vec<Vec<char>> = Vec::new();
            let mut j: usize = 0;
            while j < nt - 3
                invariant
                    j <= nt - 3,
                    nt == tokens@.len(),
                    nt >= 4,
                    tv == tokens@.map_values(|p: Vec<char>| p@),
                    head@.map_values(|p: Vec<char>| p@) == tv.take(j as int),
                decreases nt - 3 - j,
            {
                let mut piece: Vec<char> = Vec::new();
                crate::text::append_chars(&mut piece, tokens[j].as_slice());
                let ghost hv = head@.map_values(|p: Vec<char>| p@);
                head.push(piece);
                proof {
                    assert(head@.map_values(|p: Vec<char>| p@) =~= hv.push(tv[j as int]));
                    assert(tv.take(j + 1) =~= tv.take(j as int).push(tv[j as int]));
                }
                j += 1;
            }
            let sep = vec![' '];
            proof {
                assert(sep@ =~= seq![' ']);
            }
            let name = join_chars(head.as_slice(), sep.as_slice());
            match parse_u64_chars(tokens[nt - 3].as_slice()) {
                None => {
                    proof {
                        assert(head@.map_values(|p: Vec<char>| p@) =~= tv.take(tv.len() - 3));
                        lemma_cat_error_sticks(ls, i + 1);
                    }
                    return Err(CatIndexError::BadSize(string_of(name.as_slice())));
                },
                Some(size) => {
                    let xml = chars_of(".xml");
                    if ends_with_chars(name.as_slice(), xml.as_slice()) {
                        let ghost ev = entries@.map_values(|e: CatEntry| e@);
                        entries.push(CatEntry { name: string_of(name.as_slice()), offset, size });
                        proof {
                            assert(entries@.map_values(|e: CatEntry| e@) =~= ev.push(entries@.last()@));
                        }
                    }
                    if size > u64::MAX - offset {
                        proof {
                            lemma_cat_error_sticks(ls, i + 1);
                        }
                        return Err(CatIndexError::OffsetOverflow);
                    }
                    offset = offset + size;
                },
            }
        }
        i += 1;
    }
    proof {
        assert(ls.take(lines@.len() as int) =~= ls);
    }
    Ok(entries)
}

/// The name of an extension's CAT file: `ext_NN.cat` (but not a `_sig.cat` signature
/// file) or a two-digit `NN.cat`.
pub open spec fn extension_cat_name(n: Seq<char>) -> bool {
    (starts_with(n, "ext_"@) && ends_with(n, ".cat"@) && !ends_with(n, "_sig.cat"@)) || (n.len() == 6
        && is_digit(n[0]) && is_digit(n[1]) && n.subrange(2, 6) == ".cat"@)
}

/// Whether a file name is that of an extension's CAT file (see `extension_cat_name`).
pub fn is_extension_cat_name(name: &str) -> (b: bool)
    ensures
        b == extension_cat_name(name@),
{
    let n = chars_of(name);
    let ext = chars_of("ext_");
    let cat = chars_of(".cat");
    let sig = chars_of("_sig.cat");
    let is_ext_cat = starts_with_chars(n.as_slice(), ext.as_slice()) && ends_with_chars(n.as_slice(), cat.as_slice())
        && !ends_with_chars(n.as_slice(), sig.as_slice());
    if is_ext_cat {
        return true;
    }
    if n.len() != 6 {
        return false;
    }
    let d0 = n[0] as u32;
    let d1 = n[1] as u32;
    let r = '0' as u32 <= d0 && d0 <= '9' as u32 && '0' as u32 <= d1 && d1 <= '9' as u32 && ends_with_chars(
        n.as_slice(),
        cat.as_slice(),
    );
    proof {
        reveal_strlit(".cat");
        assert(n@.skip(2) =~= n@.subrange(2, 6));
    }
    r
}

} // verus!
