use vstd::prelude::*;
use crate::parsers::game_xml::{
    cleaned, clean_name, extract_localization, localization_in, resolve_name, resolved_name,
    LocView, Localization,
};
use crate::parsers::cat_dat::XmlEntry;
use crate::strmap::StrMap;
use crate::text::{contains, lower, str_contains, str_eq, to_lower};
use crate::xml::{
    attr_of, fold_events, lemma_fold_events_next, tokenize, views, xml_events, ElementView,
    EventView, XmlElement, XmlEvent,
};

verus! {

// ---------------------------------------------------------------------------
// Merging language files.
// ---------------------------------------------------------------------------

/// The page `k` of `m`, empty when `m` has none.
pub open spec fn page_of(m: LocView, k: Seq<char>) -> Map<Seq<char>, Seq<char>> {
    if m.contains_key(k) {
        m[k]
    } else {
        Map::empty()
    }
}

/// `acc` with the pages of `new` merged in, entries of `new` replacing those of `acc`.
pub open spec fn merge_pages(acc: LocView, new: LocView) -> LocView {
    Map::new(
        |k: Seq<char>| acc.contains_key(k) || new.contains_key(k),
        |k: Seq<char>| page_of(acc, k).union_prefer_right(page_of(new, k)),
    )
}

/// The localization of a list of language files, in order; files that do not parse
/// are passed over.
pub open spec fn localization_of_files(contents: Seq<Seq<char>>, lang_id: Seq<char>) -> LocView
    decreases contents.len(),
{
    if contents.len() == 0 {
        Map::empty()
    } else {
        let prev = localization_of_files(contents.drop_last(), lang_id);
        match localization_in(xml_events(contents.last()), lang_id) {
            Some(l) => merge_pages(prev, l),
            None => prev,
        }
    }
}

proof fn lemma_page_of_merge(x: LocView, y: LocView, k: Seq<char>)
    ensures
        page_of(merge_pages(x, y), k) == page_of(x, k).union_prefer_right(page_of(y, k)),
{
    if !x.contains_key(k) && !y.contains_key(k) {
        assert(page_of(x, k).union_prefer_right(page_of(y, k)) =~= Map::<Seq<char>, Seq<char>>::empty());
    }
}

proof fn lemma_merge_assoc(x: LocView, y: LocView, z: LocView)
    ensures
        merge_pages(merge_pages(x, y), z) == merge_pages(x, merge_pages(y, z)),
{
    let l = merge_pages(merge_pages(x, y), z);
    let r = merge_pages(x, merge_pages(y, z));
    assert forall|k: Seq<char>| #[trigger] l.contains_key(k) implies r.contains_key(k) && l[k] == r[k] by {
        lemma_page_of_merge(x, y, k);
        lemma_page_of_merge(y, z, k);
        let (px, py, pz) = (page_of(x, k), page_of(y, k), page_of(z, k));
        assert(px.union_prefer_right(py).union_prefer_right(pz) =~= px.union_prefer_right(
            py.union_prefer_right(pz),
        ));
    }
    assert(l.dom() =~= r.dom());
    assert(l =~= r);
}

proof fn lemma_merge_empty(x: LocView)
    ensures
        merge_pages(x, Map::empty()) == x,
{
    let m = merge_pages(x, Map::empty());
    assert forall|k: Seq<char>| #[trigger] m.contains_key(k) implies m[k] == x[k] by {
        assert(page_of(x, k).union_prefer_right(Map::empty()) =~= x[k]);
    }
    assert(m =~= x);
}

/// The localization of two lists of language files one after the other is the merge of
/// their localizations: all pages of both, within a page the entries of the later files
/// replacing those of the earlier ones.
pub proof fn law_localization_of_concatenation(a: Seq<Seq<char>>, b: Seq<Seq<char>>, lang_id: Seq<char>)
    ensures
        localization_of_files(a + b, lang_id) == merge_pages(
            localization_of_files(a, lang_id),
            localization_of_files(b, lang_id),
        ),
    decreases b.len(),
{
    if b.len() == 0 {
        assert(a + b =~= a);
        lemma_merge_empty(localization_of_files(a, lang_id));
    } else {
        law_localization_of_concatenation(a, b.drop_last(), lang_id);
        assert((a + b).drop_last() =~= a + b.drop_last());
        assert((a + b).last() == b.last());
        match localization_in(xml_events(b.last()), lang_id) {
            Some(l) => {
                lemma_merge_assoc(
                    localization_of_files(a, lang_id),
                    localization_of_files(b.drop_last(), lang_id),
                    l,
                );
            },
            None => {},
        }
    }
}

/// Merges one page into `acc` (`entry(id).or_insert_with(HashMap::new).extend(page)`).
fn merge_page(acc: &mut Localization, id: String, page: StrMap<String>)
    ensures
        final(acc)@ == old(acc)@.insert(id@, page_of(old(acc)@, id@).union_prefer_right(page@)),
{
    let ic = crate::text::chars_of(id.as_str());
    match acc.index_of(ic.as_slice()) {
        Some(i) => {
            let mut cur = acc.replace_value(i, StrMap::new());
            cur.extend(page);
            acc.replace_value(i, cur);
        },
        None => {
            let mut cur: StrMap<String> = StrMap::new();
            cur.extend(page);
            acc.insert(id, cur);
        },
    }
}

/// Merges the pages of `new` into `acc`.
fn merge_localization(acc: &mut Localization, new: Localization)
    ensures
        final(acc)@ == merge_pages(old(acc)@, new@),
{
    proof {
        use_type_invariant(&new);
        new.lemma_view_facts();
    }
    let ghost om = new@;
    let ghost ks = new.key_seq();
    let ghost vs = new.val_seq();
    let ghost start = acc@;
    proof {
        assert forall|a: int, b: int| 0 <= a < b < ks.len() implies ks[a] != ks[b] by {
            crate::strmap::lemma_lex_irreflexive(ks[a]);
        }
    }
    let (names, mut pages) = new.into_parts();
    let n = names.len();
    let mut i: usize = n;
    // Pages are taken from the back; their ids are distinct so the order is free.
    while i > 0
        invariant
            i <= n,
            n == names@.len(),
            pages@.len() == i,
            forall|j: int| 0 <= j < n ==> (#[trigger] names@[j])@ == ks[j],
            forall|j: int| 0 <= j < i ==> (#[trigger] pages@[j])@ == vs[j],
            ks.len() == n,
            vs.len() == n,
            forall|j: int| 0 <= j < n ==> #[trigger] om.contains_key(ks[j]) && om[ks[j]] == vs[j],
            forall|k: Seq<char>| #[trigger] om.contains_key(k) ==> exists|j: int| 0 <= j < n && ks[j] == k,
            forall|a: int, b: int| 0 <= a < b < n ==> ks[a] != ks[b],
            acc@ == Map::new(
                |k: Seq<char>| start.contains_key(k) || exists|j: int| i <= j < n && ks[j] == k,
                |k: Seq<char>| if exists|j: int| i <= j < n && ks[j] == k {
                    page_of(start, k).union_prefer_right(om[k])
                } else {
                    start[k]
                },
            ),
        decreases i,
    {
        let p = pages.pop().unwrap();
        let k = names[i - 1].clone();
        proof {
            assert(p@ == vs[i - 1]);
            assert(k@ == ks[i - 1]);
            assert(om.contains_key(ks[i - 1]));
        }
        let ghost before = acc@;
        merge_page(acc, k, p);
        proof {
            let kk = ks[i - 1];
            assert(page_of(before, kk) == page_of(start, kk)) by {
                if before.contains_key(kk) && !start.contains_key(kk) {
                    let j = choose|j: int| i <= j < n && ks[j] == kk;
                }
                if before.contains_key(kk) {
                    if exists|j: int| i <= j < n && ks[j] == kk {
                        let j = choose|j: int| i <= j < n && ks[j] == kk;
                        assert(false);
                    }
                }
            }
            assert(acc@ =~= Map::new(
                |k: Seq<char>| start.contains_key(k) || exists|j: int| i - 1 <= j < n && ks[j] == k,
                |k: Seq<char>| if exists|j: int| i - 1 <= j < n && ks[j] == k {
                    page_of(start, k).union_prefer_right(om[k])
                } else {
                    start[k]
                },
            )) by {
                assert forall|x: Seq<char>| #[trigger] acc@.contains_key(x) == (start.contains_key(x) || exists|j: int| i - 1 <= j < n && ks[j] == x) by {
                    if x != kk && (exists|j: int| i - 1 <= j < n && ks[j] == x) {
                        let j = choose|j: int| i - 1 <= j < n && ks[j] == x;
                        assert(i <= j);
                    }
                    if x == kk {
                        assert(ks[i - 1] == x);
                    }
                }
                assert forall|x: Seq<char>| acc@.contains_key(x) implies #[trigger] acc@[x] == (if exists|j: int| i - 1 <= j < n && ks[j] == x {
                    page_of(start, x).union_prefer_right(om[x])
                } else {
                    start[x]
                }) by {
                    if x == kk {
                        assert(ks[i - 1] == x);
                        assert(om[ks[i - 1]] == vs[i - 1]);
                    } else if exists|j: int| i - 1 <= j < n && ks[j] == x {
                        let j = choose|j: int| i - 1 <= j < n && ks[j] == x;
                        assert(i <= j);
                    }
                }
            }
        }
        i -= 1;
    }
    proof {
        assert(acc@ =~= merge_pages(start, om)) by {
            assert forall|x: Seq<char>| #[trigger] acc@.contains_key(x) == merge_pages(start, om).contains_key(x) by {
                if om.contains_key(x) {
                    let j = choose|j: int| 0 <= j < n && ks[j] == x;
                }
            }
            assert forall|x: Seq<char>| acc@.contains_key(x) implies #[trigger] acc@[x] == merge_pages(start, om)[x] by {
                if om.contains_key(x) {
                    let j = choose|j: int| 0 <= j < n && ks[j] == x;
                } else {
                    if exists|j: int| 0 <= j < n && ks[j] == x {
                        let j = choose|j: int| 0 <= j < n && ks[j] == x;
                        assert(om.contains_key(ks[j]));
                    }
                    assert(page_of(om, x) =~= Map::<Seq<char>, Seq<char>>::empty());
                    assert(page_of(start, x).union_prefer_right(page_of(om, x)) =~= start[x]);
                }
            }
        }
    }
}

/// All localization pages of the language files, for language `lang_id`; later files
/// add to and override the entries of earlier ones, and files that do not parse are
/// passed over.
pub fn extract_all_localization(xml_entries: &[XmlEntry], lang_id: &str) -> (m: Localization)
    ensures
        m@ == localization_of_files(crate::extractors::wares::contents_of(xml_entries@), lang_id@),
{
    let ghost cs = crate::extractors::wares::contents_of(xml_entries@);
    let mut localization: Localization = StrMap::new();
    let mut i: usize = 0;
    while i < xml_entries.len()
        invariant
            i <= xml_entries@.len(),
            cs == crate::extractors::wares::contents_of(xml_entries@),
            localization@ == localization_of_files(cs.take(i as int), lang_id@),
        decreases xml_entries.len() - i,
    {
        proof {
            assert(cs.take(i + 1).drop_last() =~= cs.take(i as int));
            assert(cs.take(i + 1).last() == xml_entries@[i as int].content@);
        }
        match extract_localization(xml_entries[i].content.as_str(), lang_id) {
            Ok(loc) => merge_localization(&mut localization, loc),
            Err(_) => {},
        }
        i += 1;
    }
    proof {
        assert(cs.take(xml_entries@.len() as int) =~= cs);
    }
    localization
}

// ---------------------------------------------------------------------------
// Names given by `identification` elements.
// ---------------------------------------------------------------------------

/// The display name of a name reference: resolved through the localization, then cleaned.
pub open spec fn display_name(name_ref: Seq<char>, loc: LocView) -> Seq<char> {
    cleaned(resolved_name(name_ref, loc))
}

/// State of a scan for the names of owner elements.
pub struct IdentScan {
    /// The key of the owner element being read.
    pub owner: Option<Seq<char>>,
    pub out: Map<Seq<char>, Seq<char>>,
}

pub open spec fn ident_key(owner: Seq<char>, lowercase: bool) -> Seq<char> {
    if lowercase {
        lower(owner)
    } else {
        owner
    }
}

pub open spec fn ident_element(
    tag: Seq<char>,
    key_attr: Seq<char>,
    lowercase: bool,
    loc: LocView,
    st: IdentScan,
    e: ElementView,
) -> IdentScan {
    if e.name == tag {
        match attr_of(e.attrs, key_attr) {
            Some(v) => IdentScan { owner: Some(v), ..st },
            None => st,
        }
    } else if e.name == "identification"@ {
        match (st.owner, attr_of(e.attrs, "name"@)) {
            (Some(o), Some(n)) => IdentScan {
                out: st.out.insert(ident_key(o, lowercase), display_name(n, loc)),
                ..st
            },
            _ => st,
        }
    } else {
        st
    }
}

/// One event: an owner element `tag` sets the owner's key from attribute `key_attr`, an
/// `identification` element inside it names the owner, the owner's end tag closes it.
pub open spec fn ident_step(
    tag: Seq<char>,
    key_attr: Seq<char>,
    lowercase: bool,
    loc: LocView,
    st: IdentScan,
    ev: EventView,
) -> IdentScan {
    match ev {
        EventView::Start(e) => ident_element(tag, key_attr, lowercase, loc, st, e),
        EventView::Empty(e) => ident_element(tag, key_attr, lowercase, loc, st, e),
        EventView::End(n) => if n == tag {
            IdentScan { owner: None, ..st }
        } else {
            st
        },
        _ => st,
    }
}

/// The names found in one event stream, added to `m0`.
pub open spec fn ident_names_in(
    evs: Seq<EventView>,
    tag: Seq<char>,
    key_attr: Seq<char>,
    lowercase: bool,
    loc: LocView,
    m0: Map<Seq<char>, Seq<char>>,
) -> Map<Seq<char>, Seq<char>> {
    fold_events(
        evs,
        IdentScan { owner: None, out: m0 },
        |s: IdentScan, e: EventView| ident_step(tag, key_attr, lowercase, loc, s, e),
    ).out
}

/// The names found in the files whose name contains `file_pat`, in order.
pub open spec fn ident_names_of_files(
    entries: Seq<XmlEntry>,
    file_pat: Seq<char>,
    tag: Seq<char>,
    key_attr: Seq<char>,
    lowercase: bool,
    loc: LocView,
) -> Map<Seq<char>, Seq<char>>
    decreases entries.len(),
{
    if entries.len() == 0 {
        Map::empty()
    } else {
        let prev = ident_names_of_files(entries.drop_last(), file_pat, tag, key_attr, lowercase, loc);
        if contains(entries.last().name@, file_pat) {
            ident_names_in(xml_events(entries.last().content@), tag, key_attr, lowercase, loc, prev)
        } else {
            prev
        }
    }
}

/// The display name of `name_ref`.
pub fn display_name_of(name_ref: &str, localization: &Localization) -> (r: String)
    ensures
        r@ == display_name(name_ref@, localization@),
{
    let resolved = resolve_name(name_ref, localization);
    clean_name(resolved.as_str())
}

fn ident_key_of(owner: &String, lowercase: bool) -> (r: String)
    ensures
        r@ == ident_key(owner@, lowercase),
{
    if lowercase {
        to_lower(owner.as_str())
    } else {
        owner.clone()
    }
}

/// Adds to `out` the names that the `identification` elements of one file give.
pub fn scan_identification(
    events: &[XmlEvent],
    tag: &str,
    key_attr: &str,
    lowercase: bool,
    localization: &Localization,
    out: &mut StrMap<String>,
)
    ensures
        final(out)@ == ident_names_in(views(events@), tag@, key_attr@, lowercase, localization@, old(out)@),
{
    let ghost evs = views(events@);
    let ghost m0 = out@;
    let mut owner: Option<String> = None;
    let mut i: usize = 0;
    while i < events.len()
        invariant
            i <= events@.len(),
            evs == views(events@),
            fold_events(
                evs.take(i as int),
                IdentScan { owner: None, out: m0 },
                |s: IdentScan, e: EventView| ident_step(tag@, key_attr@, lowercase, localization@, s, e),
            ) == (IdentScan {
                owner: match owner {
                    Some(o) => Some(o@),
                    None => None,
                },
                out: out@,
            }),
        decreases events.len() - i,
    {
        proof {
            lemma_fold_events_next(
                evs,
                i as int,
                IdentScan { owner: None, out: m0 },
                |s: IdentScan, e: EventView| ident_step(tag@, key_attr@, lowercase, localization@, s, e),
            );
            assert(evs[i as int] == events@[i as int]@);
        }
        match &events[i] {
            XmlEvent::Start(e) | XmlEvent::Empty(e) => {
                if e.is(tag) {
                    match e.attr(key_attr) {
                        Some(v) => {
                            owner = Some(v.clone());
                        },
                        None => {},
                    }
                } else if e.is("identification") {
                    match (&owner, e.attr("name")) {
                        (Some(o), Some(n)) => {
                            let key = ident_key_of(o, lowercase);
                            let name = display_name_of(n.as_str(), localization);
                            out.insert(key, name);
                        },
                        _ => {},
                    }
                }
            },
            XmlEvent::End(n) => {
                if str_eq(n.as_str(), tag) {
                    owner = None;
                }
            },
            _ => {},
        }
        i += 1;
    }
    proof {
        assert(evs.take(events@.len() as int) =~= evs);
    }
}

/// Adds to `out` the names of all files whose name contains `file_pat`.
pub fn names_from_files(
    xml_entries: &[XmlEntry],
    file_pat: &str,
    tag: &str,
    key_attr: &str,
    lowercase: bool,
    localization: &Localization,
) -> (m: StrMap<String>)
    ensures
        m@ == ident_names_of_files(xml_entries@, file_pat@, tag@, key_attr@, lowercase, localization@),
{
    let mut out: StrMap<String> = StrMap::new();
    let mut i: usize = 0;
    while i < xml_entries.len()
        invariant
            i <= xml_entries@.len(),
            out@ == ident_names_of_files(
                xml_entries@.take(i as int),
                file_pat@,
                tag@,
                key_attr@,
                lowercase,
                localization@,
            ),
        decreases xml_entries.len() - i,
    {
        proof {
            assert(xml_entries@.take(i + 1).drop_last() =~= xml_entries@.take(i as int));
            assert(xml_entries@.take(i + 1).last() == xml_entries@[i as int]);
        }
        if str_contains(xml_entries[i].name.as_str(), file_pat) {
            let events = tokenize(xml_entries[i].content.as_str());
            scan_identification(events.as_slice(), tag, key_attr, lowercase, localization, &mut out);
        }
        i += 1;
    }
    proof {
        assert(xml_entries@.take(xml_entries@.len() as int) =~= xml_entries@);
    }
    out
}

/// Names of components (stations, ships, ...) from the macro files: each macro's
/// `identification` name, resolved and cleaned, under the lower-cased macro name.
pub fn extract_component_names(xml_entries: &[XmlEntry], localization: &Localization) -> (m: StrMap<String>)
    ensures
        m@ == ident_names_of_files(xml_entries@, "macros"@, "macro"@, "name"@, true, localization@),
{
    names_from_files(xml_entries, "macros", "macro", "name", true, localization)
}

} // verus!
