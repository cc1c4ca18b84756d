use vstd::prelude::*;
use crate::models::{Sector, SectorView};
use crate::sorting::{reorder, sort_by_keys_with, sort_order_by, strict_weak_order, views_of};
use crate::strmap::{lemma_lex_asymmetric, lemma_lex_irreflexive, lemma_lex_total, lemma_lex_transitive, lex_less, lex_lt};
use crate::text::{chars_of, ends_with, str_eq, str_ends_with};

verus! {

/// The last-used game and saves paths, where known.
pub struct LastPathsResponse {
    pub game_path: Option<String>,
    pub saves_dir: Option<String>,
}

/// Whether game data and a save are loaded.
pub struct StatusResponse {
    pub initialized: bool,
}

/// A request to list the saves of a directory.
pub struct ListSavesRequest {
    pub saves_dir: String,
}

/// A save file with its modification time, as text and as seconds since the epoch.
pub struct SaveFileInfo {
    pub filename: String,
    pub modified: Option<String>,
    pub modified_timestamp: Option<u64>,
}

/// A request for the map of a sector, by code or name.
pub struct SectorMapRequest {
    pub sector_code: String,
}

/// Save files are `.xml` or `.xml.gz` files.
pub open spec fn save_file_name(n: Seq<char>) -> bool {
    ends_with(n, ".xml.gz"@) || ends_with(n, ".xml"@)
}

/// Whether a file name is that of a save.
pub fn is_save_file_name(name: &str) -> (b: bool)
    ensures
        b == save_file_name(name@),
{
    str_ends_with(name, ".xml.gz") || str_ends_with(name, ".xml")
}

/// The order of the saves list: files without a modification time first, by name
/// descending; then newest first.
pub open spec fn save_before() -> spec_fn((Option<u64>, Seq<char>), (Option<u64>, Seq<char>)) -> bool {
    |a: (Option<u64>, Seq<char>), b: (Option<u64>, Seq<char>)|
        match (a.0, b.0) {
            (None, None) => lex_lt(b.1, a.1),
            (None, Some(_)) => true,
            (Some(_), None) => false,
            (Some(x), Some(y)) => y < x,
        }
}

/// The saves order is a strict weak order.
pub proof fn lemma_save_before()
    ensures
        strict_weak_order(save_before()),
{
    let lt = save_before();
    crate::sorting::lemma_lex_order();
    let lex = crate::sorting::lex_order();
    assert forall|a: (Option<u64>, Seq<char>)| !(#[trigger] lt(a, a)) by {
        lemma_lex_irreflexive(a.1);
    }
    assert forall|a: (Option<u64>, Seq<char>), b: (Option<u64>, Seq<char>), c: (Option<u64>, Seq<char>)|
        #[trigger] lt(a, b) && #[trigger] lt(b, c) implies lt(a, c) by {
        if a.0 is None && b.0 is None && c.0 is None {
            lemma_lex_transitive(c.1, b.1, a.1);
        }
    }
    assert forall|a: (Option<u64>, Seq<char>), b: (Option<u64>, Seq<char>), c: (Option<u64>, Seq<char>)|
        !(#[trigger] lt(a, b)) && !(#[trigger] lt(b, c)) implies !lt(a, c) by {
        if a.0 is None && b.0 is None && c.0 is None {
            assert(!lex(c.1, b.1) && !lex(b.1, a.1) ==> !lex(c.1, a.1));
        }
    }
}

/// The sort key of a save file.
pub struct SaveKey {
    pub ts: Option<u64>,
    pub name: Vec<char>,
}

impl View for SaveKey {
    type V = (Option<u64>, Seq<char>);

    open spec fn view(&self) -> (Option<u64>, Seq<char>) {
        (self.ts, self.name@)
    }
}

fn save_key_less(a: &SaveKey, b: &SaveKey) -> (r: bool)
    ensures
        r == save_before()(a@, b@),
{
    match (a.ts, b.ts) {
        (None, None) => lex_less(b.name.as_slice(), a.name.as_slice()),
        (None, Some(_)) => true,
        (Some(_), None) => false,
        (Some(x), Some(y)) => y < x,
    }
}

/// The sort key of a save file's entry.
pub open spec fn save_key(f: SaveFileInfo) -> (Option<u64>, Seq<char>) {
    (f.modified_timestamp, f.filename@)
}

/// Orders the saves list (see `save_before`), stably.
pub fn sort_save_files(files: Vec<SaveFileInfo>) -> (r: Vec<SaveFileInfo>)
    ensures
        r@ == reorder(files@, sort_order_by(files@.map_values(|f: SaveFileInfo| save_key(f)), save_before())),
{
    let mut keys: Vec<SaveKey> = Vec::new();
    let mut i: usize = 0;
    while i < files.len()
        invariant
            i <= files@.len(),
            keys@.len() == i,
            forall|j: int| 0 <= j < i ==> (#[trigger] keys@[j])@ == save_key(files@[j]),
        decreases files.len() - i,
    {
        keys.push(SaveKey { ts: files[i].modified_timestamp, name: chars_of(files[i].filename.as_str()) });
        i += 1;
    }
    proof {
        assert(views_of(keys@) =~= files@.map_values(|f: SaveFileInfo| save_key(f)));
        lemma_save_before();
    }
    let less = |a: &SaveKey, b: &SaveKey| -> (r: bool)
        ensures
            r == save_before()(a@, b@),
        { save_key_less(a, b) };
    sort_by_keys_with(files, keys.as_slice(), &less, Ghost(save_before()))
}

/// The position of the first sector whose code or name is `key`.
pub open spec fn sector_matching(sectors: Seq<SectorView>, key: Seq<char>) -> Option<int>
    decreases sectors.len(),
{
    if sectors.len() == 0 {
        None
    } else {
        match sector_matching(sectors.drop_last(), key) {
            Some(i) => Some(i),
            None => if sectors.last().code == key || sectors.last().name == key {
                Some(sectors.len() - 1)
            } else {
                None
            },
        }
    }
}

/// The first sector whose code or name is `key`.
pub fn find_sector(sectors: &[Sector], key: &str) -> (r: Option<usize>)
    ensures
        match r {
            Some(i) => sector_matching(sectors@.map_values(|s: Sector| s@), key@) == Some(i as int)
                && i < sectors@.len(),
            None => sector_matching(sectors@.map_values(|s: Sector| s@), key@) is None,
        },
{
    let ghost sv = sectors@.map_values(|s: Sector| s@);
    let mut i: usize = 0;
    while i < sectors.len()
        invariant
            i <= sectors@.len(),
            sv == sectors@.map_values(|s: Sector| s@),
            sector_matching(sv.take(i as int), key@) is None,
        decreases sectors.len() - i,
    {
        proof {
            assert(sv.take(i + 1).drop_last() =~= sv.take(i as int));
            assert(sv.take(i + 1).last() == sectors@[i as int]@);
        }
        if str_eq(sectors[i].code.as_str(), key) || str_eq(sectors[i].name.as_str(), key) {
            proof {
                lemma_matching_prefix(sv, i + 1, key@);
            }
            return Some(i);
        }
        i += 1;
    }
    proof {
        assert(sv.take(sectors@.len() as int) =~= sv);
    }
    None
}

proof fn lemma_matching_prefix(sv: Seq<SectorView>, k: int, key: Seq<char>)
    requires
        0 <= k <= sv.len(),
        sector_matching(sv.take(k), key) is Some,
    ensures
        sector_matching(sv, key) == sector_matching(sv.take(k), key),
    decreases sv.len() - k,
{
    if k < sv.len() {
        assert(sv.take(k + 1).drop_last() =~= sv.take(k));
        lemma_matching_prefix(sv, k + 1, key);
    } else {
        assert(sv.take(k) =~= sv);
    }
}

/// The saves list comes in its order: no saved time before any, then newest first, and
/// among files without a time, names descending.
pub proof fn law_save_files_sorted(files: Seq<SaveFileInfo>)
    ensures
        ({
            let keys = files.map_values(|f: SaveFileInfo| save_key(f));
            let v = reorder(files, sort_order_by(keys, save_before()));
            forall|i: int, j: int| 0 <= i < j < v.len() ==> !save_before()(#[trigger] save_key(v[j]), #[trigger] save_key(v[i]))
        }),
{
    let keys = files.map_values(|f: SaveFileInfo| save_key(f));
    let o = sort_order_by(keys, save_before());
    lemma_save_before();
    crate::sorting::lemma_sort_order_by(keys, save_before());
    let v = reorder(files, o);
    assert forall|i: int, j: int| 0 <= i < j < v.len() implies !save_before()(
        #[trigger] save_key(v[j]),
        #[trigger] save_key(v[i]),
    ) by {
        assert(keys[o[j]] == save_key(files[o[j]]));
        assert(keys[o[i]] == save_key(files[o[i]]));
    }
}

} // verus!
