use vstd::prelude::*;
use crate::text::{chars_of, owned, string_of};

verus! {

/// A request to load game data and a save.
pub struct InitRequest {
    pub game_path: String,
    pub saves_dir: String,
    pub selected_save: String,
    pub lang_id: String,
}

/// The outcome of loading.
pub struct InitResponse {
    pub success: bool,
    pub message: String,
}

/// The language used when the request names none: English, `44`.
pub fn default_lang_id() -> (r: String)
    ensures
        r@ == "44"@,
{
    owned("44")
}

/// The path of the selected save: the saves directory and the file name joined by `\`.
pub fn save_path_of(saves_dir: &str, selected_save: &str) -> (r: String)
    ensures
        r@ == saves_dir@ + seq!['\\'] + selected_save@,
{
    let mut out = chars_of(saves_dir);
    out.push('\\');
    let sc = chars_of(selected_save);
    crate::text::append_chars(&mut out, sc.as_slice());
    proof {
        assert(out@ =~= saves_dir@ + seq!['\\'] + selected_save@);
    }
    string_of(out.as_slice())
}

} // verus!
