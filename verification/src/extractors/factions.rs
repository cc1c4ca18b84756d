use vstd::prelude::*;
use crate::extractors::localization::{ident_names_of_files, names_from_files};
use crate::parsers::game_xml::Localization;
use crate::parsers::cat_dat::XmlEntry;
use crate::strmap::StrMap;

verus! {

/// Faction names from the factions files (`libraries/factions.xml`): each faction's
/// `identification` name, resolved through the localization and cleaned, under the
/// faction id.
pub fn extract_faction_names(xml_entries: &[XmlEntry], localization: &Localization) -> (m: StrMap<String>)
    ensures
        m@ == ident_names_of_files(xml_entries@, "factions.xml"@, "faction"@, "id"@, false, localization@),
{
    names_from_files(xml_entries, "factions.xml", "faction", "id", false, localization)
}

} // verus!
