use x4_trading::api::sector_detail::helpers::{
    build_factory_name, capitalize_first, capitalize_words, factory_name_of, to_roman,
};
use x4_trading::parsers::game_xml::{clean_name, extract_localization, resolve_name, Localization};
use x4_trading::strmap::StrMap;

fn loc_with(entries: &[(&str, &str, &str)]) -> Localization {
    let mut loc: Localization = StrMap::new();
    for (page, id, text) in entries {
        let mut p: StrMap<String> = match loc.get(page) {
            Some(existing) => {
                let mut copy: StrMap<String> = StrMap::new();
                let (ks, vs) = clone_parts(existing);
                for (k, v) in ks.into_iter().zip(vs) {
                    copy.insert(k, v);
                }
                copy
            }
            None => StrMap::new(),
        };
        p.insert(id.to_string(), text.to_string());
        loc.insert(page.to_string(), p);
    }
    loc
}

fn clone_parts(m: &StrMap<String>) -> (Vec<String>, Vec<String>) {
    let mut ks = Vec::new();
    let mut vs = Vec::new();
    for i in 0..m.len() {
        ks.push(m.key_at(i));
        vs.push(m.value_at(i).clone());
    }
    (ks, vs)
}

#[test]
fn roman_numerals_of_small_numbers() {
    assert_eq!(to_roman(0), "");
    assert_eq!(to_roman(1), "I");
    assert_eq!(to_roman(3), "III");
    assert_eq!(to_roman(4), "IV");
    assert_eq!(to_roman(5), "V");
    assert_eq!(to_roman(8), "VIII");
    assert_eq!(to_roman(9), "IX");
    assert_eq!(to_roman(14), "XIV");
    assert_eq!(to_roman(19), "XIX");
    assert_eq!(to_roman(24), "XXIV");
}

#[test]
fn roman_numerals_have_no_l_or_c() {
    assert_eq!(to_roman(40), "XXXX");
    assert_eq!(to_roman(49), "XXXXIX");
    assert_eq!(to_roman(100).len(), 10);
}

#[test]
fn capitalize_words_splits_on_whitespace() {
    assert_eq!(capitalize_words("hull parts"), "Hull Parts");
    assert_eq!(capitalize_words("  advanced   composites "), "Advanced Composites");
    assert_eq!(capitalize_words(""), "");
    assert_eq!(capitalize_words("   "), "");
    assert_eq!(capitalize_words("already Upper"), "Already Upper");
    assert_eq!(capitalize_words("a\tb\nc"), "A B C");
}

#[test]
fn capitalize_words_uses_unicode_upper_case() {
    assert_eq!(capitalize_words("ärger über"), "Ärger Über");
    assert_eq!(capitalize_words("ßtraße"), "SStraße");
}

#[test]
fn capitalize_first_only_touches_first_char() {
    assert_eq!(capitalize_first("hullparts"), "Hullparts");
    assert_eq!(capitalize_first(""), "");
    assert_eq!(capitalize_first("x"), "X");
}

#[test]
fn factory_name_from_entry_and_index() {
    let names: StrMap<String> = StrMap::new();
    assert_eq!(build_factory_name("arg_hullparts", 1, &names), "ARG Hull Parts Factory I");
    assert_eq!(
        build_factory_name("tel_advanced_composites", 3, &names),
        "TEL Advanced Composites Factory III"
    );
    assert_eq!(build_factory_name("par_x", 0, &names), "PAR X Factory ");
    assert_eq!(factory_name_of("bor_energycells", 12), "BOR Energycells Factory XII");
}

#[test]
fn factory_name_splits_a_parts_tail() {
    assert_eq!(factory_name_of("tel_weaponcomponents", 1), "TEL Weaponcomponents Factory I");
    assert_eq!(factory_name_of("arg_advancedcomposites", 2), "ARG Advancedcomposites Factory II");
    assert_eq!(factory_name_of("arg_engine_parts", 1), "ARG Engine Parts Factory I");
    assert_eq!(factory_name_of("arg_parts", 1), "ARG Parts Factory I");
    assert_eq!(factory_name_of("arg_hullpartsx", 1), "ARG Hullpartsx Factory I");
    assert_eq!(factory_name_of("arg_microchips", 1), "ARG Microchips Factory I");
    assert_eq!(factory_name_of("arg_engineparts", 3), "ARG Engine Parts Factory III");
}

#[test]
fn factory_name_without_underscore_is_entry() {
    let names: StrMap<String> = StrMap::new();
    assert_eq!(build_factory_name("plain", 2, &names), "plain");
    assert_eq!(build_factory_name("", 2, &names), "");
}

#[test]
fn factory_name_with_empty_parts() {
    let names: StrMap<String> = StrMap::new();
    assert_eq!(build_factory_name("arg_", 1, &names), "ARG  Factory I");
    assert_eq!(build_factory_name("_x", 1, &names), " X Factory I");
}

#[test]
fn resolve_name_looks_up_page_and_entry() {
    let loc = loc_with(&[("20104", "1001", "Argon Prime")]);
    assert_eq!(resolve_name("{20104,1001}", &loc), "Argon Prime");
    assert_eq!(resolve_name("Sector {20104,1001}!", &loc), "Sector Argon Prime!");
    assert_eq!(resolve_name("{ 20104 , 1001 }", &loc), "Argon Prime");
}

#[test]
fn resolve_name_resolves_nested_references() {
    let loc = loc_with(&[("20104", "1001", "{20104,1002} Prime"), ("20104", "1002", "Argon")]);
    assert_eq!(resolve_name("{20104,1001}", &loc), "Argon Prime");
}

#[test]
fn resolve_name_keeps_inner_text_when_missing() {
    let loc = loc_with(&[("20104", "1001", "Argon Prime")]);
    assert_eq!(resolve_name("{20104,9999}", &loc), "20104,9999");
    assert_eq!(resolve_name("{abc}", &loc), "abc");
    assert_eq!(resolve_name("{ 1 , 2 }", &loc), "1 , 2");
    assert_eq!(resolve_name("no refs here", &loc), "no refs here");
    assert_eq!(resolve_name("", &loc), "");
}

#[test]
fn clean_name_removes_voice_hints() {
    assert_eq!(clean_name("Argon Prime (speak as Argon Prime)"), "Argon Prime");
    assert_eq!(clean_name("Hatikvah (Voice: hat-ik-vah)"), "Hatikvah");
    assert_eq!(clean_name("Hatikvah (SPEAK slowly)"), "Hatikvah");
}

#[test]
fn clean_name_hint_matching_follows_case_folding() {
    assert_eq!(clean_name("Name (\u{17F}PEAK softly)"), "Name");
    assert_eq!(clean_name("Name (spea\u{212A} x)"), "Name");
    assert_eq!(clean_name("Hatikvah (voice x)"), "Hatikvah (voice x)");
    assert_eq!(clean_name("A (speak no close"), "A (speak no close");
    assert_eq!(clean_name("(Speak) B (VOICE:x)C"), "B C");
}

#[test]
fn clean_name_collapses_duplicates() {
    assert_eq!(clean_name("Name(Name)"), "Name");
    assert_eq!(clean_name("Name (Name)"), "Name");
    assert_eq!(clean_name("Name ( Name )"), "Name");
    assert_eq!(clean_name("Name (Other)"), "Name (Other)");
}

#[test]
fn clean_name_tidies_spaces_and_empty_parens() {
    assert_eq!(clean_name("  A   B  "), "A B");
    assert_eq!(clean_name("X ()"), "X");
    assert_eq!(clean_name(""), "");
}

#[test]
fn localization_reads_pages_of_matching_language() {
    let xml = r#"<language id="44"><page id="20104"><t id="1001">Argon Prime</t><t id="1002">Home &amp; Away</t></page></language>"#;
    let loc = extract_localization(xml, "44").ok().unwrap();
    let page = loc.get("20104").unwrap();
    assert_eq!(page.get("1001").unwrap(), "Argon Prime");
    assert_eq!(page.get("1002").unwrap(), "Home & Away");
    assert_eq!(page.len(), 2);
}

#[test]
fn localization_skips_other_languages_but_keeps_pages() {
    let xml = r#"<language id="49"><page id="20104"><t id="1001">Argon Prim</t></page></language>"#;
    let loc = extract_localization(xml, "44").ok().unwrap();
    assert_eq!(loc.get("20104").unwrap().len(), 0);
}

#[test]
fn localization_without_language_id_accepts_entries() {
    let xml = r#"<page id="7"><t id="1">One</t></page>"#;
    let loc = extract_localization(xml, "44").ok().unwrap();
    assert_eq!(loc.get("7").unwrap().get("1").unwrap(), "One");
}

#[test]
fn localization_rejects_malformed_xml() {
    let xml = r#"<language id="44"><page id="1"></language>"#;
    assert!(extract_localization(xml, "44").is_err());
}
