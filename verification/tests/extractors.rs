use x4_trading::extractors::factions::extract_faction_names;
use x4_trading::extractors::localization::{extract_all_localization, extract_component_names};
use x4_trading::extractors::sectors::{extract_sector_code_names, extract_sector_names};
use x4_trading::extractors::ships::{extract_ships, extract_ships_from_xml};
use x4_trading::extractors::wares::{extract_wares, extract_wares_from_xml};
use x4_trading::models::TransportType;
use x4_trading::parsers::cat_dat::XmlEntry;
use x4_trading::parsers::game_xml::Localization;
use x4_trading::strmap::StrMap;

fn entry(name: &str, content: &str) -> XmlEntry {
    XmlEntry { name: name.to_string(), content: content.to_string() }
}

fn names(pairs: &[(&str, &str)]) -> StrMap<String> {
    let mut m: StrMap<String> = StrMap::new();
    for (k, v) in pairs {
        m.insert(k.to_string(), v.to_string());
    }
    m
}

fn loc_page(page: &str, entries: &[(&str, &str)]) -> Localization {
    let mut loc: Localization = StrMap::new();
    loc.insert(page.to_string(), names(entries));
    loc
}

#[test]
fn wares_with_known_transport() {
    let xml = r#"<wares>
 <ware id="energycells" name="{20201,701}" transport="Container" volume="6"/>
 <ware id="ore" transport="solid" volume="10"><price min="1"/></ware>
 <ware id="ice" transport="LIQUID"/>
 <ware id="bad" transport="warp" volume="1"/>
 <ware transport="solid"/>
 <ware id="dup" transport="solid"/>
 <ware id="dup" transport="energy"/>
</wares>"#;
    let w = extract_wares_from_xml(xml);
    assert_eq!(w.len(), 4);
    let ec = w.get("energycells").unwrap();
    assert_eq!(ec.id, "energycells");
    assert_eq!(ec.transport, TransportType::Container);
    assert_eq!(ec.volume.as_deref(), Some("6"));
    assert_eq!(ec.name_ref.as_deref(), Some("{20201,701}"));
    assert_eq!(w.get("ore").unwrap().transport, TransportType::Solid);
    assert_eq!(w.get("ice").unwrap().transport, TransportType::Liquid);
    assert_eq!(w.get("ice").unwrap().volume, None);
    assert_eq!(w.get("dup").unwrap().transport, TransportType::Energy);
    assert!(w.get("bad").is_none());
}

#[test]
fn wares_first_file_wins_and_errors_keep_earlier_wares() {
    let entries = vec![
        entry("a.xml", r#"<w><ware id="ore" transport="solid"/></w>"#),
        entry("b.xml", r#"<w><ware id="ore" transport="liquid"/><ware id="x" transport="energy"/></w>"#),
        entry("c.xml", r#"<w><ware id="y" transport="container"/></z><ware id="z" transport="solid"/>"#),
    ];
    let w = extract_wares(&entries);
    assert_eq!(w.len(), 3);
    assert_eq!(w.get("ore").unwrap().transport, TransportType::Solid);
    assert_eq!(w.get("x").unwrap().transport, TransportType::Energy);
    assert_eq!(w.get("y").unwrap().transport, TransportType::Container);
    assert!(w.get("z").is_none());
}

#[test]
fn ship_macros_collect_cargo_facts() {
    let xml = r#"<macros>
<macro name="ship_arg_s_trans_01_macro" class="ship_s">
  <component ref="x"/>
  <properties>
    <cargo max="1000" tags="container"/>
    <storage capacity="3000" type="solid"/>
    <engine maxspeed="300" speed="abc"/>
  </properties>
</macro>
<macro name="station_macro"><cargo max="99"/></macro>
<macro name="Ship_Big_Macro"><x max="5"/></macro>
<macro name="ship_UPPER_macro"><x max="-5"/></macro>
</macros>"#;
    let s = extract_ships_from_xml(xml);
    assert_eq!(s.len(), 2);
    let m = s.get("ship_arg_s_trans_01_macro").unwrap();
    assert_eq!(m.cargo_capacity, Some(3000));
    assert_eq!(m.cargo_type.as_deref(), Some("Solid"));
    assert_eq!(m.speed_texts, vec![vec!["300".to_string(), "abc".to_string()]]);
    let u = s.get("ship_upper_macro").unwrap();
    assert_eq!(u.cargo_capacity, Some(0));
    assert_eq!(u.cargo_type, None);
    assert_eq!(u.speed_texts.len(), 0);
}

#[test]
fn ship_cargo_type_order_of_preference() {
    let xml = r#"<m><macro name="ship_a"><c tags="solid container"/></macro><macro name="ship_b"><c cargo="Energy"/><d type="nothing"/></macro></m>"#;
    let s = extract_ships_from_xml(xml);
    assert_eq!(s.get("ship_a").unwrap().cargo_type.as_deref(), Some("Container"));
    assert_eq!(s.get("ship_b").unwrap().cargo_type.as_deref(), Some("Energy"));
}

#[test]
fn ships_first_file_wins() {
    let entries = vec![
        entry("a.xml", r#"<m><macro name="ship_x"><c max="10"/></macro></m>"#),
        entry("b.xml", r#"<m><macro name="ship_x"><c max="20"/></macro><macro name="ship_y"><c max="1"/></macro></m>"#),
    ];
    let s = extract_ships(&entries);
    assert_eq!(s.len(), 2);
    assert_eq!(s.get("ship_x").unwrap().cargo_capacity, Some(10));
    assert_eq!(s.get("ship_y").unwrap().cargo_capacity, Some(1));
}

#[test]
fn localization_merged_across_files() {
    let entries = vec![
        entry("t/0001-l044.xml", r#"<language id="44"><page id="1"><t id="1">a</t><t id="2">b</t></page></language>"#),
        entry("t/0002-l044.xml", r#"<language id="44"><page id="1"><t id="2">c</t></page><page id="2"><t id="1">d</t></page></language>"#),
        entry("t/bad.xml", r#"<language id="44"><page id="3"><t id="1">e</t></page></x>"#),
        entry("t/0001-l049.xml", r#"<language id="49"><page id="4"><t id="1">f</t></page></language>"#),
    ];
    let loc = extract_all_localization(&entries, "44");
    assert_eq!(loc.get("1").unwrap().get("1").unwrap(), "a");
    assert_eq!(loc.get("1").unwrap().get("2").unwrap(), "c");
    assert_eq!(loc.get("2").unwrap().get("1").unwrap(), "d");
    assert!(loc.get("3").is_none());
    assert_eq!(loc.get("4").unwrap().len(), 0);
}

#[test]
fn component_names_from_macro_files() {
    let loc = loc_page("1", &[("1", "Alpha")]);
    let entries = vec![
        entry(
            "assets/units/size_s/macros/ship_a_macros.xml",
            r#"<macros><macro name="Ship_A_Macro"><identification name="{1,1}" /></macro><identification name="Orphan"/><macro name="station_b_macro"><properties><identification name="Plain Name (speak as X)"/></properties></macro></macros>"#,
        ),
        entry("libraries/wares.xml", r#"<macros><macro name="w"><identification name="W"/></macro></macros>"#),
    ];
    let cn = extract_component_names(&entries, &loc);
    assert_eq!(cn.len(), 2);
    assert_eq!(cn.get("ship_a_macro").unwrap(), "Alpha");
    assert_eq!(cn.get("station_b_macro").unwrap(), "Plain Name");
}

#[test]
fn faction_names_from_factions_file() {
    let loc = loc_page("2", &[("1", "Argon Federation")]);
    let entries = vec![
        entry(
            "libraries/factions.xml",
            r#"<factions><faction id="argon"><identification name="{2,1}"/></faction><faction id="xenon"/><identification name="Stray"/></factions>"#,
        ),
        entry("libraries/other.xml", r#"<factions><faction id="teladi"><identification name="T"/></faction></factions>"#),
    ];
    let f = extract_faction_names(&entries, &loc);
    assert_eq!(f.len(), 2);
    assert_eq!(f.get("argon").unwrap(), "Argon Federation");
    assert_eq!(f.get("xenon").unwrap(), "Stray");
    assert!(f.get("teladi").is_none());
}

#[test]
fn sector_names_from_dataset_properties() {
    let loc = loc_page("3", &[("1", "Grand Exchange")]);
    let entries = vec![entry(
        "libraries/mapdefaults.xml",
        r#"<datasets><dataset macro="Cluster_01_Sector001_macro"><properties><identification name="{3,1}"/></properties></dataset><dataset macro="c2_macro"><identification name="Outside"/></dataset><dataset macro="c3_macro"><properties><identification name="Third (speak as third)"/></properties></dataset></datasets>"#,
    )];
    let sn = extract_sector_names(&entries, &loc);
    assert_eq!(sn.len(), 2);
    assert_eq!(sn.get("cluster_01_sector001_macro").unwrap(), "Grand Exchange");
    assert_eq!(sn.get("c3_macro").unwrap(), "Third");
    assert!(sn.get("c2_macro").is_none());
}

#[test]
fn sector_code_names_at_universe_depth() {
    let sn = names(&[("sec_a_macro", "Alpha")]);
    let cn = names(&[("sec_d_macro", "Delta")]);
    let entries = vec![entry(
        "save.xml",
        r#"<savegame><universe><component class="galaxy" macro="g"><connections><connection><component class="cluster" macro="c"><connections><connection><component class="sector" code="AAA-1" macro="Sec_A_Macro"/></connection><connection><component class="sector" code="BBB-2" macro="sec_b_macro"></component></connection><connection><component class="sector" code="CCC-3" macro="Unknown_Macro"/><component class="sector" code="DDD-4" macro="sec_d_macro"/><component class="sector" code="AAA-1" macro="other"/><component class="zone" code="Z" macro="z"/></connection></connections></component></connection></connections></component></universe></savegame>"#,
    )];
    let m = extract_sector_code_names(&entries, &sn, &cn);
    assert_eq!(m.len(), 3);
    assert_eq!(m.get("AAA-1").unwrap(), "Alpha");
    assert_eq!(m.get("CCC-3").unwrap(), "Unknown_Macro");
    assert_eq!(m.get("DDD-4").unwrap(), "Delta");
    assert!(m.get("BBB-2").is_none());
    assert!(m.get("Z").is_none());
}
