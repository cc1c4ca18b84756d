use x4_trading::parsers::game_xml::Localization;
use x4_trading::parsers::save_xml::sectors::extract_sectors;
use x4_trading::parsers::save_xml::sectors::fallback::fallback_scan;
use x4_trading::parsers::save_xml::sectors::parser::parse_sectors;
use x4_trading::strmap::StrMap;

fn names(pairs: &[(&str, &str)]) -> StrMap<String> {
    let mut m: StrMap<String> = StrMap::new();
    for (k, v) in pairs {
        m.insert(k.to_string(), v.to_string());
    }
    m
}

fn loc_one(page: &str, id: &str, text: &str) -> Localization {
    let mut p: StrMap<String> = StrMap::new();
    p.insert(id.to_string(), text.to_string());
    let mut loc: Localization = StrMap::new();
    loc.insert(page.to_string(), p);
    loc
}

const GALAXY: &str = r#"<savegame><universe>
<component class="galaxy" macro="xu_ep2_universe_macro">
 <connections>
  <component class="cluster" macro="cluster_01_macro">
   <component class="sector" macro="Cluster_01_Sector001_macro" code="AAA-001" owner="argon">
     <component class="zone" macro="z1"/>
   </component>
   <component class="sector" macro="cluster_02_sector001_macro" code="BBB-002" owner="teladi"/>
   <component class="sector" macro="m3" code="CCC-003"/>
   <component class="sector" macro="m4" code="DDD-004"/>
   <component class="sector" macro="m5" code="AAA-001" owner="xenon"/>
   <component class="sector" code="EEE-005"/>
  </component>
 </connections>
</component></universe></savegame>"#;

#[test]
fn sectors_are_named_and_sorted_by_name() {
    let sn = names(&[("cluster_01_sector001_macro", "zeta")]);
    let cn = names(&[("cluster_02_sector001_macro", "Alpha")]);
    let codes = names(&[("CCC-003", "beta")]);
    let loc: Localization = StrMap::new();
    let sectors = extract_sectors(GALAXY, &sn, &cn, &codes, &loc).ok().unwrap();
    let got: Vec<(&str, &str, Option<&str>)> = sectors
        .iter()
        .map(|s| (s.code.as_str(), s.name.as_str(), s.owner.as_deref()))
        .collect();
    assert_eq!(
        got,
        vec![
            ("BBB-002", "Alpha", Some("teladi")),
            ("CCC-003", "beta", None),
            ("DDD-004", "DDD-004", None),
            ("AAA-001", "zeta", Some("argon")),
        ]
    );
    assert_eq!(sectors[3].macro_name, "Cluster_01_Sector001_macro");
}

#[test]
fn sectors_in_document_order_before_sorting() {
    let sn = names(&[("cluster_01_sector001_macro", "zeta")]);
    let empty: StrMap<String> = StrMap::new();
    let loc: Localization = StrMap::new();
    let sectors = parse_sectors(GALAXY, &sn, &empty, &empty, &loc).ok().unwrap();
    let codes: Vec<&str> = sectors.iter().map(|s| s.code.as_str()).collect();
    assert_eq!(codes, vec!["AAA-001", "BBB-002", "CCC-003", "DDD-004"]);
}

#[test]
fn code_name_comes_before_macro_name() {
    let sn = names(&[("m3", "From Macro")]);
    let codes = names(&[("CCC-003", "From Code")]);
    let empty: StrMap<String> = StrMap::new();
    let loc: Localization = StrMap::new();
    let xml = r#"<r><component class="sector" macro="M3" code="CCC-003"/></r>"#;
    let sectors = extract_sectors(xml, &sn, &empty, &codes, &loc).ok().unwrap();
    assert_eq!(sectors.len(), 1);
    assert_eq!(sectors[0].name, "From Code");
}

#[test]
fn identification_inside_sector_names_a_nested_sector() {
    let empty: StrMap<String> = StrMap::new();
    let loc = loc_one("1", "1", "Ident Name");
    let xml = r#"<r><component class="sector" code="A" macro="ma"><identification name="{1,1}"></identification><component class="sector" code="B" macro="mb"></component></component></r>"#;
    let sectors = parse_sectors(xml, &empty, &empty, &empty, &loc).ok().unwrap();
    assert_eq!(sectors.len(), 2);
    assert_eq!(sectors[0].code, "A");
    assert_eq!(sectors[0].name, "A");
    assert_eq!(sectors[1].code, "B");
    assert_eq!(sectors[1].name, "Ident Name");
}

#[test]
fn no_sectors_gives_empty_list() {
    let empty: StrMap<String> = StrMap::new();
    let loc: Localization = StrMap::new();
    let xml = r#"<r><component class="cluster" macro="c" code="X"/></r>"#;
    assert_eq!(extract_sectors(xml, &empty, &empty, &empty, &loc).ok().unwrap().len(), 0);
}

#[test]
fn malformed_save_is_an_error() {
    let empty: StrMap<String> = StrMap::new();
    let loc: Localization = StrMap::new();
    let xml = r#"<r><component class="sector" macro="m" code="X"/></q>"#;
    assert!(extract_sectors(xml, &empty, &empty, &empty, &loc).is_err());
}

#[test]
fn fallback_keeps_what_it_read_before_an_error() {
    let sn = names(&[("m", "Macro Name")]);
    let codes = names(&[("Y", "Code Name")]);
    let empty: StrMap<String> = StrMap::new();
    let xml = r#"<r owner="x"><component class="sector" macro="M" code="X" owner="argon"/><component class="sector" macro="q" code="Y"></component><component class="sector" macro="z" code="X"/></q><component class="sector" macro="w" code="W"/>"#;
    let sectors = fallback_scan(xml, &sn, &empty, &codes);
    assert_eq!(sectors.len(), 2);
    assert_eq!(sectors[0].code, "X");
    assert_eq!(sectors[0].name, "Macro Name");
    assert_eq!(sectors[0].owner, None);
    assert_eq!(sectors[1].code, "Y");
    assert_eq!(sectors[1].name, "Code Name");
}
