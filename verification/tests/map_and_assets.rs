use x4_trading::parsers::assets::helpers::{
    derive_ship_meta, get_sector_from_stack, has_owner_player, is_station_or_ship, resolve_component_name,
    text_attr,
};
use x4_trading::parsers::assets::player_assets::extract_player_assets;
use x4_trading::parsers::assets::player_npcs::extract_player_npcs;
use x4_trading::parsers::assets::types::Ctx;
use x4_trading::parsers::game_xml::Localization;
use x4_trading::parsers::sector_map::helpers::{get_station_name, resolve_name};
use x4_trading::parsers::sector_map::parser::extract_sector_map;
use x4_trading::strmap::StrMap;

fn names(pairs: &[(&str, &str)]) -> StrMap<String> {
    let mut m: StrMap<String> = StrMap::new();
    for (k, v) in pairs {
        m.insert(k.to_string(), v.to_string());
    }
    m
}

fn loc_page(page: &str, entries: &[(&str, &str)]) -> Localization {
    let mut loc: Localization = StrMap::new();
    loc.insert(page.to_string(), names(entries));
    loc
}

const MAP: &str = r#"<r>
<component class="sector" code="SEC-1" macro="sector_macro">
 <connections>
  <connection connection="stations">
   <component class="station" code="ST-1" macro="station_a_macro" owner="argon">
     <offset><position x="1" y="2" z="3"/></offset>
   </component>
  </connection>
  <connection connection="ships">
   <component class="ship" code="SH-1" macro="ship_arg_s_fighter" owner="player" name="Falcon"></component>
   <component class="ship" code="SH-2" macro="ship_x"></component>
  </connection>
  <connection connection="gates">
   <component class="gate" code="G-1" macro="props_gates_anc_01_macro" destination="SEC-2"></component>
  </connection>
  <connection connection="objects">
   <component class="asteroid" code="A-1" macro="asteroid_ore_xl_macro"></component>
   <component class="region" code="R-1" macro="region_gas_macro" name="{1,1}"></component>
   <component class="station" code="WR" macro="station_b_macro" state="wreck"></component>
   <component class="station" code="LOOSE" macro="station_c_macro"></component>
  </connection>
 </connections>
</component>
<component class="sector" code="SEC-2" macro="other"><connections><connection connection="stations"><component class="station" code="ST-X" macro="q"></component></connection></connections></component>
</r>"#;

#[test]
fn sector_map_sorts_objects_by_connection_and_kind() {
    let sn = names(&[("SEC-1", "First Sector")]);
    let cn = names(&[("station_a_macro", "Argon Wharf")]);
    let loc = loc_page("1", &[("1", "Gas Cloud")]);
    let map = extract_sector_map(MAP, "SEC-1", &sn, &cn, &loc, Some("argon".to_string())).ok().unwrap();
    assert_eq!(map.sector_code, "SEC-1");
    assert_eq!(map.sector_name, "First Sector");
    assert_eq!(map.owner.as_deref(), Some("argon"));

    assert_eq!(map.stations.len(), 1);
    assert_eq!(map.stations[0].name, "Argon Wharf");
    assert_eq!(map.stations[0].code, "ST-1");
    assert_eq!(map.stations[0].owner.as_deref(), Some("argon"));
    assert_eq!(map.stations[0].position.x.as_deref(), Some("1"));
    assert_eq!(map.stations[0].position.y.as_deref(), Some("2"));
    assert_eq!(map.stations[0].position.z.as_deref(), Some("3"));

    assert_eq!(map.ships.len(), 2);
    assert_eq!(map.ships[0].name, "Falcon");
    assert_eq!(map.ships[0].class, "ship_arg_s_fighter");
    assert_eq!(map.ships[0].owner.as_deref(), Some("player"));
    assert_eq!(map.ships[1].name, "SH-2");

    assert_eq!(map.gates.len(), 1);
    assert_eq!(map.gates[0].name, "G-1");
    assert_eq!(map.gates[0].destination.as_deref(), Some("SEC-2"));

    assert_eq!(map.asteroids.len(), 1);
    assert_eq!(map.asteroids[0].code, "A-1");

    assert_eq!(map.resources.len(), 1);
    assert_eq!(map.resources[0].name, "Gas Cloud");
    assert_eq!(map.resources[0].resource_type, "region");
}

#[test]
fn sector_map_of_unknown_sector_is_empty() {
    let empty: StrMap<String> = StrMap::new();
    let loc: Localization = StrMap::new();
    let map = extract_sector_map(MAP, "NOPE", &empty, &empty, &loc, None).ok().unwrap();
    assert_eq!(map.sector_name, "NOPE");
    assert_eq!(map.stations.len() + map.ships.len() + map.gates.len(), 0);
    assert_eq!(map.asteroids.len() + map.resources.len(), 0);
}

#[test]
fn sector_map_fails_on_malformed_xml() {
    let empty: StrMap<String> = StrMap::new();
    let loc: Localization = StrMap::new();
    assert!(extract_sector_map("<r><component></r>", "S", &empty, &empty, &loc, None).is_err());
}

#[test]
fn map_name_resolution_needs_exact_reference() {
    let loc = loc_page("1", &[("1", "One")]);
    assert_eq!(resolve_name("{1,1}", &loc), Some("One".to_string()));
    assert_eq!(resolve_name("{1,2}", &loc), None);
    assert_eq!(resolve_name("{ 1,1}", &loc), None);
    assert_eq!(resolve_name("x{1,1}", &loc), None);
    assert_eq!(resolve_name("{1}", &loc), None);
}

#[test]
fn map_station_name_follows_save_station_rule() {
    let cn = names(&[("m", "Macro Name"), ("st", "Wharf")]);
    let loc = loc_page("1", &[("1", "Loc Name"), ("2", "My Base")]);
    let own = names(&[("name", "{1,2}"), ("macro", "st")]);
    assert_eq!(get_station_name(&own, &cn, &loc), "My Base");
    let a = names(&[("macro", "M"), ("name", "{1,1}"), ("code", "C")]);
    assert_eq!(get_station_name(&a, &cn, &loc), "Loc Name");
    let b = names(&[("macro", "other"), ("name", "Plain (speak as P)"), ("code", "C")]);
    assert_eq!(get_station_name(&b, &cn, &loc), "Plain");
    let default = names(&[("macro", "M"), ("name", "macro name"), ("nameindex", "4")]);
    assert_eq!(get_station_name(&default, &cn, &loc), "Macro Name #4");
    let by_macro = names(&[("macro", "M"), ("code", "C")]);
    assert_eq!(get_station_name(&by_macro, &cn, &loc), "Macro Name");
    let c = names(&[("macro", "other"), ("code", "C")]);
    assert_eq!(get_station_name(&c, &cn, &loc), "C");
    let d = names(&[("macro", "other")]);
    assert_eq!(get_station_name(&d, &cn, &loc), "other");
    let e: StrMap<String> = StrMap::new();
    assert_eq!(get_station_name(&e, &cn, &loc), "Station");
}

#[test]
fn asset_helpers() {
    let a = names(&[("owner", "player"), ("code", "X")]);
    assert!(has_owner_player(&a));
    assert!(!has_owner_player(&names(&[("owner", "argon")])));
    assert_eq!(text_attr(&a, "code"), Some("X".to_string()));
    assert_eq!(text_attr(&a, "id"), None);
    assert!(is_station_or_ship("station"));
    assert!(is_station_or_ship("ship_m"));
    assert!(is_station_or_ship("spaceship"));
    assert!(!is_station_or_ship("stations"));
}

#[test]
fn component_name_resolution() {
    let cn = names(&[("m", "Base")]);
    let loc = loc_page("1", &[("1", "Named (speak as N)")]);
    assert_eq!(resolve_component_name(&names(&[("name", "{1,1}")]), &cn, &loc), "Named");
    assert_eq!(resolve_component_name(&names(&[("macro", "M"), ("nameindex", "3")]), &cn, &loc), "Base #3");
    assert_eq!(resolve_component_name(&names(&[("macro", "M"), ("nameindex", "0")]), &cn, &loc), "Base");
    assert_eq!(resolve_component_name(&names(&[("macro", "M")]), &cn, &loc), "Base");
    assert_eq!(resolve_component_name(&names(&[("macro", "q"), ("code", "C")]), &cn, &loc), "C");
    let empty: StrMap<String> = StrMap::new();
    assert_eq!(resolve_component_name(&empty, &cn, &loc), "Unnamed");
}

#[test]
fn sector_from_context_stack() {
    let sn = names(&[("sec_macro", "Sector Name")]);
    let stack = vec![
        Ctx { tag: "component".to_string(), attrs: names(&[("class", "sector"), ("code", "S1"), ("macro", "Sec_Macro")]) },
        Ctx { tag: "component".to_string(), attrs: names(&[("class", "sector"), ("code", "S2"), ("macro", "x")]) },
        Ctx { tag: "connection".to_string(), attrs: names(&[("class", "sector")]) },
    ];
    assert_eq!(get_sector_from_stack(&stack, &sn), (Some("S2".to_string()), None));
    assert_eq!(get_sector_from_stack(&stack[..1], &sn), (Some("S1".to_string()), Some("Sector Name".to_string())));
    assert_eq!(get_sector_from_stack(&[], &sn), (None, None));
}

#[test]
fn ship_meta_from_macro_name() {
    assert_eq!(
        derive_ship_meta(Some("ship_arg_m_trans_container_01_a_macro"), None),
        (None, Some("Transport (Container)".to_string()), Some("M Transport (Container)".to_string()))
    );
    assert_eq!(
        derive_ship_meta(Some("Ship_Par_XL_Carrier_01_macro"), None),
        (None, Some("Carrier".to_string()), Some("XL Carrier".to_string()))
    );
    assert_eq!(derive_ship_meta(Some("ship_bor_l_unknown_macro"), None), (None, None, Some("L".to_string())));
    assert_eq!(derive_ship_meta(Some("scout_without_size"), None), (None, Some("Scout".to_string()), None));
    assert_eq!(derive_ship_meta(None, Some("t")), (None, None, None));
}

const ASSETS: &str = r#"<r>
<component class="galaxy"><connections>
<component class="sector" code="SEC-1" macro="Sector_Macro">
  <component class="station" id="[0x1]" code="ST-1" owner="player" macro="station_a_macro" nameindex="2"></component>
  <component class="ship_m" id="[0x2]" code="SH-1" owner="player" macro="ship_arg_m_trans_container_01_a_macro" name="{1,1}"/>
  <component class="ship_s" id="[0x3]" code="SH-2" owner="argon" macro="ship_arg_s_fighter_01_a_macro"/>
  <component class="ship_xl" code="SH-3" owner="player" macro="ship_par_xl_carrier_01_macro"/>
  <component class="station" id="[0x4]" owner="player"/>
</component>
</connections></component>
<component class="ship_l" id="[0x5]" owner="player" macro="Ship_Bor_L_Miner_Liquid_01_macro"></component>
</r>"#;

#[test]
fn player_assets_in_document_order() {
    let sn = names(&[("sector_macro", "Sector One")]);
    let cn = names(&[("station_a_macro", "Wharf")]);
    let loc = loc_page("1", &[("1", "Freighter (speak as F)")]);
    let assets = extract_player_assets(ASSETS, &sn, &cn, &loc).ok().unwrap();
    let got: Vec<(&str, &str, &str, Option<&str>, Option<&str>, Option<&str>)> = assets
        .iter()
        .map(|a| {
            (
                a.id.as_str(),
                a.class.as_str(),
                a.name.as_str(),
                a.code.as_deref(),
                a.sector_code.as_deref(),
                a.sector_name.as_deref(),
            )
        })
        .collect();
    assert_eq!(
        got,
        vec![
            ("[0x1]", "station", "Wharf #2", Some("ST-1"), Some("SEC-1"), Some("Sector One")),
            ("[0x2]", "ship_m", "Freighter", Some("SH-1"), Some("SEC-1"), Some("Sector One")),
            ("", "ship_xl", "SH-3", Some("SH-3"), Some("SEC-1"), Some("Sector One")),
            ("[0x4]", "station", "Unnamed", None, Some("SEC-1"), Some("Sector One")),
            ("[0x5]", "ship_l", "Unnamed", None, None, None),
        ]
    );
    assert_eq!(assets[1].ship_type.as_deref(), Some("M Transport (Container)"));
    assert_eq!(assets[1].cargo_type.as_deref(), Some("Transport (Container)"));
    assert_eq!(assets[1].cargo_capacity, None);
    assert_eq!(assets[2].ship_type.as_deref(), Some("XL Carrier"));
    assert_eq!(assets[4].ship_type.as_deref(), Some("L Miner (Liquid)"));
    assert_eq!(assets[0].ship_type, None);
}

#[test]
fn player_assets_fail_on_malformed_xml() {
    let empty: StrMap<String> = StrMap::new();
    let loc: Localization = StrMap::new();
    assert!(extract_player_assets("<r><a></r>", &empty, &empty, &loc).is_err());
}

#[test]
fn player_npcs_with_skills() {
    let loc = loc_page("1", &[("2", "Ann (speak as Ann)")]);
    let xml = r#"<r>
<component class="npc" id="[0xa]" code="NPC-1" owner="player" name="{1,2}">
  <traits><skill type="piloting" value="12"/><skill type="morale" value="3"/><skill type="boarding" value="x"/></traits>
</component>
<component class="npc" id="[0xb]" owner="player" name="Bob"/>
<component class="npc" id="[0xc]" owner="argon" name="Not Mine"/>
<component class="npc" owner="player" name="No Id"/>
</r>"#;
    let npcs = extract_player_npcs(xml, &loc).ok().unwrap();
    assert_eq!(npcs.len(), 2);
    assert_eq!(npcs[0].id, "[0xa]");
    assert_eq!(npcs[0].name, "Ann");
    assert_eq!(npcs[0].code.as_deref(), Some("NPC-1"));
    assert_eq!(
        (npcs[0].piloting, npcs[0].engineering, npcs[0].boarding, npcs[0].management, npcs[0].morale),
        (12, 0, 0, 0, 3)
    );
    assert_eq!(npcs[1].id, "[0xb]");
    assert_eq!(npcs[1].name, "Bob");
    assert_eq!(npcs[1].code, None);
    assert_eq!(npcs[1].piloting, 0);
}

#[test]
fn player_npcs_fail_on_malformed_xml() {
    let loc: Localization = StrMap::new();
    assert!(extract_player_npcs("<r><a></r>", &loc).is_err());
}
