use x4_trading::models::{Sector, TradeType};
use x4_trading::parsers::game_xml::Localization;
use x4_trading::parsers::pilot_xml::extract_pilot_info;
use x4_trading::parsers::save_xml::station_positions::extract_stations_for_sector;
use x4_trading::parsers::save_xml::stations::extract_station_data;
use x4_trading::parsers::save_xml::trades::extract_all_trades;
use x4_trading::strmap::StrMap;

fn names(pairs: &[(&str, &str)]) -> StrMap<String> {
    let mut m: StrMap<String> = StrMap::new();
    for (k, v) in pairs {
        m.insert(k.to_string(), v.to_string());
    }
    m
}

fn loc_page(page: &str, entries: &[(&str, &str)]) -> Localization {
    let mut loc: Localization = StrMap::new();
    loc.insert(page.to_string(), names(entries));
    loc
}

fn sector(code: &str, owner: Option<&str>) -> Sector {
    Sector {
        code: code.to_string(),
        macro_name: String::new(),
        name: code.to_string(),
        owner: owner.map(|o| o.to_string()),
    }
}

const STATIONS: &str = r#"<r>
<component class="sector" code="SEC-1" macro="s1">
  <component class="station" code="ST-A" macro="station_a_macro" owner="argon"/>
  <component class="station" code="ST-B" macro="Station_B_Macro" owner="player" name="My Base"/>
  <component class="station" macro="station_c_macro" owner="player" name="  "/>
  <component class="station" code="ST-A" owner="teladi"/>
  <component class="station" code="ST-W"/>
  <component class="ship_s" code="SH-1"/>
</component>
<component class="sector" code="SEC-2" macro="s2">
  <component class="zone" macro="z">
    <component class="station" code="ST-D" macro="station_d_macro" owner="player" name="{1,1}"/>
  </component>
</component>
<component class="station" code="ST-OUT" macro="x"/>
</r>"#;

#[test]
fn stations_are_listed_once_with_names_and_owners() {
    let cn = names(&[("station_a_macro", "Argon Wharf"), ("station_c_macro", "Cee Default")]);
    let factions = names(&[("argon", "Argon Federation")]);
    let loc = loc_page("1", &[("1", "Dee (speak as Dee)")]);
    let res = extract_station_data(STATIONS, &cn, &factions, &loc).ok().unwrap();
    let got: Vec<(&str, &str, &str, &str, Option<&str>, Option<&str>)> = res
        .stations
        .iter()
        .map(|s| {
            (
                s.code.as_str(),
                s.name.as_str(),
                s.macro_name.as_str(),
                s.sector_code.as_str(),
                s.owner.as_deref(),
                s.owner_name.as_deref(),
            )
        })
        .collect();
    assert_eq!(
        got,
        vec![
            ("ST-A", "Argon Wharf", "station_a_macro", "SEC-1", Some("argon"), Some("Argon Federation")),
            ("ST-B", "My Base", "Station_B_Macro", "SEC-1", Some("player"), Some("player")),
            ("station_c_macro", "Cee Default", "station_c_macro", "SEC-1", Some("player"), Some("player")),
            ("ST-W", "ST-W", "ST-W", "SEC-1", None, None),
            ("ST-D", "Dee", "station_d_macro", "SEC-2", Some("player"), Some("player")),
        ]
    );
}

#[test]
fn station_counts_per_sector() {
    let cn: StrMap<String> = StrMap::new();
    let loc: Localization = StrMap::new();
    let res = extract_station_data(STATIONS, &cn, &cn, &loc).ok().unwrap();
    assert_eq!(res.counts.len(), 2);
    assert_eq!(*res.counts.get("SEC-1").unwrap(), (4, 2));
    assert_eq!(*res.counts.get("SEC-2").unwrap(), (1, 1));
    // Each count agrees with the list.
    for i in 0..res.counts.len() {
        let code = res.counts.key_at(i);
        let (all, player) = *res.counts.value_at(i);
        let listed: Vec<_> = res.stations.iter().filter(|s| s.sector_code == code).collect();
        assert_eq!(all, listed.len());
        assert_eq!(player, listed.iter().filter(|s| s.owner.as_deref() == Some("player")).count());
    }
}

#[test]
fn station_scan_fails_on_malformed_xml() {
    let cn: StrMap<String> = StrMap::new();
    let loc: Localization = StrMap::new();
    assert!(extract_station_data("<r><component class=\"sector\" code=\"A\"></r>", &cn, &cn, &loc).is_err());
}

const TRADES: &str = r#"<r>
<component class="sector" code="SEC-1" macro="Sector1_Macro">
 <component class="station" code="STA" macro="station_a_macro" owner="argon">
   <trade ware="energycells" price="1600" amount="500" seller="x"/>
   <trade ware="ore" price="5000" amount="100" buyer="y"/>
   <trade ware="food" price="0" amount="10"/>
   <trade ware="water" price="100" amount="-5"/>
   <trade ware="silicon" price="abc" amount="5"/>
   <trade ware="ice" price="250" amount="7"/>
   <trade price="250" amount="7"/>
 </component>
 <component class="station" code="WRECK" state="wreck"><trade ware="x" price="1" amount="1"/></component>
 <component class="ship_m" code="SHIP"><trade ware="y" price="1" amount="1"/></component>
</component>
<component class="sector" code="SEC-2" macro="s2">
 <component class="station" macro="station_b_macro" name="Trader Joe">
   <trade ware="ore" price="4000" amount="20"></trade>
 </component>
</component>
<component class="station" code="NOSEC"><trade ware="z" price="9" amount="9"/></component>
</r>"#;

#[test]
fn trade_offers_grouped_by_sector() {
    let sn = names(&[("sector1_macro", "Sector One")]);
    let cn = names(&[("station_a_macro", "Argon Trade Station")]);
    let loc: Localization = StrMap::new();
    let sectors = vec![sector("SEC-1", Some("argon")), sector("SEC-2", None)];
    let trades = extract_all_trades(TRADES, &sn, &cn, &loc, &sectors).ok().unwrap();
    assert_eq!(trades.len(), 2);

    let s1 = &trades.get("SEC-1").unwrap().items;
    let got: Vec<(&str, i32, i32, TradeType)> =
        s1.iter().map(|w| (w.ware.as_str(), w.price_cents, w.amount, w.trade_type)).collect();
    assert_eq!(
        got,
        vec![
            ("energycells", 1600, 500, TradeType::Sell),
            ("ore", 5000, 100, TradeType::Buy),
            ("ice", 250, 7, TradeType::Sell),
        ]
    );
    for w in s1 {
        assert_eq!(w.station_name, "Argon Trade Station");
        assert_eq!(w.station_code, "STA");
        assert_eq!(w.sector_code, "SEC-1");
        assert_eq!(w.sector_name, "Sector One");
        assert_eq!(w.sector_owner.as_deref(), Some("argon"));
    }

    let s2 = &trades.get("SEC-2").unwrap().items;
    assert_eq!(s2.len(), 1);
    assert_eq!(s2[0].ware, "ore");
    assert_eq!(s2[0].price_cents, 4000);
    assert_eq!(s2[0].amount, 20);
    assert_eq!(s2[0].trade_type, TradeType::Sell);
    assert_eq!(s2[0].station_name, "Trader Joe");
    assert_eq!(s2[0].station_code, "Trader Joe");
    assert_eq!(s2[0].sector_name, "SEC-2");
    assert_eq!(s2[0].sector_owner, None);
}

#[test]
fn every_offer_is_filed_under_its_sector_with_positive_values() {
    let empty: StrMap<String> = StrMap::new();
    let loc: Localization = StrMap::new();
    let trades = extract_all_trades(TRADES, &empty, &empty, &loc, &[]).ok().unwrap();
    for i in 0..trades.len() {
        let code = trades.key_at(i);
        for w in &trades.value_at(i).items {
            assert_eq!(w.sector_code, code);
            assert!(w.price_cents > 0);
            assert!(w.amount > 0);
        }
    }
}

#[test]
fn trade_scan_fails_on_malformed_xml() {
    let empty: StrMap<String> = StrMap::new();
    let loc: Localization = StrMap::new();
    assert!(extract_all_trades("<r><trade></r>", &empty, &empty, &loc, &[]).is_err());
}

#[test]
fn pilot_from_player_element() {
    let loc = loc_page("1", &[("1", "Argon Prime (speak as Argon Prime)")]);
    let xml = r#"<savegame><info><player name="Kaela" location="{1,1}" money="123456"/></info></savegame>"#;
    let info = extract_pilot_info(xml, &loc).ok().unwrap();
    assert_eq!(info.name, "Kaela");
    assert_eq!(info.credits, 123456);
    assert_eq!(info.location.as_deref(), Some("Argon Prime"));
}

#[test]
fn pilot_reading_stops_once_complete() {
    let loc: Localization = StrMap::new();
    let complete = r#"<r><player name="A" money="5"/>"#;
    let info = extract_pilot_info(&format!("{}</bad>", complete), &loc).ok().unwrap();
    assert_eq!(info.name, "A");
    assert_eq!(info.credits, 5);
    let later = extract_pilot_info(&format!("{}<player name=\"B\" money=\"9\"/></r>", complete), &loc).ok().unwrap();
    assert_eq!(later.name, "A");
    assert_eq!(later.credits, 5);
}

#[test]
fn pilot_defaults_without_player() {
    let loc: Localization = StrMap::new();
    let info = extract_pilot_info("<r/>", &loc).ok().unwrap();
    assert_eq!(info.name, "Player");
    assert_eq!(info.credits, 0);
    assert_eq!(info.location, None);
}

#[test]
fn pilot_from_player_faction() {
    let loc = loc_page("1", &[("2", "Pilot Name")]);
    let xml = r#"<r><faction id="player"><identification name="{1,2}"></identification><account amount="777"/></faction></r>"#;
    let info = extract_pilot_info(xml, &loc).ok().unwrap();
    assert_eq!(info.name, "Pilot Name");
    assert_eq!(info.credits, 777);
}

#[test]
fn pilot_ignores_unreadable_money() {
    let loc: Localization = StrMap::new();
    let info = extract_pilot_info(r#"<r><player name="A" money="lots"/></r>"#, &loc).ok().unwrap();
    assert_eq!(info.name, "A");
    assert_eq!(info.credits, 0);
}

#[test]
fn pilot_error_before_completion() {
    let loc: Localization = StrMap::new();
    assert!(extract_pilot_info(r#"<r><player name="A"/></q>"#, &loc).is_err());
}

const POSITIONS: &str = r#"<r>
<component class="sector" code="OTHER" macro="o"><connections><connection><component class="station" code="NO" macro="m"></component></connection></connections></component>
<component class="sector" code="SEC-1" macro="s">
 <offset><position x="10" y="0" z="5"/></offset>
 <connections>
  <connection connection="c1">
   <component class="station" code="ST-1" macro="station_a_macro" owner="argon">
     <offset><position x="1" y="2" z="3"/></offset>
   </component>
  </connection>
  <connection connection="c2">
   <component class="station" code="ST-2" macro="Unknown_Macro" owner="scaleplate" name="Custom">
   </component>
  </connection>
  <connection connection="c3">
   <component class="station" code="ST-3" macro="m3" owner="teladi">
     <source entry="tel_advanced_composites" nameindex="3"/>
   </component>
  </connection>
  <connection connection="c4">
   <component class="station" code="ST-4" macro="m4">
     <source entry="arg_hullparts"/>
   </component>
  </connection>
  <connection><component class="station" macro="nocode"></component></connection>
 </connections>
</component>
</r>"#;

#[test]
fn stations_of_a_sector_with_names_and_offsets() {
    let cn = names(&[("station_a_macro", "Argon Wharf")]);
    let factions = names(&[("argon", "Argon Federation")]);
    let st = extract_stations_for_sector(POSITIONS, "SEC-1", &cn, &factions).ok().unwrap();
    let got: Vec<(&str, &str, Option<&str>, Option<&str>, &str)> = st
        .iter()
        .map(|s| (s.code.as_str(), s.name.as_str(), s.owner.as_deref(), s.owner_name.as_deref(), s.macro_name.as_str()))
        .collect();
    assert_eq!(
        got,
        vec![
            ("ST-1", "Argon Wharf", Some("argon"), Some("Argon Federation"), "station_a_macro"),
            ("ST-2", "Custom", Some("scaleplate"), Some("Scaleplate"), "Unknown_Macro"),
            ("ST-3", "TEL Advanced Composites Factory III", Some("teladi"), Some("Teladi"), "m3"),
            ("ST-4", "ARG Hull Parts Factory I", None, None, "m4"),
        ]
    );
    let first = &st[0].offsets;
    assert_eq!(first.len(), 2);
    assert_eq!(first[0].x.as_deref(), Some("10"));
    assert_eq!(first[0].z.as_deref(), Some("5"));
    assert_eq!(first[1].x.as_deref(), Some("1"));
    assert_eq!(first[1].y.as_deref(), Some("2"));
    assert_eq!(first[1].z.as_deref(), Some("3"));
    let second = &st[1].offsets;
    assert_eq!(second.len(), 2);
    assert_eq!(second[0].x.as_deref(), Some("10"));
    assert_eq!(second[1].x, None);
}

#[test]
fn stations_of_unknown_sector_are_none() {
    let cn: StrMap<String> = StrMap::new();
    assert_eq!(extract_stations_for_sector(POSITIONS, "NOPE", &cn, &cn).ok().unwrap().len(), 0);
}

#[test]
fn station_walk_stops_at_end_of_sector() {
    let cn: StrMap<String> = StrMap::new();
    let xml = r#"<r><component class="sector" code="S"><connections><connection><component class="station" code="A" macro="m"></component></connection></connections></component></bogus>"#;
    let st = extract_stations_for_sector(xml, "S", &cn, &cn).ok().unwrap();
    assert_eq!(st.len(), 1);
    assert_eq!(st[0].name, "m");
}

#[test]
fn empty_components_do_not_extend_the_sector() {
    let cn: StrMap<String> = StrMap::new();
    let xml = r#"<r>
<component class="sector" code="S"><component class="zone" macro="z"/><connections><connection><component class="station" code="A" macro="ma"/></connection></connections></component>
<component class="sector" code="T"><connections><connection><component class="station" code="B" macro="mb"></component></connection></connections></component>
</r>"#;
    let st = extract_stations_for_sector(xml, "S", &cn, &cn).ok().unwrap();
    let codes: Vec<&str> = st.iter().map(|s| s.code.as_str()).collect();
    assert_eq!(codes, vec!["A"]);
    assert_eq!(st[0].offsets.len(), 2);
    assert_eq!(st[0].offsets[1].x, None);
}

#[test]
fn station_walk_fails_on_malformed_sector() {
    let cn: StrMap<String> = StrMap::new();
    let xml = r#"<r><component class="sector" code="S"><connections></component></r>"#;
    assert!(extract_stations_for_sector(xml, "S", &cn, &cn).is_err());
}
