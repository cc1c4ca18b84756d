use x4_trading::api::handlers::dashboard::{build_sector_summary, dashboard_player, dashboard_stats};
use x4_trading::api::handlers::init::{default_lang_id, save_path_of};
use x4_trading::api::handlers::init_utils::{
    apply_name_overrides, collect_sector_macros, fill_missing_sector_names, missing_sector_macros,
};
use x4_trading::api::handlers::misc::{find_sector, is_save_file_name, sort_save_files, SaveFileInfo};
use x4_trading::api::handlers::pilot::enrich_assets;
use x4_trading::api::handlers::sectors::{build_sectors_list, owner_display_of};
use x4_trading::api::handlers::wares::{ware_display_name, ware_infos};
use x4_trading::api::sector_detail::{find_sector_by_code, sector_trade_details};
use x4_trading::models::assets::PlayerAsset;
use x4_trading::models::pilot::PilotInfo;
use x4_trading::models::sector_detail::{OffsetTexts, StationInfo};
use x4_trading::models::{Sector, ShipMeta, StationWare, StationWares, TradeType, TransportType, WareMeta};
use x4_trading::parsers::cat_dat::XmlEntry;
use x4_trading::parsers::game_xml::Localization;
use x4_trading::strmap::StrMap;

fn names(pairs: &[(&str, &str)]) -> StrMap<String> {
    let mut m: StrMap<String> = StrMap::new();
    for (k, v) in pairs {
        m.insert(k.to_string(), v.to_string());
    }
    m
}

fn loc_page(page: &str, entries: &[(&str, &str)]) -> Localization {
    let mut loc: Localization = StrMap::new();
    loc.insert(page.to_string(), names(entries));
    loc
}

fn sector(code: &str, name: &str, owner: Option<&str>) -> Sector {
    Sector {
        code: code.to_string(),
        macro_name: format!("{}_macro", code.to_lowercase()),
        name: name.to_string(),
        owner: owner.map(|o| o.to_string()),
    }
}

fn counts(pairs: &[(&str, usize, usize)]) -> StrMap<(usize, usize)> {
    let mut m: StrMap<(usize, usize)> = StrMap::new();
    for (k, a, b) in pairs {
        m.insert(k.to_string(), (*a, *b));
    }
    m
}

fn offer(ware: &str, sector_code: &str, price: i32, amount: i32, t: TradeType, station: &str) -> StationWare {
    StationWare {
        ware: ware.to_string(),
        price_cents: price,
        amount,
        trade_type: t,
        station_name: format!("{} name", station),
        station_code: station.to_string(),
        sector_code: sector_code.to_string(),
        sector_name: sector_code.to_string(),
        sector_owner: None,
    }
}

fn asset(class: &str, macro_name: Option<&str>) -> PlayerAsset {
    PlayerAsset {
        id: String::new(),
        class: class.to_string(),
        name: String::new(),
        code: None,
        macro_name: macro_name.map(|m| m.to_string()),
        cargo_capacity: None,
        cargo_type: None,
        ship_type: None,
        sector_code: None,
        sector_name: None,
    }
}

fn ware(id: &str, name_ref: Option<&str>) -> WareMeta {
    WareMeta {
        id: id.to_string(),
        transport: TransportType::Container,
        volume: None,
        name_ref: name_ref.map(|r| r.to_string()),
    }
}

#[test]
fn dashboard_counts_ships_and_stations() {
    let assets = vec![asset("station", None), asset("ship_s", None), asset("ship_xl", None), asset("stations", None)];
    let stats = dashboard_stats(7, &assets, 3);
    assert_eq!((stats.sectors, stats.stations, stats.ships, stats.npcs), (7, 1, 2, 3));
}

#[test]
fn dashboard_player_from_pilot() {
    let p = PilotInfo { name: "Kaela".to_string(), credits: -5, location: Some("Argon Prime".to_string()) };
    let d = dashboard_player(&p);
    assert_eq!(d.name, "Kaela");
    assert_eq!(d.money, -5);
    assert_eq!(d.location.as_deref(), Some("Argon Prime"));
    assert_eq!(d.game_time, 0);
}

#[test]
fn sector_summary_top_ten_by_station_count() {
    let mut sectors = Vec::new();
    for i in 0..12 {
        sectors.push(sector(&format!("S{:02}", i), &format!("Sector {}", i), if i == 0 { Some("argon") } else { None }));
    }
    let mut pairs: Vec<(String, usize, usize)> = Vec::new();
    for i in 0..12usize {
        pairs.push((format!("S{:02}", i), i % 4, i % 2));
    }
    let pair_refs: Vec<(&str, usize, usize)> = pairs.iter().map(|(k, a, b)| (k.as_str(), *a, *b)).collect();
    let c = counts(&pair_refs);
    let factions = names(&[("argon", "Argon Federation")]);
    let summary = build_sector_summary(&sectors, &c, &factions);
    let got: Vec<(&str, usize)> = summary.iter().map(|s| (s.code.as_str(), s.station_count)).collect();
    assert_eq!(
        got,
        vec![
            ("S03", 3),
            ("S07", 3),
            ("S11", 3),
            ("S02", 2),
            ("S06", 2),
            ("S10", 2),
            ("S01", 1),
            ("S05", 1),
            ("S09", 1),
            ("S00", 0),
        ]
    );
    assert_eq!(summary[9].owner_name.as_deref(), Some("Argon Federation"));
    assert_eq!(summary[0].player_stations, 1);
}

#[test]
fn sector_summary_without_counts_is_zero() {
    let sectors = vec![sector("A", "A", Some("xenon"))];
    let summary = build_sector_summary(&sectors, &counts(&[]), &names(&[]));
    assert_eq!(summary.len(), 1);
    assert_eq!(summary[0].station_count, 0);
    assert_eq!(summary[0].owner_name.as_deref(), Some("xenon"));
}

#[test]
fn sectors_list_with_offers_and_totals() {
    let sectors = vec![
        sector("B", "beta", Some("player")),
        sector("A", "Alpha", Some("argon")),
        sector("C", "gamma", None),
    ];
    let mut trades: StrMap<StationWares> = StrMap::new();
    trades.insert(
        "A".to_string(),
        StationWares {
            items: vec![
                offer("ore", "A", 10, 1, TradeType::Buy, "s1"),
                offer("ice", "A", 10, 1, TradeType::Sell, "s1"),
                offer("ore", "A", 10, 1, TradeType::Sell, "s2"),
            ],
        },
    );
    let c = counts(&[("A", 5, 1), ("B", 2, 2)]);
    let factions = names(&[("argon", "Argon Federation")]);
    let list = build_sectors_list(&sectors, &trades, &c, &factions);
    let got: Vec<(&str, usize, usize, usize, usize, usize)> = list
        .sectors
        .iter()
        .map(|s| (s.code.as_str(), s.station_count, s.player_stations, s.buy_offers, s.sell_offers, s.total_trades))
        .collect();
    assert_eq!(got, vec![("A", 5, 1, 1, 2, 3), ("B", 2, 2, 0, 0, 0), ("C", 0, 0, 0, 0, 0)]);
    assert_eq!(list.sectors[0].owner_name.as_deref(), Some("Argon Federation"));
    assert_eq!(list.sectors[1].owner_name.as_deref(), Some("player"));
    assert_eq!(list.sectors[2].owner_name, None);
    assert!(list.sectors.iter().all(|s| s.discovered && !s.contested && s.resource_types.is_empty()));
    assert_eq!(list.sectors[0].macro_name, "a_macro");
    assert_eq!(list.stats.total_sectors, 3);
    assert_eq!(list.stats.player_owned, 1);
    assert_eq!(list.stats.discovered, 3);
    assert_eq!(list.stats.total_stations, 7);
}

#[test]
fn owner_display_falls_back_to_id() {
    let f = names(&[("argon", "Argon Federation")]);
    assert_eq!(owner_display_of(&Some("argon".to_string()), &f).as_deref(), Some("Argon Federation"));
    assert_eq!(owner_display_of(&Some("khaak".to_string()), &f).as_deref(), Some("khaak"));
    assert_eq!(owner_display_of(&None, &f), None);
}

#[test]
fn ware_names_and_sorted_list() {
    let mut wares: StrMap<WareMeta> = StrMap::new();
    wares.insert("ore".to_string(), ware("ore", Some("{5,1}")));
    wares.insert("energycells".to_string(), ware("energycells", Some("{5,2}")));
    wares.insert("zzz".to_string(), ware("zzz", None));
    let loc = loc_page("5", &[("1", "Ore"), ("2", "energy Cells")]);
    assert_eq!(ware_display_name("ore", &wares, &loc), "Ore");
    assert_eq!(ware_display_name("zzz", &wares, &loc), "zzz");
    assert_eq!(ware_display_name("unknown", &wares, &loc), "unknown");
    let infos = ware_infos(&wares, &loc);
    let got: Vec<(&str, &str)> = infos.iter().map(|w| (w.id.as_str(), w.name.as_str())).collect();
    assert_eq!(got, vec![("energycells", "energy Cells"), ("ore", "Ore"), ("zzz", "zzz")]);
}

#[test]
fn save_files_by_name() {
    assert!(is_save_file_name("quicksave.xml.gz"));
    assert!(is_save_file_name("save_001.xml"));
    assert!(!is_save_file_name("save_001.xml.bak"));
    assert!(!is_save_file_name("notes.txt"));
}

fn save(name: &str, ts: Option<u64>) -> SaveFileInfo {
    SaveFileInfo { filename: name.to_string(), modified: ts.map(|t| t.to_string()), modified_timestamp: ts }
}

#[test]
fn save_files_newest_first_and_undated_before() {
    let files = vec![save("a", Some(10)), save("b", Some(30)), save("c", None), save("d", None), save("e", Some(30))];
    let sorted = sort_save_files(files);
    let got: Vec<&str> = sorted.iter().map(|f| f.filename.as_str()).collect();
    assert_eq!(got, vec!["d", "c", "b", "e", "a"]);
}

#[test]
fn find_sector_by_code_or_name() {
    let sectors = vec![sector("A", "Alpha", None), sector("B", "A", None)];
    assert_eq!(find_sector(&sectors, "A"), Some(0));
    assert_eq!(find_sector(&sectors, "Alpha"), Some(0));
    assert_eq!(find_sector(&sectors, "B"), Some(1));
    assert_eq!(find_sector(&sectors, "Z"), None);
    assert_eq!(find_sector_by_code(&sectors, "B"), Some(1));
    assert_eq!(find_sector_by_code(&sectors, "Alpha"), None);
}

#[test]
fn sector_details_offers_and_stats() {
    let stations = vec![
        StationInfo {
            code: "s1".to_string(),
            name: "One".to_string(),
            owner: Some("player".to_string()),
            owner_name: None,
            macro_name: "m".to_string(),
            offsets: vec![OffsetTexts { x: None, y: None, z: None }],
        },
        StationInfo {
            code: "s2".to_string(),
            name: "Two".to_string(),
            owner: Some("argon".to_string()),
            owner_name: None,
            macro_name: "m".to_string(),
            offsets: vec![],
        },
    ];
    let mut trades: StrMap<StationWares> = StrMap::new();
    trades.insert(
        "A".to_string(),
        StationWares {
            items: vec![
                offer("ore", "A", 1200, 3, TradeType::Buy, "s1"),
                offer("ice", "A", 300, 4, TradeType::Sell, "s2"),
                offer("ore", "A", 1100, 5, TradeType::Sell, "s2"),
            ],
        },
    );
    let mut wares: StrMap<WareMeta> = StrMap::new();
    wares.insert("ore".to_string(), ware("ore", Some("{5,1}")));
    let loc = loc_page("5", &[("1", "Ore")]);
    let (offers, stats) = sector_trade_details(&stations, &trades, "A", &wares, &loc);
    let got: Vec<(&str, &str, &str, i32, i32, &str, &str)> = offers
        .iter()
        .map(|o| {
            (
                o.ware_id.as_str(),
                o.ware_name.as_str(),
                o.trade_type.as_str(),
                o.price_cents,
                o.amount,
                o.station_code.as_str(),
                o.station_name.as_str(),
            )
        })
        .collect();
    assert_eq!(
        got,
        vec![
            ("ore", "Ore", "buy", 1200, 3, "s1", "s1 name"),
            ("ice", "ice", "sell", 300, 4, "s2", "s2 name"),
            ("ore", "Ore", "sell", 1100, 5, "s2", "s2 name"),
        ]
    );
    assert_eq!(
        (stats.total_stations, stats.player_stations, stats.buy_offers, stats.sell_offers, stats.unique_wares),
        (2, 1, 1, 2, 2)
    );
    let (none, empty_stats) = sector_trade_details(&[], &trades, "B", &wares, &loc);
    assert_eq!(none.len(), 0);
    assert_eq!(empty_stats.unique_wares, 0);
}

#[test]
fn enrich_fills_missing_ship_cargo_facts() {
    let mut ships: StrMap<ShipMeta> = StrMap::new();
    ships.insert(
        "ship_a_macro".to_string(),
        ShipMeta { cargo_capacity: Some(100), cargo_type: Some("Container".to_string()), speed_texts: vec![] },
    );
    let mut known = asset("ship_s", Some("Ship_A_Macro"));
    known.cargo_type = Some("Solid".to_string());
    let mut assets = vec![known, asset("station", Some("ship_a_macro")), asset("ship_m", Some("other"))];
    enrich_assets(&mut assets, &ships);
    assert_eq!(assets[0].cargo_capacity, Some(100));
    assert_eq!(assets[0].cargo_type.as_deref(), Some("Solid"));
    assert_eq!(assets[1].cargo_capacity, None);
    assert_eq!(assets[2].cargo_capacity, None);
}

#[test]
fn init_defaults() {
    assert_eq!(default_lang_id(), "44");
    assert_eq!(save_path_of("C:\\saves", "quicksave.xml.gz"), "C:\\saves\\quicksave.xml.gz");
}

#[test]
fn overrides_are_set_under_lower_case_keys() {
    let mut sn = names(&[("a_macro", "Old")]);
    let overrides = vec![
        ("A_Macro".to_string(), "New".to_string()),
        ("B_MACRO".to_string(), "Bee".to_string()),
        ("b_macro".to_string(), "Bee Two".to_string()),
    ];
    apply_name_overrides(&mut sn, &overrides);
    assert_eq!(sn.len(), 2);
    assert_eq!(sn.get("a_macro").unwrap(), "New");
    assert_eq!(sn.get("b_macro").unwrap(), "Bee Two");
}

#[test]
fn sector_macros_of_a_save_and_the_missing_ones() {
    let xml = r#"<r><component class="sector" macro="Sec_A_Macro"><component class="sector" macro="sec_b_macro"/></component><component class="zone" macro="z"/><component class="sector" macro="SEC_A_MACRO"/><component class="sector" code="nomacro"/></r>"#;
    let macros = collect_sector_macros(xml);
    assert_eq!(macros.len(), 2);
    assert!(macros.contains_key("sec_a_macro"));
    assert!(macros.contains_key("sec_b_macro"));
    let sn = names(&[("sec_b_macro", "B")]);
    let cn = names(&[]);
    assert_eq!(missing_sector_macros(&macros, &sn, &cn), vec!["sec_a_macro".to_string()]);
    let cn2 = names(&[("sec_a_macro", "A")]);
    assert!(missing_sector_macros(&macros, &sn, &cn2).is_empty());
}

#[test]
fn sector_macros_stop_at_an_error() {
    let xml = r#"<r><component class="sector" macro="one"/></q><component class="sector" macro="two"/>"#;
    let macros = collect_sector_macros(xml);
    assert_eq!(macros.len(), 1);
    assert!(macros.contains_key("one"));
}

#[test]
fn missing_names_found_in_dataset_texts() {
    let entries = vec![
        XmlEntry { name: "a.xml".to_string(), content: "<datasets><dataset macro=\"other\"><identification name=\"X\"/></dataset></datasets>".to_string() },
        XmlEntry { name: "c.xml".to_string(), content: "<dataset macro=\"secYa_macro\"><identification name=\"Wrong\"/></dataset>".to_string() },
        XmlEntry {
            name: "b.xml".to_string(),
            content: "<datasets><dataset macro=\"sec.a_macro\">\n<properties><identification name=\"{7,1}\"/></properties></dataset></datasets>".to_string(),
        },
        XmlEntry { name: "d.xml".to_string(), content: "<dataset macro=\"sec.a_macro\"><identification name=\"Later\"/></dataset>".to_string() },
    ];
    let loc = loc_page("7", &[("1", "Found Name")]);
    let mut sn = names(&[("keep", "Kept")]);
    let missing = vec!["sec.a_macro".to_string(), "absent".to_string()];
    let filled = fill_missing_sector_names(&missing, &entries, &loc, &mut sn).ok().unwrap();
    assert_eq!(filled, 1);
    assert_eq!(sn.len(), 2);
    assert_eq!(sn.get("sec.a_macro").unwrap(), "Found Name");
    assert_eq!(sn.get("keep").unwrap(), "Kept");
}

#[test]
fn oversized_macro_pattern_is_an_error() {
    let entries: Vec<XmlEntry> = vec![];
    let loc: Localization = StrMap::new();
    let mut sn = names(&[]);
    let missing = vec!["a".repeat(1_000_000)];
    assert!(fill_missing_sector_names(&missing, &entries, &loc, &mut sn).is_err());
    assert_eq!(sn.len(), 0);
}
