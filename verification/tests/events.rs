use x4_trading::models::{Sector, TradeType};
use x4_trading::parsers::game_xml::Localization;
use x4_trading::parsers::pilot_xml::pilot_from_events;
use x4_trading::parsers::save_xml::sectors::parser::sectors_from_events;
use x4_trading::parsers::save_xml::trades::trades_from_events;
use x4_trading::strmap::StrMap;
use x4_trading::xml::{tokenize, XmlAttr, XmlElement, XmlEvent};

fn element(name: &str, attrs: &[(&str, &str)]) -> XmlElement {
    XmlElement {
        name: name.to_string(),
        attrs: attrs.iter().map(|(k, v)| XmlAttr { key: k.to_string(), value: v.to_string() }).collect(),
    }
}

#[test]
fn tokenize_gives_events_up_to_eof() {
    let events = tokenize(r#"<a x="1"><b/>text &amp; more</a>"#);
    assert_eq!(events.len(), 5);
    match &events[0] {
        XmlEvent::Start(e) => {
            assert_eq!(e.name, "a");
            assert_eq!(e.attrs.len(), 1);
            assert_eq!(e.attrs[0].key, "x");
            assert_eq!(e.attrs[0].value, "1");
        }
        _ => panic!("expected a start tag"),
    }
    assert!(matches!(&events[1], XmlEvent::Empty(e) if e.name == "b"));
    assert!(matches!(&events[2], XmlEvent::Text(t) if t == "text &amp; more"));
    assert!(matches!(&events[3], XmlEvent::End(n) if n == "a"));
    assert!(matches!(events[4], XmlEvent::Eof));
}

#[test]
fn tokenize_stops_at_the_first_error() {
    let events = tokenize("<a></b><c/>");
    assert_eq!(events.len(), 2);
    assert!(matches!(events[1], XmlEvent::Error));
}

#[test]
fn pilot_from_given_events() {
    let loc: Localization = StrMap::new();
    let events = vec![
        XmlEvent::Start(element("r", &[])),
        XmlEvent::Empty(element("player", &[("name", "Nia"), ("credits", "42")])),
        XmlEvent::Error,
    ];
    let info = pilot_from_events(&events, &loc).ok().unwrap();
    assert_eq!(info.name, "Nia");
    assert_eq!(info.credits, 42);
    let failing = vec![XmlEvent::Start(element("r", &[])), XmlEvent::Error];
    assert!(pilot_from_events(&failing, &loc).is_err());
}

#[test]
fn trades_from_given_events() {
    let empty: StrMap<String> = StrMap::new();
    let loc: Localization = StrMap::new();
    let sectors = vec![Sector { code: "S".to_string(), macro_name: "m".to_string(), name: "S".to_string(), owner: None }];
    let events = vec![
        XmlEvent::Start(element("component", &[("class", "sector"), ("code", "S")])),
        XmlEvent::Start(element("component", &[("class", "station"), ("code", "T")])),
        XmlEvent::Empty(element("trade", &[("ware", "ore"), ("price", "10"), ("amount", "2"), ("buyer", "b")])),
        XmlEvent::End("component".to_string()),
        XmlEvent::End("component".to_string()),
        XmlEvent::Eof,
    ];
    let trades = trades_from_events(&events, &empty, &empty, &loc, &sectors).ok().unwrap();
    let items = &trades.get("S").unwrap().items;
    assert_eq!(items.len(), 1);
    assert_eq!(items[0].trade_type, TradeType::Buy);
    assert_eq!(items[0].station_code, "T");
}

#[test]
fn sectors_from_given_events() {
    let empty: StrMap<String> = StrMap::new();
    let loc: Localization = StrMap::new();
    let events = vec![
        XmlEvent::Empty(element("component", &[("class", "sector"), ("code", "A"), ("macro", "m")])),
        XmlEvent::Empty(element("component", &[("class", "sector"), ("code", "A"), ("macro", "n")])),
        XmlEvent::Eof,
    ];
    let sectors = sectors_from_events(&events, &empty, &empty, &empty, &loc).ok().unwrap();
    assert_eq!(sectors.len(), 1);
    assert_eq!(sectors[0].macro_name, "m");
}
