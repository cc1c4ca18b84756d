use vstd::prelude::*;
use crate::models::{Sector, SectorView, StationWare, StationWareView, StationWares, TradeType};
use crate::numbers::{parse_i32, parse_i32_chars};
use crate::parsers::game_xml::{LocView, Localization};
use crate::parsers::save_xml::helpers::{
    contexts_view, find_parent_sector, find_parent_station, get_sector_name, get_station_name,
    map_get, parent_sector, parent_station, sector_name_in_stack, station_name, Context,
    ContextView,
};
use crate::strmap::StrMap;
use crate::text::{chars_of, str_eq};
use crate::xml::{
    attr_map, fold_events, lemma_fold_events_next, tokenize, views, xml_events, EventView,
    XmlEvent, XmlParseError,
};

verus! {

/// Sector code to owner, from the list of sectors; a later sector with the same code
/// replaces an earlier one.
pub open spec fn sector_owner_map(sectors: Seq<SectorView>) -> Map<Seq<char>, Option<Seq<char>>>
    decreases sectors.len(),
{
    if sectors.len() == 0 {
        Map::empty()
    } else {
        sector_owner_map(sectors.drop_last()).insert(sectors.last().code, sectors.last().owner)
    }
}

/// A `buyer` attribute makes the station a buyer, a `seller` attribute a seller;
/// otherwise a positive amount means selling.
pub open spec fn trade_type_of(attrs: Map<Seq<char>, Seq<char>>, amount: int) -> TradeType {
    if attrs.contains_key("buyer"@) {
        TradeType::Buy
    } else if attrs.contains_key("seller"@) {
        TradeType::Sell
    } else if amount > 0 {
        TradeType::Sell
    } else {
        TradeType::Buy
    }
}

/// The offer that a `trade` element with attributes `attrs` makes, with the open elements
/// `stack`: only inside a (non-wrecked) station within a sector, with a ware, a positive
/// price and a positive amount.
pub open spec fn trade_offer(
    attrs: Map<Seq<char>, Seq<char>>,
    stack: Seq<ContextView>,
    sn: Map<Seq<char>, Seq<char>>,
    cn: Map<Seq<char>, Seq<char>>,
    loc: LocView,
    owners: Map<Seq<char>, Option<Seq<char>>>,
) -> Option<StationWareView> {
    match parent_station(stack) {
        Some(si) => match (map_get(attrs, "ware"@), map_get(attrs, "price"@), map_get(attrs, "amount"@)) {
            (Some(w), Some(p), Some(a)) => match (parse_i32(p), parse_i32(a)) {
                (Some(pr), Some(am)) => match parent_sector(stack) {
                    Some(sc) => if pr > 0 && am > 0 {
                        let name = station_name(stack[si], cn, loc);
                        Some(
                            StationWareView {
                                ware: w,
                                price_cents: pr,
                                amount: am,
                                trade_type: trade_type_of(attrs, am),
                                station_name: name,
                                station_code: match map_get(stack[si].attrs, "code"@) {
                                    Some(c) => c,
                                    None => name,
                                },
                                sector_code: sc,
                                sector_name: sector_name_in_stack(sc, stack, sn),
                                sector_owner: if owners.contains_key(sc) {
                                    owners[sc]
                                } else {
                                    None
                                },
                            },
                        )
                    } else {
                        None
                    },
                    None => None,
                },
                _ => None,
            },
            _ => None,
        },
        None => None,
    }
}

/// `m` with offer `w` appended to its sector's list.
pub open spec fn add_offer(m: Map<Seq<char>, Seq<StationWareView>>, w: StationWareView) -> Map<
    Seq<char>,
    Seq<StationWareView>,
> {
    m.insert(
        w.sector_code,
        (if m.contains_key(w.sector_code) {
            m[w.sector_code]
        } else {
            Seq::empty()
        }).push(w),
    )
}

/// `m` with the offer of a `trade` element, if it makes one.
pub open spec fn with_offer(
    m: Map<Seq<char>, Seq<StationWareView>>,
    offer: Option<StationWareView>,
) -> Map<Seq<char>, Seq<StationWareView>> {
    match offer {
        Some(w) => add_offer(m, w),
        None => m,
    }
}

/// The context that a start tag opens; its depth is the number of elements open around it.
pub open spec fn context_of(name: Seq<char>, attrs: Seq<(Seq<char>, Seq<char>)>, depth: nat) -> ContextView {
    ContextView { tag: name, attrs: attr_map(attrs), depth, source_entry: None, source_nameindex: None }
}

/// State of a scan for trade offers.
pub struct TradeScan {
    pub stack: Seq<ContextView>,
    pub out: Map<Seq<char>, Seq<StationWareView>>,
    pub failed: bool,
}

/// The lookups that the offers are resolved with.
pub struct TradeLookups {
    pub sector_names: Map<Seq<char>, Seq<char>>,
    pub component_names: Map<Seq<char>, Seq<char>>,
    pub loc: LocView,
    pub owners: Map<Seq<char>, Option<Seq<char>>>,
}

pub open spec fn trade_step(lk: TradeLookups, st: TradeScan, ev: EventView) -> TradeScan {
    if st.failed {
        st
    } else {
        match ev {
            EventView::Start(e) => {
                let stack = st.stack.push(context_of(e.name, e.attrs, st.stack.len()));
                let out = if e.name == "trade"@ {
                    with_offer(
                        st.out,
                        trade_offer(attr_map(e.attrs), stack, lk.sector_names, lk.component_names, lk.loc, lk.owners),
                    )
                } else {
                    st.out
                };
                TradeScan { stack, out, ..st }
            },
            EventView::Empty(e) => if e.name == "trade"@ {
                TradeScan {
                    out: with_offer(
                        st.out,
                        trade_offer(attr_map(e.attrs), st.stack, lk.sector_names, lk.component_names, lk.loc, lk.owners),
                    ),
                    ..st
                }
            } else {
                st
            },
            EventView::End(_) => if st.stack.len() > 0 {
                TradeScan { stack: st.stack.drop_last(), ..st }
            } else {
                st
            },
            EventView::Error => TradeScan { failed: true, ..st },
            _ => st,
        }
    }
}

/// The trade offers of a save by sector code, or `None` when the save does not parse.
pub open spec fn trades_in(evs: Seq<EventView>, lk: TradeLookups) -> Option<Map<Seq<char>, Seq<StationWareView>>> {
    let st = fold_events(
        evs,
        TradeScan { stack: Seq::empty(), out: Map::empty(), failed: false },
        |s: TradeScan, e: EventView| trade_step(lk, s, e),
    );
    if st.failed {
        None
    } else {
        Some(st.out)
    }
}

/// Every offer is filed under its own sector's code, with a positive price and amount.
pub open spec fn offers_well_filed(m: Map<Seq<char>, Seq<StationWareView>>) -> bool {
    forall|k: Seq<char>, j: int|
        #![trigger m[k][j]]
        m.contains_key(k) && 0 <= j < m[k].len() ==> {
            &&& m[k][j].sector_code == k
            &&& m[k][j].price_cents > 0
            &&& m[k][j].amount > 0
        }
}

proof fn lemma_with_offer_filed(m: Map<Seq<char>, Seq<StationWareView>>, offer: Option<StationWareView>)
    requires
        offers_well_filed(m),
        offer matches Some(w) ==> w.price_cents > 0 && w.amount > 0,
    ensures
        offers_well_filed(with_offer(m, offer)),
{
    if let Some(w) = offer {
        let m2 = add_offer(m, w);
        assert forall|k: Seq<char>, j: int| m2.contains_key(k) && 0 <= j < m2[k].len() implies {
            &&& #[trigger] m2[k][j].sector_code == k
            &&& m2[k][j].price_cents > 0
            &&& m2[k][j].amount > 0
        } by {
            if k == w.sector_code {
                if j < m2[k].len() - 1 {
                    assert(m2[k][j] == m[k][j]);
                }
            }
        }
    }
}

proof fn lemma_trades_fold_filed(evs: Seq<EventView>, lk: TradeLookups)
    ensures
        offers_well_filed(
            fold_events(
                evs,
                TradeScan { stack: Seq::empty(), out: Map::empty(), failed: false },
                |s: TradeScan, e: EventView| trade_step(lk, s, e),
            ).out,
        ),
    decreases evs.len(),
{
    let init = TradeScan { stack: Seq::empty(), out: Map::empty(), failed: false };
    let step = |s: TradeScan, e: EventView| trade_step(lk, s, e);
    if evs.len() > 0 {
        lemma_trades_fold_filed(evs.drop_last(), lk);
        let st = fold_events(evs.drop_last(), init, step);
        if !st.failed {
            match evs.last() {
                EventView::Start(e) => {
                    let stack = st.stack.push(context_of(e.name, e.attrs, st.stack.len()));
                    lemma_with_offer_filed(
                        st.out,
                        trade_offer(attr_map(e.attrs), stack, lk.sector_names, lk.component_names, lk.loc, lk.owners),
                    );
                },
                EventView::Empty(e) => {
                    lemma_with_offer_filed(
                        st.out,
                        trade_offer(attr_map(e.attrs), st.stack, lk.sector_names, lk.component_names, lk.loc, lk.owners),
                    );
                },
                _ => {},
            }
        }
    }
}

/// Whatever the save holds, each offer found lies in the list of its own sector code, with
/// a positive price and a positive amount.
pub proof fn law_trade_offers_filed(evs: Seq<EventView>, lk: TradeLookups)
    requires
        trades_in(evs, lk) is Some,
    ensures
        offers_well_filed(trades_in(evs, lk).unwrap()),
{
    lemma_trades_fold_filed(evs, lk);
}

/// The owner of a sector, kept as a map value.
struct OwnerEntry {
    owner: Option<String>,
}

impl View for OwnerEntry {
    type V = Option<Seq<char>>;

    closed spec fn view(&self) -> Option<Seq<char>> {
        crate::models::opt_view(self.owner)
    }
}

fn owner_map(sectors: &[Sector]) -> (m: StrMap<OwnerEntry>)
    ensures
        m@ == sector_owner_map(sectors@.map_values(|s: Sector| s@)),
{
    let ghost sv = sectors@.map_values(|s: Sector| s@);
    let mut m: StrMap<OwnerEntry> = StrMap::new();
    let mut i: usize = 0;
    while i < sectors.len()
        invariant
            i <= sectors@.len(),
            sv == sectors@.map_values(|s: Sector| s@),
            m@ == sector_owner_map(sv.take(i as int)),
        decreases sectors.len() - i,
    {
        proof {
            assert(sv.take(i + 1).drop_last() =~= sv.take(i as int));
            assert(sv.take(i + 1).last() == sectors@[i as int]@);
        }
        m.insert(
            sectors[i].code.clone(),
            OwnerEntry { owner: crate::models::copy_opt(&sectors[i].owner) },
        );
        i += 1;
    }
    proof {
        assert(sv.take(sectors@.len() as int) =~= sv);
    }
    m
}

fn trade_type_exec(attrs: &StrMap<String>, amount: i32) -> (t: TradeType)
    ensures
        t == trade_type_of(attrs@, amount as int),
{
    if attrs.contains_key("buyer") {
        TradeType::Buy
    } else if attrs.contains_key("seller") {
        TradeType::Sell
    } else if amount > 0 {
        TradeType::Sell
    } else {
        TradeType::Buy
    }
}

fn parse_attr_i32(attrs: &StrMap<String>, k: &str) -> (r: Option<i32>)
    ensures
        match r {
            Some(v) => map_get(attrs@, k@) is Some && parse_i32(map_get(attrs@, k@).unwrap()) == Some(v as int),
            None => map_get(attrs@, k@) is None || parse_i32(map_get(attrs@, k@).unwrap()) is None,
        },
{
    match attrs.get(k) {
        Some(t) => {
            let tc = chars_of(t.as_str());
            parse_i32_chars(tc.as_slice())
        },
        None => None,
    }
}

fn add_offer_exec(trades: &mut StrMap<StationWares>, w: StationWare)
    ensures
        final(trades)@ == add_offer(old(trades)@, w@),
{
    let kc = chars_of(w.sector_code.as_str());
    match trades.index_of(kc.as_slice()) {
        Some(i) => {
            let mut list = trades.replace_value(i, StationWares { items: Vec::new() });
            let ghost before = list@;
            list.items.push(w);
            proof {
                assert(list@ =~= before.push(w@));
            }
            trades.replace_value(i, list);
        },
        None => {
            let key = w.sector_code.clone();
            let ghost wv = w@;
            let mut items: Vec<StationWare> = Vec::new();
            items.push(w);
            let list = StationWares { items };
            proof {
                assert(list@ =~= Seq::<StationWareView>::empty().push(wv));
            }
            trades.insert(key, list);
        },
    }
}

/// Records the offer of a `trade` element, if it makes one (see `trade_offer`).
fn process_trade_element(
    attrs: &StrMap<String>,
    stack: &[Context],
    sector_names: &StrMap<String>,
    component_names: &StrMap<String>,
    localization: &Localization,
    sector_owners: &StrMap<OwnerEntry>,
    trades_by_sector: &mut StrMap<StationWares>,
)
    ensures
        final(trades_by_sector)@ == with_offer(
            old(trades_by_sector)@,
            trade_offer(
                attrs@,
                contexts_view(stack@),
                sector_names@,
                component_names@,
                localization@,
                sector_owners@,
            ),
        ),
{
    let ghost sv = contexts_view(stack@);
    let station = match find_parent_station(stack) {
        Some(s) => s,
        None => {
            return;
        },
    };
    let ghost si = parent_station(sv).unwrap();
    assert(station@ == sv[si]);
    let ware_id = match attrs.get("ware") {
        Some(w) => w,
        None => {
            return;
        },
    };
    if attrs.get("price").is_none() || attrs.get("amount").is_none() {
        return;
    }
    let price = match parse_attr_i32(attrs, "price") {
        Some(p) => p,
        None => {
            return;
        },
    };
    let amount = match parse_attr_i32(attrs, "amount") {
        Some(a) => a,
        None => {
            return;
        },
    };
    let trade_type = trade_type_exec(attrs, amount);
    let sector_code = match find_parent_sector(stack) {
        Some(c) => c,
        None => {
            return;
        },
    };
    if price > 0 && amount > 0 {
        let station_name = get_station_name(station, component_names, localization);
        let station_code = match station.attrs.get("code") {
            Some(c) => c.clone(),
            None => station_name.clone(),
        };
        let sector_name = get_sector_name(sector_code.as_str(), stack, sector_names);
        let sector_owner = match sector_owners.get(sector_code.as_str()) {
            Some(o) => crate::models::copy_opt(&o.owner),
            None => None,
        };
        let w = StationWare {
            ware: ware_id.clone(),
            price_cents: price,
            amount,
            trade_type,
            station_name,
            station_code,
            sector_code,
            sector_name,
            sector_owner,
        };
        add_offer_exec(trades_by_sector, w);
    }
}

/// All trade offers of a save, grouped by sector code in the order found: offers of
/// `trade` elements inside stations within sectors, with positive price and amount.
/// Fails when the save is not well-formed XML.
pub fn extract_all_trades(
    xml_content: &str,
    sector_names: &StrMap<String>,
    component_names: &StrMap<String>,
    localization: &Localization,
    sectors: &[Sector],
) -> (r: Result<StrMap<StationWares>, XmlParseError>)
    ensures
        ({
            let lk = TradeLookups {
                sector_names: sector_names@,
                component_names: component_names@,
                loc: localization@,
                owners: sector_owner_map(sectors@.map_values(|s: Sector| s@)),
            };
            match r {
                Ok(m) => trades_in(xml_events(xml_content@), lk) == Some(m@),
                Err(_) => trades_in(xml_events(xml_content@), lk) is None,
            }
        }),
{
    let events = tokenize(xml_content);
    trades_from_events(events.as_slice(), sector_names, component_names, localization, sectors)
}

/// The same as `extract_all_trades`, on the events of the text.
pub fn trades_from_events(
    events: &[XmlEvent],
    sector_names: &StrMap<String>,
    component_names: &StrMap<String>,
    localization: &Localization,
    sectors: &[Sector],
) -> (r: Result<StrMap<StationWares>, XmlParseError>)
    ensures
        ({
            let lk = TradeLookups {
                sector_names: sector_names@,
                component_names: component_names@,
                loc: localization@,
                owners: sector_owner_map(sectors@.map_values(|s: Sector| s@)),
            };
            match r {
                Ok(m) => trades_in(views(events@), lk) == Some(m@),
                Err(_) => trades_in(views(events@), lk) is None,
            }
        }),
{
    let ghost evs = views(events@);
    let owners = owner_map(sectors);
    let ghost lk = TradeLookups {
        sector_names: sector_names@,
        component_names: component_names@,
        loc: localization@,
        owners: owners@,
    };
    let mut trades: StrMap<StationWares> = StrMap::new();
    let mut stack: Vec<Context> = Vec::new();
    let mut failed = false;
    let mut i: usize = 0;
    proof {
        assert(contexts_view(stack@) =~= Seq::<ContextView>::empty());
    }
    while i < events.len()
        invariant
            i <= events@.len(),
            evs == views(events@),
            lk == (TradeLookups {
                sector_names: sector_names@,
                component_names: component_names@,
                loc: localization@,
                owners: owners@,
            }),
            fold_events(
                evs.take(i as int),
                TradeScan { stack: Seq::empty(), out: Map::empty(), failed: false },
                |s: TradeScan, e: EventView| trade_step(lk, s, e),
            ) == (TradeScan { stack: contexts_view(stack@), out: trades@, failed }),
        decreases events.len() - i,
    {
        proof {
            lemma_fold_events_next(
                evs,
                i as int,
                TradeScan { stack: Seq::empty(), out: Map::empty(), failed: false },
                |s: TradeScan, e: EventView| trade_step(lk, s, e),
            );
            assert(evs[i as int] == events@[i as int]@);
        }
        let ghost sv0 = contexts_view(stack@);
        if !failed {
            match &events[i] {
                XmlEvent::Start(e) => {
                    let attrs = e.attr_strmap();
                    let depth = stack.len();
                    stack.push(
                        Context {
                            tag: e.name.clone(),
                            attrs,
                            depth,
                            source_entry: None,
                            source_nameindex: None,
                        },
                    );
                    proof {
                        assert(contexts_view(stack@) =~= sv0.push(context_of(e@.name, e@.attrs, sv0.len())));
                    }
                    if e.is("trade") {
                        let trade_attrs = e.attr_strmap();
                        process_trade_element(
                            &trade_attrs,
                            stack.as_slice(),
                            sector_names,
                            component_names,
                            localization,
                            &owners,
                            &mut trades,
                        );
                    }
                },
                XmlEvent::Empty(e) => {
                    if e.is("trade") {
                        let trade_attrs = e.attr_strmap();
                        process_trade_element(
                            &trade_attrs,
                            stack.as_slice(),
                            sector_names,
                            component_names,
                            localization,
                            &owners,
                            &mut trades,
                        );
                    }
                },
                XmlEvent::End(_) => {
                    if stack.len() > 0 {
                        stack.pop();
                        proof {
                            assert(contexts_view(stack@) =~= sv0.drop_last());
                        }
                    }
                },
                XmlEvent::Error => {
                    failed = true;
                },
                _ => {},
            }
        }
        i += 1;
    }
    proof {
        assert(evs.take(events@.len() as int) =~= evs);
    }
    if failed {
        Err(XmlParseError)
    } else {
        Ok(trades)
    }
}

} // verus!
