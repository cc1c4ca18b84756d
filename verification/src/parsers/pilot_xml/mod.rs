use vstd::prelude::*;
use crate::models::pilot::{PilotInfo, PilotInfoView};
use crate::parsers::game_xml::{LocView, Localization};
use crate::xml::{
    fold_events, is_terminal, lemma_fold_events_next, tokenize, views, well_formed_stream,
    xml_events, EventView, XmlEvent, XmlParseError,
};

pub mod state;

use self::state::{lemma_pilot_tag_depth, pilot_end, pilot_info_of, pilot_tag, PilotState, PilotView};

verus! {

/// State of the scan: what is known, and whether the scan has stopped (name and credits
/// both found, or the end of the document) or failed.
pub struct PilotScan {
    pub p: PilotView,
    pub stopped: bool,
    pub failed: bool,
}

pub open spec fn pilot_step(loc: LocView, st: PilotScan, ev: EventView) -> PilotScan {
    if st.stopped || st.failed {
        st
    } else {
        match ev {
            EventView::Eof => PilotScan { stopped: true, ..st },
            EventView::Error => PilotScan { failed: true, ..st },
            _ => {
                let p = match ev {
                    EventView::Start(e) => pilot_tag(st.p, e.name, e.attrs, loc, true),
                    EventView::Empty(e) => pilot_tag(st.p, e.name, e.attrs, loc, false),
                    EventView::End(_) => pilot_end(st.p),
                    _ => st.p,
                };
                PilotScan { p, stopped: p.name is Some && p.credits is Some, failed: false }
            },
        }
    }
}

pub open spec fn pilot_start() -> PilotScan {
    PilotScan {
        p: PilotView { name: None, credits: None, location: None, in_player_faction: false, depth: 0 },
        stopped: false,
        failed: false,
    }
}

/// The player's details in a save, or `None` when the save does not parse before both
/// the name and the credits are found.
pub open spec fn pilot_in(evs: Seq<EventView>, loc: LocView) -> Option<PilotInfoView> {
    let st = fold_events(evs, pilot_start(), |s: PilotScan, e: EventView| pilot_step(loc, s, e));
    if st.failed {
        None
    } else {
        Some(pilot_info_of(st.p))
    }
}

proof fn lemma_pilot_stop_sticks(evs: Seq<EventView>, more: Seq<EventView>, loc: LocView)
    requires
        fold_events(evs, pilot_start(), |s: PilotScan, e: EventView| pilot_step(loc, s, e)).stopped,
    ensures
        fold_events(evs + more, pilot_start(), |s: PilotScan, e: EventView| pilot_step(loc, s, e))
            == fold_events(evs, pilot_start(), |s: PilotScan, e: EventView| pilot_step(loc, s, e)),
    decreases more.len(),
{
    if more.len() == 0 {
        assert(evs + more =~= evs);
    } else {
        lemma_pilot_stop_sticks(evs, more.drop_last(), loc);
        assert((evs + more).drop_last() =~= evs + more.drop_last());
        assert((evs + more).last() == more.last());
    }
}

/// Once a save has given both the player's name and credits, nothing that follows in it
/// changes the details read: a save extended by any further content reads the same.
pub proof fn law_pilot_stops_when_complete(evs: Seq<EventView>, more: Seq<EventView>, loc: LocView)
    requires
        fold_events(evs, pilot_start(), |s: PilotScan, e: EventView| pilot_step(loc, s, e)).p.name is Some,
        fold_events(evs, pilot_start(), |s: PilotScan, e: EventView| pilot_step(loc, s, e)).p.credits is Some,
        !fold_events(evs, pilot_start(), |s: PilotScan, e: EventView| pilot_step(loc, s, e)).failed,
    ensures
        pilot_in(evs + more, loc) == pilot_in(evs, loc),
{
    lemma_pilot_complete_is_stopped(evs, loc);
    lemma_pilot_stop_sticks(evs, more, loc);
}

proof fn lemma_pilot_complete_is_stopped(evs: Seq<EventView>, loc: LocView)
    ensures
        ({
            let st = fold_events(evs, pilot_start(), |s: PilotScan, e: EventView| pilot_step(loc, s, e));
            st.p.name is Some && st.p.credits is Some && !st.failed ==> st.stopped
        }),
    decreases evs.len(),
{
    if evs.len() > 0 {
        lemma_pilot_complete_is_stopped(evs.drop_last(), loc);
    }
}

/// The player's name, credits and location from a save; reading stops once the name and
/// the credits are both known. A parse error before that is an error, not the end of
/// reading: what was found until then is not returned.
pub fn extract_pilot_info(xml_content: &str, localization: &Localization) -> (r: Result<PilotInfo, XmlParseError>)
    ensures
        match r {
            Ok(info) => pilot_in(xml_events(xml_content@), localization@) == Some(info@),
            Err(_) => pilot_in(xml_events(xml_content@), localization@) is None,
        },
{
    let events = tokenize(xml_content);
    pilot_from_events(events.as_slice(), localization)
}

/// The same as `extract_pilot_info`, on the events of the text.
pub fn pilot_from_events(events: &[XmlEvent], localization: &Localization) -> (r: Result<PilotInfo, XmlParseError>)
    ensures
        match r {
            Ok(info) => pilot_in(views(events@), localization@) == Some(info@),
            Err(_) => pilot_in(views(events@), localization@) is None,
        },
{
    let ghost evs = views(events@);
    let ghost loc = localization@;
    let mut state = PilotState::new(localization);
    let mut stopped = false;
    let mut failed = false;
    let mut i: usize = 0;
    while i < events.len()
        invariant
            i <= events@.len(),
            evs == views(events@),
            loc == localization@,
            state.loc() == loc,
            state.state().depth <= i,
            fold_events(evs.take(i as int), pilot_start(), |s: PilotScan, e: EventView| pilot_step(loc, s, e))
                == (PilotScan { p: state.state(), stopped, failed }),
        decreases events.len() - i,
    {
        proof {
            lemma_fold_events_next(evs, i as int, pilot_start(), |s: PilotScan, e: EventView| pilot_step(loc, s, e));
            assert(evs[i as int] == events@[i as int]@);
        }
        if !stopped && !failed {
            match &events[i] {
                XmlEvent::Eof => {
                    stopped = true;
                },
                XmlEvent::Error => {
                    failed = true;
                },
                XmlEvent::Start(e) => {
                    proof {
                        lemma_pilot_tag_depth(state.state(), e@.name, e@.attrs, loc, true);
                    }
                    state.handle_start(e);
                    stopped = state.is_complete();
                },
                XmlEvent::Empty(e) => {
                    proof {
                        lemma_pilot_tag_depth(state.state(), e@.name, e@.attrs, loc, false);
                    }
                    state.handle_empty(e);
                    stopped = state.is_complete();
                },
                XmlEvent::End(_) => {
                    state.handle_end();
                    stopped = state.is_complete();
                },
                _ => {
                    stopped = state.is_complete();
                },
            }
        }
        i += 1;
    }
    proof {
        assert(evs.take(events@.len() as int) =~= evs);
    }
    if failed {
        Err(XmlParseError)
    } else {
        Ok(state.into_info())
    }
}

} // verus!
