use vstd::prelude::*;
use crate::models::opt_view;
use crate::models::pilot::{PilotInfo, PilotInfoView};
use crate::numbers::{parse_i64, parse_i64_chars};
use crate::parsers::game_xml::{clean_name, cleaned, resolve_name, resolved_name, LocView, Localization};
use crate::parsers::save_xml::sectors::parser::has_attr_value;
use crate::text::{chars_of, owned, str_eq};
use crate::xml::{attr_of, XmlElement};

verus! {

/// What the scan for the player's details knows so far.
pub struct PilotView {
    pub name: Option<Seq<char>>,
    pub credits: Option<int>,
    pub location: Option<Seq<char>>,
    pub in_player_faction: bool,
    pub depth: nat,
}

/// Credit keys read on the `player` element.
pub open spec fn is_player_money_key(k: Seq<char>) -> bool {
    k == "money"@ || k == "funds"@ || k == "value"@ || k == "amount"@ || k == "credits"@
        || k == "balance"@ || k == "budget"@
}

/// Credit keys read on any element owned by the player.
pub open spec fn is_money_key(k: Seq<char>) -> bool {
    k == "amount"@ || k == "money"@ || k == "funds"@ || k == "value"@ || k == "credits"@
        || k == "credit"@ || k == "balance"@ || k == "budget"@
}

/// Keys whose value `player` marks an element as the player's.
pub open spec fn is_owner_key(k: Seq<char>) -> bool {
    k == "owner"@ || k == "id"@ || k == "faction"@
}

/// The `player` element's attributes, in order: a non-empty `name`, a `location` that
/// resolves and cleans to something non-empty, a credit key whose value reads as `i64`.
pub open spec fn capture_player(p: PilotView, attrs: Seq<(Seq<char>, Seq<char>)>, loc: LocView) -> PilotView
    decreases attrs.len(),
{
    if attrs.len() == 0 {
        p
    } else {
        let q = capture_player(p, attrs.drop_last(), loc);
        let k = attrs.last().0;
        let v = attrs.last().1;
        if k == "name"@ {
            if v.len() > 0 { PilotView { name: Some(v), ..q } } else { q }
        } else if k == "location"@ {
            let c = cleaned(resolved_name(v, loc));
            if c.len() > 0 { PilotView { location: Some(c), ..q } } else { q }
        } else if is_player_money_key(k) {
            match parse_i64(v) {
                Some(n) => PilotView { credits: Some(n), ..q },
                None => q,
            }
        } else {
            q
        }
    }
}

proof fn lemma_capture_player_depth(p: PilotView, attrs: Seq<(Seq<char>, Seq<char>)>, loc: LocView)
    ensures
        capture_player(p, attrs, loc).depth == p.depth,
    decreases attrs.len(),
{
    if attrs.len() > 0 {
        lemma_capture_player_depth(p, attrs.drop_last(), loc);
    }
}

/// Reading a tag's details moves one level down for a start tag and stays for an empty
/// one.
pub proof fn lemma_pilot_tag_depth(p: PilotView, tag: Seq<char>, attrs: Seq<(Seq<char>, Seq<char>)>, loc: LocView, opens: bool)
    ensures
        pilot_tag(p, tag, attrs, loc, opens).depth == p.depth + if opens { 1int } else { 0int },
{
    let p1 = if opens { PilotView { depth: p.depth + 1, ..p } } else { p };
    lemma_capture_player_depth(p1, attrs, loc);
}

/// The name an identification gives: the element is `identification` or has class
/// `identification`, and its `name` resolves to something non-empty.
pub open spec fn ident_name(tag: Seq<char>, attrs: Seq<(Seq<char>, Seq<char>)>, loc: LocView) -> Option<Seq<char>> {
    let is_ident = tag == "identification"@ || has_attr_value(attrs, "class"@, "identification"@);
    match attr_of(attrs, "name"@) {
        Some(nr) => if is_ident && resolved_name(nr, loc).len() > 0 {
            Some(resolved_name(nr, loc))
        } else {
            None
        },
        None => None,
    }
}

/// The last credit value among the attributes that reads as `i64`.
pub open spec fn last_money(attrs: Seq<(Seq<char>, Seq<char>)>) -> Option<int>
    decreases attrs.len(),
{
    if attrs.len() == 0 {
        None
    } else if is_money_key(attrs.last().0) && parse_i64(attrs.last().1) is Some {
        parse_i64(attrs.last().1)
    } else {
        last_money(attrs.drop_last())
    }
}

/// Whether an owner key of the element has the value `player`.
pub open spec fn owned_by_player(attrs: Seq<(Seq<char>, Seq<char>)>) -> bool {
    exists|i: int| 0 <= i < attrs.len() && is_owner_key(#[trigger] attrs[i].0) && attrs[i].1 == "player"@
}

/// Credits on an element of the player (owned by, inside the player's faction, or the
/// `player` element itself).
pub open spec fn collect_credits(p: PilotView, tag: Seq<char>, attrs: Seq<(Seq<char>, Seq<char>)>) -> PilotView {
    if owned_by_player(attrs) || p.in_player_faction || tag == "player"@ {
        match last_money(attrs) {
            Some(v) => PilotView { credits: Some(v), ..p },
            None => p,
        }
    } else {
        p
    }
}

/// A start (`opens`) or empty tag.
pub open spec fn pilot_tag(p: PilotView, tag: Seq<char>, attrs: Seq<(Seq<char>, Seq<char>)>, loc: LocView, opens: bool) -> PilotView {
    let p1 = if opens { PilotView { depth: p.depth + 1, ..p } } else { p };
    let p2 = if tag == "player"@ { capture_player(p1, attrs, loc) } else { p1 };
    let p3 = if tag == "faction"@ && has_attr_value(attrs, "id"@, "player"@) {
        PilotView { in_player_faction: true, ..p2 }
    } else {
        p2
    };
    let p4 = if p3.in_player_faction && (tag == "identification"@ || tag == "component"@) {
        match ident_name(tag, attrs, loc) {
            Some(n) => PilotView { name: Some(n), ..p3 },
            None => p3,
        }
    } else {
        p3
    };
    collect_credits(p4, tag, attrs)
}

/// An end tag: one level up; leaving the top level leaves the player's faction.
pub open spec fn pilot_end(p: PilotView) -> PilotView {
    let d: nat = if p.depth > 0 { (p.depth - 1) as nat } else { 0 };
    PilotView { depth: d, in_player_faction: p.in_player_faction && d != 0, ..p }
}

/// The details found, with `Player` and 0 for what was not.
pub open spec fn pilot_info_of(p: PilotView) -> PilotInfoView {
    PilotInfoView {
        name: match p.name {
            Some(n) => n,
            None => "Player"@,
        },
        credits: match p.credits {
            Some(c) => c,
            None => 0,
        },
        location: p.location,
    }
}

/// The scan for the player's name, credits and location.
pub struct PilotState<'a> {
    localization: &'a Localization,
    pub name: Option<String>,
    pub credits: Option<i64>,
    pub location: Option<String>,
    in_player_faction: bool,
    depth: usize,
}

impl<'a> PilotState<'a> {
    /// What the scan knows.
    pub closed spec fn state(&self) -> PilotView {
        PilotView {
            name: opt_view(self.name),
            credits: match self.credits {
                Some(c) => Some(c as int),
                None => None,
            },
            location: opt_view(self.location),
            in_player_faction: self.in_player_faction,
            depth: self.depth as nat,
        }
    }

    /// The localization names are resolved with.
    pub closed spec fn loc(&self) -> LocView {
        self.localization@
    }

    /// A scan that knows nothing yet.
    pub fn new(localization: &'a Localization) -> (s: Self)
        ensures
            s.state() == (PilotView { name: None, credits: None, location: None, in_player_faction: false, depth: 0 }),
            s.loc() == localization@,
    {
        PilotState { localization, name: None, credits: None, location: None, in_player_faction: false, depth: 0 }
    }

    fn capture_player_attrs(&mut self, e: &XmlElement)
        ensures
            final(self).state() == capture_player(old(self).state(), e@.attrs, old(self).loc()),
            final(self).loc() == old(self).loc(),
    {
        let ghost attrs = e@.attrs;
        let ghost p0 = self.state();
        let mut i: usize = 0;
        while i < e.attrs.len()
            invariant
                i <= e.attrs@.len(),
                attrs == e@.attrs,
                self.loc() == old(self).loc(),
                self.state() == capture_player(p0, attrs.take(i as int), self.loc()),
            decreases e.attrs.len() - i,
        {
            proof {
                assert(attrs.take(i + 1).drop_last() =~= attrs.take(i as int));
                assert(attrs.take(i + 1).last() == (e.attrs@[i as int].key@, e.attrs@[i as int].value@));
            }
            let k = e.attrs[i].key.as_str();
            let v = &e.attrs[i].value;
            if str_eq(k, "name") {
                let vc = chars_of(v.as_str());
                if vc.len() > 0 {
                    self.name = Some(v.clone());
                }
            } else if str_eq(k, "location") {
                let resolved = resolve_name(v.as_str(), self.localization);
                let c = clean_name(resolved.as_str());
                let cc = chars_of(c.as_str());
                if cc.len() > 0 {
                    self.location = Some(c);
                }
            } else if str_eq(k, "money") || str_eq(k, "funds") || str_eq(k, "value") || str_eq(k, "amount")
                || str_eq(k, "credits") || str_eq(k, "balance") || str_eq(k, "budget") {
                let vc = chars_of(v.as_str());
                match parse_i64_chars(vc.as_slice()) {
                    Some(n) => {
                        self.credits = Some(n);
                    },
                    None => {},
                }
            }
            i += 1;
        }
        proof {
            assert(attrs.take(e.attrs@.len() as int) =~= attrs);
        }
    }

    fn collect_credits(&mut self, e: &XmlElement)
        ensures
            final(self).state() == collect_credits(old(self).state(), e@.name, e@.attrs),
            final(self).loc() == old(self).loc(),
    {
        let ghost attrs = e@.attrs;
        let mut owner_is_player = false;
        let mut val: Option<i64> = None;
        let mut i: usize = 0;
        while i < e.attrs.len()
            invariant
                i <= e.attrs@.len(),
                attrs == e@.attrs,
                owner_is_player == exists|j: int|
                    0 <= j < i && is_owner_key(#[trigger] attrs[j].0) && attrs[j].1 == "player"@,
                match val {
                    Some(n) => last_money(attrs.take(i as int)) == Some(n as int),
                    None => last_money(attrs.take(i as int)) is None,
                },
            decreases e.attrs.len() - i,
        {
            proof {
                assert(attrs.take(i + 1).drop_last() =~= attrs.take(i as int));
                assert(attrs.take(i + 1).last() == (e.attrs@[i as int].key@, e.attrs@[i as int].value@));
                assert(attrs[i as int] == (e.attrs@[i as int].key@, e.attrs@[i as int].value@));
            }
            let k = e.attrs[i].key.as_str();
            let v = e.attrs[i].value.as_str();
            if str_eq(k, "owner") || str_eq(k, "id") || str_eq(k, "faction") {
                if str_eq(v, "player") {
                    owner_is_player = true;
                }
            }
            if str_eq(k, "amount") || str_eq(k, "money") || str_eq(k, "funds") || str_eq(k, "value")
                || str_eq(k, "credits") || str_eq(k, "credit") || str_eq(k, "balance") || str_eq(k, "budget") {
                let vc = chars_of(v);
                match parse_i64_chars(vc.as_slice()) {
                    Some(n) => {
                        val = Some(n);
                    },
                    None => {},
                }
            }
            i += 1;
        }
        proof {
            assert(attrs.take(e.attrs@.len() as int) =~= attrs);
        }
        if owner_is_player || self.in_player_faction || e.is("player") {
            match val {
                Some(v) => {
                    self.credits = Some(v);
                },
                None => {},
            }
        }
    }

    fn handle_tag(&mut self, e: &XmlElement, opens: bool)
        requires
            opens ==> old(self).state().depth < usize::MAX,
        ensures
            final(self).state() == pilot_tag(old(self).state(), e@.name, e@.attrs, old(self).loc(), opens),
            final(self).loc() == old(self).loc(),
    {
        if opens {
            self.depth = self.depth + 1;
        }
        if e.is("player") {
            self.capture_player_attrs(e);
        }
        if e.is("faction") && e.has_attr_value("id", "player") {
            self.in_player_faction = true;
        }
        if self.in_player_faction && (e.is("identification") || e.is("component")) {
            let is_ident = e.is("identification") || e.has_attr_value("class", "identification");
            match e.attr("name") {
                Some(nr) => {
                    if is_ident {
                        let resolved = resolve_name(nr.as_str(), self.localization);
                        let rc = chars_of(resolved.as_str());
                        if rc.len() > 0 {
                            self.name = Some(resolved);
                        }
                    }
                },
                None => {},
            }
        }
        self.collect_credits(e);
    }

    /// A start tag: one level down, then the tag's details.
    pub fn handle_start(&mut self, e: &XmlElement)
        requires
            old(self).state().depth < usize::MAX,
        ensures
            final(self).state() == pilot_tag(old(self).state(), e@.name, e@.attrs, old(self).loc(), true),
            final(self).loc() == old(self).loc(),
    {
        self.handle_tag(e, true)
    }

    /// An empty-element tag's details.
    pub fn handle_empty(&mut self, e: &XmlElement)
        ensures
            final(self).state() == pilot_tag(old(self).state(), e@.name, e@.attrs, old(self).loc(), false),
            final(self).loc() == old(self).loc(),
    {
        self.handle_tag(e, false)
    }

    /// An end tag: one level up; back at the top level the player's faction is left.
    pub fn handle_end(&mut self)
        ensures
            final(self).state() == pilot_end(old(self).state()),
            final(self).loc() == old(self).loc(),
    {
        if self.depth > 0 {
            self.depth -= 1;
        }
        if self.in_player_faction && self.depth == 0 {
            self.in_player_faction = false;
        }
    }

    /// Whether both the name and the credits are known.
    pub fn is_complete(&self) -> (b: bool)
        ensures
            b == (self.state().name is Some && self.state().credits is Some),
    {
        self.name.is_some() && self.credits.is_some()
    }

    /// The details found, `Player` and 0 standing for what was not.
    pub fn into_info(self) -> (info: PilotInfo)
        ensures
            info@ == pilot_info_of(self.state()),
    {
        PilotInfo {
            name: match self.name {
                Some(n) => n,
                None => owned("Player"),
            },
            credits: match self.credits {
                Some(c) => c,
                None => 0,
            },
            location: self.location,
        }
    }
}

} // verus!
