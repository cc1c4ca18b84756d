use vstd::prelude::*;
use quick_xml::events::BytesStart;
use quick_xml::events::Event::{Empty, End, Eof, Start, Text};
use quick_xml::Reader;
use crate::strmap::StrMap;

verus! {

#[verifier::external_type_specification]
#[verifier::external_body]
#[verifier::reject_recursive_types(R)]
pub struct ExReader<R>(Reader<R>);

/// One attribute of an element, as written in the document.
pub struct XmlAttr {
    pub key: String,
    pub value: String,
}

/// The name and attributes of a start or empty-element tag.
pub struct XmlElement {
    pub name: String,
    pub attrs: Vec<XmlAttr>,
}

/// One event of the XML pull parser. Text is given as written, entities not replaced.
pub enum XmlEvent {
    Start(XmlElement),
    Empty(XmlElement),
    End(String),
    Text(String),
    Other,
    Eof,
    Error,
}

/// Mathematical model of an element.
pub struct ElementView {
    pub name: Seq<char>,
    pub attrs: Seq<(Seq<char>, Seq<char>)>,
}

/// Mathematical model of an event.
pub enum EventView {
    Start(ElementView),
    Empty(ElementView),
    End(Seq<char>),
    Text(Seq<char>),
    Other,
    Eof,
    Error,
}

impl View for XmlElement {
    type V = ElementView;

    open spec fn view(&self) -> ElementView {
        ElementView {
            name: self.name@,
            attrs: self.attrs@.map_values(|a: XmlAttr| (a.key@, a.value@)),
        }
    }
}

impl View for XmlEvent {
    type V = EventView;

    open spec fn view(&self) -> EventView {
        match self {
            XmlEvent::Start(e) => EventView::Start(e@),
            XmlEvent::Empty(e) => EventView::Empty(e@),
            XmlEvent::End(n) => EventView::End(n@),
            XmlEvent::Text(t) => EventView::Text(t@),
            XmlEvent::Other => EventView::Other,
            XmlEvent::Eof => EventView::Eof,
            XmlEvent::Error => EventView::Error,
        }
    }
}

/// A terminal event ends the stream: the reader gives `Eof` ever after.
pub open spec fn is_terminal(e: EventView) -> bool {
    e is Eof || e is Error
}

/// A finished event stream: it ends with its only terminal event.
pub open spec fn well_formed_stream(s: Seq<EventView>) -> bool {
    &&& s.len() > 0
    &&& is_terminal(s.last())
    &&& forall|i: int| 0 <= i < s.len() - 1 ==> !is_terminal(#[trigger] s[i])
}

/// The events that quick-xml produces for a text, with whitespace around text trimmed,
/// up to and including the first `Eof` or error.
pub uninterp spec fn xml_events(text: Seq<char>) -> Seq<EventView>;

/// The events that a reader has still to give, up to and including its terminal event.
pub uninterp spec fn pending_events(r: Reader<&[u8]>) -> Seq<EventView>;

/// Opens a `quick_xml::Reader` on `text` (`Reader::from_str`) with text trimming on
/// (`trim_text(true)`). Claims that the reader will give the events named by
/// `xml_events(text)`, and that this stream ends with its one terminal event: quick-xml
/// sets its state to `Exit` after the first error or `Eof`, and every other event
/// consumes input.
#[verifier::external_body]
fn open_reader<'a>(text: &'a str) -> (r: Reader<&'a [u8]>)
    ensures
        pending_events(r) == xml_events(text@),
        well_formed_stream(pending_events(r)),
{
    let mut r = Reader::from_str(text);
    r.trim_text(true);
    r
}

/// Reads one event with `Reader::read_event` and converts it: names, attribute keys and
/// raw attribute values (attributes that the iterator reports as errors are skipped),
/// raw text. Claims that the event is the first
/// pending one, and that once the stream is finished the reader gives `Eof`.
#[verifier::external_body]
fn read_event(r: &mut Reader<&[u8]>) -> (e: XmlEvent)
    ensures
        pending_events(*old(r)).len() > 0 ==> e@ == pending_events(*old(r))[0]
            && pending_events(*final(r)) == pending_events(*old(r)).drop_first(),
        pending_events(*old(r)).len() == 0 ==> e is Eof && pending_events(*final(r)).len() == 0,
{
    let s = |b: &[u8]| String::from_utf8_lossy(b).into_owned();
    let el = |e: BytesStart| XmlElement { name: s(e.name().0), attrs: e.attributes().flatten()
        .map(|a| XmlAttr { key: s(a.key.0), value: s(&a.value) }).collect() };
    match r.read_event() {
        Ok(Start(e)) => XmlEvent::Start(el(e)),
        Ok(Empty(e)) => XmlEvent::Empty(el(e)),
        Ok(End(e)) => XmlEvent::End(s(&e)),
        Ok(Text(t)) => XmlEvent::Text(s(&t)),
        Ok(Eof) => XmlEvent::Eof,
        Err(_) => XmlEvent::Error,
        _ => XmlEvent::Other
    }
}

/// True for `Eof` and for a parse error.
pub fn is_terminal_event(e: &XmlEvent) -> (b: bool)
    ensures
        b == is_terminal(e@),
{
    match e {
        XmlEvent::Eof => true,
        XmlEvent::Error => true,
        _ => false,
    }
}

/// All events of `text`, up to and including the first `Eof` or error.
pub fn tokenize(text: &str) -> (events: Vec<XmlEvent>)
    ensures
        events@.map_values(|e: XmlEvent| e@) == xml_events(text@),
        well_formed_stream(xml_events(text@)),
{
    let mut r = open_reader(text);
    let ghost all = pending_events(r);
    let mut events: Vec<XmlEvent> = Vec::new();
    loop
        invariant_except_break
            all == xml_events(text@),
            well_formed_stream(all),
            events@.len() < all.len(),
            events@.map_values(|e: XmlEvent| e@) == all.take(events@.len() as int),
            pending_events(r) == all.skip(events@.len() as int),
        ensures
            events@.map_values(|e: XmlEvent| e@) == all,
            all == xml_events(text@),
            well_formed_stream(all),
        decreases all.len() - events@.len(),
    {
        let e = read_event(&mut r);
        let term = is_terminal_event(&e);
        proof {
            assert(e@ == all[events@.len() as int]);
        }
        events.push(e);
        proof {
            assert(all.take(events@.len() as int) =~= all.take(events@.len() - 1).push(e@));
            assert(events@.map_values(|e: XmlEvent| e@) =~= all.take(events@.len() as int));
            assert(pending_events(r) =~= all.skip(events@.len() as int));
        }
        if term {
            proof {
                assert(events@.len() == all.len());
                assert(all.take(all.len() as int) =~= all);
            }
            break;
        }
    }
    events
}

/// The value of the last attribute named `key`.
pub open spec fn attr_of(attrs: Seq<(Seq<char>, Seq<char>)>, key: Seq<char>) -> Option<Seq<char>>
    decreases attrs.len(),
{
    if attrs.len() == 0 {
        None
    } else if attrs.last().0 == key {
        Some(attrs.last().1)
    } else {
        attr_of(attrs.drop_last(), key)
    }
}

impl XmlElement {
    /// The value of the last attribute named `key`.
    pub fn attr(&self, key: &str) -> (r: Option<&String>)
        ensures
            match r {
                Some(v) => attr_of(self@.attrs, key@) == Some(v@),
                None => attr_of(self@.attrs, key@).is_none(),
            },
    {
        let ghost all = self@.attrs;
        let mut i = self.attrs.len();
        proof {
            assert(all.take(i as int) =~= all);
        }
        while i > 0
            invariant
                i <= self.attrs@.len(),
                all == self@.attrs,
                attr_of(all, key@) == attr_of(all.take(i as int), key@),
            decreases i,
        {
            let a = &self.attrs[i - 1];
            proof {
                assert(all.take(i as int).last() == (a.key@, a.value@));
                assert(all.take(i as int).drop_last() =~= all.take(i - 1));
            }
            if crate::text::str_eq(a.key.as_str(), key) {
                return Some(&a.value);
            }
            i -= 1;
        }
        None
    }

    /// A copy of the value of the last attribute named `key`.
    pub fn attr_string(&self, key: &str) -> (r: Option<String>)
        ensures
            match r {
                Some(v) => attr_of(self@.attrs, key@) == Some(v@),
                None => attr_of(self@.attrs, key@).is_none(),
            },
    {
        match self.attr(key) {
            Some(v) => Some(v.clone()),
            None => None,
        }
    }

    /// Whether the element's name is `name`.
    pub fn is(&self, name: &str) -> (b: bool)
        ensures
            b == (self@.name == name@),
    {
        crate::text::str_eq(self.name.as_str(), name)
    }
}

/// The state after feeding `evs` to `step`, starting from `init`.
pub open spec fn fold_events<S>(evs: Seq<EventView>, init: S, step: spec_fn(S, EventView) -> S) -> S
    decreases evs.len(),
{
    if evs.len() == 0 {
        init
    } else {
        step(fold_events(evs.drop_last(), init, step), evs.last())
    }
}

/// Feeding one more event is one more step.
pub proof fn lemma_fold_events_next<S>(evs: Seq<EventView>, i: int, init: S, step: spec_fn(S, EventView) -> S)
    requires
        0 <= i < evs.len(),
    ensures
        fold_events(evs.take(i + 1), init, step) == step(fold_events(evs.take(i), init, step), evs[i]),
{
    assert(evs.take(i + 1).drop_last() =~= evs.take(i));
}

/// The views of a vector of events.
pub open spec fn views(evs: Seq<XmlEvent>) -> Seq<EventView> {
    evs.map_values(|e: XmlEvent| e@)
}

/// The text with XML's predefined entities and character references replaced
/// (`quick_xml::escape::unescape`), or the empty text when a reference is malformed.
pub uninterp spec fn xml_unescaped(raw: Seq<char>) -> Seq<char>;

/// `quick_xml::escape::unescape`, giving the empty string on an error. Claims the result
/// is `xml_unescaped` of the text.
#[verifier::external_body]
pub(crate) fn unescape_text(raw: &str) -> (r: String)
    ensures
        r@ == xml_unescaped(raw@),
{
    quick_xml::escape::unescape(raw).unwrap_or_default().into_owned()
}

/// The document could not be parsed as XML.
pub struct XmlParseError;

/// The attributes as a map, each in order replacing an earlier one of the same key.
pub open spec fn attr_map(attrs: Seq<(Seq<char>, Seq<char>)>) -> Map<Seq<char>, Seq<char>>
    decreases attrs.len(),
{
    if attrs.len() == 0 {
        Map::empty()
    } else {
        attr_map(attrs.drop_last()).insert(attrs.last().0, attrs.last().1)
    }
}

impl XmlElement {
    /// The attributes as a map (`HashMap::insert` for each, in order).
    pub fn attr_strmap(&self) -> (m: StrMap<String>)
        ensures
            m@ == attr_map(self@.attrs),
    {
        let ghost all = self@.attrs;
        let mut m: StrMap<String> = StrMap::new();
        let mut i: usize = 0;
        while i < self.attrs.len()
            invariant
                i <= self.attrs@.len(),
                all == self@.attrs,
                m@ == attr_map(all.take(i as int)),
            decreases self.attrs.len() - i,
        {
            proof {
                assert(all.take(i + 1).drop_last() =~= all.take(i as int));
                assert(all.take(i + 1).last() == (self.attrs@[i as int].key@, self.attrs@[i as int].value@));
            }
            m.insert(self.attrs[i].key.clone(), self.attrs[i].value.clone());
            i += 1;
        }
        proof {
            assert(all.take(self.attrs@.len() as int) =~= all);
        }
        m
    }
}

} // verus!
