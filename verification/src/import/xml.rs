//! What the two XML formats have in common.
//!
//! Both are shallow: elements with text in them, nested a level or two. The
//! reading of the document is `quick_xml`'s; what lives here is the walk over
//! its events, and a Base64 decoder.
use vstd::prelude::*;

use quick_xml::events::Event;
use quick_xml::XmlVersion;

use super::ini::{pair_view, value_in};
use crate::text::{chars_of, push_char};

verus! {

/// One element, as these formats use them: a name, its attributes, and the
/// text directly inside it.
#[derive(Debug, Clone, Default, PartialEq, Eq)]
pub struct Element {
    pub name: String,
    pub text: String,
    pub attributes: Vec<(String, String)>,
}

pub struct ElementView {
    pub name: Seq<char>,
    pub text: Seq<char>,
    pub attributes: Seq<(Seq<char>, Seq<char>)>,
}

pub open spec fn element_view(e: Element) -> ElementView {
    ElementView {
        name: e.name@,
        text: e.text@,
        attributes: e.attributes@.map_values(|p: (String, String)| pair_view(p)),
    }
}

impl Element {
    /// The value of an attribute, its name compared without regard to case.
    pub fn attribute(&self, name: &str) -> (r: Option<&str>)
        ensures
            match r {
                Some(v) => value_in(element_view(*self).attributes, name@, 0) == Some(v@),
                None => value_in(element_view(*self).attributes, name@, 0) is None,
            },
    {
        let k = chars_of(name);
        let ghost attrs = element_view(*self).attributes;
        let mut i: usize = 0;
        while i < self.attributes.len()
            invariant
                i <= self.attributes@.len(),
                k@ == name@,
                attrs == element_view(*self).attributes,
                value_in(attrs, name@, 0) == value_in(attrs, name@, i as int),
            decreases self.attributes@.len() - i,
        {
            let key = chars_of(self.attributes[i].0.as_str());
            assert(attrs[i as int] == pair_view(self.attributes@[i as int]));
            if crate::text::eq_ignore_case(&key, &k) {
                return Some(self.attributes[i].1.as_str());
            }
            i = i + 1;
        }
        None
    }
}

/// What the walk reports, in the order it happens.
#[derive(Debug, Clone, PartialEq, Eq)]
pub enum Step {
    /// An element began. Its text is all the text written directly in it.
    Open(Element),
    /// An element ended, by name.
    Close(String),
}

pub enum StepView {
    Open(ElementView),
    Close(Seq<char>),
}

pub open spec fn step_view(s: Step) -> StepView {
    match s {
        Step::Open(e) => StepView::Open(element_view(e)),
        Step::Close(n) => StepView::Close(n@),
    }
}

pub open spec fn steps_view(v: Seq<Step>) -> Seq<StepView> {
    v.map_values(|s: Step| step_view(s))
}

/// An attribute as the reader gave it: `None` where it could not be read,
/// and its value `None` where the value could not be normalized.
pub type RawAttribute = Option<(String, Option<String>)>;

/// One event of the reader, as plain values.
pub enum XmlEvent {
    /// An element began, with its name and attributes; `true` where it is
    /// empty and so also ends here.
    Open(bool, (String, Vec<RawAttribute>)),
    /// Text between markup.
    Text(String),
    /// An entity reference by its name, with what it resolves to as a
    /// character reference: `None` where it is not a valid one, `Some(None)`
    /// where it is not a character reference at all.
    Reference(String, Option<Option<char>>),
    /// An element ended.
    Close(String),
    /// Anything else: comments, declarations, processing instructions.
    Other,
}

pub enum XmlEventView {
    Open(bool, Seq<char>, Seq<Option<(Seq<char>, Option<Seq<char>>)>>),
    Text(Seq<char>),
    Reference(Seq<char>, Option<Option<char>>),
    Close(Seq<char>),
    Other,
}

pub open spec fn raw_attribute_view(a: RawAttribute) -> Option<(Seq<char>, Option<Seq<char>>)> {
    match a {
        Some((k, v)) => Some((k@, crate::text::opt_text(v))),
        None => None,
    }
}

pub open spec fn event_view(e: XmlEvent) -> XmlEventView {
    match e {
        XmlEvent::Open(lone, tag) => XmlEventView::Open(
            lone,
            tag.0@,
            tag.1@.map_values(|a: RawAttribute| raw_attribute_view(a)),
        ),
        XmlEvent::Text(t) => XmlEventView::Text(t@),
        XmlEvent::Reference(n, c) => XmlEventView::Reference(n@, c),
        XmlEvent::Close(n) => XmlEventView::Close(n@),
        XmlEvent::Other => XmlEventView::Other,
    }
}

pub open spec fn events_view(v: Seq<XmlEvent>) -> Seq<XmlEventView> {
    v.map_values(|e: XmlEvent| event_view(e))
}

/// The events `quick_xml`'s reader reports for a text, up to the end of the
/// document or its first error.
pub uninterp spec fn xml_events(text: Seq<char>) -> Seq<XmlEventView>;

/// The start tag of an element, as `quick_xml` reports it.
#[verifier::external_type_specification]
#[verifier::external_body]
pub struct ExBytesStart<'a>(quick_xml::events::BytesStart<'a>);

/// A start tag's name and its attributes: `BytesStart::name`, and
/// `BytesStart::attributes` with each attribute's key and its
/// `normalized_value` for XML 1.0, as strings. Nothing is claimed of the
/// result here; it reaches the library only through [`read_events`].
#[verifier::external_body]
fn tag_of(s: &quick_xml::events::BytesStart) -> (tag: (String, Vec<RawAttribute>)) {
    let attributes = s.attributes().map(|a| a.ok().map(|a| (a.key.as_ref().to_string(), a.normalized_value(XmlVersion::Implicit1_0).ok().map(|v| v.into_owned()))));
    (s.name().as_ref().to_string(), attributes.collect())
}

/// `quick_xml::Reader::from_str` and `read_event`, run until the reader
/// reports the end of the document or an error, with each event turned into
/// plain values: names and text as strings, a reference with what
/// `resolve_char_ref` makes of it, a start tag by [`tag_of`]. The sequence
/// depends on the text alone and is named [`xml_events`]; nothing more is
/// claimed of it.
#[verifier::external_body]
fn read_events(text: &str) -> (events: Vec<XmlEvent>)
    ensures
        events_view(events@) == xml_events(text@),
{
    let mut reader = quick_xml::Reader::from_str(text);
    let mut events = Vec::new();
    loop {
        events.push(match reader.read_event() {
            Ok(Event::Start(s)) => XmlEvent::Open(false, tag_of(&s)),
            Ok(Event::Empty(s)) => XmlEvent::Open(true, tag_of(&s)),
            Ok(Event::Text(t)) => XmlEvent::Text(t.to_string()),
            Ok(Event::GeneralRef(r)) => XmlEvent::Reference(r.to_string(), r.resolve_char_ref().ok()),
            Ok(Event::End(e)) => XmlEvent::Close(e.name().as_ref().to_string()),
            Ok(Event::Eof) | Err(_) => return events,
            Ok(_) => XmlEvent::Other,
        });
    }
}

/// The five entities XML defines.
pub open spec fn spec_named_entity(name: Seq<char>) -> Option<char> {
    if name == "amp"@ {
        Some('&')
    } else if name == "lt"@ {
        Some('<')
    } else if name == "gt"@ {
        Some('>')
    } else if name == "quot"@ {
        Some('"')
    } else if name == "apos"@ {
        Some('\'')
    } else {
        None
    }
}

pub fn named_entity(name: &str) -> (r: Option<char>)
    ensures
        r == spec_named_entity(name@),
{
    let n = chars_of(name);
    if crate::text::is_text(&n, "amp") {
        Some('&')
    } else if crate::text::is_text(&n, "lt") {
        Some('<')
    } else if crate::text::is_text(&n, "gt") {
        Some('>')
    } else if crate::text::is_text(&n, "quot") {
        Some('"')
    } else if crate::text::is_text(&n, "apos") {
        Some('\'')
    } else {
        None
    }
}

/// The character a reference stands for: a character reference by its
/// number, one of the five by its name, and nothing otherwise.
pub open spec fn resolved(name: Seq<char>, number: Option<Option<char>>) -> Option<char> {
    match number {
        Some(Some(c)) => Some(c),
        Some(None) => spec_named_entity(name),
        None => None,
    }
}

/// The attributes that could be read, a value that could not be normalized
/// taken as empty.
pub open spec fn kept_attributes(a: Seq<Option<(Seq<char>, Option<Seq<char>>)>>) -> Seq<(Seq<char>, Seq<char>)>
    decreases a.len(),
{
    if a.len() == 0 {
        Seq::empty()
    } else {
        let before = kept_attributes(a.drop_last());
        match a.last() {
            Some((k, v)) => before.push(
                (
                    k,
                    match v {
                        Some(x) => x,
                        None => Seq::empty(),
                    },
                ),
            ),
            None => before,
        }
    }
}

/// Where the walk stands: the steps so far, and where the elements that are
/// still open were reported.
pub struct WalkState {
    pub steps: Seq<StepView>,
    pub open: Seq<int>,
}

/// Text added to the element that is open at the time; with none open, the
/// text belongs to nothing.
pub open spec fn add_text(st: WalkState, chunk: Seq<char>) -> WalkState {
    if st.open.len() == 0 {
        st
    } else {
        let i = st.open.last();
        match st.steps[i] {
            StepView::Open(e) => WalkState {
                steps: st.steps.update(
                    i,
                    StepView::Open(ElementView { text: e.text + chunk, ..e }),
                ),
                open: st.open,
            },
            StepView::Close(_) => st,
        }
    }
}

/// What one event does to the walk.
pub open spec fn walk_step(st: WalkState, e: XmlEventView) -> WalkState {
    match e {
        XmlEventView::Open(lone, name, attrs) => {
            let el = ElementView { name, text: Seq::empty(), attributes: kept_attributes(attrs) };
            if lone {
                WalkState {
                    steps: st.steps.push(StepView::Open(el)).push(StepView::Close(name)),
                    open: st.open,
                }
            } else {
                WalkState {
                    steps: st.steps.push(StepView::Open(el)),
                    open: st.open.push(st.steps.len() as int),
                }
            }
        },
        XmlEventView::Text(chunk) => add_text(st, chunk),
        XmlEventView::Reference(name, number) => match resolved(name, number) {
            Some(c) => add_text(st, seq![c]),
            None => st,
        },
        XmlEventView::Close(name) => WalkState {
            steps: st.steps.push(StepView::Close(name)),
            open: if st.open.len() > 0 {
                st.open.drop_last()
            } else {
                st.open
            },
        },
        XmlEventView::Other => st,
    }
}

pub open spec fn walk_events(events: Seq<XmlEventView>) -> WalkState
    decreases events.len(),
{
    if events.len() == 0 {
        WalkState { steps: Seq::empty(), open: Seq::empty() }
    } else {
        walk_step(walk_events(events.drop_last()), events.last())
    }
}

/// What the walk reports for a text.
pub open spec fn spec_walk(text: Seq<char>) -> Seq<StepView> {
    walk_events(xml_events(text)).steps
}

fn append_text(s: &mut String, t: &[char])
    ensures
        final(s)@ == old(s)@ + t@,
{
    let mut i: usize = 0;
    while i < t.len()
        invariant
            i <= t@.len(),
            s@ == old(s)@ + t@.take(i as int),
        decreases t@.len() - i,
    {
        push_char(s, t[i]);
        i = i + 1;
        assert(t@.take(i as int) =~= t@.take(i - 1).push(t@[i - 1]));
    }
    assert(t@.take(t@.len() as int) =~= t@);
}

fn kept_exec(attrs: &Vec<RawAttribute>) -> (out: Vec<(String, String)>)
    ensures
        out@.map_values(|p: (String, String)| pair_view(p)) == kept_attributes(
            attrs@.map_values(|a: RawAttribute| raw_attribute_view(a)),
        ),
{
    let ghost av = attrs@.map_values(|a: RawAttribute| raw_attribute_view(a));
    let mut out: Vec<(String, String)> = Vec::new();
    let mut i: usize = 0;
    assert(av.take(0) =~= Seq::<Option<(Seq<char>, Option<Seq<char>>)>>::empty());
    assert(out@.map_values(|p: (String, String)| pair_view(p)) =~= Seq::<(Seq<char>, Seq<char>)>::empty());
    while i < attrs.len()
        invariant
            i <= attrs@.len(),
            av == attrs@.map_values(|a: RawAttribute| raw_attribute_view(a)),
            out@.map_values(|p: (String, String)| pair_view(p)) == kept_attributes(av.take(i as int)),
        decreases attrs@.len() - i,
    {
        assert(av.take(i + 1).drop_last() =~= av.take(i as int));
        assert(av.take(i + 1).last() == raw_attribute_view(attrs@[i as int]));
        let ghost before = out@;
        match &attrs[i] {
            Some((k, v)) => {
                let value = match v {
                    Some(x) => x.clone(),
                    None => String::new(),
                };
                let key = k.clone();
                let ghost pair = (key, value);
                out.push((key, value));
                assert(out@.map_values(|p: (String, String)| pair_view(p)) =~= before.map_values(
                    |p: (String, String)| pair_view(p),
                ).push(pair_view(pair)));
            },
            None => {},
        }
        i = i + 1;
    }
    assert(av.take(attrs@.len() as int) =~= av);
    out
}

/// The steps a run of events makes: elements reported as they open and
/// close, text gathered onto the element that is open at the time.
pub fn steps_of(events: &Vec<XmlEvent>) -> (steps: Vec<Step>)
    ensures
        steps_view(steps@) == walk_events(events_view(events@)).steps,
{
    let ghost ev = events_view(events@);
    let mut steps: Vec<Step> = Vec::new();
    let mut open: Vec<usize> = Vec::new();
    let mut i: usize = 0;
    assert(ev.take(0) =~= Seq::<XmlEventView>::empty());
    assert(steps_view(steps@) =~= Seq::<StepView>::empty());
    assert(open@.map_values(|x: usize| x as int) =~= Seq::<int>::empty());
    while i < events.len()
        invariant
            i <= events@.len(),
            ev == events_view(events@),
            steps_view(steps@) == walk_events(ev.take(i as int)).steps,
            open@.map_values(|x: usize| x as int) == walk_events(ev.take(i as int)).open,
            forall|j: int| 0 <= j < open@.len() ==> #[trigger] open@[j] < steps@.len(),
        decreases events@.len() - i,
    {
        assert(ev.take(i + 1).drop_last() =~= ev.take(i as int));
        assert(ev.take(i + 1).last() == event_view(events@[i as int]));
        let ghost st = walk_events(ev.take(i as int));
        let ghost before = steps@;
        let ghost open_before = open@;
        match &events[i] {
            XmlEvent::Open(lone, (name, attrs)) => {
                let element = Element { name: name.clone(), text: String::new(), attributes: kept_exec(attrs) };
                let at = steps.len();
                steps.push(Step::Open(element));
                if *lone {
                    steps.push(Step::Close(name.clone()));
                } else {
                    open.push(at);
                }
                assert(steps_view(steps@) =~= walk_step(st, event_view(events@[i as int])).steps);
                assert(open@.map_values(|x: usize| x as int) =~= walk_step(st, event_view(events@[i as int])).open);
            },
            XmlEvent::Text(t) => {
                let chunk = chars_of(t.as_str());
                add_text_exec(&mut steps, &open, &chunk);
            },
            XmlEvent::Reference(name, number) => {
                let c = match number {
                    Some(Some(c)) => Some(*c),
                    Some(None) => named_entity(name.as_str()),
                    None => None,
                };
                match c {
                    Some(c) => {
                        let chunk = vec![c];
                        assert(chunk@ =~= seq![c]);
                        add_text_exec(&mut steps, &open, &chunk);
                    },
                    None => {},
                }
            },
            XmlEvent::Close(name) => {
                if open.len() > 0 {
                    open.pop();
                }
                steps.push(Step::Close(name.clone()));
                assert(steps_view(steps@) =~= walk_step(st, event_view(events@[i as int])).steps);
                assert(open@.map_values(|x: usize| x as int) =~= walk_step(st, event_view(events@[i as int])).open);
            },
            XmlEvent::Other => {},
        }
        i = i + 1;
    }
    assert(ev.take(events@.len() as int) =~= ev);
    steps
}

fn add_text_exec(steps: &mut Vec<Step>, open: &Vec<usize>, chunk: &[char])
    requires
        forall|j: int| 0 <= j < open@.len() ==> #[trigger] open@[j] < old(steps)@.len(),
    ensures
        steps_view(final(steps)@) == add_text(
            WalkState { steps: steps_view(old(steps)@), open: open@.map_values(|x: usize| x as int) },
            chunk@,
        ).steps,
        final(steps)@.len() == old(steps)@.len(),
{
    let ghost sv = steps_view(old(steps)@);
    if open.len() == 0 {
        return;
    }
    let at = open[open.len() - 1];
    assert(open@.map_values(|x: usize| x as int).last() == at as int);
    let mut taken = Step::Close(String::new());
    std::mem::swap(&mut taken, &mut steps[at]);
    match taken {
        Step::Open(mut e) => {
            let ghost old_e = element_view(e);
            assert(sv[at as int] == StepView::Open(old_e));
            append_text(&mut e.text, chunk);
            assert(element_view(e).attributes == old_e.attributes);
            steps.set(at, Step::Open(e));
            assert(steps_view(steps@) =~= sv.update(
                at as int,
                StepView::Open(ElementView { text: old_e.text + chunk@, ..old_e }),
            ));
        },
        Step::Close(n) => {
            steps.set(at, Step::Close(n));
            assert(steps_view(steps@) =~= sv);
        },
    }
}

/// Walks a document, reporting every element as it opens and closes, with
/// the text written directly in it. A document that stops making sense
/// half way gives what came before.
pub fn walk(text: &str) -> (steps: Vec<Step>)
    ensures
        steps_view(steps@) == spec_walk(text@),
{
    let events = read_events(text);
    steps_of(&events)
}

/// The value of a character of the standard Base64 alphabet.
pub open spec fn sextet(c: char) -> Option<u32> {
    if 'A' <= c <= 'Z' {
        Some((c as u32 - 'A' as u32) as u32)
    } else if 'a' <= c <= 'z' {
        Some((c as u32 - 'a' as u32 + 26) as u32)
    } else if '0' <= c <= '9' {
        Some((c as u32 - '0' as u32 + 52) as u32)
    } else if c == '+' {
        Some(62)
    } else if c == '/' {
        Some(63)
    } else {
        None
    }
}

/// Six more bits into the buffer, and a byte out whenever eight are there.
pub open spec fn b64_step(st: (u32, u32, Seq<u8>), v: u32) -> (u32, u32, Seq<u8>) {
    let buffer = (st.0 << 6u32) | v;
    let bits = st.1 + 6;
    if bits >= 8 {
        (buffer, (bits - 8) as u32, st.2.push((buffer >> ((bits - 8) as u32)) as u8))
    } else {
        (buffer, bits as u32, st.2)
    }
}

/// The decoder's buffer, its count of pending bits and the bytes so far,
/// after a text; `None` once a character outside the alphabet turns up.
/// White space and padding are passed over.
pub open spec fn b64_after(s: Seq<char>) -> Option<(u32, u32, Seq<u8>)>
    decreases s.len(),
{
    if s.len() == 0 {
        Some((0, 0, Seq::empty()))
    } else {
        match b64_after(s.drop_last()) {
            None => None,
            Some(st) => {
                let c = s.last();
                if crate::text::ws(c) || c == '=' {
                    Some(st)
                } else {
                    match sextet(c) {
                        Some(v) => Some(b64_step(st, v)),
                        None => None,
                    }
                }
            },
        }
    }
}

pub open spec fn spec_from_base64(s: Seq<char>) -> Option<Seq<u8>> {
    match b64_after(s) {
        Some(st) => Some(st.2),
        None => None,
    }
}

proof fn lemma_b64_stays_none(s: Seq<char>, k: int)
    requires
        0 <= k <= s.len(),
        b64_after(s.take(k)) is None,
    ensures
        b64_after(s) is None,
    decreases s.len() - k,
{
    if k < s.len() {
        assert(s.take(k + 1).drop_last() =~= s.take(k));
        lemma_b64_stays_none(s, k + 1);
    } else {
        assert(s.take(k) =~= s);
    }
}

/// Base64, the decoding half: the standard alphabet, padded with `=`.
pub fn from_base64(text: &str) -> (r: Option<Vec<u8>>)
    ensures
        match r {
            Some(v) => spec_from_base64(text@) == Some(v@),
            None => spec_from_base64(text@) is None,
        },
{
    let chars = chars_of(text);
    let mut out: Vec<u8> = Vec::new();
    let mut buffer: u32 = 0;
    let mut bits: u32 = 0;
    let mut i: usize = 0;
    while i < chars.len()
        invariant
            i <= chars@.len(),
            chars@ == text@,
            bits < 8,
            b64_after(chars@.take(i as int)) == Some((buffer, bits, out@)),
        decreases chars@.len() - i,
    {
        assert(chars@.take(i + 1).drop_last() =~= chars@.take(i as int));
        let c = chars[i];
        if crate::text::is_whitespace(c) || c == '=' {
            i = i + 1;
            continue;
        }
        let value: u32 = if 'A' <= c && c <= 'Z' {
            c as u32 - 'A' as u32
        } else if 'a' <= c && c <= 'z' {
            c as u32 - 'a' as u32 + 26
        } else if '0' <= c && c <= '9' {
            c as u32 - '0' as u32 + 52
        } else if c == '+' {
            62
        } else if c == '/' {
            63
        } else {
            proof {
                lemma_b64_stays_none(chars@, i + 1);
            }
            return None;
        };
        buffer = (buffer << 6u32) | value;
        bits = bits + 6;
        if bits >= 8 {
            bits = bits - 8;
            out.push((buffer >> bits) as u8);
        }
        i = i + 1;
    }
    assert(chars@.take(chars@.len() as int) =~= chars@);
    Some(out)
}

/// The byte at `i`, or nothing past the end.
pub open spec fn byte_or_zero(b: Seq<u8>, i: int) -> u32 {
    if 0 <= i < b.len() {
        b[i] as u32
    } else {
        0
    }
}

/// The value of the `i`th character of the standard Base64 encoding of `b`:
/// each three bytes make four sextets, a missing byte counting as zero.
pub open spec fn b64_value(b: Seq<u8>, i: int) -> u32 {
    let g = i / 4;
    let b0 = byte_or_zero(b, 3 * g);
    let b1 = byte_or_zero(b, 3 * g + 1);
    let b2 = byte_or_zero(b, 3 * g + 2);
    let j = i % 4;
    if j == 0 {
        b0 >> 2u32
    } else if j == 1 {
        ((b0 & 3u32) << 4u32) | (b1 >> 4u32)
    } else if j == 2 {
        ((b1 & 15u32) << 2u32) | (b2 >> 6u32)
    } else {
        b2 & 63u32
    }
}

/// How many characters of the encoding carry bits: four per three bytes,
/// and two or three for a last one or two.
pub open spec fn b64_carrying(n: int) -> int {
    (n / 3) * 4 + if n % 3 == 1 {
        2int
    } else if n % 3 == 2 {
        3int
    } else {
        0int
    }
}

/// Whether `t` is the standard Base64 encoding of `b`, padded with `=` to a
/// whole number of four characters.
pub open spec fn encodes_base64(t: Seq<char>, b: Seq<u8>) -> bool {
    &&& t.len() == 4 * ((b.len() + 2) / 3)
    &&& forall|i: int| 0 <= i < b64_carrying(b.len() as int) ==> sextet(#[trigger] t[i]) == Some(b64_value(b, i))
    &&& forall|i: int| b64_carrying(b.len() as int) <= i < t.len() ==> #[trigger] t[i] == '='
}

proof fn lemma_b64_next(t: Seq<char>, k: int)
    requires
        0 <= k < t.len(),
    ensures
        b64_after(t.take(k + 1)) == match b64_after(t.take(k)) {
            None => None,
            Some(st) => if crate::text::ws(t[k]) || t[k] == '=' {
                Some(st)
            } else {
                match sextet(t[k]) {
                    Some(v) => Some(b64_step(st, v)),
                    None => None,
                }
            },
        },
{
    assert(t.take(k + 1).drop_last() =~= t.take(k));
    assert(t.take(k + 1).last() == t[k]);
}

proof fn lemma_quad(x: u32, b0: u32, b1: u32, b2: u32)
    requires
        b0 < 256,
        b1 < 256,
        b2 < 256,
    ensures
        ({
            let y1 = (x << 6u32) | (b0 >> 2u32);
            let y2 = (y1 << 6u32) | (((b0 & 3u32) << 4u32) | (b1 >> 4u32));
            let y3 = (y2 << 6u32) | (((b1 & 15u32) << 2u32) | (b2 >> 6u32));
            let y4 = (y3 << 6u32) | (b2 & 63u32);
            &&& (y2 >> 4u32) as u8 == b0
            &&& (y3 >> 2u32) as u8 == b1
            &&& (y4 >> 0u32) as u8 == b2
        }),
{
    assert({
        let y1 = (x << 6u32) | (b0 >> 2u32);
        let y2 = (y1 << 6u32) | (((b0 & 3u32) << 4u32) | (b1 >> 4u32));
        let y3 = (y2 << 6u32) | (((b1 & 15u32) << 2u32) | (b2 >> 6u32));
        let y4 = (y3 << 6u32) | (b2 & 63u32);
        &&& (y2 >> 4u32) as u8 == b0
        &&& (y3 >> 2u32) as u8 == b1
        &&& (y4 >> 0u32) as u8 == b2
    }) by (bit_vector)
        requires
            b0 < 256,
            b1 < 256,
            b2 < 256,
    ;
}

proof fn lemma_index(g: int, j: int)
    requires
        0 <= g,
        0 <= j < 4,
    ensures
        (4 * g + j) / 4 == g,
        (4 * g + j) % 4 == j,
{
    assert((4 * g + j) / 4 == g && (4 * g + j) % 4 == j) by (nonlinear_arith)
        requires
            0 <= g,
            0 <= j < 4,
    ;
}

/// The full groups of an encoding decode to their bytes, with no bits left
/// over.
proof fn lemma_b64_groups(t: Seq<char>, b: Seq<u8>, g: int)
    requires
        encodes_base64(t, b),
        0 <= g <= b.len() / 3,
    ensures
        b64_after(t.take(4 * g)) matches Some(st) && st.1 == 0 && st.2 == b.take(3 * g),
    decreases g,
{
    if g == 0 {
        assert(t.take(0) =~= Seq::<char>::empty());
        assert(b.take(0) =~= Seq::<u8>::empty());
    } else {
        let h = g - 1;
        lemma_b64_groups(t, b, h);
        let st = b64_after(t.take(4 * h)).unwrap();
        assert(3 * h + 2 < b.len()) by (nonlinear_arith)
            requires
                h + 1 <= b.len() / 3,
                h >= 0,
        ;
        assert(4 * h + 3 < b64_carrying(b.len() as int)) by (nonlinear_arith)
            requires
                h + 1 <= b.len() / 3,
                h >= 0,
                b64_carrying(b.len() as int) >= (b.len() / 3) * 4,
        ;
        let b0 = b[3 * h] as u32;
        let b1 = b[3 * h + 1] as u32;
        let b2 = b[3 * h + 2] as u32;
        assert(4 * h + 4 <= t.len());
        lemma_index(h, 0);
        lemma_index(h, 1);
        lemma_index(h, 2);
        lemma_index(h, 3);
        let v0 = b0 >> 2u32;
        let v1 = ((b0 & 3u32) << 4u32) | (b1 >> 4u32);
        let v2 = ((b1 & 15u32) << 2u32) | (b2 >> 6u32);
        let v3 = b2 & 63u32;
        assert(sextet(t[4 * h]) == Some(b64_value(b, 4 * h)));
        assert(sextet(t[4 * h + 1]) == Some(b64_value(b, 4 * h + 1)));
        assert(sextet(t[4 * h + 2]) == Some(b64_value(b, 4 * h + 2)));
        assert(sextet(t[4 * h + 3]) == Some(b64_value(b, 4 * h + 3)));
        assert(sextet(t[4 * h]) == Some(v0));
        assert(sextet(t[4 * h + 1]) == Some(v1));
        assert(sextet(t[4 * h + 2]) == Some(v2));
        assert(sextet(t[4 * h + 3]) == Some(v3));
        lemma_b64_next(t, 4 * h);
        lemma_b64_next(t, 4 * h + 1);
        lemma_b64_next(t, 4 * h + 2);
        lemma_b64_next(t, 4 * h + 3);
        lemma_quad(st.0, b0, b1, b2);
        assert(4 * h + 4 == 4 * g);
        assert(b.take(3 * g) =~= b.take(3 * h).push(b[3 * h]).push(b[3 * h + 1]).push(b[3 * h + 2]));
    }
}

/// Base64 comes back: every standard Base64 encoding of some bytes, padded
/// with `=`, decodes to exactly those bytes.
pub proof fn standard_base64_comes_back(t: Seq<char>, b: Seq<u8>)
    requires
        encodes_base64(t, b),
    ensures
        spec_from_base64(t) == Some(b),
{
    let n = b.len() as int;
    let g = n / 3;
    let r = n % 3;
    assert(n == 3 * g + r && 0 <= r < 3 && g >= 0) by (nonlinear_arith)
        requires
            g == n / 3,
            r == n % 3,
            n >= 0,
    ;
    lemma_b64_groups(t, b, g);
    let st = b64_after(t.take(4 * g)).unwrap();
    assert((n + 2) / 3 == g + if r == 0 { 0int } else { 1int }) by (nonlinear_arith)
        requires
            n == 3 * g + r,
            0 <= r < 3,
            g >= 0,
    ;
    assert(b64_carrying(n) == 4 * g + if r == 1 { 2int } else if r == 2 { 3int } else { 0int }) by (nonlinear_arith)
        requires
            n == 3 * g + r,
            0 <= r < 3,
            g >= 0,
    ;
    if r == 0 {
        assert(t.take(4 * g) =~= t);
        assert(b.take(3 * g) =~= b);
    } else {
        let b0 = b[3 * g] as u32;
        let b1 = byte_or_zero(b, 3 * g + 1);
        lemma_index(g, 0);
        lemma_index(g, 1);
        lemma_index(g, 2);
        lemma_index(g, 3);
        assert(sextet(t[4 * g]) == Some(b64_value(b, 4 * g)));
        assert(sextet(t[4 * g + 1]) == Some(b64_value(b, 4 * g + 1)));
        lemma_b64_next(t, 4 * g);
        lemma_b64_next(t, 4 * g + 1);
        lemma_b64_next(t, 4 * g + 2);
        lemma_b64_next(t, 4 * g + 3);
        lemma_quad(st.0, b0, b1, 0);
        if r == 1 {
            assert(t[4 * g + 2] == '=');
            assert(t[4 * g + 3] == '=');
            assert(b1 == 0);
            assert(b.take(3 * g).push(b[3 * g]) =~= b);
        } else {
            assert(sextet(t[4 * g + 2]) == Some(b64_value(b, 4 * g + 2)));
            assert(t[4 * g + 3] == '=');
            assert(byte_or_zero(b, 3 * g + 2) == 0);
            assert(b.take(3 * g).push(b[3 * g]).push(b[3 * g + 1]) =~= b);
        }
        assert(t.take(4 * g + 4) =~= t);
    }
}

} // verus!
