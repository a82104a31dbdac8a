//! XML events as the library reads them with `quick_xml`, and the two
//! readings of XML that the project makes: prompt templates and the links
//! of a feed item's HTML content.
use vstd::prelude::*;
use quick_xml::events::Event;

verus! {

#[verifier::external_type_specification]
#[verifier::external_body]
#[verifier::reject_recursive_types(R)]
pub struct ExXmlReader<R>(quick_xml::Reader<R>);

/// One event of an XML document, with what the library reads of it.
#[derive(Debug)]
pub enum XmlEvent {
    /// An opening tag: its name, and each attribute as key and value
    /// (`None` for an attribute that did not parse).
    Start(String, Vec<Option<(String, String)>>),
    /// A closing tag.
    End,
    /// Text between tags, as it stands in the document.
    Text(String),
    /// The end of the document.
    Eof,
    /// Anything else (comments, declarations, empty tags, references).
    Other,
    /// The reader failed, with this message.
    Error(String),
}

/// An XML event as the spec sees it: strings as character sequences.
pub enum XmlEventView {
    Start(Seq<char>, Seq<Option<(Seq<char>, Seq<char>)>>),
    End,
    Text(Seq<char>),
    Eof,
    Other,
    Error(Seq<char>),
}

/// An attribute as character sequences.
pub open spec fn attr_view(a: Option<(String, String)>) -> Option<(Seq<char>, Seq<char>)> {
    match a {
        Some((k, v)) => Some((k@, v@)),
        None => None,
    }
}

impl View for XmlEvent {
    type V = XmlEventView;

    open spec fn view(&self) -> XmlEventView {
        match self {
            XmlEvent::Start(n, attrs) => XmlEventView::Start(
                n@,
                attrs@.map_values(|a: Option<(String, String)>| attr_view(a)),
            ),
            XmlEvent::End => XmlEventView::End,
            XmlEvent::Text(t) => XmlEventView::Text(t@),
            XmlEvent::Eof => XmlEventView::Eof,
            XmlEvent::Other => XmlEventView::Other,
            XmlEvent::Error(e) => XmlEventView::Error(e@),
        }
    }
}

/// The event with this index (from 0) that `quick_xml::Reader::read_event`
/// gives on a reader made by `quick_xml::Reader::from_str(doc)`, converted
/// as [`next_xml_event`] converts it.
pub uninterp spec fn xml_event_at(doc: Seq<char>, index: int) -> XmlEventView;

/// The first `n` events of `doc`.
pub open spec fn xml_events(doc: Seq<char>, n: nat) -> Seq<XmlEventView> {
    Seq::new(n, |i: int| xml_event_at(doc, i))
}

pub(crate) proof fn lemma_xml_events_prefix(doc: Seq<char>, n: nat, m: nat)
    requires
        n <= m,
    ensures
        xml_events(doc, m).take(n as int) == xml_events(doc, n),
        xml_events(doc, n + 1) == xml_events(doc, n).push(xml_event_at(doc, n as int)),
{
    assert(xml_events(doc, m).take(n as int) =~= xml_events(doc, n));
    assert(xml_events(doc, n + 1) =~= xml_events(doc, n).push(xml_event_at(doc, n as int)));
}

/// A reader over a document: the document and how many events it has read.
pub struct XmlCursor<'a> {
    reader: quick_xml::Reader<&'a [u8]>,
    doc: Ghost<Seq<char>>,
    read: Ghost<nat>,
}

impl<'a> View for XmlCursor<'a> {
    type V = (Seq<char>, nat);

    closed spec fn view(&self) -> (Seq<char>, nat) {
        (self.doc@, self.read@)
    }
}

/// `quick_xml::Reader::from_str`: a reader at the start of `input`, which
/// has read no event yet.
#[verifier::external_body]
pub(crate) fn xml_cursor<'a>(input: &'a str) -> (c: XmlCursor<'a>)
    ensures
        c@ == (input@, 0nat),
{
    XmlCursor { reader: quick_xml::Reader::from_str(input), doc: Ghost(input@), read: Ghost(0) }
}

/// `quick_xml::Reader::read_event`, the event converted to an [`XmlEvent`]
/// (names, attributes and text taken as they stand in the document). The
/// contract claims the event is the named [`xml_event_at`] of the document
/// and the number of events read before, and counts the event as read.
#[verifier::external_body]
pub(crate) fn next_xml_event(cursor: &mut XmlCursor) -> (ev: XmlEvent)
    ensures
        ev@ == xml_event_at(old(cursor)@.0, old(cursor)@.1 as int),
        final(cursor)@ == (old(cursor)@.0, old(cursor)@.1 + 1),
{
    let ev = match cursor.reader.read_event() {
        Ok(Event::Start(e)) => XmlEvent::Start(
            e.name().as_ref().to_string(),
            e.attributes().map(|a| a.ok().map(|a| (a.key.as_ref().to_string(), a.value.to_string()))).collect(),
        ),
        Ok(Event::End(_)) => XmlEvent::End,
        Ok(Event::Text(t)) => XmlEvent::Text(t.as_ref().to_string()),
        Ok(Event::Eof) => XmlEvent::Eof,
        Ok(_) => XmlEvent::Other,
        Err(err) => XmlEvent::Error(err.to_string()),
    };
    cursor.read = Ghost(cursor.read@ + 1);
    ev
}

/// The value of the first attribute named `key` that parsed.
pub open spec fn attr_value(attrs: Seq<Option<(Seq<char>, Seq<char>)>>, key: Seq<char>) -> Option<Seq<char>>
    decreases attrs.len(),
{
    if attrs.len() == 0 {
        None
    } else {
        match attrs[0] {
            Some((k, v)) => if k == key {
                Some(v)
            } else {
                attr_value(attrs.drop_first(), key)
            },
            None => attr_value(attrs.drop_first(), key),
        }
    }
}

/// The link an opening tag carries: an `img`'s `src`, or an `a`'s or a
/// `link`'s `href`.
pub open spec fn tag_link(name: Seq<char>, attrs: Seq<Option<(Seq<char>, Seq<char>)>>) -> Option<Seq<char>> {
    if name == "img"@ {
        attr_value(attrs, "src"@)
    } else if name == "a"@ || name == "link"@ {
        attr_value(attrs, "href"@)
    } else {
        None
    }
}

/// State of a scan for links: nesting depth, links so far, and how the
/// scan ended (`None` while it goes on; `Some(Err(..))` on a reader error).
pub type LinkScan = (int, Seq<Seq<char>>, Option<Result<(), Seq<char>>>);

/// One event of the scan. An opening tag deeper than `max_depth` counts
/// toward the depth but gives no link.
pub open spec fn link_step(st: LinkScan, ev: XmlEventView, max_depth: Option<i32>) -> LinkScan {
    let (depth, links, end) = st;
    if end is Some {
        st
    } else {
        match ev {
            XmlEventView::Start(name, attrs) => {
                let d = depth + 1;
                if max_depth matches Some(m) && d > m {
                    (d, links, None)
                } else {
                    match tag_link(name, attrs) {
                        Some(l) => (d, links.push(l), None),
                        None => (d, links, None),
                    }
                }
            },
            XmlEventView::End => (depth - 1, links, None),
            XmlEventView::Eof => (depth, links, Some(Ok(()))),
            XmlEventView::Error(e) => (depth, links, Some(Err(e))),
            _ => st,
        }
    }
}

/// The scan over a sequence of events, from depth 0.
pub open spec fn link_scan(evs: Seq<XmlEventView>, max_depth: Option<i32>) -> LinkScan
    decreases evs.len(),
{
    if evs.len() == 0 {
        (0, Seq::<Seq<char>>::empty(), None)
    } else {
        link_step(link_scan(evs.drop_last(), max_depth), evs.last(), max_depth)
    }
}

/// The links of a scanned document, or the reader's error.
pub open spec fn scan_result(st: LinkScan) -> Result<Seq<Seq<char>>, Seq<char>> {
    match st.2 {
        Some(Err(e)) => Err(e),
        _ => Ok(st.1),
    }
}

/// Once a scan has ended, later events leave it as it is.
proof fn lemma_scan_settled(evs: Seq<XmlEventView>, n: int, max_depth: Option<i32>)
    requires
        0 <= n <= evs.len(),
        link_scan(evs.take(n), max_depth).2 is Some,
    ensures
        link_scan(evs, max_depth) == link_scan(evs.take(n), max_depth),
    decreases evs.len(),
{
    if evs.len() > n {
        assert(evs.drop_last().take(n) =~= evs.take(n));
        lemma_scan_settled(evs.drop_last(), n, max_depth);
    } else {
        assert(evs.take(n) =~= evs);
    }
}

/// A tag's nesting is balanced: an opening tag and the closing tag after
/// it leave the depth as it was, and an opening tag at the top level (depth
/// 0) of an `a`, `link` or `img` is never beyond a `max_depth` of at least
/// 1 (or none): with its attribute first it yields that attribute's value.
pub proof fn law_tag_nesting_balanced(
    st: LinkScan,
    name: Seq<char>,
    attrs: Seq<Option<(Seq<char>, Seq<char>)>>,
    max_depth: Option<i32>,
)
    requires
        st.2 is None,
    ensures
        link_step(link_step(st, XmlEventView::Start(name, attrs), max_depth), XmlEventView::End, max_depth).0
            == st.0,
        link_step(link_step(st, XmlEventView::Start(name, attrs), max_depth), XmlEventView::End, max_depth).2
            is None,
        ({
            let key = if name == "img"@ {
                "src"@
            } else {
                "href"@
            };
            attrs.len() > 0 ==> (attrs[0] matches Some((k, v)) ==> ((st.0 == 0 && (max_depth is None
                || max_depth->0 >= 1) && (name == "a"@ || name == "link"@ || name == "img"@) && k == key)
                ==> link_step(st, XmlEventView::Start(name, attrs), max_depth).1 == st.1.push(v)))
        }),
{
}

/// The events of top-level anchors `<a href="x">..</a>` one after the
/// other, one for each target in `targets`.
pub open spec fn anchor_events(targets: Seq<Seq<char>>) -> Seq<XmlEventView>
    decreases targets.len(),
{
    if targets.len() == 0 {
        Seq::empty()
    } else {
        anchor_events(targets.drop_last()) + seq![
            XmlEventView::Start("a"@, seq![Some(("href"@, targets.last()))]),
            XmlEventView::End,
        ]
    }
}

/// Anchors side by side at the top level all yield their targets, in
/// order, whatever `max_depth` of at least 1 the caller passes: the depth
/// goes back to 0 after each of them.
pub proof fn law_top_level_anchors_all_linked(targets: Seq<Seq<char>>, max_depth: Option<i32>)
    requires
        max_depth is None || max_depth->0 >= 1,
    ensures
        link_scan(anchor_events(targets), max_depth) == (0int, targets, None::<Result<(), Seq<char>>>),
    decreases targets.len(),
{
    if targets.len() > 0 {
        let init = targets.drop_last();
        law_top_level_anchors_all_linked(init, max_depth);
        let e0 = anchor_events(init);
        let s = XmlEventView::Start("a"@, seq![Some(("href"@, targets.last()))]);
        let evs = anchor_events(targets);
        assert(evs.drop_last() =~= e0.push(s));
        assert(evs.drop_last().drop_last() =~= e0);
        reveal_strlit("a");
        reveal_strlit("img");
        reveal_strlit("link");
        reveal_strlit("href");
        assert("a"@.len() == 1 && "img"@.len() == 3);
        assert("a"@ != "img"@);
        assert(tag_link("a"@, seq![Some(("href"@, targets.last()))]) == Some(targets.last()));
        let st0 = link_scan(e0, max_depth);
        let st1 = link_scan(evs.drop_last(), max_depth);
        assert(st1 == link_step(st0, s, max_depth));
        assert(st1 == (1int, init.push(targets.last()), None::<Result<(), Seq<char>>>));
        assert(link_scan(evs, max_depth) == link_step(st1, XmlEventView::End, max_depth));
        assert(init.push(targets.last()) =~= targets);
    } else {
        assert(targets =~= Seq::<Seq<char>>::empty());
    }
}

/// The value of the first attribute named `key` that parsed.
fn attr_value_exec(attrs: &Vec<Option<(String, String)>>, key: &str) -> (r: Option<String>)
    ensures
        ({
            let av = attrs@.map_values(|a: Option<(String, String)>| attr_view(a));
            &&& r matches Some(v) ==> attr_value(av, key@) == Some(v@)
            &&& r is None ==> attr_value(av, key@) is None
        }),
{
    let ghost av = attrs@.map_values(|a: Option<(String, String)>| attr_view(a));
    let mut i: usize = 0;
    assert(av.skip(0) =~= av);
    while i < attrs.len()
        invariant
            i <= attrs@.len(),
            av == attrs@.map_values(|a: Option<(String, String)>| attr_view(a)),
            attr_value(av, key@) == attr_value(av.skip(i as int), key@),
        decreases attrs@.len() - i,
    {
        proof {
            assert(av.skip(i as int).drop_first() =~= av.skip(i + 1));
            assert(av.skip(i as int)[0] == attr_view(attrs@[i as int]));
        }
        if let Some((k, v)) = &attrs[i] {
            if crate::text::str_eq(k.as_str(), key) {
                return Some(v.clone());
            }
        }
        i = i + 1;
    }
    None
}

/// The link an opening tag carries.
fn tag_link_exec(name: &str, attrs: &Vec<Option<(String, String)>>) -> (r: Option<String>)
    ensures
        ({
            let av = attrs@.map_values(|a: Option<(String, String)>| attr_view(a));
            &&& r matches Some(v) ==> tag_link(name@, av) == Some(v@)
            &&& r is None ==> tag_link(name@, av) is None
        }),
{
    if crate::text::str_eq(name, "img") {
        attr_value_exec(attrs, "src")
    } else if crate::text::str_eq(name, "a") || crate::text::str_eq(name, "link") {
        attr_value_exec(attrs, "href")
    } else {
        None
    }
}

/// A scan for links, fed one event at a time.
pub struct LinkScanner {
    max_depth: Option<i32>,
    depth: i128,
    links: Vec<String>,
    end: Option<Result<(), String>>,
    fed: Ghost<Seq<XmlEventView>>,
}

impl LinkScanner {
    /// The scan state as the spec sees it.
    pub closed spec fn spec_state(&self) -> LinkScan {
        (
            self.depth as int,
            self.links@.map_values(|s: String| s@),
            match self.end {
                None => None,
                Some(Ok(())) => Some(Ok(())),
                Some(Err(e)) => Some(Err(e@)),
            },
        )
    }

    /// The events fed so far.
    pub closed spec fn spec_fed(&self) -> Seq<XmlEventView> {
        self.fed@
    }

    pub closed spec fn spec_max_depth(&self) -> Option<i32> {
        self.max_depth
    }

    pub closed spec fn wf(&self) -> bool {
        &&& self.spec_state() == link_scan(self.fed@, self.max_depth)
        &&& -(self.fed@.len() as int) <= self.depth <= self.fed@.len()
    }

    /// A scan that has seen nothing yet.
    pub fn new(max_depth: Option<i32>) -> (s: Self)
        ensures
            s.wf(),
            s.spec_fed() == Seq::<XmlEventView>::empty(),
            s.spec_max_depth() == max_depth,
    {
        let s = LinkScanner { max_depth, depth: 0, links: Vec::new(), end: None, fed: Ghost(Seq::empty()) };
        assert(s.links@.map_values(|x: String| x@) =~= Seq::<Seq<char>>::empty());
        s
    }

    /// Whether the scan has ended (at the document's end or an error).
    pub fn is_done(&self) -> (b: bool)
        ensures
            b == self.spec_state().2 is Some,
    {
        self.end.is_some()
    }

    /// Feeds the next event.
    pub fn feed(&mut self, ev: XmlEvent)
        requires
            old(self).wf(),
            old(self).spec_fed().len() <= usize::MAX,
        ensures
            final(self).wf(),
            final(self).spec_max_depth() == old(self).spec_max_depth(),
            final(self).spec_fed() == old(self).spec_fed().push(ev@),
            final(self).spec_state() == link_step(old(self).spec_state(), ev@, old(self).spec_max_depth()),
    {
        let ghost prev = self.fed@;
        let ghost evv = ev@;
        proof {
            self.fed = Ghost(prev.push(evv));
            assert(self.fed@.drop_last() =~= prev);
        }
        if self.end.is_some() {
            return;
        }
        match ev {
            XmlEvent::Start(name, attrs) => {
                self.depth = self.depth + 1;
                let deep = match self.max_depth {
                    Some(m) => self.depth > m as i128,
                    None => false,
                };
                if !deep {
                    let link = tag_link_exec(name.as_str(), &attrs);
                    if let Some(l) = link {
                        let ghost lv = l@;
                        let ghost before = self.links@;
                        self.links.push(l);
                        proof {
                            assert(self.links@.map_values(|s: String| s@) =~= before.map_values(
                                |s: String| s@,
                            ).push(lv));
                        }
                    }
                }
            },
            XmlEvent::End => {
                self.depth = self.depth - 1;
            },
            XmlEvent::Eof => {
                self.end = Some(Ok(()));
            },
            XmlEvent::Error(e) => {
                self.end = Some(Err(e));
            },
            _ => {},
        }
    }

    /// The links found, or the reader's error.
    pub fn finish(self) -> (r: Result<Vec<String>, String>)
        ensures
            r matches Ok(v) ==> scan_result(self.spec_state()) == Ok::<Seq<Seq<char>>, Seq<char>>(
                v@.map_values(|s: String| s@),
            ),
            r matches Err(e) ==> scan_result(self.spec_state()) == Err::<Seq<Seq<char>>, Seq<char>>(
                e@,
            ),
    {
        match self.end {
            Some(Err(e)) => Err(e),
            _ => Ok(self.links),
        }
    }
}

/// The links (image sources and anchor or link targets) of an HTML or XML
/// fragment, in document order, skipping tags nested deeper than
/// `max_depth`; the reader's error if it fails first. The document is read
/// until its end; each event but the last takes up at least one character,
/// so at most one event more than the fragment has characters is read.
pub fn extract_url_from_feed_item(xml: &str, max_depth: Option<i32>) -> (r: Result<Vec<String>, String>)
    ensures
        ({
            let res = scan_result(link_scan(xml_events(xml@, xml@.len() + 1), max_depth));
            &&& r matches Ok(v) ==> res == Ok::<Seq<Seq<char>>, Seq<char>>(v@.map_values(|s: String| s@))
            &&& r matches Err(e) ==> res == Err::<Seq<Seq<char>>, Seq<char>>(e@)
        }),
{
    let mut cursor = xml_cursor(xml);
    let mut budget: usize = xml.unicode_len();
    let mut scanner = LinkScanner::new(max_depth);
    let ghost doc = xml@;
    loop
        invariant
            scanner.wf(),
            scanner.spec_max_depth() == max_depth,
            cursor@.0 == doc,
            doc == xml@,
            scanner.spec_fed() == xml_events(doc, cursor@.1),
            cursor@.1 + budget == doc.len(),
            doc.len() <= usize::MAX,
            scanner.spec_state().2 is None,
        decreases budget,
    {
        let ghost n = cursor@.1;
        let ev = next_xml_event(&mut cursor);
        proof {
            lemma_xml_events_prefix(doc, n, n + 1);
        }
        scanner.feed(ev);
        if scanner.is_done() || budget == 0 {
            let ghost evs = scanner.spec_fed();
            proof {
                let all = xml_events(doc, doc.len() + 1);
                lemma_xml_events_prefix(doc, (n + 1) as nat, doc.len() + 1);
                if scanner.spec_state().2 is Some {
                    lemma_scan_settled(all, (n + 1) as int, max_depth);
                } else {
                    assert(all.take((n + 1) as int) =~= all);
                }
            }
            let r = scanner.finish();
            return r;
        }
        budget = budget - 1;
    }
}

} // verus!
