//! Prompt templates: an XML document with one `<prompt>` holding `<p>`
//! paragraphs, whose text has `{name}` literals replaced, and `<expand>`
//! elements naming a macro (`{name}`) whose pieces are spliced in.
use vstd::prelude::*;
use crate::text::{chars_to_string, replace, replace_chars, str_chars, trim, trim_chars};
use crate::xml::{lemma_xml_events_prefix, next_xml_event, xml_cursor, xml_event_at, xml_events, XmlCursor, XmlEvent, XmlEventView};

verus! {

/// The elements a template may use.
#[derive(Debug, Clone, Copy, PartialEq, Eq, Structural)]
pub enum TagKind {
    Paragraph,
    Expand,
    Prompt,
}

/// Why a template could not be expanded.
#[derive(Debug)]
pub enum TemplateExpansionError<Macro> {
    /// The XML reader failed, with this message.
    XmlParsing(String),
    /// An element other than `prompt`, `p` and `expand`.
    InvalidTag(String),
    /// Elements nested where they may not be.
    InvalidHirarchy,
    /// An `<expand>` whose text is not `{name}` of a known macro.
    InvalidMacro(String),
    /// A macro failed.
    MacroInternal(Macro),
}

/// What the template yields next.
#[derive(Debug, PartialEq, Eq)]
pub enum TemplateStep {
    /// Nothing yet; go on reading.
    Continue,
    /// A paragraph's text, trimmed, with literals replaced.
    Emit(String),
    /// The text of an `<expand>` element: a macro to expand here.
    Expand(String),
    /// The template is complete.
    Done,
}

/// A failure, as the spec sees it.
pub enum FailView {
    XmlParsing(Seq<char>),
    InvalidTag(Seq<char>),
    InvalidHirarchy,
    InvalidMacro(Seq<char>),
    MacroInternal,
}

/// A step or failure, as the spec sees it.
pub enum StepView {
    Continue,
    Emit(Seq<char>),
    Expand(Seq<char>),
    Done,
    Fail(FailView),
}

pub open spec fn error_view<M>(e: TemplateExpansionError<M>) -> FailView {
    match e {
        TemplateExpansionError::XmlParsing(m) => FailView::XmlParsing(m@),
        TemplateExpansionError::InvalidTag(t) => FailView::InvalidTag(t@),
        TemplateExpansionError::InvalidHirarchy => FailView::InvalidHirarchy,
        TemplateExpansionError::InvalidMacro(m) => FailView::InvalidMacro(m@),
        TemplateExpansionError::MacroInternal(_) => FailView::MacroInternal,
    }
}

pub open spec fn step_view<M>(r: Result<TemplateStep, TemplateExpansionError<M>>) -> StepView {
    match r {
        Ok(TemplateStep::Continue) => StepView::Continue,
        Ok(TemplateStep::Emit(s)) => StepView::Emit(s@),
        Ok(TemplateStep::Expand(s)) => StepView::Expand(s@),
        Ok(TemplateStep::Done) => StepView::Done,
        Err(e) => StepView::Fail(error_view(e)),
    }
}

/// The literals as pairs of character sequences.
pub open spec fn literals_view(lits: Seq<(String, String)>) -> Seq<(Seq<char>, Seq<char>)> {
    lits.map_values(|p: (String, String)| (p.0@, p.1@))
}

/// Each literal `k` with value `v` in turn: every `{k}` becomes `v`.
pub open spec fn replace_literals(s: Seq<char>, lits: Seq<(Seq<char>, Seq<char>)>) -> Seq<char>
    decreases lits.len(),
{
    if lits.len() == 0 {
        s
    } else {
        replace_literals(
            replace(s, seq!['{'] + lits[0].0 + seq!['}'], lits[0].1),
            lits.drop_first(),
        )
    }
}

/// One event of a template, given the open elements `h`: the open elements
/// after it, and what it yields.
pub open spec fn template_step(
    h: Seq<TagKind>,
    ev: XmlEventView,
    lits: Seq<(Seq<char>, Seq<char>)>,
) -> (Seq<TagKind>, StepView) {
    match ev {
        XmlEventView::Start(name, _) => if h.len() > 0 && h[0] != TagKind::Prompt {
            (h, StepView::Fail(FailView::InvalidHirarchy))
        } else if name == "prompt"@ {
            if h.len() != 0 {
                (h, StepView::Fail(FailView::InvalidHirarchy))
            } else {
                (h.push(TagKind::Prompt), StepView::Continue)
            }
        } else if name == "p"@ {
            (h.push(TagKind::Paragraph), StepView::Continue)
        } else if name == "expand"@ {
            (h.push(TagKind::Expand), StepView::Continue)
        } else {
            (h, StepView::Fail(FailView::InvalidTag(name)))
        },
        XmlEventView::End => if h.len() == 0 {
            (h, StepView::Done)
        } else {
            (h.drop_last(), StepView::Continue)
        },
        XmlEventView::Text(t) => if h.len() > 0 && h.last() == TagKind::Paragraph {
            (h, StepView::Emit(replace_literals(trim(t), lits)))
        } else if h.len() > 0 && h.last() == TagKind::Expand {
            (h, StepView::Expand(t))
        } else {
            (h, StepView::Continue)
        },
        XmlEventView::Eof => (h, StepView::Done),
        XmlEventView::Error(e) => (h, StepView::Fail(FailView::XmlParsing(e))),
        XmlEventView::Other => (h, StepView::Continue),
    }
}

/// `s` with every `{k}` replaced by `v`, for each literal in turn.
pub fn literal_replace(content: &str, literals: &Vec<(String, String)>) -> (r: String)
    ensures
        r@ == replace_literals(content@, literals_view(literals@)),
{
    let mut cur = str_chars(content);
    let ghost lits = literals_view(literals@);
    let mut i: usize = 0;
    assert(lits.skip(0) =~= lits);
    while i < literals.len()
        invariant
            i <= literals@.len(),
            lits == literals_view(literals@),
            replace_literals(content@, lits) == replace_literals(cur@, lits.skip(i as int)),
        decreases literals@.len() - i,
    {
        let mut pattern: Vec<char> = Vec::new();
        pattern.push('{');
        let key = str_chars(literals[i].0.as_str());
        crate::text::extend_chars(&mut pattern, &key);
        pattern.push('}');
        let value = str_chars(literals[i].1.as_str());
        proof {
            assert(lits.skip(i as int).drop_first() =~= lits.skip(i + 1));
            assert(pattern@ =~= seq!['{'] + lits.skip(i as int)[0].0 + seq!['}']);
        }
        cur = replace_chars(&cur, &pattern, &value);
        i = i + 1;
    }
    proof {
        assert(lits.skip(i as int) =~= Seq::<(Seq<char>, Seq<char>)>::empty());
    }
    chars_to_string(&cur)
}

/// The macro an `<expand>` names: its text without the braces around it,
/// or `InvalidMacro` with the whole text when they are missing.
pub fn macro_name<M>(text: &str) -> (r: Result<String, TemplateExpansionError<M>>)
    ensures
        ({
            let t = text@;
            if t.len() >= 1 && t[0] == '{' && t.last() == '}' && t.len() >= 2 {
                r matches Ok(n) && n@ == t.subrange(1, t.len() - 1)
            } else {
                r matches Err(TemplateExpansionError::InvalidMacro(m)) && m@ == t
            }
        }),
{
    let t = str_chars(text);
    let n = t.len();
    if n >= 2 && t[0] == '{' && t[n - 1] == '}' {
        let inner = crate::text::slice_chars(&t, 1, n - 1);
        Ok(chars_to_string(&inner))
    } else {
        Err(TemplateExpansionError::InvalidMacro(chars_to_string(&t)))
    }
}

/// The open elements of a template being read.
pub struct TemplateExpander {
    hierarchy: Vec<TagKind>,
}

impl TemplateExpander {
    pub closed spec fn spec_hierarchy(&self) -> Seq<TagKind> {
        self.hierarchy@
    }

    /// No element open yet.
    pub fn new() -> (s: Self)
        ensures
            s.spec_hierarchy() == Seq::<TagKind>::empty(),
    {
        TemplateExpander { hierarchy: Vec::new() }
    }

    /// Takes the next event of the template.
    pub fn feed<M>(&mut self, ev: XmlEvent, literals: &Vec<(String, String)>) -> (r: Result<
        TemplateStep,
        TemplateExpansionError<M>,
    >)
        ensures
            (final(self).spec_hierarchy(), step_view(r)) == template_step(
                old(self).spec_hierarchy(),
                ev@,
                literals_view(literals@),
            ),
    {
        match ev {
            XmlEvent::Start(name, _) => {
                if self.hierarchy.len() > 0 && self.hierarchy[0] != TagKind::Prompt {
                    Err(TemplateExpansionError::InvalidHirarchy)
                } else if crate::text::str_eq(name.as_str(), "prompt") {
                    if self.hierarchy.len() != 0 {
                        Err(TemplateExpansionError::InvalidHirarchy)
                    } else {
                        self.hierarchy.push(TagKind::Prompt);
                        Ok(TemplateStep::Continue)
                    }
                } else if crate::text::str_eq(name.as_str(), "p") {
                    self.hierarchy.push(TagKind::Paragraph);
                    Ok(TemplateStep::Continue)
                } else if crate::text::str_eq(name.as_str(), "expand") {
                    self.hierarchy.push(TagKind::Expand);
                    Ok(TemplateStep::Continue)
                } else {
                    Err(TemplateExpansionError::InvalidTag(name))
                }
            },
            XmlEvent::End => {
                if self.hierarchy.len() == 0 {
                    Ok(TemplateStep::Done)
                } else {
                    self.hierarchy.pop();
                    Ok(TemplateStep::Continue)
                }
            },
            XmlEvent::Text(t) => {
                let n = self.hierarchy.len();
                if n > 0 && self.hierarchy[n - 1] == TagKind::Paragraph {
                    let c = str_chars(t.as_str());
                    let trimmed = trim_chars(&c);
                    let ts = chars_to_string(&trimmed);
                    Ok(TemplateStep::Emit(literal_replace(ts.as_str(), literals)))
                } else if n > 0 && self.hierarchy[n - 1] == TagKind::Expand {
                    Ok(TemplateStep::Expand(t))
                } else {
                    Ok(TemplateStep::Continue)
                }
            },
            XmlEvent::Eof => Ok(TemplateStep::Done),
            XmlEvent::Error(e) => Err(TemplateExpansionError::XmlParsing(e)),
            XmlEvent::Other => Ok(TemplateStep::Continue),
        }
    }
}

/// Why an `<expand>` with text `t` fails when no macro is known.
pub open spec fn unknown_macro(t: Seq<char>) -> FailView {
    if t.len() >= 2 && t[0] == '{' && t.last() == '}' {
        FailView::InvalidMacro(t.subrange(1, t.len() - 1))
    } else {
        FailView::InvalidMacro(t)
    }
}

/// Expansion of a template without macros: open elements, paragraphs so
/// far, and how it ended (`None` while it goes on).
pub type ExpandRun = (Seq<TagKind>, Seq<Seq<char>>, Option<Result<(), FailView>>);

pub open spec fn expand_step(st: ExpandRun, ev: XmlEventView, lits: Seq<(Seq<char>, Seq<char>)>) -> ExpandRun {
    if st.2 is Some {
        st
    } else {
        let (h, v) = template_step(st.0, ev, lits);
        match v {
            StepView::Continue => (h, st.1, None),
            StepView::Emit(s) => (h, st.1.push(s), None),
            StepView::Expand(t) => (h, st.1, Some(Err(unknown_macro(t)))),
            StepView::Done => (h, st.1, Some(Ok(()))),
            StepView::Fail(f) => (h, st.1, Some(Err(f))),
        }
    }
}

/// The expansion over a sequence of events.
pub open spec fn expand_run(evs: Seq<XmlEventView>, lits: Seq<(Seq<char>, Seq<char>)>) -> ExpandRun
    decreases evs.len(),
{
    if evs.len() == 0 {
        (Seq::empty(), Seq::empty(), None)
    } else {
        expand_step(expand_run(evs.drop_last(), lits), evs.last(), lits)
    }
}

pub open spec fn expand_result(st: ExpandRun) -> Result<Seq<Seq<char>>, FailView> {
    match st.2 {
        Some(Err(f)) => Err(f),
        _ => Ok(st.1),
    }
}

/// Once an expansion has ended, later events leave it as it is.
proof fn lemma_expand_settled(evs: Seq<XmlEventView>, n: int, lits: Seq<(Seq<char>, Seq<char>)>)
    requires
        0 <= n <= evs.len(),
        expand_run(evs.take(n), lits).2 is Some,
    ensures
        expand_run(evs, lits) == expand_run(evs.take(n), lits),
    decreases evs.len(),
{
    if evs.len() > n {
        assert(evs.drop_last().take(n) =~= evs.take(n));
        lemma_expand_settled(evs.drop_last(), n, lits);
    } else {
        assert(evs.take(n) =~= evs);
    }
}

/// Expands a template that uses no macro: the paragraphs' texts, trimmed
/// and with literals replaced, in order. An `<expand>` fails with
/// `InvalidMacro`, as no macro is known. The template is read until the
/// closing of its outer element or its end; each event but the last takes
/// up at least one character, so at most one event more than the template
/// has characters is read.
pub fn expand_prompt<M>(template: &str, literals: &Vec<(String, String)>) -> (r: Result<
    Vec<String>,
    TemplateExpansionError<M>,
>)
    ensures
        ({
            let res = expand_result(
                expand_run(xml_events(template@, template@.len() + 1), literals_view(literals@)),
            );
            &&& r matches Ok(v) ==> res == Ok::<Seq<Seq<char>>, FailView>(v@.map_values(|s: String| s@))
            &&& r matches Err(e) ==> res == Err::<Seq<Seq<char>>, FailView>(error_view(e))
        }),
{
    let ghost lits = literals_view(literals@);
    let ghost doc = template@;
    let mut cursor = xml_cursor(template);
    let mut budget: usize = template.unicode_len();
    let mut expander = TemplateExpander::new();
    let mut out: Vec<String> = Vec::new();
    assert(out@.map_values(|s: String| s@) =~= Seq::<Seq<char>>::empty());
    assert(xml_events(doc, 0) =~= Seq::<XmlEventView>::empty());
    loop
        invariant
            lits == literals_view(literals@),
            doc == template@,
            cursor@.0 == doc,
            cursor@.1 + budget == doc.len(),
            expand_run(xml_events(doc, cursor@.1), lits).0 == expander.spec_hierarchy(),
            expand_run(xml_events(doc, cursor@.1), lits).1 == out@.map_values(|s: String| s@),
            expand_run(xml_events(doc, cursor@.1), lits).2 is None,
        decreases budget,
    {
        let ghost n = cursor@.1;
        let ev = next_xml_event(&mut cursor);
        let ghost evs = xml_events(doc, (n + 1) as nat);
        proof {
            lemma_xml_events_prefix(doc, n, n + 1);
            assert(evs.drop_last() =~= xml_events(doc, n));
            let all = xml_events(doc, doc.len() + 1);
            lemma_xml_events_prefix(doc, (n + 1) as nat, doc.len() + 1);
            if expand_run(evs, lits).2 is Some {
                lemma_expand_settled(all, (n + 1) as int, lits);
            }
            if n + 1 == doc.len() + 1 {
                assert(all.take((n + 1) as int) =~= all);
            }
        }
        let step = expander.feed::<M>(ev, literals);
        match step {
            Ok(TemplateStep::Continue) => {},
            Ok(TemplateStep::Emit(s)) => {
                let ghost sv = s@;
                let ghost before = out@;
                out.push(s);
                assert(out@.map_values(|x: String| x@) =~= before.map_values(|x: String| x@).push(sv));
            },
            Ok(TemplateStep::Expand(t)) => {
                let e = match macro_name::<M>(t.as_str()) {
                    Ok(name) => TemplateExpansionError::InvalidMacro(name),
                    Err(e) => e,
                };
                return Err(e);
            },
            Ok(TemplateStep::Done) => {
                return Ok(out);
            },
            Err(e) => {
                return Err(e);
            },
        }
        if budget == 0 {
            return Ok(out);
        }
        budget = budget - 1;
    }
}

/// Reading a template from its event `read` on, with open elements `h` and
/// `budget` more events to spare: the number of events read then, the open
/// elements then, the budget left, and the first step that is not
/// `Continue` (`Done` once the budget is spent).
pub open spec fn template_next(
    doc: Seq<char>,
    read: nat,
    h: Seq<TagKind>,
    budget: nat,
    lits: Seq<(Seq<char>, Seq<char>)>,
) -> (nat, Seq<TagKind>, nat, StepView)
    decreases budget,
{
    let (h2, v) = template_step(h, xml_event_at(doc, read as int), lits);
    if !(v is Continue) {
        (read + 1, h2, budget, v)
    } else if budget == 0 {
        (read + 1, h2, 0, StepView::Done)
    } else {
        template_next(doc, read + 1, h2, (budget - 1) as nat, lits)
    }
}

/// A template being read, for expansion with macros: it reads events until
/// there is something to hand out.
pub struct TemplateReader<'a> {
    cursor: XmlCursor<'a>,
    expander: TemplateExpander,
    budget: usize,
}

impl<'a> View for TemplateReader<'a> {
    /// The template, the events read, the open elements, and how many more
    /// events may be read.
    type V = (Seq<char>, nat, Seq<TagKind>, nat);

    closed spec fn view(&self) -> (Seq<char>, nat, Seq<TagKind>, nat) {
        (self.cursor@.0, self.cursor@.1, self.expander.spec_hierarchy(), self.budget as nat)
    }
}

impl<'a> TemplateReader<'a> {
    /// A reader at the start of `template`, which may read one event more
    /// than the template has characters.
    pub fn new(template: &'a str) -> (r: Self)
        ensures
            r@ == (template@, 0nat, Seq::<TagKind>::empty(), template@.len()),
    {
        let budget = template.unicode_len();
        TemplateReader { cursor: xml_cursor(template), expander: TemplateExpander::new(), budget }
    }

    /// Reads events until a paragraph's text, a macro to expand, the end,
    /// or a failure: the first step of [`TemplateExpander::feed`] that is
    /// not `Continue`. Once the budget of events is spent it reports the
    /// end.
    pub fn next_step<M>(&mut self, literals: &Vec<(String, String)>) -> (r: Result<
        TemplateStep,
        TemplateExpansionError<M>,
    >)
        ensures
            ({
                let (doc, read, h, budget) = old(self)@;
                let (read2, h2, budget2, v) = template_next(doc, read, h, budget, literals_view(literals@));
                &&& final(self)@ == (doc, read2, h2, budget2)
                &&& step_view(r) == v
            }),
    {
        let ghost target = template_next(
            old(self)@.0,
            old(self)@.1,
            old(self)@.2,
            old(self)@.3,
            literals_view(literals@),
        );
        loop
            invariant
                self@.0 == old(self)@.0,
                target == template_next(
                    old(self)@.0,
                    old(self)@.1,
                    old(self)@.2,
                    old(self)@.3,
                    literals_view(literals@),
                ),
                template_next(self@.0, self@.1, self@.2, self@.3, literals_view(literals@)) == target,
            decreases self.budget,
        {
            let ghost pre = self@;
            let ev = next_xml_event(&mut self.cursor);
            let step = self.expander.feed::<M>(ev, literals);
            proof {
                assert(target == template_next(pre.0, pre.1, pre.2, pre.3, literals_view(literals@)));
            }
            match step {
                Ok(TemplateStep::Continue) => {},
                other => {
                    return other;
                },
            }
            if self.budget == 0 {
                return Ok(TemplateStep::Done);
            }
            self.budget = self.budget - 1;
        }
    }
}

} // verus!
