//! An Atom entry as an RSS item: which fields of the entry fill which
//! fields of the item.
use vstd::prelude::*;
use crate::text::{chars_to_string, join, join_chars, str_chars};

verus! {

/// A category of an Atom entry: its term and, if any, its label.
#[derive(Debug)]
pub struct AtomCategory {
    pub term: String,
    pub label: Option<String>,
}

/// The feed an Atom entry was taken from: its links' targets and title.
#[derive(Debug)]
pub struct AtomSource {
    pub links: Vec<String>,
    pub title: String,
}

/// What the conversion reads of an Atom entry.
#[derive(Debug)]
pub struct AtomEntryFields {
    pub title: String,
    pub id: String,
    /// The time of the last update, written as RFC 2822.
    pub updated: String,
    pub summary: Option<String>,
    pub content: Option<String>,
    /// The targets of the entry's links, in order.
    pub links: Vec<String>,
    /// Each author's e-mail address, where one is given.
    pub author_emails: Vec<Option<String>>,
    pub categories: Vec<AtomCategory>,
    pub source: Option<AtomSource>,
}

/// A category of an RSS item.
#[derive(Debug)]
pub struct RssCategory {
    pub name: String,
    pub domain: Option<String>,
}

/// The feed an RSS item was taken from.
#[derive(Debug)]
pub struct RssSource {
    pub url: String,
    pub title: Option<String>,
}

/// The fields of the RSS item made of an Atom entry.
#[derive(Debug)]
pub struct RssItemFields {
    pub title: String,
    /// The guid, which is always a permalink.
    pub guid: String,
    pub pub_date: String,
    pub description: Option<String>,
    pub content: Option<String>,
    pub link: Option<String>,
    pub author: String,
    pub categories: Vec<RssCategory>,
    pub source: Option<RssSource>,
}

/// The e-mail addresses that are given, in order.
pub open spec fn given_emails(emails: Seq<Option<String>>) -> Seq<Seq<char>>
    decreases emails.len(),
{
    if emails.len() == 0 {
        seq![]
    } else {
        let rest = given_emails(emails.drop_last());
        match emails.last() {
            Some(e) => rest.push(e@),
            None => rest,
        }
    }
}

/// The author of the item: the authors' e-mail addresses, where given,
/// separated by ";".
pub open spec fn spec_author(emails: Seq<Option<String>>) -> Seq<char> {
    join(given_emails(emails), seq![';'])
}

/// The first link's target, if there is a link.
pub open spec fn first_link(links: Seq<String>) -> Option<Seq<char>> {
    if links.len() > 0 {
        Some(links[0]@)
    } else {
        None
    }
}

/// A category of the item: named by the label, or by the term where there
/// is no label, within the term's domain.
pub open spec fn category_matches(a: AtomCategory, r: RssCategory) -> bool {
    &&& r.name@ == (match a.label {
        Some(l) => l@,
        None => a.term@,
    })
    &&& r.domain matches Some(d) && d@ == a.term@
}

/// The source of the item: the first link's target ("" without links) and
/// the title.
pub open spec fn source_matches(a: Option<AtomSource>, r: Option<RssSource>) -> bool {
    match (a, r) {
        (None, None) => true,
        (Some(a), Some(r)) => {
            &&& r.url@ == (match first_link(a.links@) {
                Some(l) => l,
                None => Seq::<char>::empty(),
            })
            &&& r.title matches Some(t) && t@ == a.title@
        },
        _ => false,
    }
}

/// The target of the first link, if any.
fn first_link_exec(links: &Vec<String>) -> (r: Option<String>)
    ensures
        match r {
            Some(l) => first_link(links@) == Some(l@),
            None => first_link(links@) is None,
        },
{
    if links.len() > 0 {
        let v = str_chars(links[0].as_str());
        Some(chars_to_string(&v))
    } else {
        None
    }
}

/// The authors' e-mail addresses, where given, separated by ";".
pub fn author_text(emails: &Vec<Option<String>>) -> (r: String)
    ensures
        r@ == spec_author(emails@),
{
    let mut pieces: Vec<Vec<char>> = Vec::new();
    let mut i: usize = 0;
    while i < emails.len()
        invariant
            i <= emails@.len(),
            pieces@.map_values(|v: Vec<char>| v@) == given_emails(emails@.take(i as int)),
        decreases emails@.len() - i,
    {
        proof {
            assert(emails@.take(i + 1).drop_last() =~= emails@.take(i as int));
            assert(emails@.take(i + 1).last() == emails@[i as int]);
        }
        if let Some(e) = &emails[i] {
            let ghost before = pieces@;
            pieces.push(str_chars(e.as_str()));
            proof {
                assert(pieces@.map_values(|v: Vec<char>| v@) =~= before.map_values(|v: Vec<char>| v@).push(
                    e@,
                ));
            }
        }
        i = i + 1;
    }
    proof {
        assert(emails@.take(emails@.len() as int) =~= emails@);
    }
    let mut sep: Vec<char> = Vec::new();
    sep.push(';');
    let joined = join_chars(&pieces, &sep);
    proof {
        assert(sep@ =~= seq![';']);
    }
    chars_to_string(&joined)
}

/// An RSS category for an Atom category.
pub fn rss_category(c: &AtomCategory) -> (r: RssCategory)
    ensures
        category_matches(*c, r),
{
    let t = str_chars(c.term.as_str());
    let name = match &c.label {
        Some(l) => {
            let v = str_chars(l.as_str());
            chars_to_string(&v)
        },
        None => chars_to_string(&t),
    };
    RssCategory { name, domain: Some(chars_to_string(&t)) }
}

/// The RSS item made of an Atom entry: title, guid (the entry's id) and
/// date carried over, the summary as description, the content, the first
/// link, the authors' e-mail addresses, the categories and the source.
pub fn rss_item_fields(e: AtomEntryFields) -> (r: RssItemFields)
    ensures
        r.title == e.title,
        r.guid == e.id,
        r.pub_date == e.updated,
        r.description == e.summary,
        r.content == e.content,
        match r.link {
            Some(l) => first_link(e.links@) == Some(l@),
            None => first_link(e.links@) is None,
        },
        r.author@ == spec_author(e.author_emails@),
        r.categories@.len() == e.categories@.len(),
        forall|i: int|
            0 <= i < e.categories@.len() ==> category_matches(
                #[trigger] e.categories@[i],
                r.categories@[i],
            ),
        source_matches(e.source, r.source),
{
    let link = first_link_exec(&e.links);
    let author = author_text(&e.author_emails);
    let mut categories: Vec<RssCategory> = Vec::new();
    let mut i: usize = 0;
    while i < e.categories.len()
        invariant
            i <= e.categories@.len(),
            categories@.len() == i,
            forall|j: int|
                0 <= j < i ==> category_matches(#[trigger] e.categories@[j], categories@[j]),
        decreases e.categories@.len() - i,
    {
        categories.push(rss_category(&e.categories[i]));
        i = i + 1;
    }
    let source = match &e.source {
        Some(s) => {
            let url = match first_link_exec(&s.links) {
                Some(l) => l,
                None => String::new(),
            };
            let t = str_chars(s.title.as_str());
            Some(RssSource { url, title: Some(chars_to_string(&t)) })
        },
        None => None,
    };
    RssItemFields {
        title: e.title,
        guid: e.id,
        pub_date: e.updated,
        description: e.summary,
        content: e.content,
        link,
        author,
        categories,
        source,
    }
}

} // verus!
