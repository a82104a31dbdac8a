//! Updates from feeds as the model is shown them: a JSON text in which
//! each image stands as a lone `&` marker (literal `&`s doubled), split
//! back into text and images; titles and identities of feed items; and the
//! content fetched for links found in them.
use vstd::prelude::*;
use crate::text::{
    chars_to_string, push_str, starts_with, starts_with_chars, str_chars, trim, trim_chars,
};
use vstd::utf8::encode_utf8;
use vstd::string::StringSliceAdditionalSpecFns;

verus! {

/// A piece of a message: an image (by handle) or text.
#[derive(Debug)]
pub enum ImageOrText<I> {
    Image(I),
    Text(String),
}

/// Each `&` doubled: how text is escaped so that a lone `&` can stand for
/// an image.
pub open spec fn double_amp(s: Seq<char>) -> Seq<char>
    decreases s.len(),
{
    if s.len() == 0 {
        s
    } else {
        double_amp(s.drop_last()) + if s.last() == '&' {
            seq!['&', '&']
        } else {
            seq![s.last()]
        }
    }
}

/// `escaping::Escape::new('&', &['&'], &[], None)` applied to `s`: the
/// crate puts its escape character before each character to escape, so
/// every `&` is doubled and nothing else changes. (The escaper is valid for
/// these arguments, so building it does not fail.)
#[verifier::external_body]
fn escape_ampersands(s: &str) -> (r: String)
    ensures
        r@ == double_amp(s@),
{
    escaping::Escape::new('&', &['&'], &[], None).unwrap().escape(s).into_owned()
}

pub open spec fn hex_digit(d: int) -> char {
    seq!['0', '1', '2', '3', '4', '5', '6', '7', '8', '9', 'a', 'b', 'c', 'd', 'e', 'f'][d]
}

/// How JSON writes a character inside a string.
pub open spec fn json_escape_char(c: char) -> Seq<char> {
    if c == '"' {
        seq!['\\', '"']
    } else if c == '\\' {
        seq!['\\', '\\']
    } else if c == '\x08' {
        seq!['\\', 'b']
    } else if c == '\t' {
        seq!['\\', 't']
    } else if c == '\n' {
        seq!['\\', 'n']
    } else if c == '\x0c' {
        seq!['\\', 'f']
    } else if c == '\r' {
        seq!['\\', 'r']
    } else if (c as u32) < 0x20 {
        seq!['\\', 'u', '0', '0', hex_digit((c as u32) as int / 16), hex_digit((c as u32) as int % 16)]
    } else {
        seq![c]
    }
}

pub open spec fn json_escape(s: Seq<char>) -> Seq<char>
    decreases s.len(),
{
    if s.len() == 0 {
        s
    } else {
        json_escape(s.drop_last()) + json_escape_char(s.last())
    }
}

/// A string as a JSON string literal.
pub open spec fn json_quote(s: Seq<char>) -> Seq<char> {
    seq!['"'] + json_escape(s) + seq!['"']
}

/// `serde_json::to_string` of a string: it quoted, with `"` and `\`
/// escaped, the control characters below 0x20 written as `\b`, `\t`, `\n`,
/// `\f`, `\r` or `\u00xx` (lower-case hex), every other character as it is.
/// Serializing a string does not fail.
#[verifier::external_body]
fn json_string(s: &str) -> (r: String)
    ensures
        r@ == json_quote(s@),
{
    serde_json::to_string(s).unwrap()
}

/// The text of the pieces, escaped, with `&` for each image.
pub open spec fn pieces_text<I>(pieces: Seq<ImageOrText<I>>) -> Seq<char>
    decreases pieces.len(),
{
    if pieces.len() == 0 {
        Seq::empty()
    } else {
        pieces_text(pieces.drop_last()) + match pieces.last() {
            ImageOrText::Image(_) => seq!['&'],
            ImageOrText::Text(t) => double_amp(t@),
        }
    }
}

/// The images among the pieces, in order.
pub open spec fn pieces_images<I>(pieces: Seq<ImageOrText<I>>) -> Seq<I>
    decreases pieces.len(),
{
    if pieces.len() == 0 {
        Seq::empty()
    } else {
        pieces_images(pieces.drop_last()) + match pieces.last() {
            ImageOrText::Image(i) => seq![i],
            ImageOrText::Text(_) => Seq::empty(),
        }
    }
}

/// The JSON body of an update: its title, its content when there is any,
/// and its kind when it has one.
pub open spec fn update_json(title: Seq<char>, content: Seq<char>, kind: Option<Seq<char>>) -> Seq<char> {
    "{\"title\":"@ + json_quote(title) + (if content.len() > 0 {
        ",\"content\":"@ + json_quote(content)
    } else {
        Seq::empty()
    }) + match kind {
        Some(k) => ",\"type\":"@ + json_quote(k),
        None => Seq::empty(),
    } + "}"@
}

/// An update as the model is shown it: a JSON text, and its images.
#[derive(Debug)]
pub struct DefaultUpdate<I> {
    pub title: String,
    images: Vec<I>,
    msg_json: String,
    pub type_: Option<String>,
}

/// A feed's name and kind.
#[derive(Debug)]
pub struct DefaultMetadata {
    pub name: String,
    pub type_: Option<String>,
}

/// A part of the message of an update: text, or the update's image with
/// this number.
#[derive(Debug, PartialEq, Eq)]
pub enum MessagePart {
    Text(String),
    Image(usize),
}

/// A part of the message, as byte ranges of the JSON text.
pub enum PartView {
    Text(int, int),
    Image(int),
}

/// The first `&` at or after byte `from`.
pub open spec fn first_amp(b: Seq<u8>, from: int) -> Option<int>
    decreases b.len() - from,
{
    if from < 0 || from >= b.len() {
        None
    } else if b[from] == 0x26u8 {
        Some(from)
    } else {
        first_amp(b, from + 1)
    }
}

/// How the message of an update is laid out, for its images from `im` on
/// (of `m` to place) with the text so far ending at `left`: before each
/// image the text up to the next `&` marker. The marker is accepted when
/// the byte whose position is its distance from `left`, plus one, exists
/// and is no `&`; otherwise there is no layout.
pub open spec fn layout_from(b: Seq<u8>, left: int, im: int, m: int) -> Option<Seq<PartView>>
    decreases m - im,
{
    if im >= m {
        Some(seq![PartView::Text(left, b.len() as int)])
    } else {
        match first_amp(b, left) {
            None => None,
            Some(j) => {
                let i = j - left;
                if i + 1 < b.len() && b[i + 1] != 0x26u8 {
                    match layout_from(b, j + 1, im + 1, m) {
                        Some(rest) => Some(seq![PartView::Text(left, j), PartView::Image(im)] + rest),
                        None => None,
                    }
                } else {
                    None
                }
            },
        }
    }
}

/// The number of image markers looked for: one less than the number of
/// images, none for no image.
pub open spec fn markers(n: nat) -> int {
    if n <= 1 {
        0
    } else {
        n - 1
    }
}

impl<I> DefaultUpdate<I> {
    pub closed spec fn spec_title(&self) -> Seq<char> {
        self.title@
    }

    pub closed spec fn spec_type(&self) -> Option<String> {
        self.type_
    }

    pub closed spec fn spec_json(&self) -> Seq<char> {
        self.msg_json@
    }

    pub closed spec fn spec_images(&self) -> Seq<I> {
        self.images@
    }

    /// An update titled `title` with the given pieces and kind: the JSON
    /// text of the title, the escaped text of the pieces (an `&` for each
    /// image) and the kind, and the images in order.
    pub fn new(title: &str, content: Vec<ImageOrText<I>>, type_: Option<String>) -> (u: Self)
        ensures
            u.spec_title() == title@,
            u.spec_type() == type_,
            u.spec_images() == pieces_images(content@),
            u.spec_json() == update_json(
                title@,
                pieces_text(content@),
                match type_ {
                    Some(k) => Some(k@),
                    None => None,
                },
            ),
    {
        let ghost pieces = content@;
        let mut text: Vec<char> = Vec::new();
        let mut images: Vec<I> = Vec::new();
        let mut rest = content;
        let mut done: usize = 0;
        let total = rest.len();
        let mut queue: Vec<ImageOrText<I>> = Vec::new();
        while rest.len() > 0
            invariant
                rest@.len() + queue@.len() == total,
                total == pieces.len(),
                forall|a: int| 0 <= a < queue@.len() ==> #[trigger] queue@[a] == pieces[total - 1 - a],
                forall|a: int| 0 <= a < rest@.len() ==> #[trigger] rest@[a] == pieces[a],
            decreases rest@.len(),
        {
            let p = rest.pop().unwrap();
            queue.push(p);
        }
        while queue.len() > 0
            invariant
                total == pieces.len(),
                queue@.len() + done == total,
                forall|a: int| 0 <= a < queue@.len() ==> #[trigger] queue@[a] == pieces[total - 1 - a],
                text@ == pieces_text(pieces.take(done as int)),
                images@ == pieces_images(pieces.take(done as int)),
            decreases queue@.len(),
        {
            let p = queue.pop().unwrap();
            proof {
                assert(pieces.take(done + 1).drop_last() =~= pieces.take(done as int));
                assert(pieces.take(done + 1).last() == p);
            }
            match p {
                ImageOrText::Image(im) => {
                    text.push('&');
                    images.push(im);
                },
                ImageOrText::Text(t) => {
                    let e = escape_ampersands(t.as_str());
                    push_str(&mut text, e.as_str());
                },
            }
            proof {
                assert(images@ =~= pieces_images(pieces.take(done + 1)));
            }
            done = done + 1;
        }
        proof {
            assert(pieces.take(done as int) =~= pieces);
        }
        let mut json = str_chars("{\"title\":");
        let qt = json_string(title);
        push_str(&mut json, qt.as_str());
        if text.len() > 0 {
            push_str(&mut json, ",\"content\":");
            let ts = chars_to_string(&text);
            let qc = json_string(ts.as_str());
            push_str(&mut json, qc.as_str());
        }
        match &type_ {
            Some(k) => {
                push_str(&mut json, ",\"type\":");
                let qk = json_string(k.as_str());
                push_str(&mut json, qk.as_str());
            },
            None => {},
        }
        push_str(&mut json, "}");
        let t = str_chars(title);
        DefaultUpdate { title: chars_to_string(&t), images, msg_json: chars_to_string(&json), type_ }
    }
}

/// The views of message parts, over the JSON text's bytes.
pub open spec fn part_views_match(parts: Seq<MessagePart>, views: Seq<PartView>, b: Seq<u8>) -> bool {
    &&& parts.len() == views.len()
    &&& forall|a: int| 0 <= a < parts.len() ==> match (#[trigger] parts[a], views[a]) {
        (MessagePart::Text(t), PartView::Text(lo, hi)) => 0 <= lo <= hi <= b.len() && encode_utf8(t@)
            == b.subrange(lo, hi),
        (MessagePart::Image(i), PartView::Image(j)) => i == j,
        _ => false,
    }
}

proof fn lemma_first_amp(b: Seq<u8>, from: int)
    ensures
        first_amp(b, from) matches Some(j) ==> 0 <= from <= j < b.len() && b[j] == 0x26u8,
    decreases b.len() - from,
{
    if 0 <= from < b.len() && b[from] != 0x26u8 {
        lemma_first_amp(b, from + 1);
    }
}

/// The first `&` at or after `from`.
fn find_amp(b: &[u8], from: usize) -> (r: Option<usize>)
    ensures
        match r {
            Some(j) => first_amp(b@, from as int) == Some(j as int),
            None => first_amp(b@, from as int) is None,
        },
    decreases b@.len() - from,
{
    if from >= b.len() {
        None
    } else if b[from] == 0x26u8 {
        Some(from)
    } else {
        find_amp(b, from + 1)
    }
}

impl<I> DefaultUpdate<I> {
    /// The message of the update, with the images spliced back in: for
    /// each image but the last (none for a single image), the text up to the
    /// next marker and then the image; then the rest of the text. `None`
    /// where a marker is missing or is refused by [`layout_from`].
    pub fn try_get_message(&self) -> (r: Option<Vec<MessagePart>>)
        ensures
            ({
                let b = encode_utf8(self.spec_json());
                let lay = layout_from(b, 0, 0, markers(self.spec_images().len()));
                &&& r is None <==> lay is None
                &&& r matches Some(parts) ==> part_views_match(parts@, lay->0, b)
            }),
    {
        let s = self.msg_json.as_str();
        let b = s.as_bytes();
        let ghost bv = b@;
        proof {
            vstd::utf8::encode_utf8_valid_utf8(self.msg_json@);
        }
        let n = self.images.len();
        let m: usize = if n <= 1 { 0 } else { n - 1 };
        let blen = b.len();
        assert(bv.len() == blen);
        let mut parts: Vec<MessagePart> = Vec::new();
        let mut left: usize = 0;
        let mut im: usize = 0;
        proof {
            vstd::utf8::is_char_boundary_start_end_of_seq(bv);
            let whole = layout_from(bv, 0, 0, m as int);
            if whole is Some {
                assert(Seq::<PartView>::empty() + whole->0 =~= whole->0);
                assert(part_views_match(parts@, Seq::<PartView>::empty(), bv));
            }
        }
        while im < m
            invariant
                bv == b@,
                bv == s.spec_bytes(),
                s@ == self.spec_json(),
                bv.len() == b.len(),
                vstd::utf8::valid_utf8(bv),
                left <= bv.len(),
                im <= m,
                m == markers(n as nat),
                n == self.spec_images().len(),
                vstd::utf8::is_char_boundary(bv, left as int),
                ({
                    let whole = layout_from(bv, 0, 0, m as int);
                    let here = layout_from(bv, left as int, im as int, m as int);
                    &&& whole is None <==> here is None
                    &&& here matches Some(rest) ==> exists|pre: Seq<PartView>|
                        whole == Some(pre + rest) && #[trigger] part_views_match(parts@, pre, bv)
                }),
            decreases m - im,
        {
            let j = match find_amp(b, left) {
                Some(j) => j,
                None => {
                    assert(layout_from(bv, left as int, im as int, m as int) is None);
                    return None;
                },
            };
            proof {
                lemma_first_amp(bv, left as int);
            }
            let i = j - left;
            if !(i + 1 < b.len() && b[i + 1] != 0x26u8) {
                assert(layout_from(bv, left as int, im as int, m as int) is None);
                return None;
            }
            proof {
                assert(bv[j as int] == 0x26u8);
                crate::text::lemma_boundary_at_ascii(bv, j as int);
                crate::text::lemma_boundary_after_ascii(bv, j as int);
            }
            let text = crate::text::byte_slice(s, left, j);
            let ghost old_parts = parts@;
            parts.push(MessagePart::Text(text));
            parts.push(MessagePart::Image(im));
            proof {
                let here = layout_from(bv, left as int, im as int, m as int);
                let next = layout_from(bv, j + 1, im + 1, m as int);
                let whole = layout_from(bv, 0, 0, m as int);
                let two = seq![PartView::Text(left as int, j as int), PartView::Image(im as int)];
                if next is Some {
                    let rest = next->0;
                    assert(here == Some(two + rest));
                    let pre = choose|pre: Seq<PartView>| whole == Some(pre + here->0) && #[trigger] part_views_match(old_parts, pre, bv);
                    assert(pre + (two + rest) =~= (pre + two) + rest);
                    assert(part_views_match(parts@, pre + two, bv)) by {
                        assert forall|a: int| 0 <= a < parts@.len() implies match (#[trigger] parts@[a], (pre + two)[a]) {
                            (MessagePart::Text(t), PartView::Text(lo, hi)) => 0 <= lo <= hi <= bv.len() && encode_utf8(t@) == bv.subrange(lo, hi),
                            (MessagePart::Image(i), PartView::Image(j)) => i == j,
                            _ => false,
                        } by {
                            if a < old_parts.len() {
                                assert(parts@[a] == old_parts[a]);
                                assert(match (old_parts[a], pre[a]) {
                                    (MessagePart::Text(t), PartView::Text(lo, hi)) => 0 <= lo <= hi <= bv.len() && encode_utf8(t@) == bv.subrange(lo, hi),
                                    (MessagePart::Image(i), PartView::Image(j)) => i == j,
                                    _ => false,
                                });
                            }
                        }
                    }
                } else {
                    assert(here is None);
                }
            }
            left = j + 1;
            im = im + 1;
        }
        let text = crate::text::byte_slice(s, left, b.len());
        let ghost old_parts = parts@;
        parts.push(MessagePart::Text(text));
        proof {
            let whole = layout_from(bv, 0, 0, m as int);
            let here = layout_from(bv, left as int, im as int, m as int);
            let one = seq![PartView::Text(left as int, bv.len() as int)];
            assert(here == Some(one));
            let pre = choose|pre: Seq<PartView>| whole == Some(pre + here->0) && #[trigger] part_views_match(old_parts, pre, bv);
            assert(part_views_match(parts@, pre + one, bv)) by {
                assert forall|a: int| 0 <= a < parts@.len() implies match (#[trigger] parts@[a], (pre + one)[a]) {
                    (MessagePart::Text(t), PartView::Text(lo, hi)) => 0 <= lo <= hi <= bv.len() && encode_utf8(t@) == bv.subrange(lo, hi),
                    (MessagePart::Image(i), PartView::Image(j)) => i == j,
                    _ => false,
                } by {
                    if a < old_parts.len() {
                        assert(parts@[a] == old_parts[a]);
                        assert(match (old_parts[a], pre[a]) {
                            (MessagePart::Text(t), PartView::Text(lo, hi)) => 0 <= lo <= hi <= bv.len() && encode_utf8(t@) == bv.subrange(lo, hi),
                            (MessagePart::Image(i), PartView::Image(j)) => i == j,
                            _ => false,
                        });
                    }
                }
            }
        }
        Some(parts)
    }

    /// The images of the update, in order.
    pub fn images(&self) -> (v: &Vec<I>)
        ensures
            v@ == self.spec_images(),
    {
        &self.images
    }

    /// The JSON text of the update.
    pub fn message_json(&self) -> (s: &str)
        ensures
            s@ == self.spec_json(),
    {
        self.msg_json.as_str()
    }
}

impl<I> DefaultUpdate<I> {
    /// [`DefaultUpdate::try_get_message`] for an update whose markers are
    /// all in place.
    pub fn get_message(&self) -> (r: Vec<MessagePart>)
        requires
            layout_from(encode_utf8(self.spec_json()), 0, 0, markers(self.spec_images().len())) is Some,
        ensures
            part_views_match(
                r@,
                layout_from(encode_utf8(self.spec_json()), 0, 0, markers(self.spec_images().len()))->0,
                encode_utf8(self.spec_json()),
            ),
    {
        match self.try_get_message() {
            Some(parts) => parts,
            None => {
                proof {
                    assert(false);
                }
                Vec::new()
            },
        }
    }
}

/// With at most one image no marker is looked for: the message is the
/// whole JSON text.
pub proof fn law_one_image_whole_text(b: Seq<u8>, n: nat)
    requires
        n <= 1,
    ensures
        layout_from(b, 0, 0, markers(n)) == Some(seq![PartView::Text(0, b.len() as int)]),
{
}

/// What the model is told of a feed: "<kind> named \"<name>\"", or just the
/// name.
pub open spec fn spec_metadata_message(name: Seq<char>, kind: Option<Seq<char>>) -> Seq<char> {
    match kind {
        Some(k) => k + " named \""@ + name + "\""@,
        None => name,
    }
}

impl DefaultMetadata {
    pub fn new(name: String, type_: Option<String>) -> (m: Self)
        ensures
            m.name == name,
            m.type_ == type_,
    {
        DefaultMetadata { name, type_ }
    }

    /// The feed described in one text.
    pub fn get_message(&self) -> (r: Vec<String>)
        ensures
            r@.len() == 1,
            r@[0]@ == spec_metadata_message(
                self.name@,
                match self.type_ {
                    Some(k) => Some(k@),
                    None => None,
                },
            ),
    {
        let mut v: Vec<char> = Vec::new();
        match &self.type_ {
            Some(k) => {
                push_str(&mut v, k.as_str());
                push_str(&mut v, " named \"");
                push_str(&mut v, self.name.as_str());
                push_str(&mut v, "\"");
            },
            None => {
                push_str(&mut v, self.name.as_str());
            },
        }
        let mut r: Vec<String> = Vec::new();
        r.push(chars_to_string(&v));
        r
    }
}

pub open spec fn or_empty(s: Option<Seq<char>>) -> Seq<char> {
    match s {
        Some(x) => x,
        None => Seq::empty(),
    }
}

/// The title of an RSS item: its title (or else its description) and its
/// link, separated by a space, trimmed.
pub open spec fn spec_rss_title(
    title: Option<Seq<char>>,
    description: Option<Seq<char>>,
    link: Option<Seq<char>>,
) -> Seq<char> {
    let head = match title {
        Some(t) => t,
        None => or_empty(description),
    };
    trim(head + seq![' '] + or_empty(link))
}

pub open spec fn opt_view(s: Option<&str>) -> Option<Seq<char>> {
    match s {
        Some(x) => Some(x@),
        None => None,
    }
}

pub fn rss_item_title(title: Option<&str>, description: Option<&str>, link: Option<&str>) -> (r: String)
    ensures
        r@ == spec_rss_title(opt_view(title), opt_view(description), opt_view(link)),
{
    let mut v: Vec<char> = Vec::new();
    match title {
        Some(t) => push_str(&mut v, t),
        None => match description {
            Some(d) => push_str(&mut v, d),
            None => {},
        },
    }
    v.push(' ');
    match link {
        Some(l) => push_str(&mut v, l),
        None => {},
    }
    proof {
        assert(v@ =~= (match opt_view(title) {
            Some(t) => t,
            None => or_empty(opt_view(description)),
        }) + seq![' '] + or_empty(opt_view(link)));
    }
    let t = trim_chars(&v);
    chars_to_string(&t)
}

/// What identifies an RSS item: its guid, or else its title.
pub fn rss_item_identity<'a>(guid: Option<&'a str>, title: &'a str) -> (r: &'a str)
    ensures
        r@ == (match guid {
            Some(g) => g@,
            None => title@,
        }),
{
    match guid {
        Some(g) => g,
        None => title,
    }
}

/// The title of an Atom entry: its title and its links' targets, each
/// after a space.
pub open spec fn spec_atom_title(title: Seq<char>, links: Seq<Seq<char>>) -> Seq<char> {
    title + seq![' '] + crate::text::join(links, seq![' '])
}

pub fn atom_item_title(title: &str, links: &Vec<String>) -> (r: String)
    ensures
        r@ == spec_atom_title(title@, links@.map_values(|s: String| s@)),
{
    let mut v = str_chars(title);
    v.push(' ');
    let pieces = crate::optimize::strings_to_chars(links);
    let mut sep: Vec<char> = Vec::new();
    sep.push(' ');
    let body = crate::text::join_chars(&pieces, &sep);
    crate::text::extend_chars(&mut v, &body);
    proof {
        assert(pieces@.map_values(|c: Vec<char>| c@) =~= links@.map_values(|s: String| s@));
    }
    chars_to_string(&v)
}

/// Content fetched for a link of a feed item.
#[derive(Debug)]
pub enum UrlContent<I> {
    Image { url: String, image: I },
    Text { url: String, text: String },
}

impl<I> UrlContent<I> {
    /// The link the content was fetched from.
    pub fn url(&self) -> (u: &str)
        ensures
            u@ == (match self {
                UrlContent::Image { url, .. } => url@,
                UrlContent::Text { url, .. } => url@,
            }),
    {
        match self {
            UrlContent::Image { url, .. } => url.as_str(),
            UrlContent::Text { url, .. } => url.as_str(),
        }
    }

    /// The label put before fetched content in a message:
    /// `Fetched content for "<url>"`.
    pub fn label(&self) -> (s: String)
        ensures
            s@ == "Fetched content for \""@ + (match self {
                UrlContent::Image { url, .. } => url@,
                UrlContent::Text { url, .. } => url@,
            }) + "\""@,
    {
        let mut v = str_chars("Fetched content for \"");
        push_str(&mut v, self.url());
        push_str(&mut v, "\"");
        chars_to_string(&v)
    }
}

#[verifier::external_type_specification]
#[verifier::external_body]
pub struct ExDynamicImage(image::DynamicImage);

#[verifier::external_type_specification]
#[verifier::external_body]
pub struct ExImageError(image::ImageError);

/// Whether `image::load_from_memory` decodes these bytes: a format it
/// recognizes, well formed.
pub uninterp spec fn image_decodes(bytes: Seq<u8>) -> bool;

/// `image::load_from_memory`; the contract claims it succeeds exactly when
/// [`image_decodes`] holds of the bytes. The decoded image is not described.
#[verifier::external_body]
fn decode_image(bytes: &[u8]) -> (r: Result<image::DynamicImage, image::ImageError>)
    ensures
        r is Ok <==> image_decodes(bytes@),
{
    image::load_from_memory(bytes)
}

/// An image fetched for a link: the bytes as they were fetched, and the
/// image they decode to.
pub struct FetchedImage {
    pub bytes: Vec<u8>,
    pub image: image::DynamicImage,
}

/// The bytes, copied into a vector.
fn copy_bytes(bytes: &[u8]) -> (v: Vec<u8>)
    ensures
        v@ == bytes@,
{
    let mut v: Vec<u8> = Vec::new();
    let mut i: usize = 0;
    while i < bytes.len()
        invariant
            i <= bytes@.len(),
            v@ == bytes@.take(i as int),
        decreases bytes@.len() - i,
    {
        v.push(bytes[i]);
        proof {
            assert(bytes@.take(i + 1) =~= bytes@.take(i as int).push(bytes@[i as int]));
        }
        i = i + 1;
    }
    proof {
        assert(bytes@.take(i as int) =~= bytes@);
    }
    v
}

/// Content fetched as an image from `url`: the fetched bytes with the
/// image decoded from them, or the decoder's error when the bytes are no
/// image it reads.
pub fn image_url_content(url: &str, bytes: &[u8]) -> (r: Result<UrlContent<FetchedImage>, image::ImageError>)
    ensures
        r is Ok <==> image_decodes(bytes@),
        r matches Ok(c) ==> (c matches UrlContent::Image { url: u, image: f } && u@ == url@
            && f.bytes@ == bytes@),
{
    match decode_image(bytes) {
        Ok(image) => {
            let u = str_chars(url);
            let kept = copy_bytes(bytes);
            Ok(UrlContent::Image { url: chars_to_string(&u), image: FetchedImage { bytes: kept, image } })
        },
        Err(e) => Err(e),
    }
}

/// What kind of content a response is, by its content type.
#[derive(Debug, PartialEq, Eq)]
pub enum ContentKind {
    Text,
    Image,
    Unsupported,
}

/// Text for `text/..`, an image for `image/..`, otherwise unsupported.
pub fn content_kind(content_type: &str) -> (k: ContentKind)
    ensures
        k == (if starts_with(content_type@, "text/"@) {
            ContentKind::Text
        } else if starts_with(content_type@, "image/"@) {
            ContentKind::Image
        } else {
            ContentKind::Unsupported
        }),
{
    let c = str_chars(content_type);
    let t = str_chars("text/");
    let i = str_chars("image/");
    if starts_with_chars(&c, &t) {
        ContentKind::Text
    } else if starts_with_chars(&c, &i) {
        ContentKind::Image
    } else {
        ContentKind::Unsupported
    }
}

/// Instants as (seconds, nanoseconds) since the Unix epoch, in time order.
pub open spec fn instant_le(a: (i64, u32), b: (i64, u32)) -> bool {
    a.0 < b.0 || (a.0 == b.0 && a.1 <= b.1)
}

/// `r` lists each of `0..n` once.
pub open spec fn is_permutation(r: Seq<usize>, n: nat) -> bool {
    &&& r.len() == n
    &&& r.no_duplicates()
    &&& forall|a: int| 0 <= a < r.len() ==> #[trigger] r[a] < n
}

/// The order in which feed items are kept: by their instants, the earliest
/// first, items with equal instants in the order they came. Returns the
/// items' positions in that order.
pub fn sort_order(keys: &Vec<(i64, u32)>) -> (r: Vec<usize>)
    ensures
        is_permutation(r@, keys@.len()),
        forall|a: int, b: int|
            0 <= a < b < r@.len() ==> instant_le(keys@[r@[a] as int], keys@[r@[b] as int]),
        forall|a: int, b: int|
            0 <= a < b < r@.len() && keys@[r@[a] as int] == keys@[r@[b] as int] ==> r@[a] < r@[b],
{
    let mut r: Vec<usize> = Vec::new();
    let mut i: usize = 0;
    while i < keys.len()
        invariant
            i <= keys@.len(),
            r@.len() == i,
            r@.no_duplicates(),
            forall|a: int| 0 <= a < r@.len() ==> #[trigger] r@[a] < i,
            forall|a: int, b: int|
                0 <= a < b < r@.len() ==> instant_le(keys@[r@[a] as int], keys@[r@[b] as int]),
            forall|a: int, b: int|
                0 <= a < b < r@.len() && keys@[r@[a] as int] == keys@[r@[b] as int] ==> r@[a] < r@[b],
        decreases keys@.len() - i,
    {
        let k = keys[i];
        let mut p: usize = r.len();
        while p > 0 && !instant_le_exec(keys[r[p - 1]], k)
            invariant
                0 <= p <= r@.len(),
                r@.len() == i,
                i < keys@.len(),
                k == keys@[i as int],
                forall|a: int| 0 <= a < r@.len() ==> #[trigger] r@[a] < i,
                forall|a: int| p <= a < r@.len() ==> !instant_le(#[trigger] keys@[r@[a] as int], k),
            decreases p,
        {
            p = p - 1;
        }
        proof {
            assert forall|a: int| 0 <= a < p implies instant_le(#[trigger] keys@[r@[a] as int], k) by {
                if p > 0 {
                    assert(instant_le(keys@[r@[p - 1] as int], k));
                    if a < p - 1 {
                        assert(instant_le(keys@[r@[a] as int], keys@[r@[p - 1] as int]));
                    }
                }
            }
        }
        let ghost before = r@;
        r.insert(p, i);
        proof {
            assert(r@ =~= before.subrange(0, p as int).push(i).add(before.subrange(p as int, before.len() as int)));
            assert forall|a: int| 0 <= a < r@.len() implies #[trigger] r@[a] < i + 1 by {
                if a < p {
                    assert(r@[a] == before[a]);
                } else if a > p {
                    assert(r@[a] == before[a - 1]);
                }
            }
            assert forall|a: int, b: int| 0 <= a < r@.len() && 0 <= b < r@.len() && a != b implies r@[a] != r@[b] by {
                if a != p && b != p {
                    let a0 = if a < p { a } else { a - 1 };
                    let b0 = if b < p { b } else { b - 1 };
                    assert(r@[a] == before[a0]);
                    assert(r@[b] == before[b0]);
                } else if a == p {
                    let b0 = if b < p { b } else { b - 1 };
                    assert(r@[b] == before[b0]);
                } else {
                    let a0 = if a < p { a } else { a - 1 };
                    assert(r@[a] == before[a0]);
                }
            }
            assert forall|a: int, b: int| 0 <= a < b < r@.len() implies instant_le(keys@[r@[a] as int], keys@[r@[b] as int]) && (keys@[r@[a] as int] == keys@[r@[b] as int] ==> r@[a] < r@[b]) by {
                if b < p {
                    assert(r@[a] == before[a] && r@[b] == before[b]);
                } else if b == p {
                    assert(r@[a] == before[a]);
                } else if a == p {
                    assert(r@[b] == before[b - 1]);
                    assert(!instant_le(keys@[before[b - 1] as int], k));
                } else if a < p {
                    assert(r@[a] == before[a] && r@[b] == before[b - 1]);
                } else {
                    assert(r@[a] == before[a - 1] && r@[b] == before[b - 1]);
                }
            }
        }
        i = i + 1;
    }
    r
}

fn instant_le_exec(a: (i64, u32), b: (i64, u32)) -> (r: bool)
    ensures
        r == instant_le(a, b),
{
    a.0 < b.0 || (a.0 == b.0 && a.1 <= b.1)
}

/// When an RFC 2822 date, as `chrono::DateTime::parse_from_rfc2822` reads
/// it, falls: seconds and nanoseconds since the Unix epoch; `None` when it
/// does not parse.
pub uninterp spec fn rfc2822_instant(date: Seq<char>) -> Option<(i64, u32)>;

/// `chrono::DateTime::parse_from_rfc2822`, as an instant; the contract
/// names the result [`rfc2822_instant`].
#[verifier::external_body]
fn parse_rfc2822(date: &str) -> (r: Option<(i64, u32)>)
    ensures
        r == rfc2822_instant(date@),
{
    chrono::DateTime::parse_from_rfc2822(date).ok().map(|t| (t.timestamp(), t.timestamp_subsec_nanos()))
}

/// The instant by which an RSS item is ordered: its publication date, or
/// `fallback` when it has none or it does not parse.
pub fn item_instant(pub_date: Option<&str>, fallback: (i64, u32)) -> (r: (i64, u32))
    ensures
        r == (match pub_date {
            Some(d) => match rfc2822_instant(d@) {
                Some(t) => t,
                None => fallback,
            },
            None => fallback,
        }),
{
    match pub_date {
        Some(d) => match parse_rfc2822(d) {
            Some(t) => t,
            None => fallback,
        },
        None => fallback,
    }
}

/// The message of a feed item: its content (its JSON text, or its title
/// when that cannot be had), then for each fetched content a label and the
/// content itself.
pub open spec fn item_message_view<I>(content: Seq<char>, extras: Seq<UrlContent<I>>) -> Seq<ImageOrTextView<I>>
    decreases extras.len(),
{
    if extras.len() == 0 {
        seq![ImageOrTextView::Text(content)]
    } else {
        let e = extras.last();
        item_message_view(content, extras.drop_last()) + match e {
            UrlContent::Image { url, image } => seq![
                ImageOrTextView::Text("Fetched content for \""@ + url@ + "\""@),
                ImageOrTextView::Image(image),
            ],
            UrlContent::Text { url, text } => seq![
                ImageOrTextView::Text("Fetched content for \""@ + url@ + "\""@),
                ImageOrTextView::Text(text@),
            ],
        }
    }
}

/// A piece of a message, as the spec sees it.
pub enum ImageOrTextView<I> {
    Image(I),
    Text(Seq<char>),
}

pub open spec fn piece_view<I>(p: ImageOrText<I>) -> ImageOrTextView<I> {
    match p {
        ImageOrText::Image(i) => ImageOrTextView::Image(i),
        ImageOrText::Text(t) => ImageOrTextView::Text(t@),
    }
}

pub fn item_message<I>(content: String, extras: Vec<UrlContent<I>>) -> (r: Vec<ImageOrText<I>>)
    ensures
        r@.map_values(|p: ImageOrText<I>| piece_view(p)) == item_message_view(content@, extras@),
{
    let ghost all = extras@;
    let total = extras.len();
    let mut rest = extras;
    let mut queue: Vec<UrlContent<I>> = Vec::new();
    while rest.len() > 0
        invariant
            rest@.len() + queue@.len() == total,
            total == all.len(),
            forall|a: int| 0 <= a < queue@.len() ==> #[trigger] queue@[a] == all[total - 1 - a],
            forall|a: int| 0 <= a < rest@.len() ==> #[trigger] rest@[a] == all[a],
        decreases rest@.len(),
    {
        let e = rest.pop().unwrap();
        queue.push(e);
    }
    let mut out: Vec<ImageOrText<I>> = Vec::new();
    let ghost cv = content@;
    out.push(ImageOrText::Text(content));
    let mut done: usize = 0;
    proof {
        assert(out@.map_values(|p: ImageOrText<I>| piece_view(p)) =~= item_message_view(cv, all.take(0)));
    }
    while queue.len() > 0
        invariant
            total == all.len(),
            queue@.len() + done == total,
            forall|a: int| 0 <= a < queue@.len() ==> #[trigger] queue@[a] == all[total - 1 - a],
            out@.map_values(|p: ImageOrText<I>| piece_view(p)) == item_message_view(cv, all.take(done as int)),
        decreases queue@.len(),
    {
        let e = queue.pop().unwrap();
        proof {
            assert(all.take(done + 1).drop_last() =~= all.take(done as int));
            assert(all.take(done + 1).last() == e);
        }
        let label = e.label();
        let ghost before = out@;
        out.push(ImageOrText::Text(label));
        match e {
            UrlContent::Image { url, image } => {
                out.push(ImageOrText::Image(image));
            },
            UrlContent::Text { url, text } => {
                out.push(ImageOrText::Text(text));
            },
        }
        proof {
            assert(out@.map_values(|p: ImageOrText<I>| piece_view(p)) =~= before.map_values(|p: ImageOrText<I>| piece_view(p)) + (match e {
                UrlContent::Image { url, image } => seq![
                    ImageOrTextView::Text("Fetched content for \""@ + url@ + "\""@),
                    ImageOrTextView::Image(image),
                ],
                UrlContent::Text { url, text } => seq![
                    ImageOrTextView::Text("Fetched content for \""@ + url@ + "\""@),
                    ImageOrTextView::Text(text@),
                ],
            }));
        }
        done = done + 1;
    }
    proof {
        assert(all.take(done as int) =~= all);
    }
    out
}

} // verus!
