//! Chat messages for a model served by Ollama: building one from text and
//! images, and keeping the system prompt at the head of a history.
use vstd::prelude::*;
use base64::Engine;
use crate::source::ImageOrText;
use crate::text::{chars_to_string, decimal, decimal_chars, extend_chars, push_str, str_chars, trim_end, trim_end_chars};

verus! {

/// Who speaks a message.
#[derive(Debug, Clone, Copy, PartialEq, Eq, Structural)]
pub enum Role {
    System,
    User,
    Assistant,
    Tool,
}

/// A chat message: its role, its text, and its images (base64 PNG).
#[derive(Debug)]
pub struct ChatMsg {
    pub role: Role,
    pub content: String,
    pub images: Vec<String>,
}

/// The base64 text (standard alphabet, with padding) of some bytes, as the
/// `base64` crate's `BASE64_STANDARD` engine writes it.
pub uninterp spec fn base64_standard(bytes: Seq<u8>) -> Seq<char>;

/// `BASE64_STANDARD.encode(bytes)`; the contract names the result
/// [`base64_standard`].
#[verifier::external_body]
fn encode_base64(bytes: &Vec<u8>) -> (r: String)
    ensures
        r@ == base64_standard(bytes@),
{
    base64::prelude::BASE64_STANDARD.encode(bytes)
}

/// The text of a message made of pieces (images given as PNG bytes),
/// before trimming: each image as " <image_N/> " (N counting the images
/// from 1), each text followed by a line break.
pub open spec fn pieces_chat_text(pieces: Seq<ImageOrText<Vec<u8>>>) -> Seq<char>
    decreases pieces.len(),
{
    if pieces.len() == 0 {
        Seq::empty()
    } else {
        pieces_chat_text(pieces.drop_last()) + match pieces.last() {
            ImageOrText::Image(_) => " <image_"@ + decimal(image_count(pieces) as nat) + "/> "@,
            ImageOrText::Text(t) => t@ + seq!['\n'],
        }
    }
}

/// How many of the pieces are images.
pub open spec fn image_count(pieces: Seq<ImageOrText<Vec<u8>>>) -> int
    decreases pieces.len(),
{
    if pieces.len() == 0 {
        0
    } else {
        image_count(pieces.drop_last()) + if pieces.last() is Image {
            1int
        } else {
            0int
        }
    }
}

/// The images of the pieces, base64-encoded, in order.
pub open spec fn pieces_chat_images(pieces: Seq<ImageOrText<Vec<u8>>>) -> Seq<Seq<char>>
    decreases pieces.len(),
{
    if pieces.len() == 0 {
        Seq::empty()
    } else {
        pieces_chat_images(pieces.drop_last()) + match pieces.last() {
            ImageOrText::Image(b) => seq![base64_standard(b@)],
            ImageOrText::Text(_) => Seq::empty(),
        }
    }
}

proof fn lemma_image_count(pieces: Seq<ImageOrText<Vec<u8>>>)
    ensures
        0 <= image_count(pieces) <= pieces.len(),
        image_count(pieces) == pieces_chat_images(pieces).len(),
    decreases pieces.len(),
{
    if pieces.len() > 0 {
        lemma_image_count(pieces.drop_last());
    }
}

proof fn lemma_images_prefix(pieces: Seq<ImageOrText<Vec<u8>>>, a: int)
    requires
        0 <= a <= pieces.len(),
    ensures
        pieces_chat_images(pieces.take(a)).len() <= pieces_chat_images(pieces).len(),
        forall|i: int|
            0 <= i < pieces_chat_images(pieces.take(a)).len() ==> #[trigger] pieces_chat_images(
                pieces.take(a),
            )[i] == pieces_chat_images(pieces)[i],
    decreases pieces.len(),
{
    if a == pieces.len() {
        assert(pieces.take(a) =~= pieces);
    } else {
        let init = pieces.drop_last();
        assert(init.take(a) =~= pieces.take(a));
        lemma_images_prefix(init, a);
    }
}

/// The placeholder of an image names the image it stands for: where piece
/// `j` is an image, the text gains " <image_N/> " for it, with N the number
/// of images carried up to and including it, and the N-th image carried is
/// this one. So the placeholders of a message are 1, 2, .. up to the number
/// of its images, in order.
pub proof fn law_placeholder_names_its_image(pieces: Seq<ImageOrText<Vec<u8>>>, j: int)
    requires
        0 <= j < pieces.len(),
        pieces[j] is Image,
    ensures
        ({
            let n = pieces_chat_images(pieces.take(j + 1)).len();
            &&& pieces_chat_text(pieces.take(j + 1)) == pieces_chat_text(pieces.take(j)) + " <image_"@
                + decimal(n) + "/> "@
            &&& n == pieces_chat_images(pieces.take(j)).len() + 1
            &&& 1 <= n <= pieces_chat_images(pieces).len()
            &&& pieces_chat_images(pieces)[n - 1] == base64_standard(pieces[j]->Image_0@)
        }),
{
    let pre = pieces.take(j + 1);
    assert(pre.drop_last() =~= pieces.take(j));
    assert(pre.last() == pieces[j]);
    lemma_image_count(pre);
    lemma_images_prefix(pieces, j + 1);
    let n = pieces_chat_images(pre).len();
    assert(pieces_chat_images(pre)[n - 1] == base64_standard(pieces[j]->Image_0@));
}

/// A message with this role made of the pieces: the text of the pieces
/// with trailing whitespace removed, and the images.
pub fn chat_message_from_shared(content: Vec<ImageOrText<Vec<u8>>>, role: Role) -> (m: ChatMsg)
    ensures
        m.role == role,
        m.content@ == trim_end(pieces_chat_text(content@)),
        m.images@.map_values(|s: String| s@) == pieces_chat_images(content@),
{
    let ghost pieces = content@;
    let mut text: Vec<char> = Vec::new();
    let mut images: Vec<String> = Vec::new();
    let mut i: usize = 0;
    while i < content.len()
        invariant
            pieces == content@,
            i <= content@.len(),
            text@ == pieces_chat_text(pieces.take(i as int)),
            images@.map_values(|s: String| s@) == pieces_chat_images(pieces.take(i as int)),
            images@.len() == image_count(pieces.take(i as int)),
        decreases content@.len() - i,
    {
        proof {
            assert(pieces.take(i + 1).drop_last() =~= pieces.take(i as int));
            lemma_image_count(pieces.take(i as int));
        }
        match &content[i] {
            ImageOrText::Image(bytes) => {
                let encoded = encode_base64(bytes);
                let ghost before = images@;
                images.push(encoded);
                let n = images.len();
                push_str(&mut text, " <image_");
                let d = decimal_chars(n as u64);
                extend_chars(&mut text, &d);
                push_str(&mut text, "/> ");
                proof {
                    assert(images@.map_values(|s: String| s@) =~= before.map_values(|s: String| s@).push(base64_standard(bytes@)));
                }
            },
            ImageOrText::Text(t) => {
                push_str(&mut text, t.as_str());
                text.push('\n');
            },
        }
        proof {
            assert(images@.map_values(|s: String| s@) =~= pieces_chat_images(pieces.take(i + 1)));
            assert(text@ =~= pieces_chat_text(pieces.take(i + 1)));
        }
        i = i + 1;
    }
    proof {
        assert(pieces.take(i as int) =~= pieces);
    }
    let trimmed = trim_end_chars(&text);
    ChatMsg { role, content: chars_to_string(&trimmed), images }
}

/// `DynamicImage::write_to` with `ImageFormat::Png` into a buffer: the
/// image's PNG bytes, or the encoder's error. Nothing is promised of the
/// bytes, as the image is not visible to the library.
#[verifier::external_body]
fn encode_png(image: &image::DynamicImage) -> (r: Result<Vec<u8>, image::ImageError>) {
    let mut buf = std::io::Cursor::new(Vec::new());
    image.write_to(&mut buf, image::ImageFormat::Png).map(|_| buf.into_inner())
}

/// A piece and its encoded form agree: the same text, or an image for an
/// image.
pub open spec fn piece_encoded(p: ImageOrText<image::DynamicImage>, q: ImageOrText<Vec<u8>>) -> bool {
    match (p, q) {
        (ImageOrText::Text(a), ImageOrText::Text(b)) => a@ == b@,
        (ImageOrText::Image(_), ImageOrText::Image(_)) => true,
        _ => false,
    }
}

/// The pieces of a message with each image encoded as PNG, as a message
/// carries them; the encoder's first error where an image cannot be
/// encoded.
pub fn png_pieces(pieces: &Vec<ImageOrText<image::DynamicImage>>) -> (r: Result<
    Vec<ImageOrText<Vec<u8>>>,
    image::ImageError,
>)
    ensures
        r matches Ok(v) ==> v@.len() == pieces@.len() && forall|i: int|
            0 <= i < pieces@.len() ==> piece_encoded(#[trigger] pieces@[i], v@[i]),
        r is Err ==> exists|i: int| 0 <= i < pieces@.len() && #[trigger] pieces@[i] is Image,
{
    let mut out: Vec<ImageOrText<Vec<u8>>> = Vec::new();
    let mut i: usize = 0;
    while i < pieces.len()
        invariant
            i <= pieces@.len(),
            out@.len() == i,
            forall|j: int| 0 <= j < i ==> piece_encoded(#[trigger] pieces@[j], out@[j]),
        decreases pieces@.len() - i,
    {
        match &pieces[i] {
            ImageOrText::Image(im) => {
                let bytes = match encode_png(im) {
                    Ok(b) => b,
                    Err(e) => {
                        assert(pieces@[i as int] is Image);
                        return Err(e);
                    },
                };
                out.push(ImageOrText::Image(bytes));
            },
            ImageOrText::Text(t) => {
                let c = str_chars(t.as_str());
                out.push(ImageOrText::Text(chars_to_string(&c)));
            },
        }
        i = i + 1;
    }
    Ok(out)
}

/// The system prompt of a history: the first message's text when it is a
/// system message.
pub open spec fn spec_system_prompt(h: Seq<ChatMsg>) -> Option<Seq<char>> {
    if h.len() > 0 && h[0].role == Role::System {
        Some(h[0].content@)
    } else {
        None
    }
}

pub fn system_prompt(history: &Vec<ChatMsg>) -> (r: Option<&str>)
    ensures
        match r {
            Some(s) => spec_system_prompt(history@) == Some(s@),
            None => spec_system_prompt(history@) is None,
        },
{
    if history.len() > 0 && history[0].role == Role::System {
        Some(history[0].content.as_str())
    } else {
        None
    }
}

/// Sets the system prompt: the first message's text when it is a system
/// message, otherwise a new system message in front.
pub fn update_system_prompt(history: &mut Vec<ChatMsg>, content: String)
    ensures
        old(history)@.len() > 0 && old(history)@[0].role == Role::System ==> final(history)@.len()
            == old(history)@.len() && final(history)@[0].role == Role::System && final(history)@[0].content
            == content && final(history)@[0].images == old(history)@[0].images && final(history)@.skip(1)
            == old(history)@.skip(1),
        !(old(history)@.len() > 0 && old(history)@[0].role == Role::System) ==> final(history)@[0].role
            == Role::System && final(history)@[0].content == content && final(history)@[0].images@.len() == 0
            && final(history)@.skip(1) == old(history)@,
        spec_system_prompt(final(history)@) == Some(content@),
{
    if history.len() > 0 && history[0].role == Role::System {
        let mut first = history.remove(0);
        first.content = content;
        history.insert(0, first);
        assert(history@.skip(1) =~= old(history)@.skip(1));
    } else {
        history.insert(0, ChatMsg { role: Role::System, content, images: Vec::new() });
        assert(history@.skip(1) =~= old(history)@);
    }
}

/// A chat history that knows its system prompt.
pub trait SystemPromptAwareChatHistory {
    /// Sets the system prompt.
    fn update_system_prompt(&mut self, content: String);

    /// The system prompt, if there is one.
    fn system_prompt(&self) -> Option<&str>;
}

impl SystemPromptAwareChatHistory for Vec<ChatMsg> {
    /// As [`update_system_prompt`]: the first message's text when it is a
    /// system message, otherwise a new system message in front.
    fn update_system_prompt(&mut self, content: String)
        ensures
            spec_system_prompt(final(self)@) == Some(content@),
            old(self)@.len() > 0 && old(self)@[0].role == Role::System ==> final(self)@.skip(1)
                == old(self)@.skip(1),
            !(old(self)@.len() > 0 && old(self)@[0].role == Role::System) ==> final(self)@.skip(1)
                == old(self)@,
    {
        crate::chat::update_system_prompt(self, content)
    }

    /// As [`system_prompt`]: the first message's text when it is a system
    /// message.
    fn system_prompt(&self) -> (r: Option<&str>)
        ensures
            match r {
                Some(s) => spec_system_prompt(self@) == Some(s@),
                None => spec_system_prompt(self@) is None,
            },
    {
        crate::chat::system_prompt(self)
    }
}

/// Puts an earlier exchange (a question and its answer) at the head of a
/// history.
pub fn prepend_exchange(history: &mut Vec<ChatMsg>, question: ChatMsg, answer: ChatMsg)
    ensures
        final(history)@ == seq![question, answer] + old(history)@,
{
    history.insert(0, answer);
    history.insert(0, question);
    assert(history@ =~= seq![question, answer] + old(history)@);
}

/// Setting the system prompt twice keeps only the second, and the rest of
/// the history.
pub proof fn law_system_prompt_last_wins(h: Seq<ChatMsg>, a: ChatMsg, b: ChatMsg)
    requires
        a.role == Role::System,
        b.role == Role::System,
    ensures
        spec_system_prompt(seq![b] + (seq![a] + h).skip(1)) == Some(b.content@),
        (seq![b] + (seq![a] + h).skip(1)).skip(1) == h,
{
    assert((seq![a] + h).skip(1) =~= h);
    assert((seq![b] + h).skip(1) =~= h);
}

} // verus!
