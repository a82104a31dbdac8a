//! Multi-turn dialogs and the parsing of tagged sections (such as a
//! model's reasoning) out of a response.
use vstd::prelude::*;
use crate::text::{
    chars_to_string, extend_chars, split_once, split_once_chars, str_chars, trim, trim_chars, trim_end,
    trim_end_chars, trim_start, trim_start_chars,
};

verus! {

/// Meaning of [`tag`]: split `res` at the first `end`; if the part before it
/// holds `start`, the tagged section is what lies between the two and the
/// rest is the text around them joined by a newline; otherwise everything
/// before `end` is the tagged section. Returns `(rest, tagged)`.
pub open spec fn spec_tag(res: Seq<char>, start: Seq<char>, end: Seq<char>) -> Option<
    (Seq<char>, Seq<char>),
> {
    match split_once(res, end) {
        None => None,
        Some((left, right)) => match split_once(left, start) {
            None => Some((trim_start(right), trim(left))),
            Some((lleft, lright)) => Some(
                (trim(trim_end(lleft) + seq!['\n'] + trim_start(right)), trim(lright)),
            ),
        },
    }
}

/// Splits a tagged section out of `res`: `Some((rest, tagged))`, or `None`
/// when `end_tag` does not occur.
pub fn tag(res: &str, start_tag: &str, end_tag: &str) -> (out: Option<(String, String)>)
    ensures
        out is None <==> spec_tag(res@, start_tag@, end_tag@) is None,
        out matches Some((rest, tagged)) ==> spec_tag(res@, start_tag@, end_tag@) == Some(
            (rest@, tagged@),
        ),
{
    let r = str_chars(res);
    let st = str_chars(start_tag);
    let en = str_chars(end_tag);
    let (left, right) = match split_once_chars(&r, &en) {
        Some(parts) => parts,
        None => return None,
    };
    match split_once_chars(&left, &st) {
        None => {
            let rest = trim_start_chars(&right);
            let tagged = trim_chars(&left);
            Some((chars_to_string(&rest), chars_to_string(&tagged)))
        },
        Some((lleft, lright)) => {
            let mut joined = trim_end_chars(&lleft);
            joined.push('\n');
            let right_trimmed = trim_start_chars(&right);
            extend_chars(&mut joined, &right_trimmed);
            assert(joined@ =~= trim_end(lleft@) + seq!['\n'] + trim_start(right@));
            let rest = trim_chars(&joined);
            let tagged = trim_chars(&lright);
            Some((chars_to_string(&rest), chars_to_string(&tagged)))
        },
    }
}

/// The turns of a dialog together with the history a model keeps of it.
pub struct MultiTurnDialog<Turn, History> {
    turns: Vec<Turn>,
    history: History,
}

impl<Turn, History> MultiTurnDialog<Turn, History> {
    pub closed spec fn spec_turns(self) -> Seq<Turn> {
        self.turns@
    }

    pub closed spec fn spec_history(self) -> History {
        self.history
    }
}

impl<Turn, History: Default> MultiTurnDialog<Turn, History> {
    /// A dialog with no turns and the default history: the value that
    /// `History::default()` returns.
    pub fn new() -> (d: Self)
        ensures
            d.spec_turns().len() == 0,
            call_ensures(History::default, (), d.spec_history()),
    {
        MultiTurnDialog { turns: Vec::new(), history: History::default() }
    }
}

impl<Turn, History> MultiTurnDialog<Turn, History> {
    pub fn turns(&self) -> (t: &[Turn])
        ensures
            t@ == self.spec_turns(),
    {
        self.turns.as_slice()
    }

    pub fn history(&self) -> (h: &History)
        ensures
            *h == self.spec_history(),
    {
        &self.history
    }

    /// Records a request turn and the response turn that answered it.
    pub fn push_exchange(&mut self, request: Turn, response: Turn)
        ensures
            final(self).spec_turns() == old(self).spec_turns().push(request).push(response),
            final(self).spec_history() == old(self).spec_history(),
    {
        self.turns.push(request);
        self.turns.push(response);
    }

    pub fn history_mut(&mut self) -> (h: &mut History)
        ensures
            *h == old(self).spec_history(),
            final(self).spec_turns() == old(self).spec_turns(),
            final(self).spec_history() == *final(h),
    {
        &mut self.history
    }
}

} // verus!
