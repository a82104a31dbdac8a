//! The optimizer's actions, and the rules its tools follow in a dialog with
//! the model: a setting may only be changed after it was read, every change
//! waits for the user's approval, and the dialog ends once something was
//! changed with no refusal left unresolved, or when the model gives up.
use vstd::prelude::*;
use crate::text::{
    chars_to_string, contains, contains_exec, decimal, decimal_chars, extend_chars, join,
    join_chars, lowercase, push_str, str_chars, to_lowercase,
};

verus! {

/// The user's answer to a proposed action.
#[derive(Debug, PartialEq, Eq)]
pub enum ApproveOrDeny {
    Approve,
    Deny { reason: Option<String> },
}

/// New scheduling parameters; `None` leaves a parameter as it is.
#[derive(Debug)]
pub struct ScheduleParamters {
    pub interval_mins: Option<u32>,
    pub buffer_size: Option<usize>,
}

/// An action the optimizer proposes.
#[derive(Debug)]
pub enum BasicOptimizerAction {
    /// Remember these notes for later judgements.
    ContextPrefill(Vec<String>),
    /// Change how the feed is polled.
    Schedule(ScheduleParamters),
}

/// A basic action, or one of a tool that the user added.
#[derive(Debug)]
pub enum OptimizerAction<Extra> {
    Basic(BasicOptimizerAction),
    Extra(Extra),
}

/// The outcome of a tool call, as the model is told of it.
#[derive(Debug)]
pub enum ToolResult {
    Success(String),
    Failure(String),
    Rejected { reason: Option<String> },
}

/// Why a tool could not answer at all.
#[derive(Debug)]
pub enum ToolHandlerError {
    /// The user went away before answering.
    ChannelClosed,
    /// Asking the user for a clarification failed, with this message.
    ClarificationRequest(String),
}

/// What a tool is about: the three built-in settings, or a tool that the
/// user added, by its number.
#[derive(Debug, Clone, Copy, PartialEq, Eq, Structural)]
pub enum ToolcallKind {
    Criteria,
    PollingInterval,
    BufferSize,
    Extra(u64),
}

/// The text of scheduling parameters, as the user is shown it.
pub open spec fn spec_schedule_text(p: ScheduleParamters) -> Seq<char> {
    let first = match p.interval_mins {
        Some(n) => decimal(n as nat) + " minutes apart"@,
        None => Seq::<char>::empty(),
    };
    let comma = if p.interval_mins is Some && p.buffer_size is Some {
        ", and "@
    } else {
        Seq::<char>::empty()
    };
    let second = match p.buffer_size {
        Some(b) => "allow at most "@ + decimal(b as nat) + " staged posts"@,
        None => Seq::<char>::empty(),
    };
    first + comma + second
}

impl ScheduleParamters {
    /// The parameters in words, e.g. "30 minutes apart, and allow at most 5
    /// staged posts".
    pub fn to_string(&self) -> (s: String)
        ensures
            s@ == spec_schedule_text(*self),
    {
        let mut v: Vec<char> = Vec::new();
        if let Some(n) = self.interval_mins {
            let d = decimal_chars(n as u64);
            extend_chars(&mut v, &d);
            push_str(&mut v, " minutes apart");
        }
        if let Some(b) = self.buffer_size {
            if self.interval_mins.is_some() {
                push_str(&mut v, ", and ");
            }
            push_str(&mut v, "allow at most ");
            let d = decimal_chars(b as u64);
            extend_chars(&mut v, &d);
            push_str(&mut v, " staged posts");
        }
        proof {
            assert(v@ =~= spec_schedule_text(*self));
        }
        chars_to_string(&v)
    }
}

/// What the model is told of a tool's outcome.
pub open spec fn spec_tool_result_text(r: ToolResult) -> Seq<char> {
    match r {
        ToolResult::Success(s) => "success: "@ + s@,
        ToolResult::Failure(e) => "failure: "@ + e@,
        ToolResult::Rejected { reason } => match reason {
            Some(x) => "rejected: "@ + x@,
            None => "the user actively rejected your request"@,
        },
    }
}

impl ToolResult {
    /// The outcome in words: "success: ..", "failure: ..", "rejected: .."
    /// or, for a rejection without a reason, a sentence saying so.
    pub fn to_string(&self) -> (s: String)
        ensures
            s@ == spec_tool_result_text(*self),
    {
        let mut v: Vec<char> = Vec::new();
        match self {
            ToolResult::Success(s) => {
                push_str(&mut v, "success: ");
                push_str(&mut v, s.as_str());
            },
            ToolResult::Failure(e) => {
                push_str(&mut v, "failure: ");
                push_str(&mut v, e.as_str());
            },
            ToolResult::Rejected { reason } => match reason {
                Some(x) => {
                    push_str(&mut v, "rejected: ");
                    push_str(&mut v, x.as_str());
                },
                None => {
                    push_str(&mut v, "the user actively rejected your request");
                },
            },
        }
        chars_to_string(&v)
    }

    /// A success with the value's text, or a failure with the error's.
    pub fn from_outcome(r: Result<String, String>) -> (t: ToolResult)
        ensures
            t == (match r {
                Ok(s) => ToolResult::Success(s),
                Err(e) => ToolResult::Failure(e),
            }),
    {
        match r {
            Ok(s) => ToolResult::Success(s),
            Err(e) => ToolResult::Failure(e),
        }
    }
}

/// Turning an answer into a tool's outcome.
pub trait ToToolResult: Sized {
    type Success;

    /// On success, the text that `ok` makes of the success value.
    fn map_ok<F: FnOnce(Self::Success) -> String>(self, ok: F) -> ToolResult
        requires
            forall|x: Self::Success| call_requires(ok, (x,)),
    ;
}

impl ToToolResult for ApproveOrDeny {
    type Success = ();

    /// An approval becomes a success with the text `ok` gives; a denial a
    /// rejection with the same reason.
    fn map_ok<F: FnOnce(()) -> String>(self, ok: F) -> (t: ToolResult)
        ensures
            self is Approve ==> exists|s: String|
                call_ensures(ok, ((),), s) && t == ToolResult::Success(s),
            self matches ApproveOrDeny::Deny { reason } ==> t == (ToolResult::Rejected { reason }),
    {
        match self {
            ApproveOrDeny::Approve => {
                let s = ok(());
                ToolResult::Success(s)
            },
            ApproveOrDeny::Deny { reason } => ToolResult::Rejected { reason },
        }
    }
}

/// What the model is told when the user turned a proposal down.
pub open spec fn spec_reject_message(reason: Option<String>) -> Seq<char> {
    match reason {
        Some(r) => "user rejected, reason: "@ + r@,
        None => "the user actively rejected your request"@,
    }
}

/// The reply to a proposal the user turned down.
pub fn reject_message(reason: Option<String>) -> (s: String)
    ensures
        s@ == spec_reject_message(reason),
{
    let mut v: Vec<char> = Vec::new();
    match reason {
        Some(r) => {
            push_str(&mut v, "user rejected, reason: ");
            push_str(&mut v, r.as_str());
        },
        None => {
            push_str(&mut v, "the user actively rejected your request");
        },
    }
    chars_to_string(&v)
}

/// A set of tool kinds, kept as a list without repetitions.
pub struct KindSet {
    items: Vec<ToolcallKind>,
}

impl KindSet {
    #[verifier::type_invariant]
    spec fn inv(self) -> bool {
        self.items@.no_duplicates()
    }

    pub closed spec fn spec_set(self) -> Set<ToolcallKind> {
        self.items@.to_set()
    }

    /// The empty set.
    pub fn new() -> (s: Self)
        ensures
            s.spec_set() == Set::<ToolcallKind>::empty(),
    {
        let s = KindSet { items: Vec::new() };
        assert(s.spec_set() =~= Set::<ToolcallKind>::empty());
        s
    }

    /// Where `k` stands in the list, if it is there.
    fn position(&self, k: ToolcallKind) -> (r: Option<usize>)
        ensures
            r matches Some(i) ==> i < self.items@.len() && self.items@[i as int] == k,
            r is None ==> !self.items@.contains(k),
    {
        let mut i: usize = 0;
        while i < self.items.len()
            invariant
                i <= self.items@.len(),
                forall|j: int| 0 <= j < i ==> self.items@[j] != k,
            decreases self.items@.len() - i,
        {
            if self.items[i] == k {
                return Some(i);
            }
            i = i + 1;
        }
        None
    }

    /// Whether `k` is in the set.
    pub fn contains(&self, k: ToolcallKind) -> (b: bool)
        ensures
            b == self.spec_set().contains(k),
    {
        self.position(k).is_some()
    }

    /// Adds `k`.
    pub fn insert(&mut self, k: ToolcallKind)
        ensures
            final(self).spec_set() == old(self).spec_set().insert(k),
    {
        proof {
            use_type_invariant(&*self);
        }
        if self.position(k).is_none() {
            let mut v: Vec<ToolcallKind> = Vec::new();
            std::mem::swap(&mut v, &mut self.items);
            let ghost before = v@;
            v.push(k);
            proof {
                assert forall|x: ToolcallKind| #[trigger] v@.contains(x) == before.to_set().insert(k).contains(x) by {
                    if before.contains(x) {
                        let j = choose|j: int| 0 <= j < before.len() && before[j] == x;
                        assert(v@[j] == x);
                    }
                    if v@.contains(x) && x != k {
                        let j = choose|j: int| 0 <= j < v@.len() && v@[j] == x;
                        assert(before[j] == x);
                    }
                    if x == k {
                        assert(v@[v@.len() - 1] == k);
                    }
                }
                assert(v@.to_set() =~= before.to_set().insert(k));
            }
            self.items = v;
        } else {
            assert(self.spec_set() =~= old(self).spec_set().insert(k));
        }
    }

    /// Removes `k`.
    pub fn remove(&mut self, k: ToolcallKind)
        ensures
            final(self).spec_set() == old(self).spec_set().remove(k),
    {
        proof {
            use_type_invariant(&*self);
        }
        match self.position(k) {
            None => {
                assert(self.spec_set() =~= old(self).spec_set().remove(k));
            },
            Some(i) => {
                let mut v: Vec<ToolcallKind> = Vec::new();
                std::mem::swap(&mut v, &mut self.items);
                let ghost before = v@;
                v.remove(i);
                proof {
                    assert forall|x: ToolcallKind| #[trigger] v@.contains(x) == before.to_set().remove(k).contains(x) by {
                        if v@.contains(x) {
                            let j = choose|j: int| 0 <= j < v@.len() && v@[j] == x;
                            if j < i {
                                assert(before[j] == x);
                            } else {
                                assert(before[j + 1] == x);
                            }
                        }
                        if before.contains(x) && x != k {
                            let j = choose|j: int| 0 <= j < before.len() && before[j] == x;
                            if j < i {
                                assert(v@[j] == x);
                            } else {
                                assert(v@[j - 1] == x);
                            }
                        }
                    }
                    assert(v@.to_set() =~= before.to_set().remove(k));
                }
                self.items = v;
            },
        }
    }

    /// The number of kinds in the set.
    pub fn len(&self) -> (n: usize)
        ensures
            n == self.spec_set().len(),
            self.spec_set().finite(),
    {
        proof {
            use_type_invariant(self);
            self.items@.unique_seq_to_set();
            vstd::seq_lib::seq_to_set_is_finite(self.items@);
        }
        self.items.len()
    }
}

/// The optimizer's record of a dialog: which settings the model has read,
/// which changes were refused for want of reading first (and not resolved
/// since), and how many actions went through.
pub struct ToolState {
    checked: KindSet,
    rejected: KindSet,
    actions_count: u32,
}

/// The record as sets and a count.
pub struct ToolStateView {
    pub checked: Set<ToolcallKind>,
    pub rejected: Set<ToolcallKind>,
    pub actions: nat,
}

/// What comes of asking to change a setting.
#[derive(Debug)]
pub enum ChangeRequest {
    /// Ask the user to approve this action.
    Propose(BasicOptimizerAction),
    /// Tell the model this instead: the change was refused.
    Refuse(String),
}

/// What to do once the user answered a proposal.
#[derive(Debug, PartialEq, Eq)]
pub enum ReplyStep {
    /// Carry the change out.
    Apply,
    /// Tell the model this.
    Respond(String),
}

/// How a tool that the user added is gated: whether it changes something,
/// and which tool (by number and name) must have been used before it.
pub struct ExtraToolInfo {
    pub is_action: bool,
    pub retriever: Option<(u64, String)>,
}

/// The next step of the optimization dialog.
#[derive(Debug, PartialEq, Eq)]
pub enum LoopStep {
    Finish,
    Prompt(String),
}

/// The kind that a retrieving tool's name stands for.
pub open spec fn retrieval_kind(name: Seq<char>) -> Option<ToolcallKind> {
    if name == "get_polling_interval"@ {
        Some(ToolcallKind::PollingInterval)
    } else if name == "get_buffer_size"@ {
        Some(ToolcallKind::BufferSize)
    } else if name == "get_criteria"@ {
        Some(ToolcallKind::Criteria)
    } else {
        None
    }
}

/// Reading a setting marks it read and resolves an earlier refusal.
pub open spec fn spec_on_retrieve(v: ToolStateView, k: ToolcallKind) -> ToolStateView {
    ToolStateView { checked: v.checked.insert(k), rejected: v.rejected.remove(k), actions: v.actions }
}

/// A change of `k` goes ahead only when `k` was read; otherwise it is
/// refused and the refusal recorded. Returns the new record and whether the
/// change may go ahead.
pub open spec fn spec_gate(v: ToolStateView, k: ToolcallKind) -> (ToolStateView, bool) {
    if v.checked.contains(k) {
        (v, true)
    } else {
        (ToolStateView { checked: v.checked, rejected: v.rejected.insert(k), actions: v.actions }, false)
    }
}

/// Adding a note is allowed without reading when there are no notes yet
/// (that counts as having read them).
pub open spec fn spec_criteria_gate(v: ToolStateView, empty: bool) -> (ToolStateView, bool) {
    if empty {
        (
            ToolStateView {
                checked: v.checked.insert(ToolcallKind::Criteria),
                rejected: v.rejected,
                actions: v.actions,
            },
            true,
        )
    } else {
        spec_gate(v, ToolcallKind::Criteria)
    }
}

/// One more action went through.
pub open spec fn spec_count_action(v: ToolStateView) -> ToolStateView {
    ToolStateView { checked: v.checked, rejected: v.rejected, actions: v.actions + 1 }
}

pub open spec fn refusal_text(setting: Seq<char>, tool: Seq<char>) -> Seq<char> {
    "failure: you must check the "@ + setting + " before changing it. please use the `"@ + tool
        + "` tool first"@
}

/// Whether a response gives up: it says "give up", in any case.
pub open spec fn gives_up(response: Seq<char>) -> bool {
    contains(lowercase(response), "give up"@)
}

/// The prompt that asks the model to resolve `n` refusals.
pub open spec fn errors_prompt(n: nat) -> Seq<char> {
    "System: there "@ + (if n == 1 {
        "is"@
    } else {
        "are"@
    }) + " "@ + decimal(n) + " error"@ + (if n == 1 {
        Seq::<char>::empty()
    } else {
        "s"@
    })
        + " to be resolved. Presumably you did not finish your tasks well. Please try again. However, if this is intentional, respond with `give up`"@
}

pub open spec fn no_action_prompt() -> Seq<char> {
    "System: though there're no errors, you have effectively taken no actions (no settings changed). Please try again. If intentional, respond with `give up`. If confused, use `request_clarification` for human intervension"@
}

/// After a response without tool calls: finish when something was changed
/// and no refusal is left, or when the model gave up (`None`); otherwise
/// the prompt to send next.
pub open spec fn spec_next_step(v: ToolStateView, response: Seq<char>) -> Option<Seq<char>> {
    if (v.rejected.len() == 0 && v.actions > 0) || gives_up(response) {
        None
    } else if v.rejected.len() > 0 {
        Some(errors_prompt(v.rejected.len()))
    } else {
        Some(no_action_prompt())
    }
}

impl View for ToolState {
    type V = ToolStateView;

    open spec fn view(&self) -> ToolStateView {
        ToolStateView {
            checked: self.spec_checked(),
            rejected: self.spec_rejected(),
            actions: self.spec_actions() as nat,
        }
    }
}

impl ToolState {
    pub closed spec fn spec_checked(&self) -> Set<ToolcallKind> {
        self.checked.spec_set()
    }

    pub closed spec fn spec_rejected(&self) -> Set<ToolcallKind> {
        self.rejected.spec_set()
    }

    pub closed spec fn spec_actions(&self) -> u32 {
        self.actions_count
    }

    /// How many actions went through.
    pub fn actions_count(&self) -> (n: u32)
        ensures
            n == self@.actions,
    {
        self.actions_count
    }

    /// Nothing read, refused or done yet.
    pub fn new() -> (s: Self)
        ensures
            s@.checked == Set::<ToolcallKind>::empty(),
            s@.rejected == Set::<ToolcallKind>::empty(),
            s@.actions == 0,
    {
        ToolState { checked: KindSet::new(), rejected: KindSet::new(), actions_count: 0 }
    }

    /// The record at the start of a dialog that already called the tools
    /// named in `names`: the settings they read count as read.
    pub fn from_tool_history(names: &Vec<String>) -> (s: Self)
        ensures
            forall|k: ToolcallKind| #[trigger]
                s@.checked.contains(k) <==> exists|i: int|
                    0 <= i < names@.len() && retrieval_kind(names@[i]@) == Some(k),
            s@.rejected == Set::<ToolcallKind>::empty(),
            s@.actions == 0,
    {
        let mut st = ToolState::new();
        let mut i: usize = 0;
        while i < names.len()
            invariant
                i <= names@.len(),
                forall|k: ToolcallKind| #[trigger]
                    st@.checked.contains(k) <==> exists|j: int|
                        0 <= j < i && retrieval_kind(names@[j]@) == Some(k),
                st@.rejected == Set::<ToolcallKind>::empty(),
                st@.actions == 0,
            decreases names@.len() - i,
        {
            let kind = Self::kind_of_name(names[i].as_str());
            let ghost before = st@.checked;
            if let Some(k) = kind {
                st.checked.insert(k);
            }
            proof {
                assert forall|k: ToolcallKind| #[trigger]
                    st@.checked.contains(k) <==> exists|j: int|
                        0 <= j < i + 1 && retrieval_kind(names@[j]@) == Some(k) by {
                    if exists|j: int| 0 <= j < i + 1 && retrieval_kind(names@[j]@) == Some(k) {
                        let j = choose|j: int| 0 <= j < i + 1 && retrieval_kind(names@[j]@) == Some(k);
                        if j < i {
                            assert(before.contains(k));
                        } else {
                            assert(kind == Some(k));
                        }
                    }
                    if st@.checked.contains(k) {
                        if kind != Some(k) {
                            assert(before.contains(k));
                            let j = choose|j: int| 0 <= j < i && retrieval_kind(names@[j]@) == Some(k);
                            assert(0 <= j < i + 1 && retrieval_kind(names@[j]@) == Some(k));
                        } else {
                            assert(retrieval_kind(names@[i as int]@) == Some(k));
                        }
                    }
                }
            }
            i = i + 1;
        }
        st
    }

    fn kind_of_name(name: &str) -> (k: Option<ToolcallKind>)
        ensures
            k == retrieval_kind(name@),
    {
        if crate::text::str_eq(name, "get_polling_interval") {
            Some(ToolcallKind::PollingInterval)
        } else if crate::text::str_eq(name, "get_buffer_size") {
            Some(ToolcallKind::BufferSize)
        } else if crate::text::str_eq(name, "get_criteria") {
            Some(ToolcallKind::Criteria)
        } else {
            None
        }
    }

    /// The model read setting `k` (`get_polling_interval`, `get_buffer_size`,
    /// `get_criteria`).
    pub fn on_retrieve(&mut self, k: ToolcallKind)
        ensures
            final(self)@ == spec_on_retrieve(old(self)@, k),
    {
        self.checked.insert(k);
        self.rejected.remove(k);
    }

    /// Gates a change of `k`, recording a refusal.
    fn gate(&mut self, k: ToolcallKind) -> (ok: bool)
        ensures
            (final(self)@, ok) == spec_gate(old(self)@, k),
    {
        if self.checked.contains(k) {
            true
        } else {
            self.rejected.insert(k);
            false
        }
    }

    /// The model asks to poll every `new_value` minutes
    /// (`set_polling_interval`). Refused unless the interval was read.
    pub fn request_interval(&mut self, new_value: u32) -> (r: ChangeRequest)
        ensures
            final(self)@ == spec_gate(old(self)@, ToolcallKind::PollingInterval).0,
            spec_gate(old(self)@, ToolcallKind::PollingInterval).1 ==> r == ChangeRequest::Propose(
                BasicOptimizerAction::Schedule(
                    ScheduleParamters { interval_mins: Some(new_value), buffer_size: None },
                ),
            ),
            !spec_gate(old(self)@, ToolcallKind::PollingInterval).1 ==> (r matches ChangeRequest::Refuse(m)
                && m@ == refusal_text("polling interval"@, "get_polling_interval"@)),
    {
        if self.gate(ToolcallKind::PollingInterval) {
            ChangeRequest::Propose(
                BasicOptimizerAction::Schedule(
                    ScheduleParamters { interval_mins: Some(new_value), buffer_size: None },
                ),
            )
        } else {
            ChangeRequest::Refuse(Self::refusal("polling interval", "get_polling_interval"))
        }
    }

    /// The model asks to stage at most `new_value` updates
    /// (`set_buffer_size`). Refused unless the buffer size was read.
    pub fn request_buffer_size(&mut self, new_value: u32) -> (r: ChangeRequest)
        ensures
            final(self)@ == spec_gate(old(self)@, ToolcallKind::BufferSize).0,
            spec_gate(old(self)@, ToolcallKind::BufferSize).1 ==> r == ChangeRequest::Propose(
                BasicOptimizerAction::Schedule(
                    ScheduleParamters { interval_mins: None, buffer_size: Some(new_value as usize) },
                ),
            ),
            !spec_gate(old(self)@, ToolcallKind::BufferSize).1 ==> (r matches ChangeRequest::Refuse(m)
                && m@ == refusal_text("buffer size"@, "get_buffer_size"@)),
    {
        if self.gate(ToolcallKind::BufferSize) {
            ChangeRequest::Propose(
                BasicOptimizerAction::Schedule(
                    ScheduleParamters { interval_mins: None, buffer_size: Some(new_value as usize) },
                ),
            )
        } else {
            ChangeRequest::Refuse(Self::refusal("buffer size", "get_buffer_size"))
        }
    }

    /// The model asks to remember `content` (`add_criteria`); `empty` tells
    /// whether no notes are kept yet. Refused unless the notes were read or
    /// there are none.
    pub fn request_criterion(&mut self, empty: bool, content: String) -> (r: ChangeRequest)
        ensures
            final(self)@ == spec_criteria_gate(old(self)@, empty).0,
            spec_criteria_gate(old(self)@, empty).1 ==> (r matches ChangeRequest::Propose(
                BasicOptimizerAction::ContextPrefill(notes),
            ) && notes@ == seq![content]),
            !spec_criteria_gate(old(self)@, empty).1 ==> (r matches ChangeRequest::Refuse(m)
                && m@ == refusal_text("criteria list"@, "get_criteria"@)),
    {
        let ok = if empty {
            self.checked.insert(ToolcallKind::Criteria);
            true
        } else {
            self.gate(ToolcallKind::Criteria)
        };
        if ok {
            let mut notes: Vec<String> = Vec::new();
            notes.push(content);
            ChangeRequest::Propose(BasicOptimizerAction::ContextPrefill(notes))
        } else {
            ChangeRequest::Refuse(Self::refusal("criteria list", "get_criteria"))
        }
    }

    fn refusal(setting: &str, tool: &str) -> (m: String)
        ensures
            m@ == refusal_text(setting@, tool@),
    {
        let mut v: Vec<char> = Vec::new();
        push_str(&mut v, "failure: you must check the ");
        push_str(&mut v, setting);
        push_str(&mut v, " before changing it. please use the `");
        push_str(&mut v, tool);
        push_str(&mut v, "` tool first");
        chars_to_string(&v)
    }

    /// The user's answer to a proposed change of a schedule setting
    /// (`None`: the user went away). An approval counts as an action.
    pub fn on_setting_reply(&mut self, reply: Option<ApproveOrDeny>) -> (r: Result<
        ReplyStep,
        ToolHandlerError,
    >)
        requires
            old(self)@.actions < u32::MAX,
        ensures
            reply is None ==> (r matches Err(ToolHandlerError::ChannelClosed) && final(self)@ == old(self)@),
            reply == Some(ApproveOrDeny::Approve) ==> r == Ok::<ReplyStep, ToolHandlerError>(
                ReplyStep::Apply,
            ) && final(self)@ == spec_count_action(old(self)@),
            reply matches Some(ApproveOrDeny::Deny { reason }) ==> (r matches Ok(ReplyStep::Respond(m))
                && m@ == spec_reject_message(reason) && final(self)@ == old(self)@),
    {
        match reply {
            None => Err(ToolHandlerError::ChannelClosed),
            Some(ApproveOrDeny::Approve) => {
                self.actions_count = self.actions_count + 1;
                Ok(ReplyStep::Apply)
            },
            Some(ApproveOrDeny::Deny { reason }) => Ok(ReplyStep::Respond(reject_message(reason))),
        }
    }

    /// The user's answer to a proposed note. The action is counted only once
    /// the note was stored (see [`ToolState::on_criterion_stored`]).
    pub fn on_criterion_reply(&self, reply: Option<ApproveOrDeny>) -> (r: Result<
        ReplyStep,
        ToolHandlerError,
    >)
        ensures
            reply is None ==> r matches Err(ToolHandlerError::ChannelClosed),
            reply == Some(ApproveOrDeny::Approve) ==> r == Ok::<ReplyStep, ToolHandlerError>(
                ReplyStep::Apply,
            ),
            reply matches Some(ApproveOrDeny::Deny { reason }) ==> (r matches Ok(ReplyStep::Respond(m))
                && m@ == spec_reject_message(reason)),
    {
        match reply {
            None => Err(ToolHandlerError::ChannelClosed),
            Some(ApproveOrDeny::Approve) => Ok(ReplyStep::Apply),
            Some(ApproveOrDeny::Deny { reason }) => Ok(ReplyStep::Respond(reject_message(reason))),
        }
    }

    /// Storing an approved note ended with `outcome` (the error's text on
    /// failure); a stored note counts as an action.
    pub fn on_criterion_stored(&mut self, outcome: Result<(), String>) -> (m: String)
        requires
            old(self)@.actions < u32::MAX,
        ensures
            outcome is Ok ==> m@ == "criterion added"@ && final(self)@ == spec_count_action(old(self)@),
            outcome matches Err(e) ==> m@ == "failure: "@ + e@ && final(self)@ == old(self)@,
    {
        match outcome {
            Ok(()) => {
                self.actions_count = self.actions_count + 1;
                let v = str_chars("criterion added");
                chars_to_string(&v)
            },
            Err(e) => ToolResult::Failure(e).to_string(),
        }
    }

    /// Whether a tool that the user added may run: when it names a tool
    /// to use first and that tool has not succeeded yet, the refusal to
    /// tell the model.
    pub fn extra_tool_gate(&self, info: &ExtraToolInfo) -> (r: Option<String>)
        ensures
            match info.retriever {
                Some((id, name)) => if self@.checked.contains(ToolcallKind::Extra(id)) {
                    r is None
                } else {
                    (r matches Some(m) && m@ == "rejected: you must tool `"@ + name@
                        + "` before this one"@)
                },
                None => r is None,
            },
    {
        match &info.retriever {
            Some((id, name)) => {
                if self.checked.contains(ToolcallKind::Extra(*id)) {
                    None
                } else {
                    let mut v: Vec<char> = Vec::new();
                    push_str(&mut v, "rejected: you must tool `");
                    push_str(&mut v, name.as_str());
                    push_str(&mut v, "` before this one");
                    Some(chars_to_string(&v))
                }
            },
            None => None,
        }
    }

    /// A tool that the user added, number `id`, answered `res`. A reading
    /// tool that succeeded counts as read; for a changing tool a failure is
    /// a refusal and anything else an action. Returns what to tell the
    /// model.
    pub fn on_extra_result(&mut self, id: u64, info: &ExtraToolInfo, res: ToolResult) -> (m: String)
        requires
            old(self)@.actions < u32::MAX,
        ensures
            m@ == spec_tool_result_text(res),
            !info.is_action ==> final(self)@ == (if res is Success {
                ToolStateView {
                    checked: old(self)@.checked.insert(ToolcallKind::Extra(id)),
                    rejected: old(self)@.rejected,
                    actions: old(self)@.actions,
                }
            } else {
                old(self)@
            }),
            info.is_action ==> final(self)@ == (if res is Failure {
                ToolStateView {
                    checked: old(self)@.checked,
                    rejected: old(self)@.rejected.insert(ToolcallKind::Extra(id)),
                    actions: old(self)@.actions,
                }
            } else {
                spec_count_action(old(self)@)
            }),
    {
        if !info.is_action {
            if let ToolResult::Success(_) = &res {
                self.checked.insert(ToolcallKind::Extra(id));
            }
        } else {
            if let ToolResult::Failure(_) = &res {
                self.rejected.insert(ToolcallKind::Extra(id));
            } else {
                self.actions_count = self.actions_count + 1;
            }
        }
        res.to_string()
    }

    /// What to do after the model answered `response` without calling a
    /// tool: finish, or prompt it again.
    pub fn next_step(&self, response: &str) -> (r: LoopStep)
        ensures
            spec_next_step(self@, response@) is None ==> r == LoopStep::Finish,
            spec_next_step(self@, response@) matches Some(p) ==> (r matches LoopStep::Prompt(m)
                && m@ == p),
    {
        let lower = to_lowercase(response);
        let lower_chars = str_chars(lower.as_str());
        let give_up = str_chars("give up");
        let gave_up = contains_exec(&lower_chars, &give_up);
        let n = self.rejected.len();
        if (n == 0 && self.actions_count > 0) || gave_up {
            LoopStep::Finish
        } else if n > 0 {
            let mut v: Vec<char> = Vec::new();
            push_str(&mut v, "System: there ");
            if n == 1 {
                push_str(&mut v, "is");
            } else {
                push_str(&mut v, "are");
            }
            push_str(&mut v, " ");
            let d = decimal_chars(n as u64);
            extend_chars(&mut v, &d);
            push_str(&mut v, " error");
            if n != 1 {
                push_str(&mut v, "s");
            }
            push_str(
                &mut v,
                " to be resolved. Presumably you did not finish your tasks well. Please try again. However, if this is intentional, respond with `give up`",
            );
            proof {
                assert(v@ =~= errors_prompt(self@.rejected.len()));
            }
            LoopStep::Prompt(chars_to_string(&v))
        } else {
            let v = str_chars(
                "System: though there're no errors, you have effectively taken no actions (no settings changed). Please try again. If intentional, respond with `give up`. If confused, use `request_clarification` for human intervension",
            );
            LoopStep::Prompt(chars_to_string(&v))
        }
    }
}

/// The reply to a schedule change that was carried out with `outcome`.
pub open spec fn spec_change_reply(success: Seq<char>, outcome: Result<(), String>) -> Seq<char> {
    match outcome {
        Ok(()) => "success: "@ + success,
        Err(e) => "failure: "@ + e@,
    }
}

/// The reply once the polling interval was set to `new_value` with
/// `outcome`: "success: the new interval is N minutes." or the failure.
pub fn interval_set_reply(new_value: u32, outcome: Result<(), String>) -> (m: String)
    ensures
        m@ == spec_change_reply(
            "the new interval is "@ + decimal(new_value as nat) + " minutes."@,
            outcome,
        ),
{
    let r = match outcome {
        Ok(()) => {
            let mut v: Vec<char> = Vec::new();
            push_str(&mut v, "the new interval is ");
            let d = decimal_chars(new_value as u64);
            extend_chars(&mut v, &d);
            push_str(&mut v, " minutes.");
            Ok(chars_to_string(&v))
        },
        Err(e) => Err(e),
    };
    ToolResult::from_outcome(r).to_string()
}

/// The reply once the buffer size was set to `new_value` with `outcome`.
pub fn buffer_set_reply(new_value: usize, outcome: Result<(), String>) -> (m: String)
    ensures
        m@ == spec_change_reply("the new buffer size is "@ + decimal(new_value as nat), outcome),
{
    let r = match outcome {
        Ok(()) => {
            let mut v: Vec<char> = Vec::new();
            push_str(&mut v, "the new buffer size is ");
            let d = decimal_chars(new_value as u64);
            extend_chars(&mut v, &d);
            Ok(chars_to_string(&v))
        },
        Err(e) => Err(e),
    };
    ToolResult::from_outcome(r).to_string()
}

/// The notes as the model is shown them (`get_criteria`): "[]" for none,
/// otherwise one "- " line per note; a failure to read them as a failure.
pub open spec fn spec_criteria_listing(outcome: Result<Seq<Seq<char>>, Seq<char>>) -> Seq<char> {
    match outcome {
        Err(e) => "failure: "@ + e,
        Ok(list) => if list.len() == 0 {
            "[]"@
        } else {
            "- "@ + join(list, "\n- "@)
        },
    }
}

pub fn criteria_listing(outcome: Result<Vec<String>, String>) -> (m: String)
    ensures
        m@ == spec_criteria_listing(
            match outcome {
                Ok(l) => Ok(l@.map_values(|s: String| s@)),
                Err(e) => Err(e@),
            },
        ),
{
    match outcome {
        Err(e) => ToolResult::Failure(e).to_string(),
        Ok(list) => {
            if list.len() == 0 {
                let v = str_chars("[]");
                chars_to_string(&v)
            } else {
                let pieces = strings_to_chars(&list);
                let sep = str_chars("\n- ");
                let body = join_chars(&pieces, &sep);
                let mut v = str_chars("- ");
                extend_chars(&mut v, &body);
                proof {
                    assert(pieces@.map_values(|c: Vec<char>| c@) =~= list@.map_values(|s: String| s@));
                }
                chars_to_string(&v)
            }
        },
    }
}

/// The characters of each string.
pub fn strings_to_chars(list: &Vec<String>) -> (out: Vec<Vec<char>>)
    ensures
        out@.len() == list@.len(),
        forall|i: int| 0 <= i < list@.len() ==> #[trigger] out@[i]@ == list@[i]@,
{
    let mut out: Vec<Vec<char>> = Vec::new();
    let mut i: usize = 0;
    while i < list.len()
        invariant
            i <= list@.len(),
            out@.len() == i,
            forall|j: int| 0 <= j < i ==> #[trigger] out@[j]@ == list@[j]@,
        decreases list@.len() - i,
    {
        out.push(str_chars(list[i].as_str()));
        i = i + 1;
    }
    out
}

/// The reply to a question put to the user (`request_clarification`): the
/// answer, or that the user declined.
pub fn clarification_reply(answer: Option<String>) -> (m: String)
    ensures
        answer matches Some(a) ==> m == a,
        answer is None ==> m@ == "the user actively rejected your request"@,
{
    match answer {
        Some(a) => a,
        None => {
            let v = str_chars("the user actively rejected your request");
            chars_to_string(&v)
        },
    }
}

/// A change of a setting goes ahead exactly when the setting was read
/// before.
pub proof fn law_change_needs_read(v: ToolStateView, k: ToolcallKind)
    ensures
        spec_gate(v, k).1 <==> v.checked.contains(k),
        !spec_gate(v, k).1 ==> spec_gate(v, k).0.rejected == v.rejected.insert(k),
        spec_gate(v, k).0.checked == v.checked,
        spec_gate(v, k).0.actions == v.actions,
{
}

/// After a refused change, reading the setting resolves the refusal, and
/// the same change then goes ahead.
pub proof fn law_read_then_retry(v: ToolStateView, k: ToolcallKind)
    ensures
        ({
            let refused = spec_gate(v, k).0;
            let read = spec_on_retrieve(refused, k);
            &&& spec_gate(read, k).1
            &&& !read.rejected.contains(k)
            &&& read.rejected == v.rejected.remove(k)
        }),
{
    let refused = spec_gate(v, k).0;
    let read = spec_on_retrieve(refused, k);
    assert(read.rejected =~= v.rejected.remove(k));
}

/// While a refusal is unresolved, the dialog ends only if the model gives
/// up.
pub proof fn law_refusal_blocks_finish(v: ToolStateView, k: ToolcallKind, response: Seq<char>)
    requires
        v.rejected.finite(),
        !spec_gate(v, k).1,
    ensures
        spec_next_step(spec_gate(v, k).0, response) is None ==> gives_up(response),
{
    let after = spec_gate(v, k).0;
    assert(after.rejected.contains(k));
    vstd::set_lib::lemma_set_empty_equivalency_len(after.rejected);
}

/// Without any action taken the dialog ends only if the model gives up.
pub proof fn law_no_action_no_finish(v: ToolStateView, response: Seq<char>)
    requires
        v.actions == 0,
    ensures
        spec_next_step(v, response) is None ==> gives_up(response),
{
}

/// Each reading tool marks exactly its own setting as read: a history of
/// tool calls counts the polling interval as read exactly when it called
/// `get_polling_interval`, the buffer size exactly when it called
/// `get_buffer_size`, the notes exactly when it called `get_criteria`, and
/// no tool that the user added.
pub proof fn law_history_marks_what_was_read(names: Seq<Seq<char>>, checked: Set<ToolcallKind>)
    requires
        forall|k: ToolcallKind| #[trigger]
            checked.contains(k) <==> exists|i: int|
                0 <= i < names.len() && retrieval_kind(names[i]) == Some(k),
    ensures
        checked.contains(ToolcallKind::PollingInterval) <==> exists|i: int|
            0 <= i < names.len() && names[i] == "get_polling_interval"@,
        checked.contains(ToolcallKind::BufferSize) <==> exists|i: int|
            0 <= i < names.len() && names[i] == "get_buffer_size"@,
        checked.contains(ToolcallKind::Criteria) <==> exists|i: int|
            0 <= i < names.len() && names[i] == "get_criteria"@,
        forall|id: u64| !#[trigger] checked.contains(ToolcallKind::Extra(id)),
{
    reveal_strlit("get_polling_interval");
    reveal_strlit("get_buffer_size");
    reveal_strlit("get_criteria");
    assert("get_criteria"@.len() == 12 && "get_buffer_size"@.len() == 15 && "get_polling_interval"@.len()
        == 20);
    assert(checked.contains(ToolcallKind::PollingInterval) ==> exists|i: int|
        0 <= i < names.len() && names[i] == "get_polling_interval"@);
    if exists|i: int| 0 <= i < names.len() && names[i] == "get_polling_interval"@ {
        let i = choose|i: int| 0 <= i < names.len() && names[i] == "get_polling_interval"@;
        assert(retrieval_kind(names[i]) == Some(ToolcallKind::PollingInterval));
    }
    if exists|i: int| 0 <= i < names.len() && names[i] == "get_buffer_size"@ {
        let i = choose|i: int| 0 <= i < names.len() && names[i] == "get_buffer_size"@;
        assert(retrieval_kind(names[i]) == Some(ToolcallKind::BufferSize));
    }
    if exists|i: int| 0 <= i < names.len() && names[i] == "get_criteria"@ {
        let i = choose|i: int| 0 <= i < names.len() && names[i] == "get_criteria"@;
        assert(retrieval_kind(names[i]) == Some(ToolcallKind::Criteria));
    }
    if checked.contains(ToolcallKind::BufferSize) {
        let i = choose|i: int| 0 <= i < names.len() && retrieval_kind(names[i]) == Some(ToolcallKind::BufferSize);
    }
    if checked.contains(ToolcallKind::Criteria) {
        let i = choose|i: int| 0 <= i < names.len() && retrieval_kind(names[i]) == Some(ToolcallKind::Criteria);
    }
    assert forall|id: u64| !#[trigger] checked.contains(ToolcallKind::Extra(id)) by {
        if checked.contains(ToolcallKind::Extra(id)) {
            let i = choose|i: int| 0 <= i < names.len() && retrieval_kind(names[i]) == Some(ToolcallKind::Extra(id));
        }
    }
}

/// The user's complaint, or the default one when none was given.
pub fn prompt_or_default(prompt: Option<String>) -> (s: String)
    ensures
        s@ == (match prompt {
            Some(p) => p@,
            None => "I don't like this post."@,
        }),
{
    match prompt {
        Some(p) => p,
        None => {
            let v = str_chars("I don't like this post.");
            chars_to_string(&v)
        },
    }
}

} // verus!
