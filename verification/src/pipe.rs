//! The input side of a session on pipes.

use vstd::prelude::*;

use crate::shell::stream::StdinMsg;

verus! {

broadcast use vstd::string::group_string_axioms;

/// How many messages wait for the input side before a sender has to.
pub const STDIN_QUEUE: usize = 32;

/// How long one write may take, in seconds.
pub const STDIN_TIMEOUT_SECS: u64 = 30;

/// What the input side does for a message.
#[derive(Debug)]
pub enum StdinAction {
    /// Write this text.
    Write(String),
    /// Close the input of the process.
    CloseInput,
    /// Nothing.
    Nothing,
    /// Stop; the input is closed then.
    Stop,
}

/// What the input side does, with texts as characters.
pub enum StdinModel {
    Write(Seq<char>),
    CloseInput,
    Nothing,
    Stop,
}

impl View for StdinAction {
    type V = StdinModel;

    open spec fn view(&self) -> StdinModel {
        match *self {
            StdinAction::Write(s) => StdinModel::Write(s@),
            StdinAction::CloseInput => StdinModel::CloseInput,
            StdinAction::Nothing => StdinModel::Nothing,
            StdinAction::Stop => StdinModel::Stop,
        }
    }
}

/// What a message does to the input, open or not, and whether it is open then. A
/// pipe has no size, so that there is nothing to set.
pub open spec fn handled(open: bool, msg: StdinMsg) -> (StdinModel, bool) {
    match msg {
        StdinMsg::Close => (StdinModel::Stop, open),
        StdinMsg::Eof => if open {
            (StdinModel::CloseInput, false)
        } else {
            (StdinModel::Nothing, false)
        },
        StdinMsg::Data(s) => if open {
            (StdinModel::Write(s@), open)
        } else {
            (StdinModel::Nothing, open)
        },
        StdinMsg::Resize(cols, rows) => (StdinModel::Nothing, open),
    }
}

/// The input side of a session on pipes.
#[derive(Debug)]
pub struct StdinWriter {
    open: bool,
}

impl View for StdinWriter {
    type V = bool;

    /// Whether the input of the process is open.
    closed spec fn view(&self) -> bool {
        self.open
    }
}

impl StdinWriter {
    /// The input side of a process that has just been started.
    pub fn new() -> (r: StdinWriter)
        ensures
            r@,
    {
        StdinWriter { open: true }
    }

    /// What to do for a message; none comes any more when all senders are gone.
    pub fn handle(&mut self, msg: Option<StdinMsg>) -> (r: StdinAction)
        ensures
            match msg {
                Some(msg) => (r@, final(self)@) == handled(old(self)@, msg),
                None => r@ == StdinModel::Stop && final(self)@ == old(self)@,
            },
    {
        match msg {
            None => StdinAction::Stop,
            Some(StdinMsg::Close) => StdinAction::Stop,
            Some(StdinMsg::Eof) => {
                if self.open {
                    self.open = false;
                    StdinAction::CloseInput
                } else {
                    StdinAction::Nothing
                }
            },
            Some(StdinMsg::Data(s)) => {
                if self.open {
                    StdinAction::Write(s)
                } else {
                    StdinAction::Nothing
                }
            },
            Some(StdinMsg::Resize(cols, rows)) => StdinAction::Nothing,
        }
    }

    /// Whether to go on after a write: one that failed or took too long is the last.
    pub fn written(&mut self, done: bool) -> (go_on: bool)
        ensures
            go_on == done,
            final(self)@ == (old(self)@ && done),
    {
        if !done {
            self.open = false;
        }
        done
    }
}

/// All texts that are written for `msgs`, in order, as long as no write fails.
pub open spec fn writes(open: bool, msgs: Seq<StdinMsg>) -> Seq<Seq<char>>
    decreases msgs.len(),
{
    if msgs.len() == 0 {
        Seq::empty()
    } else {
        let (action, open_then) = handled(open, msgs[0]);
        match action {
            StdinModel::Stop => Seq::empty(),
            StdinModel::Write(s) => seq![s] + writes(open_then, msgs.drop_first()),
            _ => writes(open_then, msgs.drop_first()),
        }
    }
}

/// The texts in `msgs`, in order.
pub open spec fn texts(msgs: Seq<StdinMsg>) -> Seq<Seq<char>>
    decreases msgs.len(),
{
    if msgs.len() == 0 {
        Seq::empty()
    } else {
        match msgs[0] {
            StdinMsg::Data(s) => seq![s@] + texts(msgs.drop_first()),
            _ => texts(msgs.drop_first()),
        }
    }
}

/// Once the input is closed, nothing is written.
proof fn lemma_closed_writes_nothing(msgs: Seq<StdinMsg>)
    ensures
        writes(false, msgs) == Seq::<Seq<char>>::empty(),
    decreases msgs.len(),
{
    if msgs.len() > 0 {
        lemma_closed_writes_nothing(msgs.drop_first());
    }
}

/// All that is sent before the input is ended or closed is written, in order, and
/// nothing that is sent after it.
pub proof fn input_ends_where_it_is_ended(before: Seq<StdinMsg>, end: StdinMsg, after: Seq<StdinMsg>)
    requires
        end is Eof || end is Close,
        forall|i: int|
            0 <= i < before.len() ==> !(#[trigger] before[i] is Eof) && !(before[i] is Close),
    ensures
        writes(true, before.push(end) + after) == texts(before),
    decreases before.len(),
{
    let all = before.push(end) + after;
    if before.len() == 0 {
        assert(all[0] == end);
        assert(all.drop_first() == after);
        lemma_closed_writes_nothing(after);
    } else {
        let rest = before.drop_first();
        assert(all[0] == before[0]);
        assert(all.drop_first() == rest.push(end) + after);
        assert forall|i: int| 0 <= i < rest.len() implies !(#[trigger] rest[i] is Eof) && !(
        rest[i] is Close) by {
            assert(rest[i] == before[i + 1]);
        }
        input_ends_where_it_is_ended(rest, end, after);
    }
}

/// What one message does. Text is written as it is while the input is open, and not at
/// all once it is closed; the end of the input closes it once and for good; a size
/// changes nothing; and only a message to stop stops.
pub proof fn a_message_does_one_thing(open: bool, msg: StdinMsg)
    ensures
        ({
            let (action, then) = handled(open, msg);
            &&& !open ==> !then && !(action is Write) && !(action is CloseInput)
            &&& action is Stop <==> msg is Close
            &&& action is CloseInput <==> open && msg is Eof
            &&& then <==> open && !(msg is Eof)
            &&& msg matches StdinMsg::Data(s) ==> open ==> action == StdinModel::Write(s@)
            &&& action is Write ==> msg is Data
        }),
{
}

/// The texts that are written are those that were sent, in order, each as it is: as
/// many as were sent before the input was ended.
pub proof fn text_is_written_as_it_was_sent(first: StdinMsg, rest: Seq<StdinMsg>)
    ensures
        texts(Seq::empty()) == Seq::<Seq<char>>::empty(),
        first matches StdinMsg::Data(s) ==> {
            &&& writes(true, seq![first] + rest) == seq![s@] + writes(true, rest)
            &&& texts(seq![first] + rest) == seq![s@] + texts(rest)
        },
        first is Resize ==> {
            &&& writes(true, seq![first] + rest) == writes(true, rest)
            &&& texts(seq![first] + rest) == texts(rest)
        },
        first is Eof || first is Close ==> {
            &&& writes(true, seq![first] + rest).len() == 0
            &&& texts(seq![first] + rest) == texts(rest)
        },
        writes(false, rest).len() == 0,
{
    let all = seq![first] + rest;
    assert(all[0] == first);
    assert(all.drop_first() == rest);
    lemma_closed_writes_nothing(rest);
}

/// What is to be written is the text of the action.
pub proof fn an_action_is_what_it_says(action: StdinAction)
    ensures
        match (action, action@) {
            (StdinAction::Write(s), StdinModel::Write(text)) => s@ == text,
            (StdinAction::CloseInput, StdinModel::CloseInput) => true,
            (StdinAction::Nothing, StdinModel::Nothing) => true,
            (StdinAction::Stop, StdinModel::Stop) => true,
            _ => false,
        },
{
}

} // verus!
