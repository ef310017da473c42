//! How a Media Foundation transform is fed: it may refuse a sample until its output was drained,
//! and once it took one, it is drained until it wants the next.
use vstd::prelude::*;

verus! {

/// What the transform said to a sample.
#[derive(Clone, Copy, Debug, PartialEq, Eq, Structural)]
pub enum InputReply {
    Accepted,
    /// Output is pending.
    NotAccepting,
    Failed,
}

/// What the transform said when it was asked for output.
#[derive(Clone, Copy, Debug, PartialEq, Eq, Structural)]
pub enum OutputReply {
    Produced,
    NeedMoreInput,
    /// The output has another type from here on.
    StreamChange,
    Failed,
}

/// What to do next.
#[derive(Clone, Copy, Debug, PartialEq, Eq, Structural)]
pub enum PumpAction {
    /// Hand the sample in.
    Input,
    /// Ask for output.
    Output,
    /// Read the output, and ask for more.
    ReadOutput,
    /// Settle the type of the output anew, and ask for more.
    Renegotiate,
    /// The sample is in, and all of its output is out.
    Done,
    /// Give up.
    Fail,
}

/// How far a sample has come.
#[derive(Clone, Copy, Debug, PartialEq, Eq, Structural)]
pub struct Pump {
    accepted: bool,
}

/// What happened.
pub enum PumpEvent {
    Input(InputReply),
    Output(OutputReply),
}

impl View for Pump {
    type V = bool;

    /// Whether the sample was taken.
    closed spec fn view(&self) -> bool {
        self.accepted
    }
}

/// What to do about what happened, where `accepted` tells whether the sample was taken before.
pub open spec fn pump_action(accepted: bool, event: PumpEvent) -> PumpAction {
    match event {
        PumpEvent::Input(InputReply::Accepted) => PumpAction::Output,
        PumpEvent::Input(InputReply::NotAccepting) => PumpAction::Output,
        PumpEvent::Input(InputReply::Failed) => PumpAction::Fail,
        PumpEvent::Output(OutputReply::Produced) => PumpAction::ReadOutput,
        PumpEvent::Output(OutputReply::StreamChange) => PumpAction::Renegotiate,
        PumpEvent::Output(OutputReply::Failed) => PumpAction::Fail,
        PumpEvent::Output(OutputReply::NeedMoreInput) => if accepted {
            PumpAction::Done
        } else {
            PumpAction::Input
        },
    }
}

/// Whether the sample was taken, once `event` has happened.
pub open spec fn pump_after(accepted: bool, event: PumpEvent) -> bool {
    accepted || event == PumpEvent::Input(InputReply::Accepted)
}

/// Whether the sample was taken, once all of `events` have happened.
pub open spec fn pump_after_all(events: Seq<PumpEvent>) -> bool
    decreases events.len(),
{
    if events.len() == 0 {
        false
    } else {
        pump_after(pump_after_all(events.drop_last()), events.last())
    }
}

/// A sample is done with only once it was taken and the transform then asked for more, so no
/// output of it is left behind.
pub proof fn law_done_means_taken_and_drained(events: Seq<PumpEvent>, event: PumpEvent)
    requires
        pump_action(pump_after_all(events), event) == PumpAction::Done,
    ensures
        event == PumpEvent::Output(OutputReply::NeedMoreInput),
        exists|i: int|
            0 <= i < events.len() && #[trigger] events[i] == PumpEvent::Input(InputReply::Accepted),
    decreases events.len(),
{
    let n = events.len() - 1;
    if events[n] == PumpEvent::Input(InputReply::Accepted) {
    } else {
        let before = events.drop_last();
        law_done_means_taken_and_drained(before, event);
        let i = choose|i: int|
            0 <= i < before.len() && #[trigger] before[i] == PumpEvent::Input(InputReply::Accepted);
        assert(events[i] == before[i]);
    }
}

impl Pump {
    /// A sample that was not handed in yet: [`PumpAction::Input`] comes first.
    pub fn new() -> (r: Pump)
        ensures
            r@ == false,
    {
        Pump { accepted: false }
    }

    /// Takes note of what the transform said to the sample.
    pub fn on_input(&mut self, reply: InputReply) -> (r: PumpAction)
        ensures
            r == pump_action(old(self)@, PumpEvent::Input(reply)),
            final(self)@ == pump_after(old(self)@, PumpEvent::Input(reply)),
    {
        match reply {
            InputReply::Accepted => {
                self.accepted = true;
                PumpAction::Output
            },
            InputReply::NotAccepting => PumpAction::Output,
            InputReply::Failed => PumpAction::Fail,
        }
    }

    /// Takes note of what the transform said when it was asked for output.
    pub fn on_output(&mut self, reply: OutputReply) -> (r: PumpAction)
        ensures
            r == pump_action(old(self)@, PumpEvent::Output(reply)),
            final(self)@ == pump_after(old(self)@, PumpEvent::Output(reply)),
    {
        match reply {
            OutputReply::Produced => PumpAction::ReadOutput,
            OutputReply::StreamChange => PumpAction::Renegotiate,
            OutputReply::Failed => PumpAction::Fail,
            OutputReply::NeedMoreInput => {
                if self.accepted {
                    PumpAction::Done
                } else {
                    PumpAction::Input
                }
            },
        }
    }
}

/// Whatever happened before, a sample that was not taken yet is handed in again each time the
/// transform has nothing more to give, and one that was taken is never handed in again; output is
/// read wherever there is some, and only a failure ends the work early.
pub proof fn law_sample_is_handed_in_until_taken(events: Seq<PumpEvent>, event: PumpEvent)
    ensures
        ({
            let taken = exists|i: int|
                0 <= i < events.len() && #[trigger] events[i] == PumpEvent::Input(
                    InputReply::Accepted,
                );
            let action = pump_action(pump_after_all(events), event);
            &&& action == PumpAction::Input <==> event == PumpEvent::Output(
                OutputReply::NeedMoreInput,
            ) && !taken
            &&& action == PumpAction::Done <==> event == PumpEvent::Output(
                OutputReply::NeedMoreInput,
            ) && taken
            &&& action == PumpAction::ReadOutput <==> event == PumpEvent::Output(
                OutputReply::Produced,
            )
            &&& action == PumpAction::Renegotiate <==> event == PumpEvent::Output(
                OutputReply::StreamChange,
            )
            &&& action == PumpAction::Fail <==> event == PumpEvent::Input(InputReply::Failed)
                || event == PumpEvent::Output(OutputReply::Failed)
            &&& action == PumpAction::Output <==> event == PumpEvent::Input(InputReply::Accepted)
                || event == PumpEvent::Input(InputReply::NotAccepting)
        }),
{
    lemma_taken(events);
}

/// A sample is taken once the transform said so.
proof fn lemma_taken(events: Seq<PumpEvent>)
    ensures
        pump_after_all(events) <==> exists|i: int|
            0 <= i < events.len() && #[trigger] events[i] == PumpEvent::Input(InputReply::Accepted),
    decreases events.len(),
{
    if events.len() > 0 {
        let before = events.drop_last();
        lemma_taken(before);
        assert(events[events.len() - 1] == events.last());
        if exists|i: int|
            0 <= i < events.len() && #[trigger] events[i] == PumpEvent::Input(
                InputReply::Accepted,
            ) {
            let i = choose|i: int|
                0 <= i < events.len() && #[trigger] events[i] == PumpEvent::Input(
                    InputReply::Accepted,
                );
            if i < before.len() {
                assert(before[i] == events[i]);
            }
        }
        if exists|i: int|
            0 <= i < before.len() && #[trigger] before[i] == PumpEvent::Input(
                InputReply::Accepted,
            ) {
            let i = choose|i: int|
                0 <= i < before.len() && #[trigger] before[i] == PumpEvent::Input(
                    InputReply::Accepted,
                );
            assert(events[i] == before[i]);
        }
    }
}

} // verus!
