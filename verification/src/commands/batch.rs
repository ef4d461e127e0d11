use vstd::prelude::*;

use crate::dates::decimal;
use crate::helpers::YesNoQuit;
use crate::text::decimal_text;

verus! {

// ---------------------------------------------------------------------------
// Commands that go through events one by one (`properties add/delete/rename/
// set-value`, `calendar clear/copy`, `move-events`)
// ---------------------------------------------------------------------------

/// What a command does next with one event.
#[derive(Clone, Copy, Debug, PartialEq, Eq, Structural)]
pub enum EventStep {
    /// The event has no id, so nothing can be sent for it: it is skipped.
    NoId,
    /// The event needs no change: it is skipped.
    NothingToDo,
    /// The user is asked first.
    Ask,
    /// The change is sent.
    Apply,
}

/// The step for an event: one without an id is skipped, then one that needs no change;
/// otherwise the user is asked unless `all` says not to ask (`--all` on the commands
/// that ask by default, no `--interactive` on `move-events`).
pub open spec fn event_step(has_id: bool, has_work: bool, all: bool) -> EventStep {
    if !has_id {
        EventStep::NoId
    } else if !has_work {
        EventStep::NothingToDo
    } else if !all {
        EventStep::Ask
    } else {
        EventStep::Apply
    }
}

/// What an answer to the per-event question leads to.
#[derive(Clone, Copy, Debug, PartialEq, Eq, Structural)]
pub enum AnswerStep {
    /// Send the change.
    Apply,
    /// Skip the event.
    Skip,
    /// Stop the command.
    Quit,
    /// Ask again.
    AskAgain,
}

/// `y` sends the change, `n` skips the event, `q` stops, anything else asks again.
pub open spec fn answer_step(a: YesNoQuit) -> AnswerStep {
    match a {
        YesNoQuit::Yes => AnswerStep::Apply,
        YesNoQuit::No => AnswerStep::Skip,
        YesNoQuit::Quit => AnswerStep::Quit,
        YesNoQuit::Invalid => AnswerStep::AskAgain,
    }
}

/// The counts of a command that goes through events: changed, skipped, and skipped for
/// want of an id.
pub struct BatchTally {
    pub done: u32,
    pub skipped: u32,
    pub skipped_no_id: u32,
}

/// `prefix`, the count of changed events and `what` was done to them, and the count of
/// skipped ones: `Done. 3 deleted, 1 skipped.`
pub open spec fn tally_line(prefix: Seq<char>, done: nat, what: Seq<char>, skipped: nat) -> Seq<char> {
    prefix + decimal(done) + " "@ + what + ", "@ + decimal(skipped) + " skipped."@
}

impl BatchTally {
    /// Nothing counted yet.
    pub fn new() -> (r: Self)
        ensures
            r.done == 0 && r.skipped == 0 && r.skipped_no_id == 0,
    {
        BatchTally { done: 0, skipped: 0, skipped_no_id: 0 }
    }

    /// Decide the step for an event, counting it when it is skipped (an event without id
    /// among `skipped_no_id` when `apart`, among `skipped` otherwise).
    pub fn step(&mut self, has_id: bool, has_work: bool, all: bool, apart: bool) -> (r: EventStep)
        requires
            old(self).skipped < u32::MAX,
            old(self).skipped_no_id < u32::MAX,
        ensures
            r == event_step(has_id, has_work, all),
            final(self).done == old(self).done,
            final(self).skipped == old(self).skipped + (if r == EventStep::NothingToDo || (r == EventStep::NoId && !apart) {
                1int
            } else {
                0int
            }),
            final(self).skipped_no_id == old(self).skipped_no_id + (if r == EventStep::NoId && apart {
                1int
            } else {
                0int
            }),
    {
        if !has_id {
            if apart {
                self.skipped_no_id = self.skipped_no_id + 1;
            } else {
                self.skipped = self.skipped + 1;
            }
            EventStep::NoId
        } else if !has_work {
            self.skipped = self.skipped + 1;
            EventStep::NothingToDo
        } else if !all {
            EventStep::Ask
        } else {
            EventStep::Apply
        }
    }

    /// Take the answer to the question about an event, counting the event when it is
    /// skipped.
    pub fn answer(&mut self, a: YesNoQuit) -> (r: AnswerStep)
        requires
            old(self).skipped < u32::MAX,
        ensures
            r == answer_step(a),
            final(self).done == old(self).done,
            final(self).skipped_no_id == old(self).skipped_no_id,
            final(self).skipped == old(self).skipped + (if r == AnswerStep::Skip {
                1int
            } else {
                0int
            }),
    {
        match a {
            YesNoQuit::Yes => AnswerStep::Apply,
            YesNoQuit::No => {
                self.skipped = self.skipped + 1;
                AnswerStep::Skip
            },
            YesNoQuit::Quit => AnswerStep::Quit,
            YesNoQuit::Invalid => AnswerStep::AskAgain,
        }
    }

    /// Count an event that was skipped after all (nothing chosen for it).
    pub fn skip(&mut self)
        requires
            old(self).skipped < u32::MAX,
        ensures
            final(self).skipped == old(self).skipped + 1,
            final(self).done == old(self).done,
            final(self).skipped_no_id == old(self).skipped_no_id,
    {
        self.skipped = self.skipped + 1;
    }

    /// Count an event whose change was sent (or, in a dry run, would be).
    pub fn applied(&mut self)
        requires
            old(self).done < u32::MAX,
        ensures
            final(self).done == old(self).done + 1,
            final(self).skipped == old(self).skipped,
            final(self).skipped_no_id == old(self).skipped_no_id,
    {
        self.done = self.done + 1;
    }

    /// The counts after `prefix`, saying `what` was done.
    pub fn line(&self, prefix: &str, what: &str) -> (r: String)
        ensures
            r@ == tally_line(prefix@, self.done as nat, what@, self.skipped as nat),
    {
        let mut s = String::from_str(prefix);
        let done = decimal_text(self.done as u64);
        s.append(done.as_str());
        s.append(" ");
        s.append(what);
        s.append(", ");
        let skipped = decimal_text(self.skipped as u64);
        s.append(skipped.as_str());
        s.append(" skipped.");
        s
    }

    /// The warning about events without id, if there were any.
    pub fn no_id_warning(&self) -> (r: Option<String>)
        ensures
            self.skipped_no_id == 0 ==> r is None,
            self.skipped_no_id > 0 ==> (r matches Some(w) && w@ == "Warning: skipped "@ + decimal(
                self.skipped_no_id as nat,
            ) + " event(s) with no ID"@),
    {
        if self.skipped_no_id == 0 {
            None
        } else {
            let mut w = String::from_str("Warning: skipped ");
            let n = decimal_text(self.skipped_no_id as u64);
            w.append(n.as_str());
            w.append(" event(s) with no ID");
            Some(w)
        }
    }
}

} // verus!
