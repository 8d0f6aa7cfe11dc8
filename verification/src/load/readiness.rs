//! Waiting for a server to be ready.

use vstd::prelude::*;
use vstd::string::*;

use crate::text::{decimal, with_number};

verus! {

/// How often a load run asks whether the server is ready.
pub const READY_ATTEMPTS: usize = 60;

/// What came of asking once.
pub enum ReadyProbe {
    Status(u16),
    Failed(String),
}

/// What to do next.
pub enum ReadyStep {
    Ready,
    TryAgain,
    GiveUp(String),
}

pub enum ReadyStepView {
    Ready,
    TryAgain,
    GiveUp(Seq<char>),
}

impl View for ReadyStep {
    type V = ReadyStepView;

    open spec fn view(&self) -> ReadyStepView {
        match *self {
            ReadyStep::Ready => ReadyStepView::Ready,
            ReadyStep::TryAgain => ReadyStepView::TryAgain,
            ReadyStep::GiveUp(message) => ReadyStepView::GiveUp(message@),
        }
    }
}

/// What keeps a server from being ready, if anything does.
pub open spec fn unready(probe: ReadyProbe) -> Option<Seq<char>> {
    match probe {
        ReadyProbe::Status(status) => if status == 200 {
            None
        } else {
            Some("/ready answered "@ + decimal(status as nat))
        },
        ReadyProbe::Failed(error) => Some(error@),
    }
}

/// How often the server may still be asked, and what the last answer was.
pub struct Readiness {
    pub left: usize,
    pub last: String,
}

impl Readiness {
    pub fn new(attempts: usize) -> (readiness: Self)
        ensures
            readiness.left == attempts,
            readiness.last@ == "no attempt made"@,
    {
        Readiness { left: attempts, last: "no attempt made".to_owned() }
    }

    /// Why waiting ends without an attempt, if none is left.
    pub fn over(&self) -> (reason: Option<String>)
        ensures
            match reason {
                Some(reason) => self.left == 0 && reason@ == self.last@,
                None => self.left > 0,
            },
    {
        if self.left == 0 {
            Some(self.last.clone())
        } else {
            None
        }
    }

    /// Takes an answer in: the server is ready, or it is asked again while an
    /// attempt is left, and the last answer says why it is given up.
    pub fn answered(&mut self, probe: ReadyProbe) -> (step: ReadyStep)
        requires
            old(self).left > 0,
        ensures
            step@ is Ready <==> probe is Status && probe->Status_0 == 200,
            step@ is GiveUp <==> !(step@ is Ready) && old(self).left == 1,
            final(self).left == old(self).left - 1,
            final(self).last@ == match unready(probe) {
                Some(reason) => reason,
                None => old(self).last@,
            },
            step@ == match unready(probe) {
                None => ReadyStepView::Ready,
                Some(reason) => if old(self).left == 1 {
                    ReadyStepView::GiveUp(reason)
                } else {
                    ReadyStepView::TryAgain
                },
            },
    {
        self.left = self.left - 1;
        match probe {
            ReadyProbe::Status(status) => {
                if status == 200 {
                    return ReadyStep::Ready;
                }
                self.last = with_number("/ready answered ", status as u64, "");
                assert(self.last@ =~= "/ready answered "@ + decimal(status as nat)) by {
                    reveal_strlit("");
                }
            },
            ReadyProbe::Failed(error) => {
                self.last = error;
            },
        }
        match self.over() {
            Some(reason) => ReadyStep::GiveUp(reason),
            None => ReadyStep::TryAgain,
        }
    }
}

} // verus!
