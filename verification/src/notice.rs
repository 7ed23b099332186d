//! What the window says about itself: an error that stays, or a notice that goes.

use vstd::prelude::*;
use crate::clock;

verus! {

/// How long a notice stays up, in milliseconds.
pub const NOTICE_DURATION: u64 = 3000;

/// Confirmation of something whose only other evidence is that it worked.
#[derive(Debug)]
pub struct Notice {
    pub text: String,
    pub expires_at: u64,
}

/// The error and the notice there are.
#[derive(Debug)]
pub struct Messages {
    pub error: Option<String>,
    pub notice: Option<Notice>,
}

/// The same as mathematics.
pub struct Said {
    pub error: Option<Seq<char>>,
    pub notice: Option<(Seq<char>, u64)>,
}

impl View for Messages {
    type V = Said;

    open spec fn view(&self) -> Said {
        Said {
            error: match self.error {
                Some(error) => Some(error@),
                None => None,
            },
            notice: match self.notice {
                Some(notice) => Some((notice.text@, notice.expires_at)),
                None => None,
            },
        }
    }
}

impl Said {
    pub open spec fn nothing() -> Said {
        Said { error: None, notice: None }
    }

    /// A notice takes the place of an error.
    pub open spec fn notified(self, text: Seq<char>, now: u64) -> Said {
        Said { error: None, notice: Some((text, clock::later(now, NOTICE_DURATION))) }
    }

    pub open spec fn failed(self, text: Seq<char>) -> Said {
        Said { error: Some(text), ..self }
    }

    pub open spec fn mended(self) -> Said {
        Said { error: None, ..self }
    }

    /// A notice goes when its time is over.
    pub open spec fn at(self, now: u64) -> Said {
        match self.notice {
            Some((_, expires_at)) => if now >= expires_at {
                Said { notice: None, ..self }
            } else {
                self
            },
            None => self,
        }
    }
}

impl Messages {
    pub fn new() -> (messages: Messages)
        ensures
            messages@ == Said::nothing(),
    {
        Messages { error: None, notice: None }
    }

    pub fn notify(&mut self, text: &str, now: u64)
        ensures
            final(self)@ == old(self)@.notified(text@, now),
    {
        self.error = None;
        self.notice = Some(
            Notice { text: text.to_owned(), expires_at: clock::after(now, NOTICE_DURATION) },
        );
    }

    pub fn fail(&mut self, text: String)
        ensures
            final(self)@ == old(self)@.failed(text@),
    {
        self.error = Some(text);
    }

    pub fn mend(&mut self)
        ensures
            final(self)@ == old(self)@.mended(),
    {
        self.error = None;
    }

    /// Drops an expired notice. Says how long one that stays has left.
    pub fn tick(&mut self, now: u64) -> (left: Option<u64>)
        ensures
            final(self)@ == old(self)@.at(now),
            left == (match final(self)@.notice {
                Some((_, expires_at)) => Some((expires_at - now) as u64),
                None => None,
            }),
    {
        let expires_at = match &self.notice {
            Some(notice) => notice.expires_at,
            None => {
                return None;
            },
        };
        if now >= expires_at {
            self.notice = None;
            None
        } else {
            Some(expires_at - now)
        }
    }
}

/// A notice is there until its time is over, and not after.
pub proof fn law_a_notice_lasts_its_time(said: Said, text: Seq<char>, told: u64, now: u64)
    requires
        told + NOTICE_DURATION <= u64::MAX,
        told <= now,
    ensures
        said.notified(text, told).at(now).notice is Some <==> now - told < NOTICE_DURATION,
        said.notified(text, told).at(now).error is None,
{
}

/// A notice is read as it was written, for three seconds, and takes the place of an error. An
/// error stays until something mends it, and takes nothing away.
pub proof fn law_a_notice_is_read_as_it_was_written(
    said: Said,
    text: Seq<char>,
    told: u64,
    now: u64,
)
    requires
        told + 3000 <= u64::MAX,
        told <= now,
    ensures
        now < told + 3000 ==> said.notified(text, told).at(now).notice == Some(
            (text, (told + 3000) as u64),
        ),
        now >= told + 3000 ==> said.notified(text, told).at(now).notice is None,
        said.notified(text, told).error is None,
        said.failed(text).error == Some(text),
        said.failed(text).notice == said.notice,
        said.failed(text).at(now).error == Some(text),
        said.mended().error is None,
        said.mended().notice == said.notice,
        Said::nothing().error is None && Said::nothing().notice is None,
{
}

} // verus!
