//! The three states a bridge can be in, and their textual names.

use vstd::prelude::*;
use vstd::string::*;

verus! {

/// State of a bridge row.
#[derive(Clone, Copy, Debug, PartialEq, Eq, Structural)]
pub enum Status {
    /// Deployed and idle, ready to be promoted.
    Reserve,
    /// Serving clients.
    Frontline,
    /// Unreachable from the censored region.
    Blocked,
}

/// Text of the name `reserve`.
pub open spec fn reserve_text() -> Seq<char> {
    seq!['r', 'e', 's', 'e', 'r', 'v', 'e']
}

/// Text of the name `frontline`.
pub open spec fn frontline_text() -> Seq<char> {
    seq!['f', 'r', 'o', 'n', 't', 'l', 'i', 'n', 'e']
}

/// Text of the name `blocked`.
pub open spec fn blocked_text() -> Seq<char> {
    seq!['b', 'l', 'o', 'c', 'k', 'e', 'd']
}

/// The status that a stored text names, if any.
pub open spec fn status_of_text(text: Seq<char>) -> Option<Status> {
    if text == reserve_text() {
        Some(Status::Reserve)
    } else if text == frontline_text() {
        Some(Status::Frontline)
    } else if text == blocked_text() {
        Some(Status::Blocked)
    } else {
        None
    }
}

/// Whether a stored text is one of the three status names.
pub open spec fn is_status_text(text: Seq<char>) -> bool {
    status_of_text(text) is Some
}

impl Status {
    /// The name under which the status is stored.
    pub open spec fn text(self) -> Seq<char> {
        match self {
            Status::Reserve => reserve_text(),
            Status::Frontline => frontline_text(),
            Status::Blocked => blocked_text(),
        }
    }

    /// Returns the stored name of the status.
    pub fn name(self) -> (out: String)
        ensures
            out@ == self.text(),
    {
        proof {
            reveal_strlit("reserve");
            reveal_strlit("frontline");
            reveal_strlit("blocked");
        }
        match self {
            Status::Reserve => {
                assert("reserve"@ =~= reserve_text());
                String::from_str("reserve")
            },
            Status::Frontline => {
                assert("frontline"@ =~= frontline_text());
                String::from_str("frontline")
            },
            Status::Blocked => {
                assert("blocked"@ =~= blocked_text());
                String::from_str("blocked")
            },
        }
    }

    /// Reads a stored name; `None` for any text that is not one of the three.
    pub fn parse(text: &str) -> (out: Option<Status>)
        ensures
            out == status_of_text(text@),
    {
        let owned = String::from_str(text);
        if owned == Status::Reserve.name() {
            Some(Status::Reserve)
        } else if owned == Status::Frontline.name() {
            Some(Status::Frontline)
        } else if owned == Status::Blocked.name() {
            Some(Status::Blocked)
        } else {
            None
        }
    }
}

/// Every status is read back from its own name.
pub proof fn lemma_status_text_round_trip(s: Status)
    ensures
        status_of_text(s.text()) == Some(s),
{
    assert(reserve_text().len() == 7);
    assert(frontline_text().len() == 9);
    assert(blocked_text().len() == 7);
    assert(reserve_text()[0] == 'r');
    assert(blocked_text()[0] == 'b');
}

} // verus!
