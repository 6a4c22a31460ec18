//! The scheduling state of a process, as the `State:` line of `/proc/<pid>/status`
//! gives it.

use vstd::prelude::*;

use crate::text::{chars_equal, chars_of};

verus! {

/// What a process is doing, by its one-letter state code.
#[derive(Clone, Copy, Debug, PartialEq, Eq, Structural)]
pub enum Status {
    Running,
    Sleeping,
    Stopped,
    Zombie,
    DiskSleep,
    Idle,
    Unknown,
}

/// The state that a state code names: `R`, `S`, `T`, `Z`, `D` and `I`; any other text is
/// `Unknown`.
pub open spec fn status_from(code: Seq<char>) -> Status {
    if code == "R"@ {
        Status::Running
    } else if code == "S"@ {
        Status::Sleeping
    } else if code == "T"@ {
        Status::Stopped
    } else if code == "Z"@ {
        Status::Zombie
    } else if code == "D"@ {
        Status::DiskSleep
    } else if code == "I"@ {
        Status::Idle
    } else {
        Status::Unknown
    }
}

/// The text a state is shown with.
pub open spec fn label_of(status: Status) -> Seq<char> {
    match status {
        Status::Running => "Running"@,
        Status::Sleeping => "Sleeping"@,
        Status::Stopped => "Stopped"@,
        Status::Zombie => "Zombie"@,
        Status::DiskSleep => "Disk Sleep"@,
        Status::Idle => "Idle"@,
        Status::Unknown => "Unknown"@,
    }
}

/// The state named by the state code `code`, given as characters.
pub fn status_of_chars(code: &[char]) -> (res: Status)
    ensures
        res == status_from(code@),
{
    if chars_equal(code, "R") {
        Status::Running
    } else if chars_equal(code, "S") {
        Status::Sleeping
    } else if chars_equal(code, "T") {
        Status::Stopped
    } else if chars_equal(code, "Z") {
        Status::Zombie
    } else if chars_equal(code, "D") {
        Status::DiskSleep
    } else if chars_equal(code, "I") {
        Status::Idle
    } else {
        Status::Unknown
    }
}

/// The state named by the state code `status`.
pub fn choose_status(status: &str) -> (res: Status)
    ensures
        res == status_from(status@),
{
    let code = chars_of(status);
    status_of_chars(code.as_slice())
}

/// Different states are shown with different texts: the label tells the state.
pub proof fn law_labels_tell_states_apart(a: Status, b: Status)
    ensures
        label_of(a) == label_of(b) ==> a == b,
{
    reveal_strlit("Running");
    reveal_strlit("Sleeping");
    reveal_strlit("Stopped");
    reveal_strlit("Zombie");
    reveal_strlit("Disk Sleep");
    reveal_strlit("Idle");
    reveal_strlit("Unknown");
    if label_of(a) == label_of(b) && a != b {
        let la = label_of(a);
        let lb = label_of(b);
        assert(la.len() == lb.len());
        assert(la[0] == lb[0]);
        assert(la[1] == lb[1]);
        assert(la[2] == lb[2]);
        assert(false);
    }
}

/// Each state code gives the state of its own name: the label of what `R`, `S`, `T`, `Z`,
/// `D` and `I` name is "Running", "Sleeping", "Stopped", "Zombie", "Disk Sleep" and "Idle",
/// and every other code is "Unknown".
pub proof fn law_codes_name_their_states(code: Seq<char>)
    ensures
        code == "R"@ ==> label_of(status_from(code)) == "Running"@,
        code == "S"@ ==> label_of(status_from(code)) == "Sleeping"@,
        code == "T"@ ==> label_of(status_from(code)) == "Stopped"@,
        code == "Z"@ ==> label_of(status_from(code)) == "Zombie"@,
        code == "D"@ ==> label_of(status_from(code)) == "Disk Sleep"@,
        code == "I"@ ==> label_of(status_from(code)) == "Idle"@,
        code.len() != 1 ==> label_of(status_from(code)) == "Unknown"@,
{
    reveal_strlit("R");
    reveal_strlit("S");
    reveal_strlit("T");
    reveal_strlit("Z");
    reveal_strlit("D");
    reveal_strlit("I");
    assert("S"@ != "R"@) by {
        assert("S"@[0] != "R"@[0]);
    }
    assert("T"@ != "R"@) by {
        assert("T"@[0] != "R"@[0]);
    }
    assert("T"@ != "S"@) by {
        assert("T"@[0] != "S"@[0]);
    }
    assert("Z"@ != "R"@) by {
        assert("Z"@[0] != "R"@[0]);
    }
    assert("Z"@ != "S"@) by {
        assert("Z"@[0] != "S"@[0]);
    }
    assert("Z"@ != "T"@) by {
        assert("Z"@[0] != "T"@[0]);
    }
    assert("D"@ != "R"@) by {
        assert("D"@[0] != "R"@[0]);
    }
    assert("D"@ != "S"@) by {
        assert("D"@[0] != "S"@[0]);
    }
    assert("D"@ != "T"@) by {
        assert("D"@[0] != "T"@[0]);
    }
    assert("D"@ != "Z"@) by {
        assert("D"@[0] != "Z"@[0]);
    }
    assert("I"@ != "R"@) by {
        assert("I"@[0] != "R"@[0]);
    }
    assert("I"@ != "S"@) by {
        assert("I"@[0] != "S"@[0]);
    }
    assert("I"@ != "T"@) by {
        assert("I"@[0] != "T"@[0]);
    }
    assert("I"@ != "Z"@) by {
        assert("I"@[0] != "Z"@[0]);
    }
    assert("I"@ != "D"@) by {
        assert("I"@[0] != "D"@[0]);
    }
}

impl Status {
    /// The text this state is shown with ("Running", "Disk Sleep", ...).
    pub fn label(&self) -> (res: String)
        ensures
            res@ == label_of(*self),
    {
        match self {
            Status::Running => String::from_str("Running"),
            Status::Sleeping => String::from_str("Sleeping"),
            Status::Stopped => String::from_str("Stopped"),
            Status::Zombie => String::from_str("Zombie"),
            Status::DiskSleep => String::from_str("Disk Sleep"),
            Status::Idle => String::from_str("Idle"),
            Status::Unknown => String::from_str("Unknown"),
        }
    }
}

impl Default for Status {
    /// A process whose state has not been read is `Unknown`.
    fn default() -> (res: Self)
        ensures
            res == Status::Unknown,
    {
        Status::Unknown
    }
}

} // verus!
