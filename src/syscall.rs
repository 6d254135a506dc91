use vstd::prelude::*;

verus! {

/// The system calls a guest may issue. The id travels in register `t0`.
#[derive(Clone, Copy, Debug, PartialEq, Eq, Structural)]
pub enum Syscall {
    Return,
    SLoad,
    SStore,
    Call,
    Keccak256,
    Origin,
    Caller,
    CallValue,
    GasPrice,
    Timestamp,
    Number,
    GasLimit,
    ChainId,
    BaseFee,
    Log,
    Revert,
}

/// The id table of the guest ABI.
pub open spec fn syscall_id(s: Syscall) -> u64 {
    match s {
        Syscall::Return => 0x00,
        Syscall::SLoad => 0x01,
        Syscall::SStore => 0x02,
        Syscall::Call => 0x03,
        Syscall::Keccak256 => 0x20,
        Syscall::Origin => 0x32,
        Syscall::Caller => 0x33,
        Syscall::CallValue => 0x34,
        Syscall::GasPrice => 0x3a,
        Syscall::Timestamp => 0x42,
        Syscall::Number => 0x43,
        Syscall::GasLimit => 0x45,
        Syscall::ChainId => 0x46,
        Syscall::BaseFee => 0x48,
        Syscall::Log => 0xa0,
        Syscall::Revert => 0xfd,
    }
}

/// The system call that an id names, if any.
pub open spec fn syscall_of(id: u64) -> Option<Syscall> {
    if exists|s: Syscall| syscall_id(s) == id {
        Some(choose|s: Syscall| syscall_id(s) == id)
    } else {
        None
    }
}

impl Syscall {
    /// Whether the call ends the guest's current run (the frame yields to the host).
    pub open spec fn leaves_frame(self) -> bool {
        self == Syscall::Return || self == Syscall::Revert || self == Syscall::Call
    }

    /// The id of this system call.
    pub fn id(self) -> (r: u64)
        ensures
            r == syscall_id(self),
    {
        match self {
            Syscall::Return => 0x00,
            Syscall::SLoad => 0x01,
            Syscall::SStore => 0x02,
            Syscall::Call => 0x03,
            Syscall::Keccak256 => 0x20,
            Syscall::Origin => 0x32,
            Syscall::Caller => 0x33,
            Syscall::CallValue => 0x34,
            Syscall::GasPrice => 0x3a,
            Syscall::Timestamp => 0x42,
            Syscall::Number => 0x43,
            Syscall::GasLimit => 0x45,
            Syscall::ChainId => 0x46,
            Syscall::BaseFee => 0x48,
            Syscall::Log => 0xa0,
            Syscall::Revert => 0xfd,
        }
    }

    /// Decodes a system call id; an id outside the table gives `None`.
    pub fn from_id(id: u64) -> (r: Option<Syscall>)
        ensures
            r == syscall_of(id),
            r.is_some() ==> syscall_id(r.unwrap()) == id,
            r.is_none() ==> forall|s: Syscall| syscall_id(s) != id,
    {
        let r = if id == 0x00 {
            Some(Syscall::Return)
        } else if id == 0x01 {
            Some(Syscall::SLoad)
        } else if id == 0x02 {
            Some(Syscall::SStore)
        } else if id == 0x03 {
            Some(Syscall::Call)
        } else if id == 0x20 {
            Some(Syscall::Keccak256)
        } else if id == 0x32 {
            Some(Syscall::Origin)
        } else if id == 0x33 {
            Some(Syscall::Caller)
        } else if id == 0x34 {
            Some(Syscall::CallValue)
        } else if id == 0x3a {
            Some(Syscall::GasPrice)
        } else if id == 0x42 {
            Some(Syscall::Timestamp)
        } else if id == 0x43 {
            Some(Syscall::Number)
        } else if id == 0x45 {
            Some(Syscall::GasLimit)
        } else if id == 0x46 {
            Some(Syscall::ChainId)
        } else if id == 0x48 {
            Some(Syscall::BaseFee)
        } else if id == 0xa0 {
            Some(Syscall::Log)
        } else if id == 0xfd {
            Some(Syscall::Revert)
        } else {
            None
        };
        proof {
            lemma_ids_distinct();
            match r {
                Some(s) => {
                    assert(syscall_id(s) == id);
                }
                None => {
                    assert forall|s: Syscall| syscall_id(s) != id by {
                        match s {
                            _ => {}
                        }
                    }
                }
            }
        }
        r
    }
}

/// Distinct system calls have distinct ids.
pub proof fn lemma_ids_distinct()
    ensures
        forall|a: Syscall, b: Syscall| syscall_id(a) == syscall_id(b) ==> a == b,
{
    assert forall|a: Syscall, b: Syscall| syscall_id(a) == syscall_id(b) implies a == b by {
        match a {
            _ => match b {
                _ => {}
            },
        }
    }
}

} // verus!
