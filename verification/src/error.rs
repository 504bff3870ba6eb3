//! The error kinds of the call paths.  Each failing path is reported to the
//! caller as a one-element encoded stream holding an error value with the
//! kind's message.

use vstd::prelude::*;
use crate::sos::{JustError, SosData, enc_list_len};

verus! {

/// What went wrong on a call path.
#[derive(Debug, Clone, Copy, PartialEq, Eq, Structural)]
pub enum KError {
    /// The argument stream held fewer values than the call needs.
    NotEnoughArguments,
    /// An argument had the wrong type for its position.
    BadArgumentType,
    /// The module exports no function of that name.
    NoSuchFunction,
    /// No module of that name is loaded or loadable.
    NoSuchModule,
    /// A cast was aimed at a fuse-only endpoint.
    CastOnFuseOnly,
    /// A fuse was aimed at a cast-only endpoint.
    FuseOnCastOnly,
    /// Out of frames or reservation space.
    AllocationFailure,
    /// A translation was missing where a mapping was required.
    MapFailure,
    /// A user pointer failed the present and user-accessible walk.
    InvalidMemoryRange,
    /// A reserved reply.
    NotImplemented,
    /// A malformed stream, header, or wire frame.
    Protocol,
}

/// The words each kind travels as.
pub open spec fn spec_message(e: KError) -> Seq<char> {
    match e {
        KError::NotEnoughArguments => "Not enough arguments"@,
        KError::BadArgumentType => "Bad argument type"@,
        KError::NoSuchFunction => "No such function"@,
        KError::NoSuchModule => "No such module"@,
        KError::CastOnFuseOnly => "Attempt to cast to a fuse only function"@,
        KError::FuseOnCastOnly => "Attempt to fuse to a cast only function"@,
        KError::AllocationFailure => "Allocation failure"@,
        KError::MapFailure => "Map failure"@,
        KError::InvalidMemoryRange => "Invalid memory address"@,
        KError::NotImplemented => "Not implemented"@,
        KError::Protocol => "Protocol error"@,
    }
}

/// The message's UTF-8 bytes: what an error payload carries.
pub open spec fn spec_message_bytes(e: KError) -> Seq<u8> {
    vstd::utf8::encode_utf8(spec_message(e))
}

impl KError {
    /// The text the error travels as.
    pub fn message(&self) -> (m: &'static str)
        ensures
            vstd::string::is_ascii(m),
            m@.len() <= 64,
            m@ == spec_message(*self),
    {
        match self {
            KError::NotEnoughArguments => {
                let m = "Not enough arguments";
                proof {
                    reveal_strlit("Not enough arguments");
                }
                m
            },
            KError::BadArgumentType => {
                let m = "Bad argument type";
                proof {
                    reveal_strlit("Bad argument type");
                }
                m
            },
            KError::NoSuchFunction => {
                let m = "No such function";
                proof {
                    reveal_strlit("No such function");
                }
                m
            },
            KError::NoSuchModule => {
                let m = "No such module";
                proof {
                    reveal_strlit("No such module");
                }
                m
            },
            KError::CastOnFuseOnly => {
                let m = "Attempt to cast to a fuse only function";
                proof {
                    reveal_strlit("Attempt to cast to a fuse only function");
                }
                m
            },
            KError::FuseOnCastOnly => {
                let m = "Attempt to fuse to a cast only function";
                proof {
                    reveal_strlit("Attempt to fuse to a cast only function");
                }
                m
            },
            KError::AllocationFailure => {
                let m = "Allocation failure";
                proof {
                    reveal_strlit("Allocation failure");
                }
                m
            },
            KError::MapFailure => {
                let m = "Map failure";
                proof {
                    reveal_strlit("Map failure");
                }
                m
            },
            KError::InvalidMemoryRange => {
                let m = "Invalid memory address";
                proof {
                    reveal_strlit("Invalid memory address");
                }
                m
            },
            KError::NotImplemented => {
                let m = "Not implemented";
                proof {
                    reveal_strlit("Not implemented");
                }
                m
            },
            KError::Protocol => {
                let m = "Protocol error";
                proof {
                    reveal_strlit("Protocol error");
                }
                m
            },
        }
    }

    /// The error as a one-element error payload, ready to encode.
    pub fn to_payload(&self) -> (r: JustError)
        ensures
            r.wf(),
            r.model() == seq![SosData::Error(spec_message_bytes(*self))],
            enc_list_len(r.model()) == 14 + spec_message_bytes(*self).len(),
            spec_message_bytes(*self).len() <= 64,
    {
        let m = self.message();
        proof {
            vstd::string::is_ascii_spec_bytes(m);
        }
        let r = JustError::new(m);
        proof {
            assert(r.model() =~= seq![SosData::Error(spec_message_bytes(*self))]);
            assert(enc_list_len(r.model()) == 14 + spec_message_bytes(*self).len());
        }
        r
    }
}

} // verus!
