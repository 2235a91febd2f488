use vstd::prelude::*;

verus! {

/// Errors of the stack: `Net` for device, protocol and interface failures,
/// `Intr` for the interrupt subsystem. Each carries a readable message.
#[derive(Debug)]
pub enum UtcpErr {
    Net(String),
    Intr(String),
}

pub type UtcpResult<T> = Result<T, UtcpErr>;

/// `r` failed with a `Net` error whose message is `m`.
pub open spec fn is_net_err<T>(r: UtcpResult<T>, m: Seq<char>) -> bool {
    r matches Err(UtcpErr::Net(s)) && s@ == m
}

/// `r` failed with an `Intr` error whose message is `m`.
pub open spec fn is_intr_err<T>(r: UtcpResult<T>, m: Seq<char>) -> bool {
    r matches Err(UtcpErr::Intr(s)) && s@ == m
}

pub fn net_err(msg: &str) -> (e: UtcpErr)
    ensures
        e matches UtcpErr::Net(s) && s@ == msg@,
{
    UtcpErr::Net(msg.to_owned())
}

pub fn intr_err(msg: &str) -> (e: UtcpErr)
    ensures
        e matches UtcpErr::Intr(s) && s@ == msg@,
{
    UtcpErr::Intr(msg.to_owned())
}

impl UtcpErr {
    /// The message carried by the error.
    pub fn message(&self) -> (r: &str)
        ensures
            self matches UtcpErr::Net(s) ==> r@ == s@,
            self matches UtcpErr::Intr(s) ==> r@ == s@,
    {
        match self {
            UtcpErr::Net(s) => s.as_str(),
            UtcpErr::Intr(s) => s.as_str(),
        }
    }
}

} // verus!
