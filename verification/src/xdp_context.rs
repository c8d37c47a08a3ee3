//! What the portal dispatcher hands a method handler.

use vstd::prelude::*;

verus! {

/// A method invocation received from a client.
#[derive(Debug, Clone)]
pub struct MethodInvocation {
    /// The message serial.
    pub serial: u32,
    /// The caller's unique bus name.
    pub sender: String,
    /// The object path the method was called on.
    pub path: String,
    /// The interface the method belongs to.
    pub interface: String,
    /// The method name.
    pub member: String,
    /// The body signature.
    pub body_signature: String,
    /// The raw body bytes.
    pub body: Vec<u8>,
    /// File descriptors attached to the message.
    pub fds: Vec<i32>,
}

} // verus!
