use vstd::prelude::*;

verus! {

/// Why a frame could not be read or a request could not be served.
#[derive(Clone, Copy, Debug, PartialEq, Eq, Structural)]
pub enum Socks6Error {
    /// The buffer ends before the frame does; more bytes are needed.
    Incomplete,
    /// The peer speaks another SOCKS version.
    VersionMismatch,
    /// The command is not CONNECT.
    UnsupportedCommand,
    MalformedAddress,
    MalformedOptions,
    /// The authentication status was not success.
    AuthFailed(u8),
    /// The operation reply carried a code other than success.
    ReplyError(u8),
    /// The chain metadata is present but malformed.
    ChainConfigInvalid,
    /// A username or password is empty or longer than 255 bytes.
    CredentialTooLong,
}

} // verus!
