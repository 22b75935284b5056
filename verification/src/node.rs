//! What a node does with a frame that a local client hands it: find the agent
//! that the message is addressed to.
use vstd::prelude::*;
use crate::message::{decode_view, MessageDecodeError, ZMessage};

verus! {

/// Why a hex string could not be decoded.
#[derive(Clone, Copy, Debug, PartialEq, Eq)]
pub enum HexError {
    /// The byte at `index` is not one of `0-9`, `a-f`, `A-F`.
    InvalidHexCharacter { c: char, index: usize },
    /// The string has an odd number of digits.
    OddLength,
    /// The decoded bytes do not fit the space given for them.
    InvalidStringLength,
}

/// The value of a hex digit, upper or lower case.
pub open spec fn hex_digit(c: u8) -> Option<nat> {
    if 0x30 <= c <= 0x39 {
        Some((c - 0x30) as nat)
    } else if 0x41 <= c <= 0x46 {
        Some((c - 0x41 + 10) as nat)
    } else if 0x61 <= c <= 0x66 {
        Some((c - 0x61 + 10) as nat)
    } else {
        None
    }
}

/// The index of the first byte of `s`, from `i` on, that is not a hex digit.
pub open spec fn first_non_hex_from(s: Seq<u8>, i: nat) -> Option<nat>
    decreases s.len() - i,
{
    if i >= s.len() {
        None
    } else if hex_digit(s[i as int]) is None {
        Some(i)
    } else {
        first_non_hex_from(s, i + 1)
    }
}

/// The bytes that the hex string `s` spells, two digits per byte, high digit
/// first; an odd length is refused first, then the first byte that is no digit.
pub open spec fn hex_decode_spec(s: Seq<u8>) -> Result<Seq<u8>, HexError> {
    if s.len() % 2 != 0 {
        Err(HexError::OddLength)
    } else {
        match first_non_hex_from(s, 0) {
            Some(i) => Err(HexError::InvalidHexCharacter { c: s[i as int] as char, index: i as usize }),
            None => Ok(
                Seq::new(
                    s.len() / 2,
                    |i: int|
                        (hex_digit(s[2 * i]).unwrap() * 16 + hex_digit(s[2 * i + 1]).unwrap()) as u8,
                ),
            ),
        }
    }
}

/// `hex::decode` on a byte string, its error told apart by variant: returns
/// exactly what `hex_decode_spec` describes.
#[verifier::external_body]
fn hex_decode(data: &[u8]) -> (res: Result<Vec<u8>, HexError>)
    ensures
        hex_decode_spec(data@) matches Ok(v) ==> res is Ok && res->Ok_0@ == v,
        hex_decode_spec(data@) matches Err(e) ==> res is Err && res->Err_0 == e,
{
    match hex::decode(data) {
        Ok(v) => Ok(v),
        Err(hex::FromHexError::InvalidHexCharacter { c, index }) => Err(
            HexError::InvalidHexCharacter { c, index },
        ),
        Err(hex::FromHexError::OddLength) => Err(HexError::OddLength),
        Err(hex::FromHexError::InvalidStringLength) => Err(HexError::InvalidStringLength),
    }
}

/// Why a frame could not be routed.
#[derive(Clone, Copy, Debug, PartialEq, Eq)]
pub enum RouteError {
    /// The frame is not an encoded `ZMessage`.
    Message(MessageDecodeError),
    /// The message's `to` field is not a hex string.
    Target(HexError),
}

/// Decodes a frame and the agent it is addressed to: the bytes that the hex
/// string in its `to` field spells.
pub fn route_target(frame: &[u8]) -> (res: Result<(ZMessage, Vec<u8>), RouteError>)
    ensures
        decode_view(frame@) is None ==> res == Err::<(ZMessage, Vec<u8>), RouteError>(
            RouteError::Message(MessageDecodeError),
        ),
        decode_view(frame@) matches Some(m) ==> match hex_decode_spec(m.to) {
            Ok(agent) => res matches Ok((msg, target)) && msg@ == m && target@ == agent,
            Err(e) => res == Err::<(ZMessage, Vec<u8>), RouteError>(RouteError::Target(e)),
        },
{
    let msg = match ZMessage::decode(frame) {
        Ok(m) => m,
        Err(e) => return Err(RouteError::Message(e)),
    };
    match hex_decode(msg.to.as_slice()) {
        Ok(target) => Ok((msg, target)),
        Err(e) => Err(RouteError::Target(e)),
    }
}

} // verus!
