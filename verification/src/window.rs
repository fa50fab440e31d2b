//! Window values: the geometry rectangle and the window record carried by
//! configure events, with their fixed-size wire forms, and the window-control
//! requests a plugin can ask the host to perform.

use crate::encoding::{
    i16_from_le_bytes, i16_to_le_bytes, spec_i16_from_le_bytes, spec_i16_to_le_bytes, write_prefix,
    DecodeError, EncodeError,
};
use crate::event::Command;
use crate::imports::ErrorCode;
use vstd::bytes::*;
use vstd::prelude::*;
use vstd::slice::slice_subrange;

verus! {

/// Identifier the display server assigns to a window.
pub type WindowId = u32;

/// Position and size of a window.
#[derive(Clone, Copy, Debug, Hash, PartialEq, Eq, Structural)]
pub struct Geometry {
    pub x: i16,
    pub y: i16,
    pub width: u16,
    pub height: u16,
}

impl Geometry {
    /// Wire form: x, y, width, height, each two bytes little-endian.
    pub open spec fn spec_bytes(self) -> Seq<u8> {
        spec_i16_to_le_bytes(self.x) + spec_i16_to_le_bytes(self.y) + spec_u16_to_le_bytes(
            self.width,
        ) + spec_u16_to_le_bytes(self.height)
    }

    /// The geometry a buffer decodes to; bytes past the first eight are ignored.
    pub open spec fn spec_of_bytes(b: Seq<u8>) -> Option<Geometry> {
        if b.len() < 8 {
            None
        } else {
            Some(
                Geometry {
                    x: spec_i16_from_le_bytes(b.subrange(0, 2)),
                    y: spec_i16_from_le_bytes(b.subrange(2, 4)),
                    width: spec_u16_from_le_bytes(b.subrange(4, 6)),
                    height: spec_u16_from_le_bytes(b.subrange(6, 8)),
                },
            )
        }
    }

    /// Number of bytes the wire form takes.
    pub fn encoded_size(&self) -> (n: usize)
        ensures
            n == self.spec_bytes().len(),
    {
        proof {
            crate::encoding::lemma_auto_spec_i16_to_from_le_bytes();
            lemma_auto_spec_u16_to_from_le_bytes();
        }
        8
    }

    /// Encode into a fresh buffer of exactly the encoded size.
    pub fn encode_to_vec(&self) -> (r: Vec<u8>)
        ensures
            r@ == self.spec_bytes(),
    {
        let mut r = i16_to_le_bytes(self.x);
        let mut t = i16_to_le_bytes(self.y);
        r.append(&mut t);
        let mut t = u16_to_le_bytes(self.width);
        r.append(&mut t);
        let mut t = u16_to_le_bytes(self.height);
        r.append(&mut t);
        proof {
            assert(r@ =~= self.spec_bytes());
        }
        r
    }

    /// Encode into the front of a caller-supplied buffer.
    pub fn encode_to(&self, buffer: &mut Vec<u8>) -> (r: Result<(), EncodeError>)
        ensures
            r is Ok <==> old(buffer).len() >= self.spec_bytes().len(),
            r is Ok ==> final(buffer)@ == self.spec_bytes() + old(buffer)@.skip(
                self.spec_bytes().len() as int,
            ),
            r is Err ==> final(buffer)@ == old(buffer)@ && r == Err::<(), EncodeError>(
                EncodeError::BufferSize,
            ),
    {
        let bytes = self.encode_to_vec();
        write_prefix(buffer, &bytes)
    }

    /// Decode a geometry from the front of `buffer`.
    pub fn decode(buffer: &[u8]) -> (r: Result<Geometry, DecodeError>)
        ensures
            (r is Ok) == (Geometry::spec_of_bytes(buffer@) is Some),
            r matches Ok(g) ==> Geometry::spec_of_bytes(buffer@) == Some(g),
            r matches Err(e) ==> e == DecodeError::BadFormat,
    {
        if buffer.len() < 8 {
            return Err(DecodeError::BadFormat);
        }
        Ok(
            Geometry {
                x: i16_from_le_bytes(slice_subrange(buffer, 0, 2)),
                y: i16_from_le_bytes(slice_subrange(buffer, 2, 4)),
                width: u16_from_le_bytes(slice_subrange(buffer, 4, 6)),
                height: u16_from_le_bytes(slice_subrange(buffer, 6, 8)),
            },
        )
    }
}

/// A window as the event producer reports it: identifier plus geometry.
#[derive(Clone, Copy, Debug, Hash, PartialEq, Eq, Structural)]
pub struct Window {
    pub id: WindowId,
    pub geometry: Geometry,
}

impl Window {
    /// Wire form: the identifier as four little-endian bytes, then the geometry.
    pub open spec fn spec_bytes(self) -> Seq<u8> {
        spec_u32_to_le_bytes(self.id) + self.geometry.spec_bytes()
    }

    /// The window a buffer decodes to; bytes past the first twelve are ignored.
    pub open spec fn spec_of_bytes(b: Seq<u8>) -> Option<Window> {
        if b.len() < 12 {
            None
        } else {
            match Geometry::spec_of_bytes(b.skip(4)) {
                Some(g) => Some(Window { id: spec_u32_from_le_bytes(b.subrange(0, 4)), geometry: g }),
                None => None,
            }
        }
    }

    /// Number of bytes the wire form takes.
    pub fn encoded_size(&self) -> (n: usize)
        ensures
            n == self.spec_bytes().len(),
    {
        proof {
            crate::encoding::lemma_auto_spec_i16_to_from_le_bytes();
            lemma_auto_spec_u16_to_from_le_bytes();
            lemma_auto_spec_u32_to_from_le_bytes();
        }
        let g = self.geometry.encoded_size();
        4 + g
    }

    /// Encode into a fresh buffer of exactly the encoded size.
    pub fn encode_to_vec(&self) -> (r: Vec<u8>)
        ensures
            r@ == self.spec_bytes(),
    {
        let mut r = u32_to_le_bytes(self.id);
        let mut t = self.geometry.encode_to_vec();
        r.append(&mut t);
        proof {
            assert(r@ =~= self.spec_bytes());
        }
        r
    }

    /// Encode into the front of a caller-supplied buffer.
    pub fn encode_to(&self, buffer: &mut Vec<u8>) -> (r: Result<(), EncodeError>)
        ensures
            r is Ok <==> old(buffer).len() >= self.spec_bytes().len(),
            r is Ok ==> final(buffer)@ == self.spec_bytes() + old(buffer)@.skip(
                self.spec_bytes().len() as int,
            ),
            r is Err ==> final(buffer)@ == old(buffer)@ && r == Err::<(), EncodeError>(
                EncodeError::BufferSize,
            ),
    {
        let bytes = self.encode_to_vec();
        write_prefix(buffer, &bytes)
    }

    /// Decode a window from the front of `buffer`.
    pub fn decode(buffer: &[u8]) -> (r: Result<Window, DecodeError>)
        ensures
            (r is Ok) == (Window::spec_of_bytes(buffer@) is Some),
            r matches Ok(w) ==> Window::spec_of_bytes(buffer@) == Some(w),
            r matches Err(e) ==> e == DecodeError::BadFormat,
    {
        if buffer.len() < 12 {
            return Err(DecodeError::BadFormat);
        }
        let id = u32_from_le_bytes(slice_subrange(buffer, 0, 4));
        let rest = slice_subrange(buffer, 4, buffer.len());
        proof {
            assert(rest@ =~= buffer@.skip(4));
        }
        match Geometry::decode(rest) {
            Ok(geometry) => Ok(Window { id, geometry }),
            Err(e) => Err(e),
        }
    }
}

/// Law: decoding the wire form of any geometry gives that geometry back.
pub proof fn lemma_geometry_round_trip(g: Geometry)
    ensures
        Geometry::spec_of_bytes(g.spec_bytes()) == Some(g),
        g.spec_bytes().len() == 8,
{
    crate::encoding::lemma_auto_spec_i16_to_from_le_bytes();
    lemma_auto_spec_u16_to_from_le_bytes();
    let b = g.spec_bytes();
    assert(b.subrange(0, 2) =~= spec_i16_to_le_bytes(g.x));
    assert(b.subrange(2, 4) =~= spec_i16_to_le_bytes(g.y));
    assert(b.subrange(4, 6) =~= spec_u16_to_le_bytes(g.width));
    assert(b.subrange(6, 8) =~= spec_u16_to_le_bytes(g.height));
}

/// Law: decoding the wire form of any window gives that window back.
pub proof fn lemma_window_round_trip(w: Window)
    ensures
        Window::spec_of_bytes(w.spec_bytes()) == Some(w),
        w.spec_bytes().len() == 12,
{
    lemma_auto_spec_u32_to_from_le_bytes();
    lemma_geometry_round_trip(w.geometry);
    let b = w.spec_bytes();
    assert(b.subrange(0, 4) =~= spec_u32_to_le_bytes(w.id));
    assert(b.skip(4) =~= w.geometry.spec_bytes());
}


/// A window-control request a plugin asks the host to perform against the
/// display server.
#[derive(Clone, Copy, Debug, PartialEq, Eq)]
pub enum WindowRequest {
    /// Change position, size, or both; absent fields are left as they are.
    Configure {
        id: WindowId,
        x: Option<i16>,
        y: Option<i16>,
        width: Option<u16>,
        height: Option<u16>,
    },
    /// Raise the window to the top of the stack and give it input focus.
    RaiseAndFocus { id: WindowId },
    /// Ask the window to close itself with a delete-window client message.
    Close { id: WindowId },
}

impl WindowRequest {
    /// The command to forward when window control goes over the command
    /// channel instead of straight to the display server.
    pub fn command(&self) -> (r: Option<Command>)
        ensures
            *self matches WindowRequest::Configure { id, x, y, width, height } ==> r == Some(
                Command::ConfigureWindow { id, x, y, width, height },
            ),
            !(*self matches WindowRequest::Configure { .. }) ==> r is None,
    {
        match self {
            WindowRequest::Configure { id, x, y, width, height } => Some(
                Command::ConfigureWindow {
                    id: *id,
                    x: *x,
                    y: *y,
                    width: *width,
                    height: *height,
                },
            ),
            WindowRequest::RaiseAndFocus { .. } => None,
            WindowRequest::Close { .. } => None,
        }
    }
}

/// Host call `window_move`: reposition a window, leaving its size alone.
pub fn move_to(id: WindowId, x: i16, y: i16) -> (r: WindowRequest)
    ensures
        r == (WindowRequest::Configure {
            id,
            x: Some(x),
            y: Some(y),
            width: None,
            height: None,
        }),
{
    WindowRequest::Configure { id, x: Some(x), y: Some(y), width: None, height: None }
}

/// Host call `window_resize`: resize a window, leaving its position alone.
pub fn resize(id: WindowId, width: u16, height: u16) -> (r: WindowRequest)
    ensures
        r == (WindowRequest::Configure {
            id,
            x: None,
            y: None,
            width: Some(width),
            height: Some(height),
        }),
{
    WindowRequest::Configure { id, x: None, y: None, width: Some(width), height: Some(height) }
}

/// Host call `window_move_resize`: set a window's whole geometry.
pub fn set_geometry(id: WindowId, geometry: Geometry) -> (r: WindowRequest)
    ensures
        r == (WindowRequest::Configure {
            id,
            x: Some(geometry.x),
            y: Some(geometry.y),
            width: Some(geometry.width),
            height: Some(geometry.height),
        }),
{
    WindowRequest::Configure {
        id,
        x: Some(geometry.x),
        y: Some(geometry.y),
        width: Some(geometry.width),
        height: Some(geometry.height),
    }
}

/// Host call `window_focus`: raise a window and give it input focus.
pub fn focus(id: WindowId) -> (r: WindowRequest)
    ensures
        r == (WindowRequest::RaiseAndFocus { id }),
{
    WindowRequest::RaiseAndFocus { id }
}

/// Host call `window_close`: ask a window to close itself.
pub fn close(id: WindowId) -> (r: WindowRequest)
    ensures
        r == (WindowRequest::Close { id }),
{
    WindowRequest::Close { id }
}

/// How the display server answered a window request, reduced to the cases the
/// guests can tell apart.
#[derive(Clone, Copy, Debug, Hash, PartialEq, Eq, Structural)]
pub enum XReplyStatus {
    /// The request was carried out.
    Success,
    /// The named window does not exist.
    WindowNotFound,
    /// A parameter did not match what the request needs.
    BadMatch,
    /// The connection to the server broke.
    ConnectionLost,
    /// Any other server-side error.
    OtherError,
}

/// The host-call error a window request's outcome maps to.
pub fn reply_error(status: &XReplyStatus) -> (r: ErrorCode)
    ensures
        r == (match status {
            XReplyStatus::Success => ErrorCode::Success,
            XReplyStatus::WindowNotFound => ErrorCode::Window,
            XReplyStatus::BadMatch => ErrorCode::BadArgument,
            XReplyStatus::ConnectionLost => ErrorCode::Unknown,
            XReplyStatus::OtherError => ErrorCode::Unknown,
        }),
{
    match status {
        XReplyStatus::Success => ErrorCode::Success,
        XReplyStatus::WindowNotFound => ErrorCode::Window,
        XReplyStatus::BadMatch => ErrorCode::BadArgument,
        XReplyStatus::ConnectionLost => ErrorCode::Unknown,
        XReplyStatus::OtherError => ErrorCode::Unknown,
    }
}

} // verus!
