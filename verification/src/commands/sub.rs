//! The sub-command bytes that open the payload of a command frame.
use vstd::prelude::*;

verus! {

pub const REBOOT: u8 = 0x00;

pub const VERSION: u8 = 0x01;

pub const GET_STORAGE_INFO: u8 = 0x02;

pub const GET_TRACKS_INFO: u8 = 0x03;

pub const GET_DEVICE_CONFIG: u8 = 0x04;

/// Payload: `{"album":"A1"}`.
pub const GET_ALBUM_CONFIG: u8 = 0x05;

/// Payload: `{"album":"A1","track":"T1"}`.
pub const GET_TRACK_CONFIG: u8 = 0x06;

pub const GET_ALBUM_COVER: u8 = 0x07;

/// Payload: `{"album":"A4"}`. Creates the slot if it does not exist.
pub const ADD_ALBUM: u8 = 0x08;

pub const DELETE_ALBUM: u8 = 0x09;

pub const DELETE_TRACK: u8 = 0x0a;

pub const GET_MUSIC_FILE: u8 = 0x0b;

pub const GET_RECORDING_SLOTS: u8 = 0x0c;

pub const GET_RECORDING: u8 = 0x0d;

pub const DELETE_RECORDING: u8 = 0x0e;

pub const RENAME_ALBUM: u8 = 0x0f;

pub const MOVE_TRACK: u8 = 0x10;

pub const GET_STATE_OF_CHARGE: u8 = 0x11;

/// Payload: `{"challenge":1}`. The authentication handshake.
pub const CHALLENGE: u8 = 0x12;

/// The bytes that the library walk uses, under the names of its steps.
pub const SESSION_BEGIN: u8 = REBOOT;

pub const SESSION_END: u8 = GET_STORAGE_INFO;

pub const ENUM_BEGIN: u8 = GET_TRACKS_INFO;

pub const SELECT_ALBUM: u8 = GET_ALBUM_CONFIG;

pub const SELECT_TRACK: u8 = GET_TRACK_CONFIG;

} // verus!
