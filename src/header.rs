//! The fixed prologue at the start of a table.
use vstd::prelude::*;

use crate::bytes::{le_u16_at, le_u16_of, le_u32_at, le_u32_of};
use crate::error::DbfError;
use crate::model::Date;
use crate::version::{version_of, Version};

verus! {

/// What the first twelve bytes of a table declare.
#[derive(Debug, Clone, Copy, PartialEq, Eq, Structural)]
pub struct Header {
    pub version: Version,
    pub last_update: Date,
    pub record_count: u32,
    pub header_length: usize,
    pub record_length: usize,
}

/// Number of prologue bytes that the header occupies.
pub const HEADER_FIELDS_LENGTH: usize = 12;

/// `h` is the header that the prologue `buf` declares.
pub open spec fn header_matches(h: Header, buf: Seq<u8>) -> bool {
    &&& Some(h.version) == version_of(buf[0])
    &&& h.last_update == (Date { year: (buf[1] + 1900) as u16, month: buf[2], day: buf[3] })
    &&& h.record_count as int == le_u32_of(buf.subrange(4, 8))
    &&& h.header_length as int == le_u16_of(buf.subrange(8, 10))
    &&& h.record_length as int == le_u16_of(buf.subrange(10, 12))
}

impl Header {
    /// Decodes the prologue at the start of `buf`: signature, date of last
    /// change (year stored from 1900), record count, header length and
    /// record length, all little-endian.
    pub fn from_reader(buf: &[u8]) -> (r: Result<Header, DbfError>)
        ensures
            buf@.len() == 0 ==> r is Err && r->Err_0 is Io,
            buf@.len() > 0 && version_of(buf@[0]) is None ==> r is Err && r->Err_0
                == DbfError::UnsupportedVersion(buf@[0]),
            buf@.len() > 0 && version_of(buf@[0]) is Some && buf@.len() < 12 ==> r is Err
                && r->Err_0 is Io,
            r is Ok <==> buf@.len() >= 12 && version_of(buf@[0]) is Some,
            r is Ok ==> header_matches(r->Ok_0, buf@),
    {
        if buf.len() == 0 {
            return Err(DbfError::Io);
        }
        let version = Version::try_from(buf[0])?;
        if buf.len() < HEADER_FIELDS_LENGTH {
            return Err(DbfError::Io);
        }
        let last_update = Date::new(buf[1] as u16 + 1900, buf[2], buf[3]);
        let record_count = le_u32_at(buf, 4);
        let header_length = le_u16_at(buf, 8) as usize;
        let record_length = le_u16_at(buf, 10) as usize;
        Ok(Header { version, last_update, record_count, header_length, record_length })
    }
}

} // verus!
