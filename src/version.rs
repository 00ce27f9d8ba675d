//! The dialect of a table, read from its first byte.
use vstd::prelude::*;

use crate::error::DbfError;

verus! {

/// A member of the dBase family of table formats.
#[derive(Debug, Clone, Copy, PartialEq, Eq, Structural)]
pub enum Version {
    FoxBase,
    DBase3,
    DBase4,
    VisualFoxPro,
    FoxPro2,
}

/// The dialect that a signature byte announces, if any.
pub open spec fn version_of(b: u8) -> Option<Version> {
    if b == 0x02 {
        Some(Version::FoxBase)
    } else if b == 0x03 || b == 0x83 {
        Some(Version::DBase3)
    } else if b == 0x30 || b == 0x31 || b == 0x32 {
        Some(Version::VisualFoxPro)
    } else if b == 0x43 || b == 0x63 || b == 0x8B || b == 0xCB {
        Some(Version::DBase4)
    } else if b == 0xF5 || b == 0xFB {
        Some(Version::FoxPro2)
    } else {
        None
    }
}

impl Version {
    /// Classifies a signature byte; an unknown byte is an unsupported version.
    pub fn try_from(value: u8) -> (r: Result<Version, DbfError>)
        ensures
            match version_of(value) {
                Some(v) => r == Ok::<Version, DbfError>(v),
                None => r == Err::<Version, DbfError>(DbfError::UnsupportedVersion(value)),
            },
    {
        match value {
            0x02 => Ok(Version::FoxBase),
            0x03 | 0x83 => Ok(Version::DBase3),
            0x30 | 0x31 | 0x32 => Ok(Version::VisualFoxPro),
            0x43 | 0x63 | 0x8B | 0xCB => Ok(Version::DBase4),
            0xF5 | 0xFB => Ok(Version::FoxPro2),
            _ => Err(DbfError::UnsupportedVersion(value)),
        }
    }
}

} // verus!
