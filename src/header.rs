//! The fixed 16-byte archive header and the placement of the entry table.

use crate::error::RpfError;
use crate::le::{read_u32_at, u32_le};
use vstd::prelude::*;

verus! {

/// The first header word of every RPF7 archive, read little-endian.
pub const RPF7_MAGIC: u32 = 0x52504637;

/// Encryption marker of an archive that is stored in the clear.
pub const ENCRYPTION_OPEN: u32 = 0x4E45504F;

/// Encryption marker of AES-encrypted archives.
pub const ENCRYPTION_AES: u32 = 0x0FFFFFF9;

/// Encryption marker of NG-encrypted archives.
pub const ENCRYPTION_NG: u32 = 0x0FEFFFFF;

/// Byte length of the header.
pub const HEADER_LEN: usize = 16;

/// Byte length of one slot of the entry table.
pub const SLOT_LEN: u64 = 16;

/// Where the entry table conventionally starts, and where the probe is taken.
pub const STANDARD_TABLE_START: u64 = 2048;

/// Where the entry table starts when the probe finds only zero bytes.
pub const COMPACT_TABLE_START: u64 = 16;

/// Archives with fewer entries than this are probed for the compact layout.
pub const PROBE_ENTRY_LIMIT: u32 = 100;

/// Byte length of the probe window.
pub const PROBE_LEN: usize = 16;

/// The archive header: four little-endian words.
#[derive(Debug, Clone, Copy, PartialEq, Eq, Structural)]
pub struct RpfHeader {
    pub version: u32,
    pub entry_count: u32,
    pub names_length: u32,
    pub encryption: u32,
}

/// Every byte of `s` is zero.
pub open spec fn all_zero(s: Seq<u8>) -> bool {
    forall|i: int| 0 <= i < s.len() ==> s[i] == 0
}

impl RpfHeader {
    /// Decodes the header from the first bytes of an archive.
    pub fn parse(b: &[u8]) -> (r: Result<RpfHeader, RpfError>)
        ensures
            b@.len() < 4 ==> r == Err::<RpfHeader, RpfError>(RpfError::ShortInput),
            b@.len() >= 4 && u32_le(b@, 0) != RPF7_MAGIC ==> r == Err::<RpfHeader, RpfError>(
                RpfError::BadMagic(u32_le(b@, 0)),
            ),
            b@.len() >= 4 && u32_le(b@, 0) == RPF7_MAGIC && b@.len() < 16 ==> r == Err::<
                RpfHeader,
                RpfError,
            >(RpfError::ShortInput),
            b@.len() >= 16 && u32_le(b@, 0) == RPF7_MAGIC ==> r == Ok::<RpfHeader, RpfError>(
                RpfHeader {
                    version: RPF7_MAGIC,
                    entry_count: u32_le(b@, 4),
                    names_length: u32_le(b@, 8),
                    encryption: u32_le(b@, 12),
                },
            ),
    {
        if b.len() < 4 {
            return Err(RpfError::ShortInput);
        }
        let version = read_u32_at(b, 0);
        if version != RPF7_MAGIC {
            return Err(RpfError::BadMagic(version));
        }
        if b.len() < HEADER_LEN {
            return Err(RpfError::ShortInput);
        }
        let entry_count = read_u32_at(b, 4);
        let names_length = read_u32_at(b, 8);
        let encryption = read_u32_at(b, 12);
        Ok(RpfHeader { version, entry_count, names_length, encryption })
    }

    /// True when the encryption marker says the archive is stored in the clear.
    pub fn is_unencrypted(&self) -> (r: bool)
        ensures
            r == (self.encryption == ENCRYPTION_OPEN || self.encryption == 0),
    {
        self.encryption == ENCRYPTION_OPEN || self.encryption == 0
    }

    /// A short name for the encryption marker.
    pub fn encryption_name(&self) -> (r: &'static str)
        ensures
            self.encryption == ENCRYPTION_OPEN ==> r@ == "OPEN (No encryption)"@,
            self.encryption == 0 ==> r@ == "NONE"@,
            self.encryption == ENCRYPTION_AES ==> r@ == "AES"@,
            self.encryption == ENCRYPTION_NG ==> r@ == "NG"@,
            self.encryption != ENCRYPTION_OPEN && self.encryption != 0 && self.encryption
                != ENCRYPTION_AES && self.encryption != ENCRYPTION_NG ==> r@ == "Unknown"@,
    {
        if self.encryption == ENCRYPTION_OPEN {
            "OPEN (No encryption)"
        } else if self.encryption == 0 {
            "NONE"
        } else if self.encryption == ENCRYPTION_AES {
            "AES"
        } else if self.encryption == ENCRYPTION_NG {
            "NG"
        } else {
            "Unknown"
        }
    }

    /// True when the entry table's start must be decided by a probe at the
    /// standard offset.
    pub fn needs_table_probe(&self) -> (r: bool)
        ensures
            r == (self.entry_count < PROBE_ENTRY_LIMIT),
    {
        self.entry_count < PROBE_ENTRY_LIMIT
    }

    /// Byte length of the entry table.
    pub fn entry_table_len(&self) -> (r: u64)
        ensures
            r == self.entry_count as u64 * SLOT_LEN,
    {
        self.entry_count as u64 * SLOT_LEN
    }
}

/// Where the entry table starts: the compact offset only when the archive is
/// small and the probe window read at the standard offset is entirely zero.
pub open spec fn table_start(header: RpfHeader, probe: Seq<u8>) -> u64 {
    if header.entry_count < PROBE_ENTRY_LIMIT && all_zero(probe) {
        COMPACT_TABLE_START
    } else {
        STANDARD_TABLE_START
    }
}

/// Decides where the entry table starts, given the bytes of the probe window
/// (read at the standard offset; only looked at for small archives).
pub fn resolve_table_start(header: &RpfHeader, probe: &[u8]) -> (r: u64)
    ensures
        r == table_start(*header, probe@),
{
    if header.entry_count >= PROBE_ENTRY_LIMIT {
        return STANDARD_TABLE_START;
    }
    let mut i: usize = 0;
    while i < probe.len()
        invariant
            i <= probe@.len(),
            forall|j: int| 0 <= j < i ==> probe@[j] == 0,
        decreases probe@.len() - i,
    {
        if probe[i] != 0 {
            return STANDARD_TABLE_START;
        }
        i += 1;
    }
    COMPACT_TABLE_START
}

} // verus!
