//! The headers of a NetWare 386 partition.

use vstd::prelude::*;

use crate::bytes::le32;
use crate::nwfs386::parser::{
    is_hotfix, is_mirror, is_volumes, volumes_fault, Hotfix, Mirror, Volumes, HOTFIX_SIZE,
    MIRROR_SIZE,
};
use crate::types::{NetWareError, SECTOR_SIZE};

verus! {

/// Offset of the hotfix header from the start of the partition.
pub const HOTFIX_OFFSET: u64 = 0x4000;

/// Size of the area that holds the volume segment table.
pub const VOLUME_SIZE: u64 = 4 * 16384;

/// The headers of a partition, and where its data blocks begin.
#[derive(Debug)]
pub struct NWPartition {
    pub hotfix: Hotfix,
    pub mirror: Mirror,
    pub volumes: Volumes,
    pub first_data_block_offset: u64,
}

/// The offset of the volume segment table of the partition that starts at
/// `start`: the redirection area, whose size the hotfix header gives in
/// sectors, lies between the hotfix header and the table.
pub open spec fn volume_table_offset(s: Seq<u8>, start: int) -> int {
    start + HOTFIX_OFFSET + le32(s, start + HOTFIX_OFFSET + 24) * SECTOR_SIZE
}

/// The offset of the first data block of the partition that starts at
/// `start`.
pub open spec fn data_area_offset(s: Seq<u8>, start: int) -> int {
    volume_table_offset(s, start) + VOLUME_SIZE
}

/// What stops the decoding of the headers of the partition that starts at
/// `start`, if anything does.
pub open spec fn partition_fault(s: Seq<u8>, start: int) -> Option<NetWareError> {
    if start + HOTFIX_OFFSET + HOTFIX_SIZE > s.len() {
        Some(NetWareError::IoError)
    } else if start + HOTFIX_OFFSET + SECTOR_SIZE + MIRROR_SIZE > s.len() {
        Some(NetWareError::IoError)
    } else if volumes_fault(s, volume_table_offset(s, start)) is Some {
        volumes_fault(s, volume_table_offset(s, start))
    } else if data_area_offset(s, start) > u64::MAX {
        Some(NetWareError::IoError)
    } else {
        None
    }
}

/// Whether `p` holds the headers of the partition that starts at `start`.
pub open spec fn is_partition(p: NWPartition, s: Seq<u8>, start: int) -> bool {
    &&& is_hotfix(p.hotfix, s, start + HOTFIX_OFFSET)
    &&& is_mirror(p.mirror, s, start + HOTFIX_OFFSET + SECTOR_SIZE)
    &&& is_volumes(p.volumes, s, volume_table_offset(s, start))
    &&& p.first_data_block_offset == data_area_offset(s, start)
}

impl NWPartition {
    /// Decodes the headers of the partition that starts at `start_offset`:
    /// the hotfix header, the mirror header one sector after it, and the
    /// volume segment table behind the redirection area.
    pub fn new(image: &[u8], start_offset: u64) -> (r: Result<NWPartition, NetWareError>)
        ensures
            match r {
                Ok(p) => partition_fault(image@, start_offset as int) is None && is_partition(
                    p,
                    image@,
                    start_offset as int,
                ),
                Err(e) => partition_fault(image@, start_offset as int) == Some(e),
            },
    {
        assert(image@.len() <= u64::MAX) by {
            let n = image.len();
        }
        let hotfix_offset = match start_offset.checked_add(HOTFIX_OFFSET) {
            Some(offset) => offset,
            None => { return Err(NetWareError::IoError); },
        };
        let hotfix = Hotfix::new(image, hotfix_offset)?;
        let mirror_offset = match hotfix_offset.checked_add(SECTOR_SIZE) {
            Some(offset) => offset,
            None => { return Err(NetWareError::IoError); },
        };
        let mirror = Mirror::new(image, mirror_offset)?;
        let redir_size = hotfix.redir_area_sectors as u64 * SECTOR_SIZE;
        let volume_offset = match hotfix_offset.checked_add(redir_size) {
            Some(offset) => offset,
            None => { return Err(NetWareError::IoError); },
        };
        let volumes = Volumes::new(image, volume_offset)?;
        let first_data_block_offset = match volume_offset.checked_add(VOLUME_SIZE) {
            Some(offset) => offset,
            None => { return Err(NetWareError::IoError); },
        };
        Ok(NWPartition { hotfix, mirror, volumes, first_data_block_offset })
    }
}

} // verus!
