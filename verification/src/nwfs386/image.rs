//! The disk images that a volume is read from.

use vstd::prelude::*;

use crate::types::{NetWareError, SECTOR_SIZE};
use crate::util::{find_partition, scan_partitions, PartitionType};

verus! {

/// A disk image and the offset at which its NetWare 386 partition starts.
#[derive(Debug)]
pub struct Image {
    pub data: Vec<u8>,
    pub start_offset: u64,
}

/// The images of a session.
#[derive(Debug)]
pub struct ImageList {
    pub images: Vec<Image>,
}

/// The offset at which the NetWare 386 partition of `image` starts, if the
/// first NetWare partition of its partition table is one.
pub open spec fn netware386_start(image: Seq<u8>) -> Option<int> {
    match scan_partitions(image, 0) {
        Ok(Some((PartitionType::NetWare386, start_lba))) => Some(start_lba * SECTOR_SIZE),
        _ => None,
    }
}

impl ImageList {
    /// A list without images.
    pub fn new() -> (r: Self)
        ensures
            r.images@.len() == 0,
    {
        ImageList { images: Vec::new() }
    }

    /// Adds an image to the list, provided that it holds a NetWare 386
    /// partition.
    pub fn add_image(&mut self, data: Vec<u8>) -> (r: Result<(), NetWareError>)
        ensures
            match r {
                Ok(_) => netware386_start(data@) is Some && final(self).images@ == old(
                    self,
                ).images@.push(
                    Image { data, start_offset: netware386_start(data@).unwrap() as u64 },
                ),
                Err(e) => final(self).images@ == old(self).images@ && netware386_start(data@)
                    is None && match scan_partitions(data@, 0) {
                    Err(io) => e == io,
                    Ok(_) => e == NetWareError::NoPartition,
                },
            },
    {
        match find_partition(data.as_slice())? {
            Some((PartitionType::NetWare386, start_lba)) => {
                let start_offset = start_lba * SECTOR_SIZE;
                self.images.push(Image { data, start_offset });
                Ok(())
            },
            _ => Err(NetWareError::NoPartition),
        }
    }
}

} // verus!
