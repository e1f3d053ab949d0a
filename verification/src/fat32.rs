//! Reading a FAT32 volume: the parameter block of the boot sector, the
//! place of a cluster and of its entry in the allocation table, and the walk
//! along a chain of clusters.

use crate::block::BlockDevice;
use vstd::prelude::*;

verus! {

/// The 16-bit number that stands at `at` in `bytes`, low byte first.
pub open spec fn le16(bytes: Seq<u8>, at: int) -> int {
    bytes[at] + 256 * bytes[at + 1]
}

/// The 32-bit number that stands at `at` in `bytes`, low byte first.
pub open spec fn le32(bytes: Seq<u8>, at: int) -> int {
    bytes[at] + 256 * bytes[at + 1] + 65536 * bytes[at + 2] + 16777216 * bytes[at + 3]
}

fn read_le16(bytes: &[u8], at: usize) -> (r: u16)
    requires
        at + 1 < bytes@.len(),
    ensures
        r == le16(bytes@, at as int),
{
    (bytes[at] as u16) + (bytes[at + 1] as u16) * 256
}

fn read_le32(bytes: &[u8], at: usize) -> (r: u32)
    requires
        at + 3 < bytes@.len(),
    ensures
        r == le32(bytes@, at as int),
{
    (bytes[at] as u32) + (bytes[at + 1] as u32) * 256 + (bytes[at + 2] as u32) * 65536 + (bytes[at
        + 3] as u32) * 16777216
}

/// Why a volume could not be opened.
#[derive(Debug, Clone, Copy, PartialEq, Eq, Structural)]
pub enum Fat32Error {
    /// The device did not hand out the boot sector.
    ReadFailed,
    /// The boot sector does not end in 0x55 0xaa.
    BadSignature,
}

/// The BIOS parameter block, as it stands packed at the start of the boot
/// sector.
#[derive(Debug, Clone, Copy)]
pub struct BiosParameterBlockPacked {
    pub jmp_boot: [u8; 3],
    pub oem_name: [u8; 8],
    pub bytes_per_sector: u16,
    pub sectors_per_cluster: u8,
    pub reserved_sectors: u16,
    pub fats: u8,
    pub max_root_dir_entries: u16,
    pub total_sectors_16: u16,
    pub media: u8,
    pub sectors_per_fat_16: u16,
    pub sectors_per_track: u16,
    pub heads: u16,
    pub hidden_sectors: u32,
    pub total_sectors_32: u32,
    pub sectors_per_fat_32: u32,
    pub extended_flags: u16,
    pub fat_version: u16,
    pub root_cluster: u32,
    pub fsinfo_sector: u16,
    pub backup_boot_sector: u16,
    pub drive_number: u8,
    pub boot_signature: u8,
    pub volume_id: u32,
    pub volume_label: [u8; 11],
    pub fat_type_label: [u8; 8],
}

/// `bpb` is what the first 90 bytes of `bytes` hold: every field at its
/// offset in the packed layout, numbers low byte first.
pub open spec fn bpb_of(bpb: BiosParameterBlockPacked, bytes: Seq<u8>) -> bool {
    &&& bpb.jmp_boot@ == bytes.subrange(0, 3)
    &&& bpb.oem_name@ == bytes.subrange(3, 11)
    &&& bpb.bytes_per_sector == le16(bytes, 11)
    &&& bpb.sectors_per_cluster == bytes[13]
    &&& bpb.reserved_sectors == le16(bytes, 14)
    &&& bpb.fats == bytes[16]
    &&& bpb.max_root_dir_entries == le16(bytes, 17)
    &&& bpb.total_sectors_16 == le16(bytes, 19)
    &&& bpb.media == bytes[21]
    &&& bpb.sectors_per_fat_16 == le16(bytes, 22)
    &&& bpb.sectors_per_track == le16(bytes, 24)
    &&& bpb.heads == le16(bytes, 26)
    &&& bpb.hidden_sectors == le32(bytes, 28)
    &&& bpb.total_sectors_32 == le32(bytes, 32)
    &&& bpb.sectors_per_fat_32 == le32(bytes, 36)
    &&& bpb.extended_flags == le16(bytes, 40)
    &&& bpb.fat_version == le16(bytes, 42)
    &&& bpb.root_cluster == le32(bytes, 44)
    &&& bpb.fsinfo_sector == le16(bytes, 48)
    &&& bpb.backup_boot_sector == le16(bytes, 50)
    &&& bpb.drive_number == bytes[64]
    &&& bpb.boot_signature == bytes[66]
    &&& bpb.volume_id == le32(bytes, 67)
    &&& bpb.volume_label@ == bytes.subrange(71, 82)
    &&& bpb.fat_type_label@ == bytes.subrange(82, 90)
}

impl BiosParameterBlockPacked {
    /// Reads the parameter block off the start of a boot sector. A sector of
    /// fewer than 512 bytes is refused.
    pub fn from_bytes(bytes: &[u8]) -> (r: Result<BiosParameterBlockPacked, &'static str>)
        ensures
            r is Err <==> bytes@.len() < 512,
            r is Err ==> r->Err_0@ == "not enough bytes"@,
            r is Ok ==> bpb_of(r->Ok_0, bytes@),
    {
        if bytes.len() < 512 {
            return Err("not enough bytes");
        }
        Ok(BiosParameterBlockPacked::parse(bytes))
    }

    /// The parameter block that the first 90 bytes of a whole sector hold.
    fn parse(bytes: &[u8]) -> (bpb: BiosParameterBlockPacked)
        requires
            bytes@.len() >= 512,
        ensures
            bpb_of(bpb, bytes@),
    {
        let bpb = BiosParameterBlockPacked {
            jmp_boot: [bytes[0], bytes[1], bytes[2]],
            oem_name: [
                bytes[3],
                bytes[4],
                bytes[5],
                bytes[6],
                bytes[7],
                bytes[8],
                bytes[9],
                bytes[10],
            ],
            bytes_per_sector: read_le16(bytes, 11),
            sectors_per_cluster: bytes[13],
            reserved_sectors: read_le16(bytes, 14),
            fats: bytes[16],
            max_root_dir_entries: read_le16(bytes, 17),
            total_sectors_16: read_le16(bytes, 19),
            media: bytes[21],
            sectors_per_fat_16: read_le16(bytes, 22),
            sectors_per_track: read_le16(bytes, 24),
            heads: read_le16(bytes, 26),
            hidden_sectors: read_le32(bytes, 28),
            total_sectors_32: read_le32(bytes, 32),
            sectors_per_fat_32: read_le32(bytes, 36),
            extended_flags: read_le16(bytes, 40),
            fat_version: read_le16(bytes, 42),
            root_cluster: read_le32(bytes, 44),
            fsinfo_sector: read_le16(bytes, 48),
            backup_boot_sector: read_le16(bytes, 50),
            drive_number: bytes[64],
            boot_signature: bytes[66],
            volume_id: read_le32(bytes, 67),
            volume_label: [
                bytes[71],
                bytes[72],
                bytes[73],
                bytes[74],
                bytes[75],
                bytes[76],
                bytes[77],
                bytes[78],
                bytes[79],
                bytes[80],
                bytes[81],
            ],
            fat_type_label: [
                bytes[82],
                bytes[83],
                bytes[84],
                bytes[85],
                bytes[86],
                bytes[87],
                bytes[88],
                bytes[89],
            ],
        };
        assert(bpb.jmp_boot@ =~= bytes@.subrange(0, 3));
        assert(bpb.oem_name@ =~= bytes@.subrange(3, 11));
        assert(bpb.volume_label@ =~= bytes@.subrange(71, 82));
        assert(bpb.fat_type_label@ =~= bytes@.subrange(82, 90));
        bpb
    }

    /// The volume is one that this reader handles: 512 bytes to the sector,
    /// one sector to the cluster, two allocation tables, the root directory
    /// in cluster 2, and the fixed values that FAT32 asks of the other
    /// fields.
    pub open spec fn spec_is_supported(&self) -> bool {
        &&& self.jmp_boot@[0] == 0xeb
        &&& self.bytes_per_sector == 512
        &&& self.fats == 2
        &&& self.max_root_dir_entries == 0
        &&& self.total_sectors_16 == 0
        &&& self.media == 0xf8
        &&& self.sectors_per_fat_16 == 0
        &&& self.fat_version == 0
        &&& self.root_cluster == 2
        &&& self.fsinfo_sector == 1
        &&& self.backup_boot_sector == 6
        &&& self.sectors_per_cluster == 1
    }

    /// Whether the volume is one that this reader handles.
    #[verifier::when_used_as_spec(spec_is_supported)]
    pub fn is_supported(&self) -> (r: bool)
        ensures
            r == self.spec_is_supported(),
    {
        self.jmp_boot[0] == 0xeb && self.bytes_per_sector == 512 && self.fats == 2
            && self.max_root_dir_entries == 0 && self.total_sectors_16 == 0 && self.media == 0xf8
            && self.sectors_per_fat_16 == 0 && self.fat_version == 0 && self.root_cluster == 2
            && self.fsinfo_sector == 1 && self.backup_boot_sector == 6 && self.sectors_per_cluster
            == 1
    }

    pub fn jmp_boot(&self) -> (r: [u8; 3])
        ensures
            r == self.jmp_boot,
    {
        self.jmp_boot
    }

    pub fn oem_name(&self) -> (r: [u8; 8])
        ensures
            r == self.oem_name,
    {
        self.oem_name
    }

    pub fn bytes_per_sector(&self) -> (r: u16)
        ensures
            r == self.bytes_per_sector,
    {
        self.bytes_per_sector
    }

    pub fn sectors_per_cluster(&self) -> (r: u8)
        ensures
            r == self.sectors_per_cluster,
    {
        self.sectors_per_cluster
    }

    pub fn reserved_sectors(&self) -> (r: u16)
        ensures
            r == self.reserved_sectors,
    {
        self.reserved_sectors
    }

    pub fn fats(&self) -> (r: u8)
        ensures
            r == self.fats,
    {
        self.fats
    }

    pub fn max_root_dir_entries(&self) -> (r: u16)
        ensures
            r == self.max_root_dir_entries,
    {
        self.max_root_dir_entries
    }

    pub fn total_sectors_16(&self) -> (r: u16)
        ensures
            r == self.total_sectors_16,
    {
        self.total_sectors_16
    }

    pub fn media(&self) -> (r: u8)
        ensures
            r == self.media,
    {
        self.media
    }

    pub fn sectors_per_fat_16(&self) -> (r: u16)
        ensures
            r == self.sectors_per_fat_16,
    {
        self.sectors_per_fat_16
    }

    pub fn sectors_per_track(&self) -> (r: u16)
        ensures
            r == self.sectors_per_track,
    {
        self.sectors_per_track
    }

    pub fn heads(&self) -> (r: u16)
        ensures
            r == self.heads,
    {
        self.heads
    }

    pub fn hidden_sectors(&self) -> (r: u32)
        ensures
            r == self.hidden_sectors,
    {
        self.hidden_sectors
    }

    pub fn total_sectors_32(&self) -> (r: u32)
        ensures
            r == self.total_sectors_32,
    {
        self.total_sectors_32
    }

    pub fn sectors_per_fat_32(&self) -> (r: u32)
        ensures
            r == self.sectors_per_fat_32,
    {
        self.sectors_per_fat_32
    }

    pub fn extended_flags(&self) -> (r: u16)
        ensures
            r == self.extended_flags,
    {
        self.extended_flags
    }

    pub fn fat_version(&self) -> (r: u16)
        ensures
            r == self.fat_version,
    {
        self.fat_version
    }

    pub fn root_cluster(&self) -> (r: u32)
        ensures
            r == self.root_cluster,
    {
        self.root_cluster
    }

    pub fn fsinfo_sector(&self) -> (r: u16)
        ensures
            r == self.fsinfo_sector,
    {
        self.fsinfo_sector
    }

    pub fn backup_boot_sector(&self) -> (r: u16)
        ensures
            r == self.backup_boot_sector,
    {
        self.backup_boot_sector
    }

    pub fn drive_number(&self) -> (r: u8)
        ensures
            r == self.drive_number,
    {
        self.drive_number
    }

    pub fn boot_signature(&self) -> (r: u8)
        ensures
            r == self.boot_signature,
    {
        self.boot_signature
    }

    pub fn volume_id(&self) -> (r: u32)
        ensures
            r == self.volume_id,
    {
        self.volume_id
    }

    pub fn volume_label(&self) -> (r: [u8; 11])
        ensures
            r == self.volume_label,
    {
        self.volume_label
    }

    pub fn fat_type_label(&self) -> (r: [u8; 8])
        ensures
            r == self.fat_type_label,
    {
        self.fat_type_label
    }
}

/// A place on the volume: a cluster and an offset inside it.
#[derive(Debug, Clone, Copy, PartialEq, Eq, Structural)]
pub struct ClusterLoc {
    pub cluster: u32,
    pub offset: u32,
}

/// One entry of the allocation table: the cluster it belongs to, and what
/// the table holds for it.
#[derive(Debug, Clone, Copy, PartialEq, Eq, Structural)]
pub struct FatEntry {
    pub cluster: u32,
    pub entry: u32,
}

impl FatEntry {
    /// The cluster is free.
    pub fn is_free(&self) -> (r: bool)
        ensures
            r == (self.entry == 0),
    {
        self.entry == 0
    }

    /// The cluster is the last of its chain.
    pub fn is_eoc(&self) -> (r: bool)
        ensures
            r == (0x0fff_fff8 <= self.entry <= 0x0fff_ffff),
    {
        self.entry >= 0x0fff_fff8 && self.entry <= 0x0fff_ffff
    }

    /// The entry holds the reserved value.
    pub fn is_reserved(&self) -> (r: bool)
        ensures
            r == (self.entry == 1),
    {
        self.entry == 0x0000_0001
    }

    /// The cluster is marked bad.
    pub fn is_bad(&self) -> (r: bool)
        ensures
            r == (self.entry == 0x0fff_fff7),
    {
        self.entry == 0x0fff_fff7
    }

    /// The entry names the next cluster of the chain: it is neither free,
    /// reserved nor bad, nor the end of the chain.
    pub fn has_next(&self) -> (r: bool)
        ensures
            r == (self.entry >= 2 && !(0x0fff_fff7 <= self.entry <= 0x0fff_ffff)),
    {
        !self.is_eoc() && !self.is_bad() && !self.is_reserved() && !self.is_free()
    }

    /// What the table holds for the cluster.
    pub fn into_u32(self) -> (r: u32)
        ensures
            r == self.entry,
    {
        self.entry
    }

    /// The entry of cluster `cluster_no`, read off the table sector `block`
    /// that holds it.
    pub fn from_block(cluster_no: u32, block: &[u8; 512]) -> (r: FatEntry)
        ensures
            r.cluster == cluster_no,
            r.entry == le32(block@, fat_entry_offset(cluster_no)),
    {
        let at: usize = ((cluster_no % 128) * 4) as usize;
        FatEntry { cluster: cluster_no, entry: read_le32(block.as_slice(), at) }
    }
}

/// The offset, inside its table sector, of the entry of cluster
/// `cluster_no`: entries take four bytes, 128 of them fill a sector.
pub open spec fn fat_entry_offset(cluster_no: u32) -> int {
    (cluster_no % 128) * 4
}

/// A directory entry, known by its place on the volume. The root directory
/// has no entry of its own and is stood for by cluster 0.
#[derive(Debug, Clone, Copy, PartialEq, Eq, Structural)]
pub struct DirEntry {
    pub loc: ClusterLoc,
}

impl DirEntry {
    /// The entry at `loc`.
    pub fn new(loc: ClusterLoc) -> (r: DirEntry)
        ensures
            r.loc == loc,
    {
        DirEntry { loc }
    }

    /// The entry that stands for the root directory.
    pub fn root() -> (r: DirEntry)
        ensures
            r.loc == (ClusterLoc { cluster: 0, offset: 0 }),
    {
        DirEntry::new(ClusterLoc { cluster: 0, offset: 0 })
    }

    /// Whether the entry stands for the root directory.
    pub fn is_rootdir(&self) -> (r: bool)
        ensures
            r == (self.loc.cluster == 0),
    {
        self.loc.cluster == 0
    }

    /// Where the data of the directory starts. Only the root directory is
    /// handled, whose data starts in cluster 2.
    pub fn first_data_clus(&self) -> (r: ClusterLoc)
        requires
            self.loc.cluster == 0,
        ensures
            r == (ClusterLoc { cluster: 2, offset: 0 }),
    {
        ClusterLoc { cluster: 2, offset: 0 }
    }

    /// The walk along the chain of the directory's clusters, at its start.
    pub fn fat_entries(&self) -> (r: FatEntries)
        requires
            self.loc.cluster == 0,
        ensures
            r.curr_clus == 2,
    {
        FatEntries { curr_clus: self.first_data_clus().cluster }
    }
}

/// A FAT32 volume on a block device.
pub struct Fat32<B: BlockDevice> {
    pub block: B,
    pub bpb: BiosParameterBlockPacked,
}

impl<B: BlockDevice> Fat32<B> {
    /// Opens the volume on `block`: reads its boot sector and takes the
    /// parameter block from it. Fails where the device does not hand out
    /// the sector, or the sector does not end in 0x55 0xaa.
    pub fn new(block: B) -> (r: Result<Fat32<B>, Fat32Error>)
        ensures
            r is Ok ==> exists|sector: Seq<u8>|
                sector.len() == 512 && has_signature(sector) && #[trigger] bpb_of(
                    r->Ok_0.bpb,
                    sector,
                ),
    {
        let mut block = block;
        let mut buf: [u8; 512] = [0u8; 512];
        let outcome = block.read(0, &mut buf);
        if outcome.is_none() {
            return Err(Fat32Error::ReadFailed);
        }
        let sector = block_read(outcome, buf);
        if !ends_in_signature(&sector) {
            return Err(Fat32Error::BadSignature);
        }
        let r: Result<Fat32<B>, Fat32Error> = Ok(Fat32::from_boot_sector(block, &sector));
        assert(sector@.len() == 512 && has_signature(sector@) && bpb_of(r->Ok_0.bpb, sector@));
        r
    }

    /// The volume on `block` whose boot sector is `sector`. The sector has
    /// to end in 0x55 0xaa.
    pub fn from_boot_sector(block: B, sector: &[u8; 512]) -> (r: Fat32<B>)
        requires
            has_signature(sector@),
        ensures
            r.block == block,
            bpb_of(r.bpb, sector@),
    {
        Fat32 { block, bpb: BiosParameterBlockPacked::parse(sector.as_slice()) }
    }

    /// Passes a volume that this reader handles; another one must not be
    /// brought here. Nothing is read and nothing is changed.
    pub fn check_fs(&self)
        requires
            self.bpb.is_supported(),
    {
    }

    /// The first sector behind the allocation tables, where the data of
    /// cluster 2 starts.
    pub open spec fn spec_rootdir_base_sec(&self) -> int {
        self.bpb.reserved_sectors + self.bpb.sectors_per_fat_32 * self.bpb.fats
    }

    /// The first sector behind the reserved sectors and the allocation
    /// tables.
    pub fn rootdir_base_sec(&self) -> (r: u64)
        ensures
            r == self.spec_rootdir_base_sec(),
    {
        assert(self.bpb.sectors_per_fat_32 * self.bpb.fats <= 0xffff_ffff * 0xff) by (nonlinear_arith)
            requires
                self.bpb.sectors_per_fat_32 <= 0xffff_ffff,
                self.bpb.fats <= 0xff,
        ;
        let tables: u64 = self.bpb.sectors_per_fat_32() as u64 * self.bpb.fats() as u64;
        self.bpb.reserved_sectors() as u64 + tables
    }

    /// The first sector of cluster `cluster_no`. Clusters are counted from 2.
    pub fn cluster_to_sector(&self, cluster_no: u32) -> (r: u64)
        requires
            cluster_no >= 2,
        ensures
            r == self.spec_rootdir_base_sec() + (cluster_no - 2) * self.bpb.sectors_per_cluster,
    {
        assert((cluster_no - 2) * self.bpb.sectors_per_cluster <= 0xffff_ffff * 0xff)
            by (nonlinear_arith)
            requires
                cluster_no - 2 <= 0xffff_ffff,
                0 <= cluster_no - 2,
                self.bpb.sectors_per_cluster <= 0xff,
        ;
        assert(self.bpb.sectors_per_fat_32 * self.bpb.fats <= 0xffff_ffff * 0xff) by (nonlinear_arith)
            requires
                self.bpb.sectors_per_fat_32 <= 0xffff_ffff,
                self.bpb.fats <= 0xff,
        ;
        let within: u64 = (cluster_no - 2) as u64 * self.bpb.sectors_per_cluster() as u64;
        self.rootdir_base_sec() + within
    }

    /// The sector of the first allocation table that holds the entry of
    /// cluster `cluster_no`.
    pub fn fat_entry_sector(&self, cluster_no: u32) -> (r: u32)
        ensures
            r == self.bpb.reserved_sectors + cluster_no / 128,
    {
        self.bpb.reserved_sectors() as u32 + cluster_no / 128
    }

    /// Reads the entry of cluster `cluster_no` off the first allocation
    /// table; `None` where the device does not hand out the sector.
    pub fn get_fat_entry(&mut self, cluster_no: u32) -> (r: Option<FatEntry>)
        ensures
            r is Some ==> r->Some_0.cluster == cluster_no,
            final(self).bpb == old(self).bpb,
    {
        let sector: u32 = self.fat_entry_sector(cluster_no);
        match self.read_block(sector) {
            Some(block) => Some(FatEntry::from_block(cluster_no, &block)),
            None => None,
        }
    }

    /// Reads the sector `sector_no`; `None` where the device fails.
    pub fn read_block(&mut self, sector_no: u32) -> (r: Option<[u8; 512]>)
        ensures
            final(self).bpb == old(self).bpb,
    {
        let mut buf: [u8; 512] = [0u8; 512];
        let outcome = self.block.read(sector_no as usize, &mut buf);
        if outcome.is_none() {
            return None;
        }
        Some(block_read(outcome, buf))
    }

    /// Reads the first sector of cluster `cluster_no`; `None` where the
    /// sector's number does not fit 32 bits or the device fails.
    pub fn read_cluster(&mut self, cluster_no: u32) -> (r: Option<[u8; 512]>)
        requires
            cluster_no >= 2,
        ensures
            final(self).bpb == old(self).bpb,
            old(self).spec_rootdir_base_sec() + (cluster_no - 2) * old(self).bpb.sectors_per_cluster
                > 0xffff_ffff ==> r is None,
    {
        let sector: u64 = self.cluster_to_sector(cluster_no);
        if sector > 0xffff_ffff {
            None
        } else {
            self.read_block(sector as u32)
        }
    }
}

/// The walk along a chain of clusters: the cluster whose table entry is
/// read next. It ends at cluster 0 and at an end-of-chain value.
#[derive(Debug, Clone, Copy, PartialEq, Eq, Structural)]
pub struct FatEntries {
    pub curr_clus: u32,
}

impl FatEntries {
    /// The walk is over: there is no cluster, or the value is an end of
    /// chain.
    pub open spec fn spec_at_end(&self) -> bool {
        self.curr_clus == 0 || 0x0fff_fff8 <= self.curr_clus <= 0x0fff_ffff
    }

    /// Whether the walk is over.
    #[verifier::when_used_as_spec(spec_at_end)]
    pub fn at_end(&self) -> (r: bool)
        ensures
            r == self.spec_at_end(),
    {
        self.curr_clus == 0 || (FatEntry { cluster: 0, entry: self.curr_clus }).is_eoc()
    }

    /// Takes the step that the table entry `entry` of the current cluster
    /// asks for: the walk goes on at the cluster that the entry names.
    pub fn advance(&mut self, entry: FatEntry)
        ensures
            final(self).curr_clus == entry.entry,
    {
        self.curr_clus = entry.into_u32();
    }

    /// The next entry of the chain, read from `fs`. Gives `None`, and
    /// stays where it is, at the end of the chain and where the device
    /// fails; otherwise the entry of the current cluster, and goes on at the
    /// cluster that it names.
    pub fn next<B: BlockDevice>(&mut self, fs: &mut Fat32<B>) -> (r: Option<FatEntry>)
        ensures
            old(self).at_end() ==> r is None,
            r is None ==> *final(self) == *old(self),
            r is Some ==> r->Some_0.cluster == old(self).curr_clus && final(self).curr_clus
                == r->Some_0.entry,
            final(fs).bpb == old(fs).bpb,
    {
        if self.at_end() {
            return None;
        }
        match fs.get_fat_entry(self.curr_clus) {
            Some(entry) => {
                self.advance(entry);
                Some(entry)
            },
            None => None,
        }
    }
}

/// The block that an answered read leaves behind: the buffer as the device
/// filled it. The read has to have been answered; the number of bytes that
/// the device reported is not looked at.
pub fn block_read(outcome: Option<usize>, buf: [u8; 512]) -> (r: [u8; 512])
    requires
        outcome is Some,
    ensures
        r == buf,
{
    buf
}

/// The sector ends in the two bytes that mark a boot sector, 0x55 0xaa.
pub open spec fn has_signature(sector: Seq<u8>) -> bool {
    sector[510] == 0x55 && sector[511] == 0xaa
}

/// Whether `sector` ends in the two bytes that mark a boot sector.
pub fn ends_in_signature(sector: &[u8; 512]) -> (r: bool)
    ensures
        r == has_signature(sector@),
{
    sector[510] == 0x55 && sector[511] == 0xaa
}

} // verus!
