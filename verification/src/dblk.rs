use vstd::prelude::*;
use crate::checksum::{spec_xor_words, xor_words};
use crate::cursor::{le16, le32, le64, ByteCursor};
use crate::datetime::{spec_datetime, DateTime};
use crate::error::MtfError;
use crate::strings::{
    spec_read_str, spec_string_type, spec_tape_address, StringType, TapeAddress,
};

verus! {

broadcast use vstd::slice::group_slice_axioms;

/// The ten recognised DBLK kind tags, as the little-endian 32-bit words their
/// four ASCII characters form.
pub const TAPE_TAG: u32 = 0x45504154;

pub const SSET_TAG: u32 = 0x54455353;

pub const VOLB_TAG: u32 = 0x424C4F56;

pub const DIRB_TAG: u32 = 0x42524944;

pub const FILE_TAG: u32 = 0x454C4946;

pub const CFIL_TAG: u32 = 0x4C494643;

pub const ESPB_TAG: u32 = 0x42505345;

pub const ESET_TAG: u32 = 0x54455345;

pub const EOTM_TAG: u32 = 0x4D544F45;

pub const SFMB_TAG: u32 = 0x424D4653;

/// Whether a 32-bit word is one of the ten DBLK kind tags. A stream header
/// whose id is such a tag is no stream at all but the next block's start.
pub open spec fn is_dblk_tag(id: u32) -> bool {
    id == TAPE_TAG || id == SSET_TAG || id == VOLB_TAG || id == DIRB_TAG || id == FILE_TAG || id
        == CFIL_TAG || id == ESPB_TAG || id == ESET_TAG || id == EOTM_TAG || id == SFMB_TAG
}

/// The kind of a descriptor block, from its header tag; tags outside the ten
/// recognised ones are carried as `UNKNOWN`.
#[derive(Debug, Clone, Copy, PartialEq, Eq, Structural)]
pub enum DBLKType {
    TAPE,
    SSET,
    VOLB,
    DIRB,
    FILE,
    CFIL,
    ESPB,
    ESET,
    EOTM,
    SFMB,
    UNKNOWN,
}

/// The kind a tag denotes.
pub open spec fn spec_dblk_type(ty: u32) -> DBLKType {
    if ty == TAPE_TAG {
        DBLKType::TAPE
    } else if ty == SSET_TAG {
        DBLKType::SSET
    } else if ty == VOLB_TAG {
        DBLKType::VOLB
    } else if ty == DIRB_TAG {
        DBLKType::DIRB
    } else if ty == FILE_TAG {
        DBLKType::FILE
    } else if ty == CFIL_TAG {
        DBLKType::CFIL
    } else if ty == ESPB_TAG {
        DBLKType::ESPB
    } else if ty == ESET_TAG {
        DBLKType::ESET
    } else if ty == EOTM_TAG {
        DBLKType::EOTM
    } else if ty == SFMB_TAG {
        DBLKType::SFMB
    } else {
        DBLKType::UNKNOWN
    }
}

impl DBLKType {
    pub fn parse(ty: u32) -> (r: DBLKType)
        ensures
            r == spec_dblk_type(ty),
            is_dblk_tag(ty) <==> r != DBLKType::UNKNOWN,
    {
        if ty == TAPE_TAG {
            DBLKType::TAPE
        } else if ty == SSET_TAG {
            DBLKType::SSET
        } else if ty == VOLB_TAG {
            DBLKType::VOLB
        } else if ty == DIRB_TAG {
            DBLKType::DIRB
        } else if ty == FILE_TAG {
            DBLKType::FILE
        } else if ty == CFIL_TAG {
            DBLKType::CFIL
        } else if ty == ESPB_TAG {
            DBLKType::ESPB
        } else if ty == ESET_TAG {
            DBLKType::ESET
        } else if ty == EOTM_TAG {
            DBLKType::EOTM
        } else if ty == SFMB_TAG {
            DBLKType::SFMB
        } else {
            DBLKType::UNKNOWN
        }
    }
}

/// The soft filemark block size a TAPE block carries, in 512-byte blocks.
#[derive(Debug, Clone, Copy, PartialEq, Eq, Structural)]
pub struct SoftFileMarkBlockSize {
    pub blocks: u16,
}

impl SoftFileMarkBlockSize {
    pub fn parse(blocks: u16) -> (r: SoftFileMarkBlockSize)
        ensures
            r.blocks == blocks,
    {
        SoftFileMarkBlockSize { blocks }
    }

    pub fn bytes(&self) -> (r: u64)
        ensures
            r == 512 * self.blocks,
    {
        512 * (self.blocks as u64)
    }
}

/// The media-based catalog type of a TAPE block: tags 0 to 3.
#[derive(Debug, Clone, Copy, PartialEq, Eq, Structural)]
pub enum MediaBasedCatalogType {
    NONE,
    TYPE_1,
    TYPE_2,
    UNKNOWN3,
}

pub open spec fn spec_mbct(ty: u16) -> Option<MediaBasedCatalogType> {
    if ty == 0 {
        Some(MediaBasedCatalogType::NONE)
    } else if ty == 1 {
        Some(MediaBasedCatalogType::TYPE_1)
    } else if ty == 2 {
        Some(MediaBasedCatalogType::TYPE_2)
    } else if ty == 3 {
        Some(MediaBasedCatalogType::UNKNOWN3)
    } else {
        None
    }
}

impl MediaBasedCatalogType {
    pub fn parse(ty: u16) -> (r: Result<MediaBasedCatalogType, MtfError>)
        ensures
            spec_mbct(ty) is Some ==> r == Ok::<MediaBasedCatalogType, MtfError>(
                spec_mbct(ty).unwrap(),
            ),
            spec_mbct(ty) is None ==> r == Err::<MediaBasedCatalogType, MtfError>(MtfError::BadTag),
    {
        match ty {
            0 => Ok(MediaBasedCatalogType::NONE),
            1 => Ok(MediaBasedCatalogType::TYPE_1),
            2 => Ok(MediaBasedCatalogType::TYPE_2),
            3 => Ok(MediaBasedCatalogType::UNKNOWN3),
            _ => Err(MtfError::BadTag),
        }
    }
}

/// The operating system a block was written on.
#[derive(Debug, Clone, Copy, PartialEq, Eq, Structural)]
pub enum OS {
    NetWare,
    NetWareSMS,
    WindowsNT,
    DOS_Windows3_X,
    OS2,
    Windows95,
    Macintosh,
    Unix,
    ToBeAssigned,
    VendorSpecific,
}

pub open spec fn spec_os(os: u8) -> OS {
    if os == 1 {
        OS::NetWare
    } else if os == 13 {
        OS::NetWareSMS
    } else if os == 14 {
        OS::WindowsNT
    } else if os == 24 {
        OS::DOS_Windows3_X
    } else if os == 25 {
        OS::OS2
    } else if os == 26 {
        OS::Windows95
    } else if os == 27 {
        OS::Macintosh
    } else if os == 28 {
        OS::Unix
    } else if 33 <= os && os <= 127 {
        OS::ToBeAssigned
    } else {
        OS::VendorSpecific
    }
}

impl OS {
    pub fn parse(os: u8) -> (r: OS)
        ensures
            r == spec_os(os),
    {
        match os {
            1 => OS::NetWare,
            13 => OS::NetWareSMS,
            14 => OS::WindowsNT,
            24 => OS::DOS_Windows3_X,
            25 => OS::OS2,
            26 => OS::Windows95,
            27 => OS::Macintosh,
            28 => OS::Unix,
            33..=127 => OS::ToBeAssigned,
            _ => OS::VendorSpecific,
        }
    }
}

/// Defined TAPE attribute bits: soft filemark, media label, and one reserved
/// bit the format leaves unspecified.
pub const TAPE_ATTR_MASK: u32 = 0x0000_0007;

/// Defined SSET attribute bits: transfer, copy, normal, differential,
/// incremental, daily.
pub const SSET_ATTR_MASK: u32 = 0x0000_003F;

/// Defined VOLB attribute bits.
pub const VOLB_ATTR_MASK: u32 = 0x0000_003F;

/// Common attribute bits every kind may carry: continuation, compression,
/// end-of-set-at-end-of-media.
pub const COMMON_ANY_MASK: u32 = 0x0000_000D;

/// TAPE adds set-map-exists and fdd-allowed (bits 16 and 17).
pub const COMMON_TAPE_MASK: u32 = 0x0003_000D;

/// SSET adds fdd-exists and encryption (bits 16 and 17).
pub const COMMON_SSET_MASK: u32 = 0x0003_000D;

/// ESET adds fdd-aborted, end-of-family, aborted-set (bits 16 to 18).
pub const COMMON_ESET_MASK: u32 = 0x0007_000D;

/// EOTM adds no-eset-pba and invalid-eset-pba (bits 16 and 17).
pub const COMMON_EOTM_MASK: u32 = 0x0003_000D;

#[derive(Debug, Clone, Copy, PartialEq, Eq, Structural)]
pub struct TapeAttrs {
    pub bits: u32,
}

impl TapeAttrs {
    pub open spec fn valid(self) -> bool {
        self.bits & TAPE_ATTR_MASK == self.bits
    }
}

#[derive(Debug, Clone, Copy, PartialEq, Eq, Structural)]
pub struct SSetAttrs {
    pub bits: u32,
}

impl SSetAttrs {
    pub open spec fn valid(self) -> bool {
        self.bits & SSET_ATTR_MASK == self.bits
    }
}

#[derive(Debug, Clone, Copy, PartialEq, Eq, Structural)]
pub struct VolbAttrs {
    pub bits: u32,
}

impl VolbAttrs {
    pub open spec fn valid(self) -> bool {
        self.bits & VOLB_ATTR_MASK == self.bits
    }
}

#[derive(Debug, Clone, Copy, PartialEq, Eq, Structural)]
pub struct CommonBlockAttrsAny {
    pub bits: u32,
}

#[derive(Debug, Clone, Copy, PartialEq, Eq, Structural)]
pub struct CommonBlockAttrsTAPE {
    pub bits: u32,
}

#[derive(Debug, Clone, Copy, PartialEq, Eq, Structural)]
pub struct CommonBlockAttrsSSET {
    pub bits: u32,
}

#[derive(Debug, Clone, Copy, PartialEq, Eq, Structural)]
pub struct CommonBlockAttrsESET {
    pub bits: u32,
}

#[derive(Debug, Clone, Copy, PartialEq, Eq, Structural)]
pub struct CommonBlockAttrsEOTM {
    pub bits: u32,
}

/// The common-header attribute bitfield, validated against the mask of the
/// block's kind.
#[derive(Debug, Clone, Copy, PartialEq, Eq, Structural)]
pub enum CommonBlockAttrs {
    ANY(CommonBlockAttrsAny),
    TAPE(CommonBlockAttrsTAPE),
    SSET(CommonBlockAttrsSSET),
    ESET(CommonBlockAttrsESET),
    EOTM(CommonBlockAttrsEOTM),
}

/// Which attribute bits the kind admits, and the validated value: `None`
/// where an undefined bit is set.
pub open spec fn spec_common_attrs(attrs: u32, ty: DBLKType) -> Option<CommonBlockAttrs> {
    match ty {
        DBLKType::TAPE => if attrs & COMMON_TAPE_MASK == attrs {
            Some(CommonBlockAttrs::TAPE(CommonBlockAttrsTAPE { bits: attrs }))
        } else {
            None
        },
        DBLKType::SSET => if attrs & COMMON_SSET_MASK == attrs {
            Some(CommonBlockAttrs::SSET(CommonBlockAttrsSSET { bits: attrs }))
        } else {
            None
        },
        DBLKType::ESET => if attrs & COMMON_ESET_MASK == attrs {
            Some(CommonBlockAttrs::ESET(CommonBlockAttrsESET { bits: attrs }))
        } else {
            None
        },
        DBLKType::EOTM => if attrs & COMMON_EOTM_MASK == attrs {
            Some(CommonBlockAttrs::EOTM(CommonBlockAttrsEOTM { bits: attrs }))
        } else {
            None
        },
        _ => if attrs & COMMON_ANY_MASK == attrs {
            Some(CommonBlockAttrs::ANY(CommonBlockAttrsAny { bits: attrs }))
        } else {
            None
        },
    }
}

impl CommonBlockAttrs {
    pub fn parse(attrs: u32, ty: DBLKType) -> (r: Result<CommonBlockAttrs, MtfError>)
        ensures
            spec_common_attrs(attrs, ty) is Some ==> r == Ok::<CommonBlockAttrs, MtfError>(
                spec_common_attrs(attrs, ty).unwrap(),
            ),
            spec_common_attrs(attrs, ty) is None ==> r == Err::<CommonBlockAttrs, MtfError>(
                MtfError::BadFlags,
            ),
    {
        match ty {
            DBLKType::TAPE => if attrs & COMMON_TAPE_MASK == attrs {
                Ok(CommonBlockAttrs::TAPE(CommonBlockAttrsTAPE { bits: attrs }))
            } else {
                Err(MtfError::BadFlags)
            },
            DBLKType::SSET => if attrs & COMMON_SSET_MASK == attrs {
                Ok(CommonBlockAttrs::SSET(CommonBlockAttrsSSET { bits: attrs }))
            } else {
                Err(MtfError::BadFlags)
            },
            DBLKType::ESET => if attrs & COMMON_ESET_MASK == attrs {
                Ok(CommonBlockAttrs::ESET(CommonBlockAttrsESET { bits: attrs }))
            } else {
                Err(MtfError::BadFlags)
            },
            DBLKType::EOTM => if attrs & COMMON_EOTM_MASK == attrs {
                Ok(CommonBlockAttrs::EOTM(CommonBlockAttrsEOTM { bits: attrs }))
            } else {
                Err(MtfError::BadFlags)
            },
            _ => if attrs & COMMON_ANY_MASK == attrs {
                Ok(CommonBlockAttrs::ANY(CommonBlockAttrsAny { bits: attrs }))
            } else {
                Err(MtfError::BadFlags)
            },
        }
    }
}

/// The 52-byte header common to every DBLK.
#[derive(Debug, Clone, Copy, PartialEq, Eq, Structural)]
pub struct CommonBlockHeader {
    pub attrs: CommonBlockAttrs,
    pub offset_to_first_event: u16,
    pub osid: OS,
    pub osver: u8,
    pub display_size: u64,
    pub format_logical_address: u64,
    pub control_block_id: u32,
    pub os_specific_data: TapeAddress,
    pub string_type: StringType,
    pub header_checksum: u16,
}

/// The common header read from the 52 bytes at `base`, field by field.
pub open spec fn spec_common_header(data: Seq<u8>, base: int) -> CommonBlockHeader {
    CommonBlockHeader {
        attrs: spec_common_attrs(le32(data, base + 4), spec_dblk_type(le32(data, base))).unwrap(),
        offset_to_first_event: le16(data, base + 8),
        osid: spec_os(data[base + 10]),
        osver: data[base + 11],
        display_size: le64(data, base + 12),
        format_logical_address: le64(data, base + 20),
        control_block_id: le32(data, base + 36),
        os_specific_data: spec_tape_address(le32(data, base + 44), base as usize),
        string_type: spec_string_type(data[base + 48]).unwrap(),
        header_checksum: le16(data, base + 50),
    }
}

/// The kind-specific body of a DBLK.
#[derive(Debug, Clone)]
pub enum DBLKSpecific {
    TAPE {
        media_family_id: u32,
        tape_attrs: TapeAttrs,
        media_sequence_number: u16,
        password_encryption_algorithm: u16,
        soft_filemark_block_size: SoftFileMarkBlockSize,
        media_based_catalog_type: MediaBasedCatalogType,
        media_name: Option<String>,
        media_description: Option<String>,
        media_password: Option<String>,
        software_name: Option<String>,
        format_logical_block_size: u16,
        software_vendor_id: u16,
        media_date: DateTime,
        major_version: u8,
    },
    SSET {
        attrs: SSetAttrs,
        password_encryption_algorithm: u16,
        software_compression_algorithm: u16,
        software_vendor_id: u16,
        data_set_number: u16,
        data_set_name: Option<String>,
        data_set_description: Option<String>,
        data_set_password: Option<String>,
        username: Option<String>,
        physical_block_address: u64,
        write_date: DateTime,
        software_major_version: u8,
        software_minor_version: u8,
        timezone: i8,
        minor_version: u8,
        media_catalog_version: u8,
    },
    VOLB {
        attrs: VolbAttrs,
        device_name: Option<String>,
        volume_name: Option<String>,
        machine_name: Option<String>,
        write_date: DateTime,
    },
    DIRB,
    FILE,
    CFIL,
    ESPB,
    ESET,
    EOTM,
    SFMB {
        number_of_entries: u32,
        used_entries: u32,
        entries: Vec<u32>,
    },
    UNKNOWN(String),
}

/// A descriptor block: common header plus kind-specific body.
#[derive(Debug, Clone)]
pub struct DBLK {
    pub header: CommonBlockHeader,
    pub body: DBLKSpecific,
}

/// An executable optional string matches the outcome of a spec-level string
/// resolution: the resolution succeeded, presence agrees, and so does the
/// text.
pub open spec fn opt_str_matches(o: Option<String>, r: Result<Option<Seq<char>>, MtfError>) -> bool {
    &&& r is Ok
    &&& (o is Some <==> r.unwrap() is Some)
    &&& (o is Some ==> Some(o.unwrap()@) == r.unwrap())
}

/// The string address stored as the `k`-th word of a block body, resolved.
pub open spec fn spec_body_str(data: Seq<u8>, base: int, word_at: int, st: StringType) -> Result<
    Option<Seq<char>>,
    MtfError,
> {
    spec_read_str(spec_tape_address(le32(data, word_at), base as usize), st, data)
}

/// Why decoding a TAPE body fails, if it does, walking the fields in the
/// order they are read.
pub open spec fn spec_tape_err(data: Seq<u8>, base: int, st: StringType) -> Option<MtfError> {
    if le64(data, base + 20) != 0 || le32(data, base + 36) != 0 {
        Some(MtfError::Invariant)
    } else if base + 60 > data.len() {
        Some(MtfError::Io)
    } else if !(TapeAttrs { bits: le32(data, base + 56) }).valid() {
        Some(MtfError::BadFlags)
    } else if base + 68 > data.len() {
        Some(MtfError::Io)
    } else if spec_mbct(le16(data, base + 66)) is None {
        Some(MtfError::BadTag)
    } else if base + 72 > data.len() {
        Some(MtfError::Io)
    } else if spec_body_str(data, base, base + 68, st) is Err {
        Some(spec_body_str(data, base, base + 68, st)->Err_0)
    } else if base + 76 > data.len() {
        Some(MtfError::Io)
    } else if spec_body_str(data, base, base + 72, st) is Err {
        Some(spec_body_str(data, base, base + 72, st)->Err_0)
    } else if base + 80 > data.len() {
        Some(MtfError::Io)
    } else if spec_body_str(data, base, base + 76, st) is Err {
        Some(spec_body_str(data, base, base + 76, st)->Err_0)
    } else if base + 84 > data.len() {
        Some(MtfError::Io)
    } else if spec_body_str(data, base, base + 80, st) is Err {
        Some(spec_body_str(data, base, base + 80, st)->Err_0)
    } else if base + 94 > data.len() {
        Some(MtfError::Io)
    } else {
        None
    }
}

/// A decoded TAPE body holds, field by field, the little-endian reads of its
/// layout, with its four strings resolved against the block's string type.
pub open spec fn tape_body_wf(data: Seq<u8>, base: int, st: StringType, body: DBLKSpecific) -> bool {
    body matches DBLKSpecific::TAPE {
        media_family_id,
        tape_attrs,
        media_sequence_number,
        password_encryption_algorithm,
        soft_filemark_block_size,
        media_based_catalog_type,
        media_name,
        media_description,
        media_password,
        software_name,
        format_logical_block_size,
        software_vendor_id,
        media_date,
        major_version,
    } && {
        &&& media_family_id == le32(data, base + 52)
        &&& tape_attrs == (TapeAttrs { bits: le32(data, base + 56) }) && tape_attrs.valid()
        &&& media_sequence_number == le16(data, base + 60)
        &&& password_encryption_algorithm == le16(data, base + 62)
        &&& soft_filemark_block_size == (SoftFileMarkBlockSize { blocks: le16(data, base + 64) })
        &&& Some(media_based_catalog_type) == spec_mbct(le16(data, base + 66))
        &&& opt_str_matches(media_name, spec_body_str(data, base, base + 68, st))
        &&& opt_str_matches(media_description, spec_body_str(data, base, base + 72, st))
        &&& opt_str_matches(media_password, spec_body_str(data, base, base + 76, st))
        &&& opt_str_matches(software_name, spec_body_str(data, base, base + 80, st))
        &&& format_logical_block_size == le16(data, base + 84)
        &&& software_vendor_id == le16(data, base + 86)
        &&& media_date == spec_datetime(data.subrange(base + 88, base + 93))
        &&& major_version == data[base + 93]
    }
}

/// Why decoding an SSET body fails, if it does.
pub open spec fn spec_sset_err(data: Seq<u8>, base: int, st: StringType) -> Option<MtfError> {
    if base + 56 > data.len() {
        Some(MtfError::Io)
    } else if !(SSetAttrs { bits: le32(data, base + 52) }).valid() {
        Some(MtfError::BadFlags)
    } else if base + 68 > data.len() {
        Some(MtfError::Io)
    } else if spec_body_str(data, base, base + 64, st) is Err {
        Some(spec_body_str(data, base, base + 64, st)->Err_0)
    } else if base + 72 > data.len() {
        Some(MtfError::Io)
    } else if spec_body_str(data, base, base + 68, st) is Err {
        Some(spec_body_str(data, base, base + 68, st)->Err_0)
    } else if base + 76 > data.len() {
        Some(MtfError::Io)
    } else if spec_body_str(data, base, base + 72, st) is Err {
        Some(spec_body_str(data, base, base + 72, st)->Err_0)
    } else if base + 80 > data.len() {
        Some(MtfError::Io)
    } else if spec_body_str(data, base, base + 76, st) is Err {
        Some(spec_body_str(data, base, base + 76, st)->Err_0)
    } else if base + 98 > data.len() {
        Some(MtfError::Io)
    } else {
        None
    }
}

/// A decoded SSET body holds the little-endian reads of its layout, with its
/// four strings resolved.
pub open spec fn sset_body_wf(data: Seq<u8>, base: int, st: StringType, body: DBLKSpecific) -> bool {
    body matches DBLKSpecific::SSET {
        attrs,
        password_encryption_algorithm,
        software_compression_algorithm,
        software_vendor_id,
        data_set_number,
        data_set_name,
        data_set_description,
        data_set_password,
        username,
        physical_block_address,
        write_date,
        software_major_version,
        software_minor_version,
        timezone,
        minor_version,
        media_catalog_version,
    } && {
        &&& attrs == (SSetAttrs { bits: le32(data, base + 52) }) && attrs.valid()
        &&& password_encryption_algorithm == le16(data, base + 56)
        &&& software_compression_algorithm == le16(data, base + 58)
        &&& software_vendor_id == le16(data, base + 60)
        &&& data_set_number == le16(data, base + 62)
        &&& opt_str_matches(data_set_name, spec_body_str(data, base, base + 64, st))
        &&& opt_str_matches(data_set_description, spec_body_str(data, base, base + 68, st))
        &&& opt_str_matches(data_set_password, spec_body_str(data, base, base + 72, st))
        &&& opt_str_matches(username, spec_body_str(data, base, base + 76, st))
        &&& physical_block_address == le64(data, base + 80)
        &&& write_date == spec_datetime(data.subrange(base + 88, base + 93))
        &&& software_major_version == data[base + 93]
        &&& software_minor_version == data[base + 94]
        &&& timezone == data[base + 95] as i8
        &&& minor_version == data[base + 96]
        &&& media_catalog_version == data[base + 97]
    }
}

/// Why decoding a VOLB body fails, if it does.
pub open spec fn spec_volb_err(data: Seq<u8>, base: int, st: StringType) -> Option<MtfError> {
    if base + 56 > data.len() {
        Some(MtfError::Io)
    } else if !(VolbAttrs { bits: le32(data, base + 52) }).valid() {
        Some(MtfError::BadFlags)
    } else if base + 60 > data.len() {
        Some(MtfError::Io)
    } else if spec_body_str(data, base, base + 56, st) is Err {
        Some(spec_body_str(data, base, base + 56, st)->Err_0)
    } else if base + 64 > data.len() {
        Some(MtfError::Io)
    } else if spec_body_str(data, base, base + 60, st) is Err {
        Some(spec_body_str(data, base, base + 60, st)->Err_0)
    } else if base + 68 > data.len() {
        Some(MtfError::Io)
    } else if spec_body_str(data, base, base + 64, st) is Err {
        Some(spec_body_str(data, base, base + 64, st)->Err_0)
    } else if base + 73 > data.len() {
        Some(MtfError::Io)
    } else {
        None
    }
}

/// A decoded VOLB body holds the little-endian reads of its layout, with its
/// three strings resolved.
pub open spec fn volb_body_wf(data: Seq<u8>, base: int, st: StringType, body: DBLKSpecific) -> bool {
    body matches DBLKSpecific::VOLB {
        attrs,
        device_name,
        volume_name,
        machine_name,
        write_date,
    } && {
        &&& attrs == (VolbAttrs { bits: le32(data, base + 52) }) && attrs.valid()
        &&& opt_str_matches(device_name, spec_body_str(data, base, base + 56, st))
        &&& opt_str_matches(volume_name, spec_body_str(data, base, base + 60, st))
        &&& opt_str_matches(machine_name, spec_body_str(data, base, base + 64, st))
        &&& write_date == spec_datetime(data.subrange(base + 68, base + 73))
    }
}

/// Why decoding an SFMB body fails, if it does: it needs the soft filemark
/// block size of an earlier TAPE block to know its own extent.
pub open spec fn spec_sfmb_err(data: Seq<u8>, base: int, tape_blocks: Option<u16>) -> Option<
    MtfError,
> {
    if base + 60 > data.len() {
        Some(MtfError::Io)
    } else if tape_blocks is None {
        Some(MtfError::Dependency)
    } else if 512 * tape_blocks.unwrap() < 60 {
        Some(MtfError::Invariant)
    } else if base + 60 + (512 * tape_blocks.unwrap() - 60) > data.len() {
        Some(MtfError::Io)
    } else {
        None
    }
}

/// A decoded SFMB body: the two counters, then the rest of the block (its
/// extent set by the TAPE soft filemark size) as little-endian 32-bit
/// entries.
pub open spec fn sfmb_body_wf(
    data: Seq<u8>,
    base: int,
    tape_blocks: Option<u16>,
    body: DBLKSpecific,
) -> bool {
    body matches DBLKSpecific::SFMB { number_of_entries, used_entries, entries } && {
        &&& tape_blocks is Some
        &&& number_of_entries == le32(data, base + 52)
        &&& used_entries == le32(data, base + 56)
        &&& entries@.len() == (512 * tape_blocks.unwrap() - 60) / 4
        &&& forall|k: int|
            0 <= k < entries@.len() ==> entries@[k] == le32(data, base + 60 + 4 * k)
    }
}

/// A decoded UNKNOWN body carries the four tag characters, 8-bit-clean.
pub open spec fn unknown_body_wf(data: Seq<u8>, base: int, body: DBLKSpecific) -> bool {
    body matches DBLKSpecific::UNKNOWN(id) && id@ == crate::strings::spec_ansi_chars(
        data.subrange(base, base + 4),
    )
}

/// Why decoding a whole DBLK at `base` fails, if it does: header checks in
/// read order, then the body of its kind.
pub open spec fn spec_dblk_err(data: Seq<u8>, base: int, tape_blocks: Option<u16>) -> Option<
    MtfError,
> {
    if base + 52 > data.len() {
        Some(MtfError::Io)
    } else if spec_common_attrs(le32(data, base + 4), spec_dblk_type(le32(data, base))) is None {
        Some(MtfError::BadFlags)
    } else if spec_string_type(data[base + 48]) is None {
        Some(MtfError::BadTag)
    } else if spec_xor_words(data.subrange(base, base + 50), 25) != le16(data, base + 50) {
        Some(MtfError::Checksum)
    } else {
        let st = spec_string_type(data[base + 48]).unwrap();
        match spec_dblk_type(le32(data, base)) {
            DBLKType::TAPE => spec_tape_err(data, base, st),
            DBLKType::SSET => spec_sset_err(data, base, st),
            DBLKType::VOLB => spec_volb_err(data, base, st),
            DBLKType::SFMB => spec_sfmb_err(data, base, tape_blocks),
            _ => None,
        }
    }
}

/// A decoded DBLK at `base` is the spec-level header plus a body that is
/// well-formed for its kind.
pub open spec fn dblk_wf(data: Seq<u8>, base: int, tape_blocks: Option<u16>, d: DBLK) -> bool {
    let ty = spec_dblk_type(le32(data, base));
    let st = spec_string_type(data[base + 48]).unwrap();
    &&& d.header == spec_common_header(data, base)
    &&& (ty == DBLKType::TAPE ==> tape_body_wf(data, base, st, d.body))
    &&& (ty == DBLKType::SSET ==> sset_body_wf(data, base, st, d.body))
    &&& (ty == DBLKType::VOLB ==> volb_body_wf(data, base, st, d.body))
    &&& (ty == DBLKType::SFMB ==> sfmb_body_wf(data, base, tape_blocks, d.body))
    &&& (ty == DBLKType::DIRB ==> d.body == DBLKSpecific::DIRB)
    &&& (ty == DBLKType::FILE ==> d.body == DBLKSpecific::FILE)
    &&& (ty == DBLKType::CFIL ==> d.body == DBLKSpecific::CFIL)
    &&& (ty == DBLKType::ESPB ==> d.body == DBLKSpecific::ESPB)
    &&& (ty == DBLKType::ESET ==> d.body == DBLKSpecific::ESET)
    &&& (ty == DBLKType::EOTM ==> d.body == DBLKSpecific::EOTM)
    &&& (ty == DBLKType::UNKNOWN ==> unknown_body_wf(data, base, d.body))
}

/// Where the cursor stands after decoding the body of the block at `base`:
/// after the fixed body of TAPE, SSET and VOLB, after the filemark table of
/// an SFMB, and right after the 52-byte header for the framed-only and
/// unknown kinds.
pub open spec fn spec_body_end(data: Seq<u8>, base: int, tape_blocks: Option<u16>) -> int {
    match spec_dblk_type(le32(data, base)) {
        DBLKType::TAPE => base + 94,
        DBLKType::SSET => base + 98,
        DBLKType::VOLB => base + 73,
        DBLKType::SFMB => base + 60 + (512 * tape_blocks.unwrap() - 60),
        _ => base + 52,
    }
}

/// Law: every DBLK that decodes has a valid header checksum: the XOR of the
/// first 25 little-endian words of its 52-byte header equals the word at
/// offset 50.
pub proof fn lemma_dblk_checksum(data: Seq<u8>, base: int, tape_blocks: Option<u16>)
    requires
        spec_dblk_err(data, base, tape_blocks) is None,
    ensures
        spec_xor_words(data.subrange(base, base + 50), 25) == le16(data, base + 50),
        spec_common_header(data, base).header_checksum == le16(data, base + 50),
{
}

/// Law: every TAPE block that decodes has `format_logical_address == 0` and
/// `control_block_id == 0`.
pub proof fn lemma_tape_zero_fields(data: Seq<u8>, base: int, tape_blocks: Option<u16>)
    requires
        spec_dblk_err(data, base, tape_blocks) is None,
        spec_dblk_type(le32(data, base)) == DBLKType::TAPE,
    ensures
        spec_common_header(data, base).format_logical_address == 0,
        spec_common_header(data, base).control_block_id == 0,
{
}

fn parse_tape_body(
    cur: &mut ByteCursor<'_>,
    base: usize,
    st: &StringType,
    fla: u64,
    cbi: u32,
) -> (r: Result<DBLKSpecific, MtfError>)
    requires
        old(cur).pos == base + 52,
        base + 52 <= old(cur).data@.len(),
        fla == le64(old(cur).data@, base + 20),
        cbi == le32(old(cur).data@, base + 36),
    ensures
        final(cur).data == old(cur).data,
        r is Err <==> spec_tape_err(old(cur).data@, base as int, *st) is Some,
        r is Err ==> r == Err::<DBLKSpecific, MtfError>(
            spec_tape_err(old(cur).data@, base as int, *st).unwrap(),
        ),
        r is Ok ==> tape_body_wf(old(cur).data@, base as int, *st, r.unwrap()),
        r is Ok ==> final(cur).pos == base + 94,
{
    let ghost data = cur.data@;
    if fla != 0 || cbi != 0 {
        return Err(MtfError::Invariant);
    }
    let media_family_id = match cur.read_u32() {
        Ok(v) => v,
        Err(_) => {
            return Err(MtfError::Io);
        },
    };
    let ta_bits = match cur.read_u32() {
        Ok(v) => v,
        Err(_) => {
            return Err(MtfError::Io);
        },
    };
    if !(ta_bits & TAPE_ATTR_MASK == ta_bits) {
        return Err(MtfError::BadFlags);
    }
    let media_sequence_number = match cur.read_u16() {
        Ok(v) => v,
        Err(_) => {
            return Err(MtfError::Io);
        },
    };
    let password_encryption_algorithm = match cur.read_u16() {
        Ok(v) => v,
        Err(_) => {
            return Err(MtfError::Io);
        },
    };
    let sfbs_raw = match cur.read_u16() {
        Ok(v) => v,
        Err(_) => {
            return Err(MtfError::Io);
        },
    };
    let soft_filemark_block_size = SoftFileMarkBlockSize::parse(sfbs_raw);
    let mbct_raw = match cur.read_u16() {
        Ok(v) => v,
        Err(_) => {
            return Err(MtfError::Io);
        },
    };
    let media_based_catalog_type = match MediaBasedCatalogType::parse(mbct_raw) {
        Ok(v) => v,
        Err(e) => {
            return Err(e);
        },
    };
    let w1 = match cur.read_u32() {
        Ok(v) => v,
        Err(_) => {
            return Err(MtfError::Io);
        },
    };
    let media_name = match TapeAddress::parse(w1, base).read_str(st, cur) {
        Ok(v) => v,
        Err(e) => {
            return Err(e);
        },
    };
    let w2 = match cur.read_u32() {
        Ok(v) => v,
        Err(_) => {
            return Err(MtfError::Io);
        },
    };
    let media_description = match TapeAddress::parse(w2, base).read_str(st, cur) {
        Ok(v) => v,
        Err(e) => {
            return Err(e);
        },
    };
    let w3 = match cur.read_u32() {
        Ok(v) => v,
        Err(_) => {
            return Err(MtfError::Io);
        },
    };
    let media_password = match TapeAddress::parse(w3, base).read_str(st, cur) {
        Ok(v) => v,
        Err(e) => {
            return Err(e);
        },
    };
    let w4 = match cur.read_u32() {
        Ok(v) => v,
        Err(_) => {
            return Err(MtfError::Io);
        },
    };
    let software_name = match TapeAddress::parse(w4, base).read_str(st, cur) {
        Ok(v) => v,
        Err(e) => {
            return Err(e);
        },
    };
    let format_logical_block_size = match cur.read_u16() {
        Ok(v) => v,
        Err(_) => {
            return Err(MtfError::Io);
        },
    };
    let software_vendor_id = match cur.read_u16() {
        Ok(v) => v,
        Err(_) => {
            return Err(MtfError::Io);
        },
    };
    let date = match cur.read_exact(5) {
        Ok(v) => v,
        Err(_) => {
            return Err(MtfError::Io);
        },
    };
    let media_date = DateTime::parse([date[0], date[1], date[2], date[3], date[4]]);
    proof {
        assert(seq![date@[0], date@[1], date@[2], date@[3], date@[4]] =~= data.subrange(
            base + 88,
            base + 93,
        ));
    }
    let major_version = match cur.read_u8() {
        Ok(v) => v,
        Err(_) => {
            return Err(MtfError::Io);
        },
    };
    Ok(
        DBLKSpecific::TAPE {
            media_family_id,
            tape_attrs: TapeAttrs { bits: ta_bits },
            media_sequence_number,
            password_encryption_algorithm,
            soft_filemark_block_size,
            media_based_catalog_type,
            media_name,
            media_description,
            media_password,
            software_name,
            format_logical_block_size,
            software_vendor_id,
            media_date,
            major_version,
        },
    )
}

fn parse_sset_body(cur: &mut ByteCursor<'_>, base: usize, st: &StringType) -> (r: Result<
    DBLKSpecific,
    MtfError,
>)
    requires
        old(cur).pos == base + 52,
        base + 52 <= old(cur).data@.len(),
    ensures
        final(cur).data == old(cur).data,
        r is Err <==> spec_sset_err(old(cur).data@, base as int, *st) is Some,
        r is Err ==> r == Err::<DBLKSpecific, MtfError>(
            spec_sset_err(old(cur).data@, base as int, *st).unwrap(),
        ),
        r is Ok ==> sset_body_wf(old(cur).data@, base as int, *st, r.unwrap()),
        r is Ok ==> final(cur).pos == base + 98,
{
    let ghost data = cur.data@;
    let attrs_bits = match cur.read_u32() {
        Ok(v) => v,
        Err(_) => {
            return Err(MtfError::Io);
        },
    };
    if !(attrs_bits & SSET_ATTR_MASK == attrs_bits) {
        return Err(MtfError::BadFlags);
    }
    let password_encryption_algorithm = match cur.read_u16() {
        Ok(v) => v,
        Err(_) => {
            return Err(MtfError::Io);
        },
    };
    let software_compression_algorithm = match cur.read_u16() {
        Ok(v) => v,
        Err(_) => {
            return Err(MtfError::Io);
        },
    };
    let software_vendor_id = match cur.read_u16() {
        Ok(v) => v,
        Err(_) => {
            return Err(MtfError::Io);
        },
    };
    let data_set_number = match cur.read_u16() {
        Ok(v) => v,
        Err(_) => {
            return Err(MtfError::Io);
        },
    };
    let w1 = match cur.read_u32() {
        Ok(v) => v,
        Err(_) => {
            return Err(MtfError::Io);
        },
    };
    let data_set_name = match TapeAddress::parse(w1, base).read_str(st, cur) {
        Ok(v) => v,
        Err(e) => {
            return Err(e);
        },
    };
    let w2 = match cur.read_u32() {
        Ok(v) => v,
        Err(_) => {
            return Err(MtfError::Io);
        },
    };
    let data_set_description = match TapeAddress::parse(w2, base).read_str(st, cur) {
        Ok(v) => v,
        Err(e) => {
            return Err(e);
        },
    };
    let w3 = match cur.read_u32() {
        Ok(v) => v,
        Err(_) => {
            return Err(MtfError::Io);
        },
    };
    let data_set_password = match TapeAddress::parse(w3, base).read_str(st, cur) {
        Ok(v) => v,
        Err(e) => {
            return Err(e);
        },
    };
    let w4 = match cur.read_u32() {
        Ok(v) => v,
        Err(_) => {
            return Err(MtfError::Io);
        },
    };
    let username = match TapeAddress::parse(w4, base).read_str(st, cur) {
        Ok(v) => v,
        Err(e) => {
            return Err(e);
        },
    };
    let physical_block_address = match cur.read_u64() {
        Ok(v) => v,
        Err(_) => {
            return Err(MtfError::Io);
        },
    };
    let date = match cur.read_exact(5) {
        Ok(v) => v,
        Err(_) => {
            return Err(MtfError::Io);
        },
    };
    let write_date = DateTime::parse([date[0], date[1], date[2], date[3], date[4]]);
    proof {
        assert(seq![date@[0], date@[1], date@[2], date@[3], date@[4]] =~= data.subrange(
            base + 88,
            base + 93,
        ));
    }
    let software_major_version = match cur.read_u8() {
        Ok(v) => v,
        Err(_) => {
            return Err(MtfError::Io);
        },
    };
    let software_minor_version = match cur.read_u8() {
        Ok(v) => v,
        Err(_) => {
            return Err(MtfError::Io);
        },
    };
    let timezone = match cur.read_i8() {
        Ok(v) => v,
        Err(_) => {
            return Err(MtfError::Io);
        },
    };
    let minor_version = match cur.read_u8() {
        Ok(v) => v,
        Err(_) => {
            return Err(MtfError::Io);
        },
    };
    let media_catalog_version = match cur.read_u8() {
        Ok(v) => v,
        Err(_) => {
            return Err(MtfError::Io);
        },
    };
    Ok(
        DBLKSpecific::SSET {
            attrs: SSetAttrs { bits: attrs_bits },
            password_encryption_algorithm,
            software_compression_algorithm,
            software_vendor_id,
            data_set_number,
            data_set_name,
            data_set_description,
            data_set_password,
            username,
            physical_block_address,
            write_date,
            software_major_version,
            software_minor_version,
            timezone,
            minor_version,
            media_catalog_version,
        },
    )
}

fn parse_volb_body(cur: &mut ByteCursor<'_>, base: usize, st: &StringType) -> (r: Result<
    DBLKSpecific,
    MtfError,
>)
    requires
        old(cur).pos == base + 52,
        base + 52 <= old(cur).data@.len(),
    ensures
        final(cur).data == old(cur).data,
        r is Err <==> spec_volb_err(old(cur).data@, base as int, *st) is Some,
        r is Err ==> r == Err::<DBLKSpecific, MtfError>(
            spec_volb_err(old(cur).data@, base as int, *st).unwrap(),
        ),
        r is Ok ==> volb_body_wf(old(cur).data@, base as int, *st, r.unwrap()),
        r is Ok ==> final(cur).pos == base + 73,
{
    let ghost data = cur.data@;
    let attrs_bits = match cur.read_u32() {
        Ok(v) => v,
        Err(_) => {
            return Err(MtfError::Io);
        },
    };
    if !(attrs_bits & VOLB_ATTR_MASK == attrs_bits) {
        return Err(MtfError::BadFlags);
    }
    let w1 = match cur.read_u32() {
        Ok(v) => v,
        Err(_) => {
            return Err(MtfError::Io);
        },
    };
    let device_name = match TapeAddress::parse(w1, base).read_str(st, cur) {
        Ok(v) => v,
        Err(e) => {
            return Err(e);
        },
    };
    let w2 = match cur.read_u32() {
        Ok(v) => v,
        Err(_) => {
            return Err(MtfError::Io);
        },
    };
    let volume_name = match TapeAddress::parse(w2, base).read_str(st, cur) {
        Ok(v) => v,
        Err(e) => {
            return Err(e);
        },
    };
    let w3 = match cur.read_u32() {
        Ok(v) => v,
        Err(_) => {
            return Err(MtfError::Io);
        },
    };
    let machine_name = match TapeAddress::parse(w3, base).read_str(st, cur) {
        Ok(v) => v,
        Err(e) => {
            return Err(e);
        },
    };
    let date = match cur.read_exact(5) {
        Ok(v) => v,
        Err(_) => {
            return Err(MtfError::Io);
        },
    };
    let write_date = DateTime::parse([date[0], date[1], date[2], date[3], date[4]]);
    proof {
        assert(seq![date@[0], date@[1], date@[2], date@[3], date@[4]] =~= data.subrange(
            base + 68,
            base + 73,
        ));
    }
    Ok(
        DBLKSpecific::VOLB {
            attrs: VolbAttrs { bits: attrs_bits },
            device_name,
            volume_name,
            machine_name,
            write_date,
        },
    )
}

fn parse_sfmb_body(cur: &mut ByteCursor<'_>, base: usize, tape_blocks: Option<u16>) -> (r: Result<
    DBLKSpecific,
    MtfError,
>)
    requires
        old(cur).pos == base + 52,
        base + 52 <= old(cur).data@.len(),
    ensures
        final(cur).data == old(cur).data,
        r is Err <==> spec_sfmb_err(old(cur).data@, base as int, tape_blocks) is Some,
        r is Err ==> r == Err::<DBLKSpecific, MtfError>(
            spec_sfmb_err(old(cur).data@, base as int, tape_blocks).unwrap(),
        ),
        r is Ok ==> sfmb_body_wf(old(cur).data@, base as int, tape_blocks, r.unwrap()),
        r is Ok ==> final(cur).pos == base + 60 + (512 * tape_blocks.unwrap() - 60),
{
    let ghost data = cur.data@;
    let number_of_entries = match cur.read_u32() {
        Ok(v) => v,
        Err(_) => {
            return Err(MtfError::Io);
        },
    };
    let used_entries = match cur.read_u32() {
        Ok(v) => v,
        Err(_) => {
            return Err(MtfError::Io);
        },
    };
    let blocks = match tape_blocks {
        Some(b) => b,
        None => {
            return Err(MtfError::Dependency);
        },
    };
    let bytes: u32 = 512 * (blocks as u32);
    if bytes < 60 {
        return Err(MtfError::Invariant);
    }
    let n = ((bytes - 60) / 4) as usize;
    proof {
        assert(bytes == 4 * (128 * (blocks as u32)));
        assert(4 * n == bytes - 60);
        assert(data.len() == vstd::slice::spec_slice_len(cur.data));
    }
    let mut entries: Vec<u32> = Vec::new();
    let mut k: usize = 0;
    while k < n
        invariant
            k <= n,
            cur.data == old(cur).data,
            cur.data@ == data,
            cur.pos == base + 60 + 4 * k,
            cur.pos <= data.len(),
            tape_blocks == Some(blocks),
            512 * blocks >= 60,
            4 * n == 512 * blocks - 60,
            data.len() <= usize::MAX,
            entries@.len() == k,
            forall|j: int| 0 <= j < k ==> entries@[j] == le32(data, base + 60 + 4 * j),
        decreases n - k,
    {
        let w = match cur.read_u32() {
            Ok(v) => v,
            Err(_) => {
                return Err(MtfError::Io);
            },
        };
        entries.push(w);
        k = k + 1;
    }
    Ok(DBLKSpecific::SFMB { number_of_entries, used_entries, entries })
}

fn parse_unknown_body(cur: &ByteCursor<'_>, base: usize) -> (r: Result<DBLKSpecific, MtfError>)
    requires
        base + 52 <= cur.data@.len(),
    ensures
        r is Ok,
        unknown_body_wf(cur.data@, base as int, r.unwrap()),
{
    let mut scan = ByteCursor { data: cur.data, pos: base };
    let id_bytes = match scan.read_exact(4) {
        Ok(v) => v,
        Err(_) => {
            return Err(MtfError::Encoding);
        },
    };
    match StringType::ANSI_STR.bytes_to_string(id_bytes) {
        Ok(s) => Ok(DBLKSpecific::UNKNOWN(s)),
        Err(_) => Err(MtfError::Encoding),
    }
}

impl DBLK {
    /// Decodes the DBLK at the cursor: the checksummed 52-byte common header,
    /// then the body of its kind. The cursor is left after the body; the
    /// caller walks on to `base + offset_to_first_event` for the streams.
    /// `sets` supplies the TAPE context that an SFMB body depends on.
    #[verifier::rlimit(100)]
    #[verifier::spinoff_prover]
    pub fn parse(cur: &mut ByteCursor<'_>, sets: &DBLKSets) -> (r: Result<DBLK, MtfError>)
        ensures
            final(cur).data == old(cur).data,
            r is Err <==> spec_dblk_err(
                old(cur).data@,
                old(cur).pos as int,
                sets.tape_soft_filemark_blocks,
            ) is Some,
            r is Err ==> r == Err::<DBLK, MtfError>(
                spec_dblk_err(
                    old(cur).data@,
                    old(cur).pos as int,
                    sets.tape_soft_filemark_blocks,
                ).unwrap(),
            ),
            r is Ok ==> dblk_wf(
                old(cur).data@,
                old(cur).pos as int,
                sets.tape_soft_filemark_blocks,
                r.unwrap(),
            ),
            r is Ok ==> final(cur).pos == spec_body_end(
                old(cur).data@,
                old(cur).pos as int,
                sets.tape_soft_filemark_blocks,
            ),
    {
        let ghost data = cur.data@;
        let base = cur.position();
        if !cur.can_read(52) {
            return Err(MtfError::Io);
        }
        let mut h = ByteCursor { data: cur.data, pos: base };
        let id = match h.read_u32() {
            Ok(v) => v,
            Err(_) => {
                return Err(MtfError::Io);
            },
        };
        let ty = DBLKType::parse(id);
        let attrs_word = match h.read_u32() {
            Ok(v) => v,
            Err(_) => {
                return Err(MtfError::Io);
            },
        };
        let attrs = match CommonBlockAttrs::parse(attrs_word, ty) {
            Ok(a) => a,
            Err(e) => {
                return Err(e);
            },
        };
        let offset_to_first_event = match h.read_u16() {
            Ok(v) => v,
            Err(_) => {
                return Err(MtfError::Io);
            },
        };
        let osid_raw = match h.read_u8() {
            Ok(v) => v,
            Err(_) => {
                return Err(MtfError::Io);
            },
        };
        let osid = OS::parse(osid_raw);
        let osver = match h.read_u8() {
            Ok(v) => v,
            Err(_) => {
                return Err(MtfError::Io);
            },
        };
        let display_size = match h.read_u64() {
            Ok(v) => v,
            Err(_) => {
                return Err(MtfError::Io);
            },
        };
        let format_logical_address = match h.read_u64() {
            Ok(v) => v,
            Err(_) => {
                return Err(MtfError::Io);
            },
        };
        // two reserved-for-mbc bytes and six reserved bytes are skipped
        h.set_position(base + 36);
        let control_block_id = match h.read_u32() {
            Ok(v) => v,
            Err(_) => {
                return Err(MtfError::Io);
            },
        };
        // four reserved bytes are skipped
        h.set_position(base + 44);
        let osd_word = match h.read_u32() {
            Ok(v) => v,
            Err(_) => {
                return Err(MtfError::Io);
            },
        };
        let os_specific_data = TapeAddress::parse(osd_word, base);
        let st_raw = match h.read_u8() {
            Ok(v) => v,
            Err(_) => {
                return Err(MtfError::Io);
            },
        };
        let string_type = match StringType::parse(st_raw) {
            Ok(s) => s,
            Err(e) => {
                return Err(e);
            },
        };
        // one reserved byte is skipped
        h.set_position(base + 50);
        let stored = match h.read_u16() {
            Ok(v) => v,
            Err(_) => {
                return Err(MtfError::Io);
            },
        };
        let sum = match xor_words(cur, base, 25) {
            Ok(v) => v,
            Err(_) => {
                return Err(MtfError::Io);
            },
        };
        if sum != stored {
            return Err(MtfError::Checksum);
        }
        let header = CommonBlockHeader {
            attrs,
            offset_to_first_event,
            osid,
            osver,
            display_size,
            format_logical_address,
            control_block_id,
            os_specific_data,
            string_type,
            header_checksum: stored,
        };
        proof {
            assert(header == spec_common_header(data, base as int));
        }
        cur.set_position(base + 52);
        let body = match ty {
            DBLKType::TAPE => {
                match parse_tape_body(
                    cur,
                    base,
                    &string_type,
                    format_logical_address,
                    control_block_id,
                ) {
                    Ok(b) => b,
                    Err(e) => {
                        return Err(e);
                    },
                }
            },
            DBLKType::SSET => {
                match parse_sset_body(cur, base, &string_type) {
                    Ok(b) => b,
                    Err(e) => {
                        return Err(e);
                    },
                }
            },
            DBLKType::VOLB => {
                match parse_volb_body(cur, base, &string_type) {
                    Ok(b) => b,
                    Err(e) => {
                        return Err(e);
                    },
                }
            },
            DBLKType::SFMB => {
                match parse_sfmb_body(cur, base, sets.tape_soft_filemark_blocks) {
                    Ok(b) => b,
                    Err(e) => {
                        return Err(e);
                    },
                }
            },
            DBLKType::DIRB => DBLKSpecific::DIRB,
            DBLKType::FILE => DBLKSpecific::FILE,
            DBLKType::CFIL => DBLKSpecific::CFIL,
            DBLKType::ESPB => DBLKSpecific::ESPB,
            DBLKType::ESET => DBLKSpecific::ESET,
            DBLKType::EOTM => DBLKSpecific::EOTM,
            DBLKType::UNKNOWN => {
                match parse_unknown_body(cur, base) {
                    Ok(b) => b,
                    Err(e) => {
                        return Err(e);
                    },
                }
            },
        };
        Ok(DBLK { header, body })
    }
}

/// The headers of the latest blocks seen of each retained kind, together
/// with the TAPE soft filemark block size that SFMB framing depends on.
#[derive(Debug, Clone, Copy, PartialEq, Eq, Structural)]
pub struct DBLKSets {
    pub tape: Option<CommonBlockHeader>,
    pub tape_soft_filemark_blocks: Option<u16>,
    pub set: Option<CommonBlockHeader>,
    pub vol: Option<CommonBlockHeader>,
    pub dir: Option<CommonBlockHeader>,
    pub file: Option<CommonBlockHeader>,
    pub soft_mark: Option<CommonBlockHeader>,
}

/// The context after retaining the block whose bytes stand at `base`: only
/// the slot of its kind changes, and a TAPE block also records the soft
/// filemark block size that SFMB framing will need.
pub open spec fn spec_sets_after(s: DBLKSets, data: Seq<u8>, base: int) -> DBLKSets {
    let ty = spec_dblk_type(le32(data, base));
    let h = spec_common_header(data, base);
    DBLKSets {
        tape: if ty == DBLKType::TAPE {
            Some(h)
        } else {
            s.tape
        },
        tape_soft_filemark_blocks: if ty == DBLKType::TAPE {
            Some(le16(data, base + 64))
        } else {
            s.tape_soft_filemark_blocks
        },
        set: if ty == DBLKType::SSET {
            Some(h)
        } else {
            s.set
        },
        vol: if ty == DBLKType::VOLB {
            Some(h)
        } else {
            s.vol
        },
        dir: if ty == DBLKType::DIRB {
            Some(h)
        } else {
            s.dir
        },
        file: if ty == DBLKType::FILE {
            Some(h)
        } else {
            s.file
        },
        soft_mark: if ty == DBLKType::SFMB {
            Some(h)
        } else {
            s.soft_mark
        },
    }
}

impl DBLKSets {
    pub fn new() -> (r: DBLKSets)
        ensures
            r == (DBLKSets {
                tape: None::<CommonBlockHeader>,
                tape_soft_filemark_blocks: None::<u16>,
                set: None::<CommonBlockHeader>,
                vol: None::<CommonBlockHeader>,
                dir: None::<CommonBlockHeader>,
                file: None::<CommonBlockHeader>,
                soft_mark: None::<CommonBlockHeader>,
            }),
    {
        DBLKSets {
            tape: None,
            tape_soft_filemark_blocks: None,
            set: None,
            vol: None,
            dir: None,
            file: None,
            soft_mark: None,
        }
    }

    /// Retains `dblk` as the latest of its kind; other kinds keep their
    /// context untouched.
    pub fn update(&mut self, dblk: &DBLK)
        ensures
            final(self).tape == (if dblk.body is TAPE {
                Some(dblk.header)
            } else {
                old(self).tape
            }),
            final(self).tape_soft_filemark_blocks == (match dblk.body {
                DBLKSpecific::TAPE { soft_filemark_block_size, .. } => Some(
                    soft_filemark_block_size.blocks,
                ),
                _ => old(self).tape_soft_filemark_blocks,
            }),
            final(self).set == (if dblk.body is SSET {
                Some(dblk.header)
            } else {
                old(self).set
            }),
            final(self).vol == (if dblk.body is VOLB {
                Some(dblk.header)
            } else {
                old(self).vol
            }),
            final(self).dir == (if dblk.body is DIRB {
                Some(dblk.header)
            } else {
                old(self).dir
            }),
            final(self).file == (if dblk.body is FILE {
                Some(dblk.header)
            } else {
                old(self).file
            }),
            final(self).soft_mark == (if dblk.body is SFMB {
                Some(dblk.header)
            } else {
                old(self).soft_mark
            }),
    {
        match &dblk.body {
            DBLKSpecific::TAPE { soft_filemark_block_size, .. } => {
                self.tape = Some(dblk.header);
                self.tape_soft_filemark_blocks = Some(soft_filemark_block_size.blocks);
            },
            DBLKSpecific::SSET { .. } => {
                self.set = Some(dblk.header);
            },
            DBLKSpecific::VOLB { .. } => {
                self.vol = Some(dblk.header);
            },
            DBLKSpecific::DIRB => {
                self.dir = Some(dblk.header);
            },
            DBLKSpecific::FILE => {
                self.file = Some(dblk.header);
            },
            DBLKSpecific::SFMB { .. } => {
                self.soft_mark = Some(dblk.header);
            },
            _ => {},
        }
    }
}

} // verus!
