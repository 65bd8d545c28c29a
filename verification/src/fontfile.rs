//! Font file signatures and collection headers.
//!
//! These functions read plain bytes: the four-byte signature that names the
//! container format, and the TTC collection header that counts and locates
//! the faces inside a collection file.

use vstd::prelude::*;
use vstd::string::StringExecFns;

use crate::errors::Error;

verus! {

/// Font container format detected from the file signature.
#[derive(Clone, Copy, Debug, PartialEq, Eq, Structural)]
pub enum FontType {
    /// Plain TrueType (`00 01 00 00`).
    TrueType,
    /// CFF-flavoured OpenType (`OTTO`).
    OpenType,
    /// TrueType collection (`ttcf`).
    TrueTypeCollection,
    /// OpenType collection; never produced by signature detection, which
    /// cannot tell the two collection flavours apart.
    OpenTypeCollection,
    /// WOFF container (`wOFF`).
    WOFF,
    /// WOFF2 container (`wOF2`).
    WOFF2,
}

/// The format named by a four-byte signature, if any.
pub open spec fn font_type_of(data: Seq<u8>) -> Option<FontType> {
    if data.len() < 4 {
        None
    } else if data[0] == 0x00 && data[1] == 0x01 && data[2] == 0x00 && data[3] == 0x00 {
        Some(FontType::TrueType)
    } else if data[0] == 0x4F && data[1] == 0x54 && data[2] == 0x54 && data[3] == 0x4F {
        Some(FontType::OpenType)
    } else if data[0] == 0x74 && data[1] == 0x74 && data[2] == 0x63 && data[3] == 0x66 {
        Some(FontType::TrueTypeCollection)
    } else if data[0] == 0x77 && data[1] == 0x4F && data[2] == 0x46 && data[3] == 0x46 {
        Some(FontType::WOFF)
    } else if data[0] == 0x77 && data[1] == 0x4F && data[2] == 0x46 && data[3] == 0x32 {
        Some(FontType::WOFF2)
    } else {
        None
    }
}

impl FontType {
    /// Detect the container format from the first four bytes: `00 01 00 00`
    /// is TrueType, `OTTO` OpenType, `ttcf` a TrueType collection, `wOFF`
    /// and `wOF2` the web containers; anything else, or a shorter buffer, is
    /// unrecognized.
    pub fn from_data(data: &[u8]) -> (r: Option<FontType>)
        ensures
            r == font_type_of(data@),
    {
        if data.len() < 4 {
            return None;
        }
        let b0 = data[0];
        let b1 = data[1];
        let b2 = data[2];
        let b3 = data[3];
        if b0 == 0x00 && b1 == 0x01 && b2 == 0x00 && b3 == 0x00 {
            Some(FontType::TrueType)
        } else if b0 == 0x4F && b1 == 0x54 && b2 == 0x54 && b3 == 0x4F {
            Some(FontType::OpenType)
        } else if b0 == 0x74 && b1 == 0x74 && b2 == 0x63 && b3 == 0x66 {
            Some(FontType::TrueTypeCollection)
        } else if b0 == 0x77 && b1 == 0x4F && b2 == 0x46 && b3 == 0x46 {
            Some(FontType::WOFF)
        } else if b0 == 0x77 && b1 == 0x4F && b2 == 0x46 && b3 == 0x32 {
            Some(FontType::WOFF2)
        } else {
            None
        }
    }

    /// Whether the format is a collection of several faces.
    pub fn is_collection(&self) -> (r: bool)
        ensures
            r == (*self is TrueTypeCollection || *self is OpenTypeCollection),
    {
        match self {
            FontType::TrueTypeCollection => true,
            FontType::OpenTypeCollection => true,
            _ => false,
        }
    }
}

/// The face count stored in a TTC header: the big-endian word at offset 8.
pub open spec fn collection_count_of(data: Seq<u8>) -> int
    recommends
        data.len() >= 12,
{
    (data[8] as int) * 0x1000000 + (data[9] as int) * 0x10000 + (data[10] as int) * 0x100 + (
    data[11] as int)
}

/// Read the face count of a TTC/OTC collection header. Accepted exactly
/// when the header is long enough and the stored count is in `[1, 1024]`;
/// the accepted value is the big-endian word at offset 8.
pub fn count_collection_fonts(data: &[u8]) -> (r: Result<u32, Error>)
    ensures
        r.is_ok() <==> (data@.len() >= 12 && 1 <= collection_count_of(data@) <= 1024),
        r matches Ok(n) ==> n == collection_count_of(data@),
        r.is_err() ==> r->Err_0 is InvalidFont,
{
    if data.len() < 12 {
        return Err(
            Error::InvalidFont {
                path: String::new(),
                reason: String::from_str("Collection header too small"),
            },
        );
    }
    let num_fonts: u32 = (data[8] as u32) * 0x1000000 + (data[9] as u32) * 0x10000 + (
    data[10] as u32) * 0x100 + (data[11] as u32);
    if num_fonts == 0 || num_fonts > 1024 {
        return Err(
            Error::InvalidFont {
                path: String::new(),
                reason: String::from_str("Invalid font count in collection"),
            },
        );
    }
    Ok(num_fonts)
}

/// The byte offset of face `index` inside a TTC collection: the big-endian
/// word in the offset table that follows the 12-byte header.
pub open spec fn collection_face_offset_of(data: Seq<u8>, index: int) -> int
    recommends
        0 <= index,
        data.len() >= 16 + index * 4,
{
    let base = 12 + index * 4;
    (data[base] as int) * 0x1000000 + (data[base + 1] as int) * 0x10000 + (data[base + 2] as int)
        * 0x100 + (data[base + 3] as int)
}

/// Read the table-directory offset of one face in a TTC collection.
/// Accepted exactly when the offset entry is inside the buffer and the
/// offset itself points into the buffer.
pub fn collection_face_offset(data: &[u8], index: u32) -> (r: Result<u32, Error>)
    requires
        data@.len() <= usize::MAX,
    ensures
        r.is_ok() <==> (12 + (index as int) * 4 + 4 <= data@.len() && 0
            <= collection_face_offset_of(data@, index as int) < data@.len()),
        r matches Ok(off) ==> off == collection_face_offset_of(data@, index as int),
        r.is_err() ==> r->Err_0 is InvalidFont,
{
    let n = data.len();
    let need: u64 = 16u64 + (index as u64) * 4u64;
    if (n as u64) < need {
        return Err(
            Error::InvalidFont {
                path: String::new(),
                reason: String::from_str("Collection offset table truncated"),
            },
        );
    }
    let base: usize = 12 + (index as usize) * 4;
    let off: u32 = (data[base] as u32) * 0x1000000 + (data[base + 1] as u32) * 0x10000 + (
    data[base + 2] as u32) * 0x100 + (data[base + 3] as u32);
    if (off as usize) >= n {
        return Err(
            Error::InvalidFont {
                path: String::new(),
                reason: String::from_str("Invalid collection face offset"),
            },
        );
    }
    Ok(off)
}

} // verus!
