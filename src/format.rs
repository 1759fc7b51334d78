//! The fixed header at the start of an image and the layout of the regions
//! that follow it.
use vstd::prelude::*;

verus! {

/// The sentinel that the first four bytes of an image must hold.
pub const MAGIC: u32 = 0xCAFE_DADA;

/// Byte length of the encoded header.
pub const HEADER_SIZE: u64 = 32;

/// Why an image could not be opened or a resource could not be read.
#[derive(Debug, Clone, Copy, PartialEq, Eq, Structural)]
pub enum ImageError {
    /// The buffer is shorter than the header.
    TooShort,
    /// The first four bytes are not the sentinel.
    BadMagic,
    /// A read reaches past the end of the buffer or of its region.
    OutOfBounds,
    /// The resource is stored compressed, which this reader cannot undo.
    Compressed,
}

/// The decoded header of an image.
#[derive(Debug, Clone, Copy, PartialEq, Eq, Structural)]
pub struct Header {
    pub magic: u32,
    pub major: u16,
    pub minor: u16,
    pub flags: u32,
    pub resource_count: u32,
    pub table_length: u32,
    pub locations_size: u32,
    pub strings_size: u32,
}

/// Absolute byte offsets of the five regions of an image.
#[derive(Debug, Clone, Copy, PartialEq, Eq, Structural)]
pub struct Layout {
    pub redirect_off: u64,
    pub offsets_off: u64,
    pub locations_off: u64,
    pub strings_off: u64,
    pub data_base: u64,
}

/// The little-endian 32-bit value of the four bytes of `s` at `o`.
pub open spec fn le_u32(s: Seq<u8>, o: int) -> u32 {
    (s[o] as int + s[o + 1] as int * 0x100 + s[o + 2] as int * 0x1_0000 + s[o + 3] as int
        * 0x100_0000) as u32
}

/// Reads the little-endian 32-bit value at `o`.
pub fn read_u32_le(data: &[u8], o: usize) -> (r: u32)
    requires
        o + 4 <= data@.len(),
    ensures
        r == le_u32(data@, o as int),
{
    let b0 = data[o] as u32;
    let b1 = data[o + 1] as u32;
    let b2 = data[o + 2] as u32;
    let b3 = data[o + 3] as u32;
    b0 + b1 * 0x100 + b2 * 0x1_0000 + b3 * 0x100_0000
}

/// The header that the first 32 bytes of `s` encode.
pub open spec fn header_of(s: Seq<u8>) -> Header {
    Header {
        magic: le_u32(s, 0),
        major: (le_u32(s, 4) / 0x1_0000) as u16,
        minor: (le_u32(s, 4) % 0x1_0000) as u16,
        flags: le_u32(s, 8),
        resource_count: le_u32(s, 12),
        table_length: le_u32(s, 16),
        locations_size: le_u32(s, 20),
        strings_size: le_u32(s, 24),
    }
}

/// What decoding the header of `s` gives: an error for a short buffer or a
/// wrong sentinel, the header otherwise.
pub open spec fn parse_header_spec(s: Seq<u8>) -> Result<Header, ImageError> {
    if s.len() < HEADER_SIZE {
        Err(ImageError::TooShort)
    } else if le_u32(s, 0) != MAGIC {
        Err(ImageError::BadMagic)
    } else {
        Ok(header_of(s))
    }
}

/// The regions follow the header and each other without gaps.
pub open spec fn layout_of(h: Header) -> Layout {
    let redirect = HEADER_SIZE as int;
    let offsets = redirect + 4 * h.table_length;
    let locations = offsets + 4 * h.table_length;
    let strings = locations + h.locations_size;
    let data = strings + h.strings_size;
    Layout {
        redirect_off: redirect as u64,
        offsets_off: offsets as u64,
        locations_off: locations as u64,
        strings_off: strings as u64,
        data_base: data as u64,
    }
}

impl Header {
    /// Decodes the header at the start of `data` and checks its sentinel.
    pub fn parse(data: &[u8]) -> (r: Result<Header, ImageError>)
        ensures
            r == parse_header_spec(data@),
    {
        if data.len() < 32 {
            return Err(ImageError::TooShort);
        }
        let magic = read_u32_le(data, 0);
        if magic != MAGIC {
            return Err(ImageError::BadMagic);
        }
        let ver = read_u32_le(data, 4);
        Ok(
            Header {
                magic,
                major: (ver / 0x1_0000) as u16,
                minor: (ver % 0x1_0000) as u16,
                flags: read_u32_le(data, 8),
                resource_count: read_u32_le(data, 12),
                table_length: read_u32_le(data, 16),
                locations_size: read_u32_le(data, 20),
                strings_size: read_u32_le(data, 24),
            },
        )
    }
}

impl Layout {
    /// Computes where each region of an image with header `h` starts.
    pub fn of(h: &Header) -> (r: Layout)
        ensures
            r == layout_of(*h),
    {
        let redirect_off: u64 = HEADER_SIZE;
        let offsets_off: u64 = redirect_off + 4 * (h.table_length as u64);
        let locations_off: u64 = offsets_off + 4 * (h.table_length as u64);
        let strings_off: u64 = locations_off + h.locations_size as u64;
        let data_base: u64 = strings_off + h.strings_size as u64;
        Layout { redirect_off, offsets_off, locations_off, strings_off, data_base }
    }
}

/// Each region starts where the one before it ends: the gaps between the
/// offsets are exactly the declared region sizes, and where those sizes are
/// non-zero the offsets strictly increase.
pub proof fn lemma_layout_chain(h: Header)
    ensures
        layout_of(h).redirect_off == HEADER_SIZE,
        layout_of(h).offsets_off - layout_of(h).redirect_off == 4 * h.table_length,
        layout_of(h).locations_off - layout_of(h).offsets_off == 4 * h.table_length,
        layout_of(h).strings_off - layout_of(h).locations_off == h.locations_size,
        layout_of(h).data_base - layout_of(h).strings_off == h.strings_size,
        h.table_length > 0 && h.locations_size > 0 && h.strings_size > 0 ==> {
            &&& layout_of(h).redirect_off < layout_of(h).offsets_off
            &&& layout_of(h).offsets_off < layout_of(h).locations_off
            &&& layout_of(h).locations_off < layout_of(h).strings_off
            &&& layout_of(h).strings_off < layout_of(h).data_base
        },
{
}

} // verus!
