//! An open image: the buffer, its header, and lookups of resources by path.
use vstd::prelude::*;
use vstd::slice::slice_subrange;
use vstd::string::StringExecFns;
use vstd::utf8::{decode_utf8, encode_utf8, valid_utf8};
use crate::format::{header_of, layout_of, le_u32, parse_header_spec, read_u32_le, Header, ImageError, Layout};
use crate::hash::{hash, hash_seeded, hash_spec, HASH_MUL};
use crate::location::{entry_of, Entry};

verus! {

/// The text that lossy UTF-8 decoding makes of the bytes `b`.
pub uninterp spec fn lossy_utf8(b: Seq<u8>) -> Seq<char>;

/// Relies on `String::from_utf8_lossy`: the text depends on the bytes alone,
/// and valid UTF-8 comes back decoded as it stands.
#[verifier::external_body]
fn decode_lossy(b: &[u8]) -> (r: String)
    ensures
        r@ == lossy_utf8(b@),
        valid_utf8(b@) ==> r@ == decode_utf8(b@),
{
    String::from_utf8_lossy(b).into_owned()
}

/// Entry `i` of the table of 4-byte little-endian values at `base`, if the
/// buffer holds it.
pub open spec fn table_entry(data: Seq<u8>, base: int, i: int) -> Option<u32> {
    if base + 4 * i + 4 <= data.len() {
        Some(le_u32(data, base + 4 * i))
    } else {
        None
    }
}

/// The slot that a redirect value `r` leads to for the path bytes `path`:
/// a negative value (as a signed 32-bit number) names the slot directly as
/// `-1 - r`, a positive one is a seed for a second hash.
pub open spec fn redirect_slot(r: u32, path: Seq<u8>, len: u32) -> int {
    if r >= 0x8000_0000 {
        -1 - (r - 0x1_0000_0000)
    } else {
        (hash_spec(r, path) % len) as int
    }
}

/// The slot and location offset that the hash index gives for `path`, or
/// `None` where the index has no resource for it.
pub open spec fn slot_of(data: Seq<u8>, path: Seq<u8>) -> Result<Option<(u32, u32)>, ImageError> {
    let h = header_of(data);
    let lay = layout_of(h);
    let len = h.table_length;
    if len == 0 {
        Ok(None)
    } else {
        let idx = hash_spec(HASH_MUL, path) % len;
        match table_entry(data, lay.redirect_off as int, idx as int) {
            None => Err(ImageError::OutOfBounds),
            Some(r) => if r == 0 {
                Ok(None)
            } else {
                let slot = redirect_slot(r, path, len);
                if slot >= len {
                    Ok(None)
                } else {
                    match table_entry(data, lay.offsets_off as int, slot) {
                        None => Err(ImageError::OutOfBounds),
                        Some(off) => if off == 0 || off >= h.locations_size {
                            Ok(None)
                        } else {
                            Ok(Some((slot as u32, off)))
                        },
                    }
                }
            },
        }
    }
}

/// Index of the first zero byte of `s`, or its length where it has none.
pub open spec fn nul_index(s: Seq<u8>) -> int
    decreases s.len(),
{
    if s.len() == 0 || s[0] == 0 {
        0
    } else {
        1 + nul_index(s.drop_first())
    }
}

/// The bytes of the zero-terminated string at `off` in the strings region,
/// or `None` where the region or the terminator lies past its bounds.
pub open spec fn string_bytes(data: Seq<u8>, off: u32) -> Option<Seq<u8>> {
    let h = header_of(data);
    let lay = layout_of(h);
    let a = lay.strings_off + off;
    let b = lay.strings_off + h.strings_size;
    if b > data.len() || a > b {
        None
    } else {
        let s = data.subrange(a, b);
        let n = nul_index(s);
        if n < s.len() {
            Some(s.subrange(0, n))
        } else {
            None
        }
    }
}

/// The text of the string at `off` in the strings region: its bytes
/// decoded as they stand where they are valid UTF-8, with malformed
/// sequences replaced otherwise.
pub open spec fn text_at(data: Seq<u8>, off: u32) -> Option<Seq<char>> {
    match string_bytes(data, off) {
        Some(b) => Some(
            if valid_utf8(b) {
                decode_utf8(b)
            } else {
                lossy_utf8(b)
            },
        ),
        None => None,
    }
}

/// The string at `off` between `pre` and `post`; empty where `off` is zero.
pub open spec fn name_part(data: Seq<u8>, off: u32, pre: Seq<char>, post: Seq<char>) -> Option<Seq<char>> {
    if off == 0 {
        Some(Seq::empty())
    } else {
        match text_at(data, off) {
            Some(t) => Some(pre + t + post),
            None => None,
        }
    }
}

/// The full path of the resource that `e` describes:
/// `/module/parent/base.ext`, each optional part left out where absent.
pub open spec fn name_of(data: Seq<u8>, e: Entry) -> Option<Seq<char>> {
    match (
        name_part(data, e.module_off, seq!['/'], seq!['/']),
        name_part(data, e.parent_off, Seq::empty(), seq!['/']),
        text_at(data, e.base_off),
        name_part(data, e.ext_off, seq!['.'], Seq::empty()),
    ) {
        (Some(m), Some(p), Some(b), Some(x)) => Some(m + p + b + x),
        _ => None,
    }
}

/// The entry whose location record starts at `off` in the locations
/// region; the record may run to the end of the region.
pub open spec fn location_at(data: Seq<u8>, off: u32) -> Result<Entry, ImageError> {
    let h = header_of(data);
    let lay = layout_of(h);
    let end = lay.locations_off + h.locations_size;
    if end > data.len() || off > h.locations_size {
        Err(ImageError::OutOfBounds)
    } else {
        Ok(entry_of(data.subrange(lay.locations_off + off, end)))
    }
}

/// The entry that the hash index leads to for `path`, before its name is
/// checked.
pub open spec fn candidate(data: Seq<u8>, path: Seq<char>) -> Result<Option<Entry>, ImageError> {
    match slot_of(data, encode_utf8(path)) {
        Err(e) => Err(e),
        Ok(None) => Ok(None),
        Ok(Some((_, off))) => match location_at(data, off) {
            Err(e) => Err(e),
            Ok(e) => Ok(Some(e)),
        },
    }
}

/// The content of the resource named `path`: `None` where the index has no
/// entry for it or the entry it leads to bears another name.
pub open spec fn resource_of(data: Seq<u8>, path: Seq<char>) -> Result<Option<Seq<u8>>, ImageError> {
    match candidate(data, path) {
        Err(e) => Err(e),
        Ok(None) => Ok(None),
        Ok(Some(e)) => match name_of(data, e) {
            None => Err(ImageError::OutOfBounds),
            Some(n) => if n != path {
                Ok(None)
            } else if e.compressed_size != 0 {
                Err(ImageError::Compressed)
            } else {
                let start = layout_of(header_of(data)).data_base + e.content_off;
                let stop = start + e.uncompressed_size;
                if stop > data.len() {
                    Err(ImageError::OutOfBounds)
                } else {
                    Ok(Some(data.subrange(start, stop)))
                }
            },
        },
    }
}

/// The internal name of the class `path` of the base module.
pub open spec fn java_base_name(path: Seq<char>) -> Seq<char> {
    "/java.base/"@ + path + ".class"@
}

/// The bytes that a lookup result holds.
pub open spec fn bytes_view<'b>(r: Result<Option<&'b [u8]>, ImageError>) -> Result<Option<Seq<u8>>, ImageError> {
    match r {
        Ok(Some(s)) => Ok(Some(s@)),
        Ok(None) => Ok(None),
        Err(e) => Err(e),
    }
}

/// An image held in a byte buffer, with its decoded header.
pub struct JImage<'a> {
    data: &'a [u8],
    header: Header,
    layout: Layout,
}

impl<'a> View for JImage<'a> {
    type V = Seq<u8>;

    closed spec fn view(&self) -> Seq<u8> {
        self.data@
    }
}

impl<'a> JImage<'a> {
    #[verifier::type_invariant]
    spec fn inv(&self) -> bool {
        &&& parse_header_spec(self.data@) == Ok::<Header, ImageError>(self.header)
        &&& self.layout == layout_of(self.header)
    }

    /// Opens the image held in `data`; fails where the buffer is shorter
    /// than the header or does not start with the sentinel.
    pub fn new(data: &'a [u8]) -> (r: Result<JImage<'a>, ImageError>)
        ensures
            match r {
                Ok(img) => img@ == data@ && parse_header_spec(data@) == Ok::<Header, ImageError>(header_of(data@)),
                Err(e) => parse_header_spec(data@) == Err::<Header, ImageError>(e),
            },
    {
        match Header::parse(data) {
            Ok(header) => {
                let layout = Layout::of(&header);
                Ok(JImage { data, header, layout })
            },
            Err(e) => Err(e),
        }
    }

    /// The decoded header.
    pub fn header(&self) -> (r: Header)
        ensures
            r == header_of(self@),
    {
        proof {
            use_type_invariant(self);
        }
        self.header
    }

    /// The absolute offsets of the regions.
    pub fn layout(&self) -> (r: Layout)
        ensures
            r == layout_of(header_of(self@)),
    {
        proof {
            use_type_invariant(self);
        }
        self.layout
    }

    /// Entry `i` of the redirect table, if the buffer holds it.
    fn redirect_at(&self, i: u32) -> (r: Option<u32>)
        ensures
            r == table_entry(self@, layout_of(header_of(self@)).redirect_off as int, i as int),
    {
        proof {
            use_type_invariant(self);
        }
        let o: u64 = self.layout.redirect_off + 4 * (i as u64);
        if o + 4 > self.data.len() as u64 {
            None
        } else {
            Some(read_u32_le(self.data, o as usize))
        }
    }

    /// Entry `i` of the offset table, if the buffer holds it.
    fn offset_at(&self, i: u32) -> (r: Option<u32>)
        ensures
            r == table_entry(self@, layout_of(header_of(self@)).offsets_off as int, i as int),
    {
        proof {
            use_type_invariant(self);
        }
        let o: u64 = self.layout.offsets_off + 4 * (i as u64);
        if o + 4 > self.data.len() as u64 {
            None
        } else {
            Some(read_u32_le(self.data, o as usize))
        }
    }

    /// Resolves `path` through the hash index to its slot and the offset of
    /// its location record.
    pub fn lookup_slot(&self, path: &str) -> (r: Result<Option<(u32, u32)>, ImageError>)
        ensures
            r == slot_of(self@, encode_utf8(path@)),
            r matches Ok(Some((slot, off))) ==> slot < header_of(self@).table_length && 0 < off
                < header_of(self@).locations_size,
    {
        proof {
            use_type_invariant(self);
        }
        let len = self.header.table_length;
        if len == 0 {
            return Ok(None);
        }
        let idx = hash(path) % len;
        let r = match self.redirect_at(idx) {
            Some(r) => r,
            None => return Err(ImageError::OutOfBounds),
        };
        if r == 0 {
            return Ok(None);
        }
        let slot: u32 = if r >= 0x8000_0000 {
            0xFFFF_FFFF - r
        } else {
            hash_seeded(r, path) % len
        };
        if slot >= len {
            return Ok(None);
        }
        let off = match self.offset_at(slot) {
            Some(off) => off,
            None => return Err(ImageError::OutOfBounds),
        };
        if off == 0 || off >= self.header.locations_size {
            return Ok(None);
        }
        Ok(Some((slot, off)))
    }
    /// Decodes the location record at `off` in the locations region.
    pub fn decode_location(&self, off: u32) -> (r: Result<Entry, ImageError>)
        ensures
            r == location_at(self@, off),
    {
        proof {
            use_type_invariant(self);
        }
        let end: u64 = self.layout.locations_off + self.header.locations_size as u64;
        if end > self.data.len() as u64 || off > self.header.locations_size {
            return Err(ImageError::OutOfBounds);
        }
        let at: u64 = self.layout.locations_off + off as u64;
        Ok(Entry::decode(slice_subrange(self.data, at as usize, end as usize)))
    }

    /// Reads the zero-terminated string at `off` in the strings region,
    /// decoding it as UTF-8 with malformed sequences replaced.
    pub fn string_at(&self, off: u32) -> (r: Result<String, ImageError>)
        ensures
            match r {
                Ok(t) => text_at(self@, off) == Some(t@),
                Err(e) => text_at(self@, off) is None && e == ImageError::OutOfBounds,
            },
    {
        proof {
            use_type_invariant(self);
        }
        let a: u64 = self.layout.strings_off + off as u64;
        let b: u64 = self.layout.strings_off + self.header.strings_size as u64;
        if b > self.data.len() as u64 || a > b {
            return Err(ImageError::OutOfBounds);
        }
        let s = slice_subrange(self.data, a as usize, b as usize);
        let mut i: usize = 0;
        while i < s.len() && s[i] != 0
            invariant
                i <= s@.len(),
                forall|k: int| 0 <= k < i ==> s@[k] != 0,
            decreases s@.len() - i,
        {
            i = i + 1;
        }
        proof {
            lemma_nul_index(s@, i as int);
        }
        if i == s.len() {
            return Err(ImageError::OutOfBounds);
        }
        Ok(decode_lossy(slice_subrange(s, 0, i)))
    }
    /// Rebuilds the full path of the resource that `e` describes.
    pub fn make_name(&self, e: &Entry) -> (r: Result<String, ImageError>)
        ensures
            match r {
                Ok(n) => name_of(self@, *e) == Some(n@),
                Err(err) => name_of(self@, *e) is None && err == ImageError::OutOfBounds,
            },
    {
        proof {
            reveal_strlit("/");
            reveal_strlit(".");
        }
        let ghost data = self@;
        let mut name = String::new();
        if e.module_off != 0 {
            let t = match self.string_at(e.module_off) {
                Ok(t) => t,
                Err(err) => return Err(err),
            };
            name.append("/");
            name.append(t.as_str());
            name.append("/");
        }
        assert(name_part(data, e.module_off, seq!['/'], seq!['/']) == Some(name@));
        let ghost m = name@;
        if e.parent_off != 0 {
            let t = match self.string_at(e.parent_off) {
                Ok(t) => t,
                Err(err) => return Err(err),
            };
            name.append(t.as_str());
            name.append("/");
            assert(m + name_part(data, e.parent_off, Seq::empty(), seq!['/']).unwrap() =~= name@);
        }
        let base = match self.string_at(e.base_off) {
            Ok(t) => t,
            Err(err) => return Err(err),
        };
        name.append(base.as_str());
        if e.ext_off != 0 {
            let t = match self.string_at(e.ext_off) {
                Ok(t) => t,
                Err(err) => return Err(err),
            };
            name.append(".");
            name.append(t.as_str());
        }
        assert(name_of(data, *e) == Some(name@));
        Ok(name)
    }
    /// Looks up the resource whose full internal path is `full` and returns
    /// its content as a view into the buffer. `None` where the index has no
    /// entry for it, or the entry it leads to bears another name.
    pub fn open_resource(&self, full: &str) -> (r: Result<Option<&'a [u8]>, ImageError>)
        ensures
            bytes_view(r) == resource_of(self@, full@),
    {
        proof {
            use_type_invariant(self);
        }
        let off = match self.lookup_slot(full) {
            Err(e) => return Err(e),
            Ok(None) => return Ok(None),
            Ok(Some((_, off))) => off,
        };
        let e = match self.decode_location(off) {
            Ok(e) => e,
            Err(err) => return Err(err),
        };
        let name = match self.make_name(&e) {
            Ok(n) => n,
            Err(err) => return Err(err),
        };
        let wanted = String::from_str(full);
        if name != wanted {
            return Ok(None);
        }
        if e.compressed_size != 0 {
            return Err(ImageError::Compressed);
        }
        let len = self.data.len() as u64;
        let base = self.layout.data_base;
        if base > len || e.content_off > len - base {
            return Err(ImageError::OutOfBounds);
        }
        let start = base + e.content_off;
        if e.uncompressed_size > len - start {
            return Err(ImageError::OutOfBounds);
        }
        let stop = start + e.uncompressed_size;
        Ok(Some(slice_subrange(self.data, start as usize, stop as usize)))
    }

    /// Looks up the class `path` of the base module, stored under the
    /// internal name `/java.base/<path>.class`.
    pub fn open_java_base_class(&self, path: &str) -> (r: Result<Option<&'a [u8]>, ImageError>)
        ensures
            bytes_view(r) == resource_of(self@, java_base_name(path@)),
    {
        let mut full = String::from_str("/java.base/");
        full.append(path);
        full.append(".class");
        self.open_resource(full.as_str())
    }
}

proof fn lemma_nul_index(s: Seq<u8>, i: int)
    requires
        0 <= i <= s.len(),
        forall|k: int| 0 <= k < i ==> s[k] != 0,
        i == s.len() || s[i] == 0,
    ensures
        nul_index(s) == i,
    decreases i,
{
    if i > 0 {
        assert forall|k: int| 0 <= k < i - 1 implies s.drop_first()[k] != 0 by {
            assert(s[k + 1] != 0);
        }
        lemma_nul_index(s.drop_first(), i - 1);
    }
}

/// A lookup depends on the image and the path alone: asking the same image
/// for the same path again gives the same result, bytes or not.
pub proof fn lemma_lookup_repeatable(data: Seq<u8>, p: Seq<char>, q: Seq<char>)
    requires
        p == q,
    ensures
        resource_of(data, p) == resource_of(data, q),
        resource_of(data, java_base_name(p)) == resource_of(data, java_base_name(q)),
{
}

/// A negative redirect value (`r` read as a signed 32-bit number) decodes to
/// a slot of at least zero, and every slot that the index hands out lies
/// below the table length.
pub proof fn lemma_slot_in_table(data: Seq<u8>, path: Seq<u8>, r: u32)
    ensures
        r >= 0x8000_0000 ==> redirect_slot(r, path, header_of(data).table_length) >= 0,
        slot_of(data, path) matches Ok(Some((slot, _))) ==> slot < header_of(data).table_length,
{
}

/// A compressed resource is never handed out as bytes: where the lookup
/// reaches the entry of that name and it has a non-zero compressed size, the
/// result is the `Compressed` failure; content that is returned comes from
/// an entry with compressed size zero.
pub proof fn lemma_compressed_unsupported(data: Seq<u8>, path: Seq<char>)
    ensures
        candidate(data, path) matches Ok(Some(e)) && name_of(data, e) == Some(path)
            && e.compressed_size != 0 ==> resource_of(data, path) == Err::<Option<Seq<u8>>, ImageError>(
            ImageError::Compressed,
        ),
        resource_of(data, path) matches Ok(Some(_)) ==> candidate(data, path) matches Ok(Some(e))
            && e.compressed_size == 0,
{
}

/// Content is handed out only for the entry whose rebuilt name is the
/// requested path: where the index leads to an entry of another name, the
/// lookup reports not found.
pub proof fn lemma_collision_not_found(data: Seq<u8>, path: Seq<char>)
    ensures
        candidate(data, path) matches Ok(Some(e)) && name_of(data, e) matches Some(n) && n
            != path ==> resource_of(data, path) == Ok::<Option<Seq<u8>>, ImageError>(None),
        resource_of(data, path) matches Ok(Some(_)) ==> candidate(data, path) matches Ok(Some(e))
            && name_of(data, e) == Some(path),
{
}

} // verus!
