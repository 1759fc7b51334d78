use jimage::{hash, hash_seeded, Entry, Header, ImageError, JImage, Layout};

const MAGIC: u32 = 0xCAFE_DADA;

fn put_u32(out: &mut Vec<u8>, v: u32) {
    out.extend_from_slice(&v.to_le_bytes());
}

/// Lays out a complete image from its regions.
fn image(
    magic: u32,
    redirect: &[i32],
    offsets: &[u32],
    locations: &[u8],
    strings: &[u8],
    data: &[u8],
) -> Vec<u8> {
    assert_eq!(redirect.len(), offsets.len());
    let mut out = Vec::new();
    put_u32(&mut out, magic);
    put_u32(&mut out, (1 << 16) | 2);
    put_u32(&mut out, 0);
    put_u32(&mut out, 1);
    put_u32(&mut out, redirect.len() as u32);
    put_u32(&mut out, locations.len() as u32);
    put_u32(&mut out, strings.len() as u32);
    put_u32(&mut out, 0);
    for r in redirect {
        out.extend_from_slice(&r.to_le_bytes());
    }
    for o in offsets {
        put_u32(&mut out, *o);
    }
    out.extend_from_slice(locations);
    out.extend_from_slice(strings);
    out.extend_from_slice(data);
    out
}

// Strings region: module "java.base" at 1, "Foo" at 11, "class" at 15,
// "Bar" at 21.
const STRINGS: &[u8] = b"\0java.base\0Foo\0class\0Bar\0";

/// A location record, after one pad byte so that its offset is 1.
fn record(attrs: &[(u8, &[u8])]) -> Vec<u8> {
    let mut out = vec![0u8];
    for (kind, payload) in attrs {
        out.push((kind << 3) | (payload.len() as u8 - 1));
        out.extend_from_slice(payload);
    }
    out.push(0);
    out
}

fn foo_class_record(compressed: u8) -> Vec<u8> {
    record(&[
        (1, &[1]),
        (3, &[11]),
        (4, &[15]),
        (5, &[0]),
        (6, &[compressed]),
        (7, &[3]),
    ])
}

#[test]
fn header_fields_are_decoded() {
    let bytes = image(MAGIC, &[-1], &[1], &foo_class_record(0), STRINGS, &[1, 2, 3]);
    let img = JImage::new(&bytes).unwrap();
    let h: Header = img.header();
    assert_eq!(h.magic, MAGIC);
    assert_eq!(h.major, 1);
    assert_eq!(h.minor, 2);
    assert_eq!(h.flags, 0);
    assert_eq!(h.resource_count, 1);
    assert_eq!(h.table_length, 1);
    assert_eq!(h.locations_size, 14);
    assert_eq!(h.strings_size, STRINGS.len() as u32);
    assert_eq!(Header::parse(&bytes), Ok(h));
}

#[test]
fn bad_magic_aborts_construction() {
    let bytes = image(0xDEAD_BEEF, &[-1], &[1], &foo_class_record(0), STRINGS, &[1, 2, 3]);
    assert!(matches!(JImage::new(&bytes), Err(ImageError::BadMagic)));
}

#[test]
fn short_buffer_is_refused() {
    let bytes = image(MAGIC, &[], &[], &[], &[], &[]);
    assert!(JImage::new(&bytes).is_ok());
    assert!(matches!(JImage::new(&bytes[..31]), Err(ImageError::TooShort)));
    assert!(matches!(JImage::new(&[]), Err(ImageError::TooShort)));
}

#[test]
fn layout_follows_header() {
    let bytes = image(MAGIC, &[-1, 0], &[1, 0], &foo_class_record(0), STRINGS, &[1, 2, 3]);
    let img = JImage::new(&bytes).unwrap();
    let l = img.layout();
    assert_eq!(l.redirect_off, 32);
    assert_eq!(l.offsets_off, 40);
    assert_eq!(l.locations_off, 48);
    assert_eq!(l.strings_off, 62);
    assert_eq!(l.data_base, 62 + STRINGS.len() as u64);
    assert_eq!(Layout::of(&img.header()), l);
    assert!(l.redirect_off < l.offsets_off && l.offsets_off < l.locations_off);
    assert!(l.locations_off < l.strings_off && l.strings_off < l.data_base);
}

#[test]
fn hash_values() {
    assert_eq!(hash(""), 0x0100_0193);
    assert_eq!(hash("a"), 0x2602_7a08);
    assert_eq!(hash("/java.base/Foo.class"), 0x6648_774c);
    assert_eq!(hash_seeded(7, "abc"), 0x7539_c069);
    assert_eq!(hash_seeded(0xFFFF_FFFF, ""), 0x7FFF_FFFF);
    assert_eq!(hash_seeded(7, "abc"), hash_seeded(7, "abc"));
}

#[test]
fn location_record_is_decoded() {
    let bytes = [
        0x38, 0x03, // kind 7, one byte
        0x2b, 0x01, 0x02, 0x03, 0x04, // kind 5, four bytes
        0xF8, 0xAA, // kind 31, skipped
        0x1f, 0, 0, 0, 0, 0, 0, 0x01, 0x00, // kind 3, eight bytes
        0x05, // end of record
        0x08, 0x09,
    ];
    let e = Entry::decode(&bytes);
    assert_eq!(
        e,
        Entry {
            module_off: 0,
            parent_off: 0,
            base_off: 0x100,
            ext_off: 0,
            content_off: 0x0102_0304,
            compressed_size: 0,
            uncompressed_size: 3,
        }
    );
}

#[test]
fn location_record_stops_where_bytes_run_out() {
    let e = Entry::decode(&[0x10, 0x07, 0x39, 0x01]);
    assert_eq!(e.parent_off, 7);
    assert_eq!(e.uncompressed_size, 0);
    assert_eq!(Entry::decode(&[]).base_off, 0);
}

#[test]
fn minimal_image_yields_content() {
    let bytes = image(MAGIC, &[-1], &[1], &foo_class_record(0), STRINGS, &[1, 2, 3]);
    let img = JImage::new(&bytes).unwrap();
    assert_eq!(img.lookup_slot("/java.base/Foo.class"), Ok(Some((0, 1))));
    let got = img.open_java_base_class("Foo").unwrap().unwrap();
    assert_eq!(got, &[0x01, 0x02, 0x03]);
    assert_eq!(img.open_resource("/java.base/Foo.class"), Ok(Some(&[1u8, 2, 3][..])));
}

#[test]
fn minimal_image_plain_name() {
    let loc = record(&[(3, &[11]), (5, &[0]), (7, &[3])]);
    let bytes = image(MAGIC, &[-1], &[1], &loc, STRINGS, &[1, 2, 3, 4]);
    let img = JImage::new(&bytes).unwrap();
    assert_eq!(img.open_resource("Foo"), Ok(Some(&[1u8, 2, 3][..])));
    assert_eq!(img.open_resource("Fo"), Ok(None));
}

#[test]
fn repeated_lookups_agree() {
    let bytes = image(MAGIC, &[-1], &[1], &foo_class_record(0), STRINGS, &[1, 2, 3]);
    let img = JImage::new(&bytes).unwrap();
    let a = img.open_java_base_class("Foo");
    let b = img.open_java_base_class("Foo");
    assert_eq!(a, b);
    assert_eq!(img.open_java_base_class("Bar"), img.open_java_base_class("Bar"));
}

#[test]
fn compressed_resource_is_unsupported() {
    let bytes = image(MAGIC, &[-1], &[1], &foo_class_record(9), STRINGS, &[1, 2, 3]);
    let img = JImage::new(&bytes).unwrap();
    assert_eq!(img.open_java_base_class("Foo"), Err(ImageError::Compressed));
}

#[test]
fn collision_yields_not_found() {
    let bytes = image(MAGIC, &[-1], &[1], &foo_class_record(0), STRINGS, &[1, 2, 3]);
    let img = JImage::new(&bytes).unwrap();
    // With one slot every path lands on the entry of Foo.
    assert_eq!(img.lookup_slot("/java.base/Bar.class"), Ok(Some((0, 1))));
    assert_eq!(img.open_java_base_class("Bar"), Ok(None));
}

#[test]
fn empty_table_finds_nothing() {
    let bytes = image(MAGIC, &[], &[], &foo_class_record(0), STRINGS, &[1, 2, 3]);
    let img = JImage::new(&bytes).unwrap();
    assert_eq!(img.lookup_slot("/java.base/Foo.class"), Ok(None));
    assert_eq!(img.open_java_base_class("Foo"), Ok(None));
}

#[test]
fn zero_redirect_and_zero_offset_find_nothing() {
    let bytes = image(MAGIC, &[0], &[1], &foo_class_record(0), STRINGS, &[1, 2, 3]);
    let img = JImage::new(&bytes).unwrap();
    assert_eq!(img.open_java_base_class("Foo"), Ok(None));
    let bytes = image(MAGIC, &[-1], &[0], &foo_class_record(0), STRINGS, &[1, 2, 3]);
    let img = JImage::new(&bytes).unwrap();
    assert_eq!(img.lookup_slot("/java.base/Foo.class"), Ok(None));
    let bytes = image(MAGIC, &[-1], &[14], &foo_class_record(0), STRINGS, &[1, 2, 3]);
    let img = JImage::new(&bytes).unwrap();
    assert_eq!(img.lookup_slot("/java.base/Foo.class"), Ok(None));
}

#[test]
fn negative_redirect_outside_table_finds_nothing() {
    // -3 names slot 2 of a table of two.
    let bytes = image(MAGIC, &[-3, -3], &[1, 1], &foo_class_record(0), STRINGS, &[1, 2, 3]);
    let img = JImage::new(&bytes).unwrap();
    assert_eq!(img.lookup_slot("/java.base/Foo.class"), Ok(None));
    let bytes = image(MAGIC, &[-2, -2], &[0, 1], &foo_class_record(0), STRINGS, &[1, 2, 3]);
    let img = JImage::new(&bytes).unwrap();
    assert_eq!(img.lookup_slot("/java.base/Foo.class"), Ok(Some((1, 1))));
}

#[test]
fn positive_redirect_rehashes_with_seed() {
    let path = "/java.base/Foo.class";
    let seed: u32 = 5;
    let slot = hash_seeded(seed, path) % 4;
    let idx = hash(path) % 4;
    let mut redirect = [0i32; 4];
    redirect[idx as usize] = seed as i32;
    let mut offsets = [0u32; 4];
    offsets[slot as usize] = 1;
    let bytes = image(MAGIC, &redirect, &offsets, &foo_class_record(0), STRINGS, &[1, 2, 3]);
    let img = JImage::new(&bytes).unwrap();
    assert_eq!(img.lookup_slot(path), Ok(Some((slot, 1))));
    assert_eq!(img.open_java_base_class("Foo"), Ok(Some(&[1u8, 2, 3][..])));
}

#[test]
fn names_are_rebuilt() {
    let bytes = image(MAGIC, &[-1], &[1], &foo_class_record(0), STRINGS, &[1, 2, 3]);
    let img = JImage::new(&bytes).unwrap();
    let mut e = Entry::decode(&foo_class_record(0)[1..]);
    assert_eq!(img.make_name(&e).unwrap(), "/java.base/Foo.class");
    e.parent_off = 21;
    assert_eq!(img.make_name(&e).unwrap(), "/java.base/Bar/Foo.class");
    e.module_off = 0;
    e.ext_off = 0;
    assert_eq!(img.make_name(&e).unwrap(), "Bar/Foo");
    e.base_off = 500;
    assert_eq!(img.make_name(&e), Err(ImageError::OutOfBounds));
}

#[test]
fn strings_are_read_lossily() {
    let strings = b"\0Fo\xFFo\0open";
    let bytes = image(MAGIC, &[-1], &[1], &foo_class_record(0), strings, &[]);
    let img = JImage::new(&bytes).unwrap();
    assert_eq!(img.string_at(0).unwrap(), "");
    assert_eq!(img.string_at(1).unwrap(), "Fo\u{FFFD}o");
    assert_eq!(img.string_at(2).unwrap(), "o\u{FFFD}o");
    // The last string has no terminator inside the region.
    assert_eq!(img.string_at(6), Err(ImageError::OutOfBounds));
    assert_eq!(img.string_at(100), Err(ImageError::OutOfBounds));
}

#[test]
fn truncated_content_is_out_of_bounds() {
    let bytes = image(MAGIC, &[-1], &[1], &foo_class_record(0), STRINGS, &[1, 2]);
    let img = JImage::new(&bytes).unwrap();
    assert_eq!(img.open_java_base_class("Foo"), Err(ImageError::OutOfBounds));
}

#[test]
fn truncated_tables_are_out_of_bounds() {
    let bytes = image(MAGIC, &[-1], &[1], &foo_class_record(0), STRINGS, &[1, 2, 3]);
    let img = JImage::new(&bytes[..36]).unwrap();
    assert_eq!(img.lookup_slot("Foo"), Err(ImageError::OutOfBounds));
    let img = JImage::new(&bytes[..40]).unwrap();
    assert_eq!(img.open_resource("Foo"), Err(ImageError::OutOfBounds));
    let img = JImage::new(&bytes[..50]).unwrap();
    assert_eq!(img.open_java_base_class("Foo"), Err(ImageError::OutOfBounds));
}

#[test]
fn location_is_decoded_from_its_offset() {
    let bytes = image(MAGIC, &[-1], &[1], &foo_class_record(0), STRINGS, &[1, 2, 3]);
    let img = JImage::new(&bytes).unwrap();
    let e = img.decode_location(1).unwrap();
    assert_eq!((e.module_off, e.base_off, e.ext_off), (1, 11, 15));
    assert_eq!((e.content_off, e.uncompressed_size), (0, 3));
    assert_eq!(img.decode_location(14).unwrap().base_off, 0);
    assert_eq!(img.decode_location(15), Err(ImageError::OutOfBounds));
}

#[test]
fn class_name_with_package_is_rebuilt() {
    let strings = b"\0java.base\0java/lang\0Object\0class\0";
    let bytes = image(MAGIC, &[], &[], &[], strings, &[]);
    let img = JImage::new(&bytes).unwrap();
    assert_eq!(img.string_at(0).unwrap(), "");
    assert_eq!(img.string_at(1).unwrap(), "java.base");
    assert_eq!(img.string_at(11).unwrap(), "java/lang");
    assert_eq!(img.string_at(21).unwrap(), "Object");
    assert_eq!(img.string_at(28).unwrap(), "class");
    let e = Entry {
        module_off: 1,
        parent_off: 11,
        base_off: 21,
        ext_off: 28,
        content_off: 0,
        compressed_size: 0,
        uncompressed_size: 0,
    };
    assert_eq!(img.make_name(&e).unwrap(), "/java.base/java/lang/Object.class");
}
