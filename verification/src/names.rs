use vstd::prelude::*;

verus! {

/// The name id of a font's full name.
pub const FULL_NAME: u16 = 4;

/// The number that the two bytes from `at` on hold, the higher byte first.
pub open spec fn be16(data: Seq<u8>, at: int) -> int {
    data[at] as int * 256 + data[at + 1] as int
}

/// The number that the four bytes from `at` on hold, the highest byte first.
pub open spec fn be32(data: Seq<u8>, at: int) -> int {
    be16(data, at) * 65536 + be16(data, at + 2)
}

/// Reads the number in the two bytes from `at` on.
fn read16(data: &[u8], at: usize) -> (value: u16)
    requires
        at + 2 <= data.len(),
    ensures
        value == be16(data@, at as int),
{
    (data[at] as u16) * 256 + (data[at + 1] as u16)
}

/// Reads the number in the four bytes from `at` on.
fn read32(data: &[u8], at: usize) -> (value: u32)
    requires
        at + 4 <= data.len(),
    ensures
        value == be32(data@, at as int),
{
    (read16(data, at) as u32) * 65536 + (read16(data, at + 2) as u32)
}

/// Whether the bytes from `at` up to, not including, `end` are text in UTF-16, the
/// higher byte of each unit first: whole units, each of them no surrogate, or a high
/// surrogate with a low surrogate behind it.
pub open spec fn is_utf16(data: Seq<u8>, at: int, end: int) -> bool
    decreases end - at,
{
    if at >= end {
        at == end
    } else if at + 2 > end {
        false
    } else if be16(data, at) < 0xD800 || be16(data, at) > 0xDFFF {
        is_utf16(data, at + 2, end)
    } else {
        &&& be16(data, at) <= 0xDBFF
        &&& at + 4 <= end
        &&& 0xDC00 <= be16(data, at + 2) <= 0xDFFF
        &&& is_utf16(data, at + 4, end)
    }
}

/// Tells whether the bytes from `from` up to `to` are text in UTF-16.
pub fn check_utf16(data: &[u8], from: usize, to: usize) -> (ok: bool)
    requires
        from <= to <= data.len(),
    ensures
        ok == is_utf16(data@, from as int, to as int),
{
    let mut at = from;
    while at < to
        invariant
            from <= at <= to <= data.len(),
            is_utf16(data@, from as int, to as int) == is_utf16(data@, at as int, to as int),
        decreases to - at,
    {
        if to - at < 2 {
            return false;
        }
        let unit = read16(data, at);
        if unit < 0xD800 || unit > 0xDFFF {
            at += 2;
        } else {
            if unit > 0xDBFF || to - at < 4 {
                return false;
            }
            let low = read16(data, at + 2);
            if low < 0xDC00 || low > 0xDFFF {
                return false;
            }
            at += 4;
        }
    }
    true
}

/// Whether a name of the given platform and encoding is text in UTF-16: every name of
/// the Unicode platform, and of the Windows platform those in the symbol and the
/// Unicode BMP encoding.
pub open spec fn is_unicode_name(platform: int, encoding: int) -> bool {
    platform == 0 || (platform == 3 && (encoding == 0 || encoding == 1))
}

/// Where record `i` of a name table stands whose records begin at `records`.
pub open spec fn name_record_at(records: int, i: int) -> int {
    records + 12 * i
}

/// Whether record `i` of a name table can be decoded, if it has to be: a record of the
/// full name in UTF-16 has its text inside the table, and that text is UTF-16. The
/// texts of the table begin at `storage`, and the table ends before `end`.
pub open spec fn name_record_ok(
    data: Seq<u8>,
    records: int,
    storage: int,
    end: int,
    i: int,
) -> bool {
    let record = name_record_at(records, i);
    let text = storage + be16(data, record + 10);
    let text_end = text + be16(data, record + 8);
    be16(data, record + 6) == FULL_NAME && is_unicode_name(
        be16(data, record),
        be16(data, record + 2),
    ) ==> text_end <= end && is_utf16(data, text, text_end)
}

/// Where the records of the name table begin that stands from `at` up to `end`: behind
/// the three numbers at its head in version 0, and in version 1 behind the count of
/// language tags and as many times four bytes. Nothing for a table that is too short or
/// of another version.
pub open spec fn name_records_start(data: Seq<u8>, at: int, end: int) -> Option<int> {
    if end - at < 6 {
        None
    } else if be16(data, at) == 0 {
        Some(at + 6)
    } else if be16(data, at) == 1 && end - at >= 8 && 4 * be16(data, at + 6) <= 0xFFFF {
        Some(at + 8 + 4 * be16(data, at + 6))
    } else {
        None
    }
}

/// Where the texts of a name table begin: at the offset that the table states, but not
/// before the end of its records.
pub open spec fn name_storage_start(data: Seq<u8>, at: int, records_end: int) -> int {
    if records_end < at + be16(data, at + 4) {
        at + be16(data, at + 4)
    } else {
        records_end
    }
}

/// Whether the name table that stands from `at` up to `end` is in shape: its records
/// and the start of its texts lie inside it, and each record can be decoded, if it has
/// to be.
pub open spec fn name_table_ok(data: Seq<u8>, at: int, end: int) -> bool {
    match name_records_start(data, at, end) {
        Some(records) => {
            let count = be16(data, at + 2);
            let records_end = records + 12 * count;
            let storage = name_storage_start(data, at, records_end);
            &&& records_end <= end
            &&& storage <= end
            &&& forall|i: int|
                0 <= i < count ==> #[trigger] name_record_ok(data, records, storage, end, i)
        },
        None => false,
    }
}

/// Whether the number is one that a font begins with.
pub open spec fn is_face_magic(magic: int) -> bool {
    magic == 0x00010000 || magic == 0x74727565 || magic == 0x4F54544F
}

/// The number that a font collection begins with.
pub const COLLECTION_MAGIC: u32 = 0x74746366;

/// Where the font begins whose tables are read: at the first byte, or for a font
/// collection where its first font begins. Nothing where the bytes begin like neither,
/// or the collection has no first font inside the bytes and behind its list of fonts.
pub open spec fn face_start(data: Seq<u8>) -> Option<int> {
    if data.len() < 4 {
        None
    } else if is_face_magic(be32(data, 0)) {
        Some(0)
    } else if be32(data, 0) == COLLECTION_MAGIC && data.len() >= 16 {
        let list_end = 12 + 4 * be32(data, 8);
        let first = be32(data, 12);
        if be32(data, 8) >= 1 && list_end <= data.len() && list_end <= first && first + 4
            <= data.len() && is_face_magic(be32(data, first)) {
            Some(first)
        } else {
            None
        }
    } else {
        None
    }
}

/// Where record `i` of the table directory stands of the font that begins at `face`.
pub open spec fn table_record_at(face: int, i: int) -> int {
    face + 12 + 16 * i
}

/// Whether the four bytes from `at` on are the tag `name`.
pub open spec fn is_name_tag(data: Seq<u8>, at: int) -> bool {
    data[at] == 0x6E && data[at + 1] == 0x61 && data[at + 2] == 0x6D && data[at + 3] == 0x65
}

/// Whether record `i` of the table directory is in order as far as names go: where it
/// is the record of a name table, that table lies inside the bytes and is in shape.
pub open spec fn table_record_ok(data: Seq<u8>, face: int, i: int) -> bool {
    let record = table_record_at(face, i);
    let table = be32(data, record + 8);
    let table_end = table + be32(data, record + 12);
    is_name_tag(data, record) ==> table_end <= data.len() && name_table_ok(data, table, table_end)
}

/// Whether the names of a font can be decoded: the bytes begin like a font, the table
/// directory lies inside them, and every name table that it lists is in shape. A font
/// without a name table is in order.
pub open spec fn names_well_formed(data: Seq<u8>) -> bool {
    match face_start(data) {
        Some(face) => {
            &&& face + 6 <= data.len()
            &&& table_record_at(face, be16(data, face + 4)) <= data.len()
            &&& forall|i: int|
                0 <= i < be16(data, face + 4) ==> #[trigger] table_record_ok(data, face, i)
        },
        None => false,
    }
}

/// Finds where the font begins whose tables are read.
fn find_face(data: &[u8]) -> (face: Option<usize>)
    ensures
        face matches Some(at) ==> face_start(data@) == Some(at as int) && at + 4 <= data.len(),
        face is None ==> face_start(data@) is None,
{
    if data.len() < 4 {
        return None;
    }
    let magic = read32(data, 0);
    if magic == 0x00010000 || magic == 0x74727565 || magic == 0x4F54544F {
        return Some(0);
    }
    if magic != COLLECTION_MAGIC || data.len() < 16 {
        return None;
    }
    let fonts = read32(data, 8);
    let list_end: u128 = 12 + 4 * (fonts as u128);
    let first: u128 = read32(data, 12) as u128;
    if fonts < 1 || list_end > data.len() as u128 || list_end > first || first + 4
        > data.len() as u128 {
        return None;
    }
    let at = first as usize;
    let inner = read32(data, at);
    if inner == 0x00010000 || inner == 0x74727565 || inner == 0x4F54544F {
        Some(at)
    } else {
        None
    }
}

/// Tells whether the name table that stands from `at` up to `end` is in shape.
fn check_name_table(data: &[u8], at: usize, end: usize) -> (ok: bool)
    requires
        at <= end <= data.len(),
    ensures
        ok == name_table_ok(data@, at as int, end as int),
{
    if end - at < 6 {
        return false;
    }
    let version = read16(data, at);
    let count = read16(data, at + 2);
    let stated = read16(data, at + 4);
    let records: u128 = if version == 0 {
        at as u128 + 6
    } else if version == 1 && end - at >= 8 {
        let tags = read16(data, at + 6);
        if tags > 16383 {
            return false;
        }
        at as u128 + 8 + 4 * (tags as u128)
    } else {
        return false;
    };
    assert(name_records_start(data@, at as int, end as int) == Some(records as int));
    let records_end: u128 = records + 12 * (count as u128);
    let storage: u128 = if records_end < at as u128 + stated as u128 {
        at as u128 + stated as u128
    } else {
        records_end
    };
    if records_end > end as u128 || storage > end as u128 {
        return false;
    }
    let mut i: u16 = 0;
    while i < count
        invariant
            i <= count,
            at <= end <= data.len(),
            count == be16(data@, at + 2),
            name_records_start(data@, at as int, end as int) == Some(records as int),
            storage == name_storage_start(data@, at as int, records_end as int),
            at + 6 <= records,
            records_end == records + 12 * count,
            records_end <= end,
            records_end <= storage <= end,
            forall|j: int|
                0 <= j < i ==> #[trigger] name_record_ok(
                    data@,
                    records as int,
                    storage as int,
                    end as int,
                    j,
                ),
        decreases count - i,
    {
        let record: usize = (records + 12 * (i as u128)) as usize;
        assert(record == name_record_at(records as int, i as int));
        let platform = read16(data, record);
        let encoding = read16(data, record + 2);
        let name_id = read16(data, record + 6);
        let length = read16(data, record + 8);
        let offset = read16(data, record + 10);
        if name_id == FULL_NAME && (platform == 0 || (platform == 3 && (encoding == 0 || encoding
            == 1))) {
            let text: u128 = storage + offset as u128;
            let text_end: u128 = text + length as u128;
            if text_end > end as u128 || !check_utf16(data, text as usize, text_end as usize) {
                assert(!name_record_ok(
                    data@,
                    records as int,
                    storage as int,
                    end as int,
                    i as int,
                ));
                return false;
            }
        }
        i += 1;
    }
    true
}

/// Tells whether the names of a font can be decoded.
pub fn has_well_formed_names(data: &[u8]) -> (ok: bool)
    ensures
        ok == names_well_formed(data@),
{
    let face = match find_face(data) {
        Some(at) => at,
        None => {
            return false;
        },
    };
    if data.len() - face < 6 {
        return false;
    }
    let count = read16(data, face + 4);
    let directory_end: u128 = face as u128 + 12 + 16 * (count as u128);
    assert(directory_end == table_record_at(face as int, count as int));
    if directory_end > data.len() as u128 {
        return false;
    }
    let mut i: u16 = 0;
    while i < count
        invariant
            i <= count,
            count == be16(data@, face + 4),
            face_start(data@) == Some(face as int),
            face + 12 + 16 * count <= data.len(),
            forall|j: int| 0 <= j < i ==> #[trigger] table_record_ok(data@, face as int, j),
        decreases count - i,
    {
        let record: usize = face + 12 + 16 * (i as usize);
        assert(record == table_record_at(face as int, i as int));
        if data[record] == 0x6E && data[record + 1] == 0x61 && data[record + 2] == 0x6D
            && data[record + 3] == 0x65 {
            let table: u128 = read32(data, record + 8) as u128;
            let table_end: u128 = table + read32(data, record + 12) as u128;
            if table_end > data.len() as u128 || !check_name_table(
                data,
                table as usize,
                table_end as usize,
            ) {
                assert(!table_record_ok(data@, face as int, i as int));
                return false;
            }
        }
        i += 1;
    }
    true
}

} // verus!
