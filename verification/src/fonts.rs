//! Renaming a font in its `name` table, so that a font loaded under a
//! generated family name (`TF0007`, ...) cannot clash with an installed one.
//! Offsets are those of the OpenType / TrueType file layout; every number in
//! the file is big-endian.

use vstd::prelude::*;
use vstd::string::StringExecFns;

verus! {

// ---------------------------------------------------------------------------
// Reading and writing bytes
// ---------------------------------------------------------------------------

/// The big-endian 16-bit number at `i`.
pub open spec fn be16(d: Seq<u8>, i: int) -> int {
    d[i] as int * 256 + d[i + 1] as int
}

/// The big-endian 32-bit number at `i`.
pub open spec fn be32(d: Seq<u8>, i: int) -> int {
    be16(d, i) * 65536 + be16(d, i + 2)
}

/// `d` with the bytes from `at` on replaced by `s` (within `d`'s length).
pub open spec fn write_run(d: Seq<u8>, at: int, s: Seq<u8>) -> Seq<u8> {
    Seq::new(d.len(), |k: int| if at <= k < at + s.len() { s[k - at] } else { d[k] })
}

/// The four big-endian bytes of `v`.
pub open spec fn be32_bytes(v: u32) -> Seq<u8> {
    seq![
        (v / 0x100_0000) as u8,
        (v / 0x1_0000 % 0x100) as u8,
        (v / 0x100 % 0x100) as u8,
        (v % 0x100) as u8,
    ]
}

fn byte(data: &[u8], i: u64) -> (r: u8)
    requires
        i < data@.len(),
    ensures
        r == data@[i as int],
{
    data[i as usize]
}

fn read_be16(data: &[u8], i: u64) -> (r: u64)
    requires
        i + 1 < data@.len(),
    ensures
        r == be16(data@, i as int),
        r <= 0xffff,
{
    let _n = data.len();
    byte(data, i) as u64 * 256 + byte(data, i + 1) as u64
}

fn read_be32(data: &[u8], i: u64) -> (r: u64)
    requires
        i + 3 < data@.len(),
    ensures
        r == be32(data@, i as int),
        r <= 0xffff_ffff,
{
    let _n = data.len();
    read_be16(data, i) * 65536 + read_be16(data, i + 2)
}

fn set_byte(data: &mut [u8], i: u64, v: u8)
    requires
        i < old(data)@.len(),
    ensures
        final(data)@ == old(data)@.update(i as int, v),
{
    data[i as usize] = v;
}

fn write_be32(data: &mut [u8], at: u64, v: u32)
    requires
        at + 4 <= old(data)@.len(),
    ensures
        final(data)@ == write_run(old(data)@, at as int, be32_bytes(v)),
{
    let ghost d0 = data@;
    let _n = data.len();
    set_byte(data, at, (v / 0x100_0000) as u8);
    set_byte(data, at + 1, (v / 0x1_0000 % 0x100) as u8);
    set_byte(data, at + 2, (v / 0x100 % 0x100) as u8);
    set_byte(data, at + 3, (v % 0x100) as u8);
    assert(data@ =~= write_run(d0, at as int, be32_bytes(v)));
}

// ---------------------------------------------------------------------------
// The generated name
// ---------------------------------------------------------------------------

/// The decimal digits of `n`, as ASCII bytes.
pub open spec fn decimal(n: nat) -> Seq<u8>
    decreases n,
{
    if n < 10 {
        seq![(48 + n) as u8]
    } else {
        decimal(n / 10).push((48 + n % 10) as u8)
    }
}

/// `TF` followed by the decimal digits of `font_id`, zero-padded to at least
/// four digits: the text `format!("TF{:04}", font_id)` gives.
pub open spec fn font_label(font_id: u32) -> Seq<u8> {
    let digits = decimal(font_id as nat);
    seq![84u8, 70u8] + Seq::new(
        (if digits.len() < 4 { 4 - digits.len() } else { 0 }) as nat,
        |_i: int| 48u8,
    ) + digits
}

/// `s` followed by as many `X` as make it `n` bytes long.
pub open spec fn padded(s: Seq<u8>, n: int) -> Seq<u8> {
    s + Seq::new((n - s.len()) as nat, |_i: int| 88u8)
}

/// The UTF-16 big-endian encoding of the ASCII text `s`.
pub open spec fn utf16_be(s: Seq<u8>) -> Seq<u8> {
    Seq::new(2 * s.len(), |k: int| if k % 2 == 0 { 0u8 } else { s[k / 2] })
}

fn push_decimal(n: u32, out: &mut Vec<u8>)
    ensures
        final(out)@ == old(out)@ + decimal(n as nat),
    decreases n,
{
    if n >= 10 {
        push_decimal(n / 10, out);
    }
    out.push((48 + n % 10) as u8);
    proof {
        if n >= 10 {
            assert(old(out)@ + decimal(n as nat) =~= old(out)@ + decimal((n / 10) as nat) + seq![
                (48 + n % 10) as u8,
            ]);
        } else {
            assert(old(out)@ + decimal(n as nat) =~= old(out)@ + seq![(48 + n % 10) as u8]);
        }
    }
}

/// The generated family name for `font_id`: `TF` and the number, zero-padded
/// to four digits (`TF0007`, `TF12345`).
pub fn font_label_bytes(font_id: u32) -> (r: Vec<u8>)
    ensures
        r@ == font_label(font_id),
{
    let mut digits: Vec<u8> = Vec::new();
    push_decimal(font_id, &mut digits);
    proof {
        assert(digits@ =~= decimal(font_id as nat));
    }
    let mut r: Vec<u8> = Vec::new();
    r.push(84u8);
    r.push(70u8);
    let mut z: usize = digits.len();
    while z < 4
        invariant
            digits@ == decimal(font_id as nat),
            digits@.len() <= z <= 4 || (z == digits@.len() && z >= 4),
            r@ == seq![84u8, 70u8] + Seq::new((z - digits@.len()) as nat, |_i: int| 48u8),
        decreases 4 - z,
    {
        r.push(48u8);
        z = z + 1;
        proof {
            assert(r@ =~= seq![84u8, 70u8] + Seq::new((z - digits@.len()) as nat, |_i: int| 48u8));
        }
    }
    let mut j: usize = 0;
    let ghost pre = r@;
    while j < digits.len()
        invariant
            j <= digits@.len(),
            r@ == pre + digits@.take(j as int),
        decreases digits@.len() - j,
    {
        r.push(digits[j]);
        j = j + 1;
        proof {
            assert(digits@.take(j as int) =~= digits@.take(j - 1).push(digits@[j - 1]));
        }
    }
    proof {
        assert(digits@.take(j as int) =~= digits@);
        assert(r@ =~= font_label(font_id));
    }
    r
}

// ---------------------------------------------------------------------------
// Locating the face and its `name` table
// ---------------------------------------------------------------------------

/// Whether the file is a font collection (it starts with `ttcf`).
pub open spec fn is_collection(d: Seq<u8>) -> bool {
    d.len() >= 4 && d[0] == 116 && d[1] == 116 && d[2] == 99 && d[3] == 102
}

/// The file with face `face_idx` made the first face of a collection, and
/// where that face's table directory starts; `None` when the collection is
/// too short or has no such face. A single font is face 0 at offset 0.
pub open spec fn select_face(d: Seq<u8>, face_idx: int) -> Option<(Seq<u8>, int)> {
    if !is_collection(d) {
        Some((d, 0))
    } else if d.len() < 12 || face_idx >= be32(d, 8) {
        None
    } else {
        let pos = 12 + face_idx * 4;
        if d.len() < pos + 4 {
            None
        } else if face_idx == 0 {
            Some((d, be32(d, pos)))
        } else {
            Some(
                (
                    write_run(write_run(d, 12, d.subrange(pos, pos + 4)), pos, d.subrange(12, 16)),
                    be32(d, pos),
                ),
            )
        }
    }
}

/// Scanning the table directory from record `i` (of `count`) for `tag`: the
/// record's offset, and the table's offset and length.
pub open spec fn table_scan(d: Seq<u8>, face_offset: int, tag: Seq<u8>, count: int, i: int) -> Option<(int, int, int)>
    decreases count - i,
{
    if i >= count {
        None
    } else {
        let off = face_offset + 12 + i * 16;
        if d.len() < off + 16 {
            None
        } else if d.subrange(off, off + 4) == tag {
            Some((off, be32(d, off + 8), be32(d, off + 12)))
        } else {
            table_scan(d, face_offset, tag, count, i + 1)
        }
    }
}

/// The directory record of the table `tag` of the face at `face_offset`: its
/// offset, and the table's offset and length.
pub open spec fn table_entry(d: Seq<u8>, face_offset: int, tag: Seq<u8>) -> Option<(int, int, int)> {
    if d.len() < face_offset + 12 {
        None
    } else {
        table_scan(d, face_offset, tag, be16(d, face_offset + 4), 0)
    }
}

/// The mathematical value of a found table record.
pub open spec fn opt_entry(r: Option<(usize, usize, usize)>) -> Option<(int, int, int)> {
    match r {
        Some((a, b, c)) => Some((a as int, b as int, c as int)),
        None => None,
    }
}

fn select_face_exec(data: &mut [u8], face_idx: u32) -> (r: Option<u64>)
    ensures
        select_face(old(data)@, face_idx as int) == match r {
            Some(x) => Some((final(data)@, x as int)),
            None => None::<(Seq<u8>, int)>,
        },
        r is None ==> final(data)@ == old(data)@,
        r matches Some(x) ==> x <= 0xffff_ffff,
{
    let len = data.len() as u64;
    if !(len >= 4 && data[0] == 116 && data[1] == 116 && data[2] == 99 && data[3] == 102) {
        return Some(0);
    }
    if len < 12 {
        return None;
    }
    if (face_idx as u64) >= read_be32(data, 8) {
        return None;
    }
    let pos: u64 = 12 + (face_idx as u64) * 4;
    if len < pos + 4 {
        return None;
    }
    let face_offset = read_be32(data, pos);
    if face_idx != 0 {
        let ghost d0 = data@;
        let a0 = byte(data, 12);
        let a1 = byte(data, 13);
        let a2 = byte(data, 14);
        let a3 = byte(data, 15);
        let b0 = byte(data, pos);
        let b1 = byte(data, pos + 1);
        let b2 = byte(data, pos + 2);
        let b3 = byte(data, pos + 3);
        set_byte(data, 12, b0);
        set_byte(data, 13, b1);
        set_byte(data, 14, b2);
        set_byte(data, 15, b3);
        set_byte(data, pos, a0);
        set_byte(data, pos + 1, a1);
        set_byte(data, pos + 2, a2);
        set_byte(data, pos + 3, a3);
        assert(data@ =~= write_run(
            write_run(d0, 12, d0.subrange(pos as int, pos + 4)),
            pos as int,
            d0.subrange(12, 16),
        ));
    }
    Some(face_offset)
}

/// Finds the table `tag` in the table directory of the face whose directory
/// starts at `face_offset`: the offset of its directory record, and the
/// table's offset and length. `None` when the directory does not fit in the
/// file or holds no such table.
pub fn find_table(data: &[u8], face_offset: usize, tag: &[u8; 4]) -> (r: Option<(usize, usize, usize)>)
    ensures
        opt_entry(r) == table_entry(data@, face_offset as int, tag@),
        r matches Some((rec, offset, length)) ==> rec + 16 <= data@.len() && offset <= 0xffff_ffff
            && length <= 0xffff_ffff,
{
    let len = data.len() as u64;
    let fo = face_offset as u64;
    if len < 12 || len - 12 < fo {
        return None;
    }
    let count = read_be16(data, fo + 4);
    let mut i: u64 = 0;
    while i < count
        invariant
            len == data@.len() <= usize::MAX,
            fo == face_offset,
            fo + 12 <= len,
            count == be16(data@, fo + 4),
            i <= count <= 0xffff,
            tag@.len() == 4,
            table_scan(data@, fo as int, tag@, count as int, i as int) == table_entry(
                data@,
                fo as int,
                tag@,
            ),
        decreases count - i,
    {
        if len - 12 - fo < i * 16 + 16 {
            return None;
        }
        let off = fo + 12 + i * 16;
        if byte(data, off) == tag[0] && byte(data, off + 1) == tag[1] && byte(data, off + 2)
            == tag[2] && byte(data, off + 3) == tag[3] {
            assert(data@.subrange(off as int, off + 4) =~= tag@);
            let table_offset = read_be32(data, off + 8);
            let table_length = read_be32(data, off + 12);
            return Some((off as usize, table_offset as usize, table_length as usize));
        }
        assert(data@.subrange(off as int, off + 4) != tag@ ==> table_scan(
            data@,
            fo as int,
            tag@,
            count as int,
            i as int,
        ) == table_scan(data@, fo as int, tag@, count as int, i + 1));
        assert(data@.subrange(off as int, off + 4)[0] == data@[off as int]);
        assert(data@.subrange(off as int, off + 4)[1] == data@[off + 1]);
        assert(data@.subrange(off as int, off + 4)[2] == data@[off + 2]);
        assert(data@.subrange(off as int, off + 4)[3] == data@[off + 3]);
        i = i + 1;
    }
    None
}

// ---------------------------------------------------------------------------
// Patching the name records
// ---------------------------------------------------------------------------

/// Name ids that hold a family name: family, full name, typographic family
/// and WWS family.
pub open spec fn is_family_name_id(id: int) -> bool {
    id == 1 || id == 4 || id == 16 || id == 21
}

/// The record at `rec` with its name id set to 0xFFFF, so that no one reads
/// it as a family name any more.
pub open spec fn invalidate_record(d: Seq<u8>, rec: int) -> Seq<u8> {
    d.update(rec + 6, 255u8).update(rec + 7, 255u8)
}

/// One name record at `rec`: a family name whose string lies within the file
/// is overwritten with `label` padded with `X` to the string's length, in
/// UTF-16 big-endian for the Unicode and Windows platforms (0 and 3) and in
/// single bytes for the Macintosh platform (1); a string too short for the
/// label has its record invalidated instead. Other records are left alone.
pub open spec fn patch_record(d: Seq<u8>, name_offset: int, storage: int, label: Seq<u8>, rec: int) -> Seq<u8> {
    let platform = be16(d, rec);
    let length = be16(d, rec + 8);
    let at = name_offset + storage + be16(d, rec + 10);
    if !is_family_name_id(be16(d, rec + 6)) || d.len() < at + length {
        d
    } else if platform == 3 || platform == 0 {
        if length / 2 >= label.len() {
            write_run(d, at, utf16_be(padded(label, length / 2)))
        } else {
            invalidate_record(d, rec)
        }
    } else if platform == 1 {
        if length >= label.len() {
            write_run(d, at, padded(label, length))
        } else {
            invalidate_record(d, rec)
        }
    } else {
        d
    }
}

/// The records from `i` (of `count`) on patched one after another; the walk
/// stops at the first record that does not fit in the file.
pub open spec fn patch_records(
    d: Seq<u8>,
    name_offset: int,
    storage: int,
    label: Seq<u8>,
    count: int,
    i: int,
) -> Seq<u8>
    decreases count - i,
{
    if i >= count {
        d
    } else {
        let rec = name_offset + 6 + i * 12;
        if d.len() < rec + 12 {
            d
        } else {
            patch_records(
                patch_record(d, name_offset, storage, label, rec),
                name_offset,
                storage,
                label,
                count,
                i + 1,
            )
        }
    }
}

fn write_padded(data: &mut [u8], at: u64, label: &Vec<u8>, n: u64)
    requires
        at + n <= old(data)@.len(),
        label@.len() <= n,
    ensures
        final(data)@ == write_run(old(data)@, at as int, padded(label@, n as int)),
{
    let ghost d0 = data@;
    let ghost s = padded(label@, n as int);
    let _len = data.len();
    let mut j: u64 = 0;
    while j < n
        invariant
            at + n <= d0.len() <= usize::MAX,
            label@.len() <= n,
            s == padded(label@, n as int),
            j <= n,
            data@.len() == d0.len(),
            forall|k: int|
                0 <= k < d0.len() ==> #[trigger] data@[k] == if at <= k < at + j {
                    s[k - at]
                } else {
                    d0[k]
                },
        decreases n - j,
    {
        let c = if j < label.len() as u64 {
            label[j as usize]
        } else {
            88u8
        };
        set_byte(data, at + j, c);
        j = j + 1;
    }
    assert(data@ =~= write_run(d0, at as int, s));
}

fn write_utf16_padded(data: &mut [u8], at: u64, label: &Vec<u8>, n: u64)
    requires
        at + 2 * n <= old(data)@.len(),
        label@.len() <= n,
    ensures
        final(data)@ == write_run(old(data)@, at as int, utf16_be(padded(label@, n as int))),
{
    let ghost d0 = data@;
    let ghost s = utf16_be(padded(label@, n as int));
    let _len = data.len();
    let mut j: u64 = 0;
    while j < n
        invariant
            at + 2 * n <= d0.len() <= usize::MAX,
            label@.len() <= n,
            s == utf16_be(padded(label@, n as int)),
            s.len() == 2 * n,
            j <= n,
            data@.len() == d0.len(),
            forall|k: int|
                0 <= k < d0.len() ==> #[trigger] data@[k] == if at <= k < at + 2 * j {
                    s[k - at]
                } else {
                    d0[k]
                },
        decreases n - j,
    {
        let c = if j < label.len() as u64 {
            label[j as usize]
        } else {
            88u8
        };
        set_byte(data, at + 2 * j, 0u8);
        set_byte(data, at + 2 * j + 1, c);
        proof {
            assert((2 * j) % 2 == 0 && (2 * j) / 2 == j);
            assert((2 * j + 1) % 2 == 1 && (2 * j + 1) / 2 == j);
        }
        j = j + 1;
    }
    assert(data@ =~= write_run(d0, at as int, s));
}

fn patch_record_exec(data: &mut [u8], name_offset: u64, storage: u64, label: &Vec<u8>, rec: u64)
    requires
        rec + 12 <= old(data)@.len(),
        name_offset <= 0xffff_ffff,
        storage <= 0xffff,
    ensures
        final(data)@ == patch_record(old(data)@, name_offset as int, storage as int, label@, rec as int),
{
    let len = data.len() as u64;
    let platform = read_be16(data, rec);
    let name_id = read_be16(data, rec + 6);
    if !(name_id == 1 || name_id == 4 || name_id == 16 || name_id == 21) {
        return;
    }
    let length = read_be16(data, rec + 8);
    let at = name_offset + storage + read_be16(data, rec + 10);
    if len < at + length {
        return;
    }
    if platform == 3 || platform == 0 {
        let n = length / 2;
        if n >= label.len() as u64 {
            write_utf16_padded(data, at, label, n);
        } else {
            set_byte(data, rec + 6, 255u8);
            set_byte(data, rec + 7, 255u8);
        }
    } else if platform == 1 {
        if length >= label.len() as u64 {
            write_padded(data, at, label, length);
        } else {
            set_byte(data, rec + 6, 255u8);
            set_byte(data, rec + 7, 255u8);
        }
    }
}

// ---------------------------------------------------------------------------
// The table checksum
// ---------------------------------------------------------------------------

/// The byte at `k`, or 0 past the end of the file.
pub open spec fn byte_or_zero(d: Seq<u8>, k: int) -> int {
    if 0 <= k < d.len() { d[k] as int } else { 0 }
}

/// The big-endian 32-bit word at `k`, reading 0 past the end of the file.
pub open spec fn word_or_zero(d: Seq<u8>, k: int) -> int {
    ((byte_or_zero(d, k) * 256 + byte_or_zero(d, k + 1)) * 256 + byte_or_zero(d, k + 2)) * 256
        + byte_or_zero(d, k + 3)
}

/// The sum modulo 2^32, from `acc`, of the words at `start + i`,
/// `start + i + 4`, ... below `start + len`: the OpenType table checksum.
pub open spec fn checksum_from(d: Seq<u8>, start: int, len: int, i: int, acc: int) -> int
    decreases len - i + 3,
{
    if i >= len {
        acc
    } else {
        checksum_from(d, start, len, i + 4, (acc + word_or_zero(d, start + i)) % 0x1_0000_0000)
    }
}

fn byte_or_zero_exec(data: &[u8], k: u64) -> (r: u64)
    ensures
        r == byte_or_zero(data@, k as int),
{
    if k < data.len() as u64 {
        byte(data, k) as u64
    } else {
        0
    }
}

fn table_checksum(data: &[u8], start: u64, len: u64) -> (r: u32)
    requires
        start <= 0xffff_ffff,
        len <= 0xffff_ffff,
    ensures
        r == checksum_from(data@, start as int, len as int, 0, 0),
{
    let mut sum: u32 = 0;
    let mut i: u64 = 0;
    while i < len
        invariant
            start <= 0xffff_ffff,
            len <= 0xffff_ffff,
            i <= len + 3,
            checksum_from(data@, start as int, len as int, i as int, sum as int) == checksum_from(
                data@,
                start as int,
                len as int,
                0,
                0,
            ),
        decreases len + 3 - i,
    {
        let k = start + i;
        let w = ((byte_or_zero_exec(data, k) * 256 + byte_or_zero_exec(data, k + 1)) * 256
            + byte_or_zero_exec(data, k + 2)) * 256 + byte_or_zero_exec(data, k + 3);
        assert(w == word_or_zero(data@, k as int));
        let ghost old_sum = sum;
        sum = sum.wrapping_add(w as u32);
        assert(sum == (old_sum + w) % 0x1_0000_0000);
        i = i + 4;
    }
    sum
}

// ---------------------------------------------------------------------------
// The whole patch
// ---------------------------------------------------------------------------

/// The tag `name`.
pub open spec fn name_tag() -> Seq<u8> {
    seq![110u8, 97u8, 109u8, 101u8]
}

/// The font file after renaming: the chosen face is made the first of a
/// collection, every family-name record of its `name` table is overwritten
/// with the generated label (or invalidated), and the table's checksum in
/// its directory record is recomputed. A file whose face or `name` table
/// cannot be located is left as it is (after the face swap, if that was
/// done).
pub open spec fn patched_font(d: Seq<u8>, font_id: u32, face_idx: u32) -> Seq<u8> {
    match select_face(d, face_idx as int) {
        None => d,
        Some((d1, face_offset)) => match table_entry(d1, face_offset, name_tag()) {
            None => d1,
            Some((rec, name_offset, table_len)) => if d1.len() < name_offset + 6 {
                d1
            } else {
                let d2 = patch_records(
                    d1,
                    name_offset,
                    be16(d1, name_offset + 4),
                    font_label(font_id),
                    be16(d1, name_offset + 2),
                    0,
                );
                write_run(
                    d2,
                    rec + 4,
                    be32_bytes(checksum_from(d2, name_offset, table_len, 0, 0) as u32),
                )
            },
        },
    }
}

/// Renames face `face_idx` of the font file `data` (a single font or a
/// `ttcf` collection) to the generated family `TF` + `font_id`: the face is
/// swapped to the front of a collection, its family-name records (ids 1, 4,
/// 16, 21) are overwritten in place with the label padded with `X`, records
/// too short for it are invalidated, and the `name` table checksum is
/// recomputed. The file's length never changes.
pub fn patch_font_family_safe(data: &mut [u8], font_id: u32, face_idx: u32)
    ensures
        final(data)@ == patched_font(old(data)@, font_id, face_idx),
        final(data)@.len() == old(data)@.len(),
{
    let face_offset = match select_face_exec(data, face_idx) {
        Some(fo) => fo,
        None => {
            return;
        },
    };
    let ghost d1 = data@;
    let name = [110u8, 97u8, 109u8, 101u8];
    assert(name@ =~= name_tag());
    let found = find_table(data, face_offset as usize, &name);
    let (rec, name_offset, table_len) = match found {
        Some(e) => e,
        None => {
            return;
        },
    };
    let len = data.len() as u64;
    let rec = rec as u64;
    let name_offset = name_offset as u64;
    let table_len = table_len as u64;
    if len < name_offset + 6 {
        return;
    }
    let count = read_be16(data, name_offset + 2);
    let storage = read_be16(data, name_offset + 4);
    let label = font_label_bytes(font_id);
    let mut i: u64 = 0;
    while i < count
        invariant_except_break
            data@.len() == len == d1.len() <= usize::MAX,
            rec + 16 <= len,
            name_offset <= 0xffff_ffff,
            storage <= 0xffff,
            count <= 0xffff,
            i <= count,
            patch_records(data@, name_offset as int, storage as int, label@, count as int, i as int)
                == patch_records(d1, name_offset as int, storage as int, label@, count as int, 0),
        ensures
            data@.len() == d1.len(),
            rec + 16 <= d1.len(),
            data@ == patch_records(d1, name_offset as int, storage as int, label@, count as int, 0),
        decreases count - i,
    {
        let rec_offset = name_offset + 6 + i * 12;
        if len < rec_offset + 12 {
            break;
        }
        patch_record_exec(data, name_offset, storage, &label, rec_offset);
        i = i + 1;
    }
    let sum = table_checksum(data, name_offset, table_len);
    write_be32(data, rec + 4, sum);
}

// ---------------------------------------------------------------------------
// The PostScript name of a face
// ---------------------------------------------------------------------------

/// One record of a font's `name` table, as plain values: its name id, and
/// its text when that is stored in a Unicode encoding.
pub struct NameRecord {
    pub name_id: u16,
    pub text: Option<String>,
}

/// The mathematical value of a name record.
pub open spec fn record_view(r: NameRecord) -> (u16, Option<Seq<char>>) {
    (
        r.name_id,
        match r.text {
            Some(s) => Some(s@),
            None => None,
        },
    )
}

/// The mathematical value of the name records of a face, if it parsed.
pub open spec fn records_view(r: Option<Vec<NameRecord>>) -> Option<Seq<(u16, Option<Seq<char>>)>> {
    match r {
        Some(v) => Some(v@.map_values(|x: NameRecord| record_view(x))),
        None => None,
    }
}

/// The name records that `ttf_parser` reads from face `index` of the font
/// file `data` (each with its id and Unicode text), or `None` when the data
/// is not a font it can parse.
pub uninterp spec fn face_name_records(data: Seq<u8>, index: u32) -> Option<Seq<(u16, Option<Seq<char>>)>>;

/// Parses face `index` of `data` with `ttf_parser::Face::parse` and lists its
/// name records (`Face::names`), each with its id and `Name::to_string`.
/// Claimed: the result is the named function [`face_name_records`] of the
/// bytes and the index; what that is on given bytes is not stated.
#[verifier::external_body]
fn name_records(data: &[u8], index: u32) -> (r: Option<Vec<NameRecord>>)
    ensures
        records_view(r) == face_name_records(data@, index),
{
    let face = ttf_parser::Face::parse(data, index).ok()?;
    Some(face.names().into_iter().map(|n| NameRecord { name_id: n.name_id, text: n.to_string() }).collect())
}

/// The text of the last record among the first `i` with id `id` that has a
/// Unicode text; empty when there is none.
pub open spec fn last_text(recs: Seq<(u16, Option<Seq<char>>)>, id: u16, i: int) -> Seq<char>
    decreases i,
{
    if i <= 0 {
        Seq::empty()
    } else if recs[i - 1].0 == id && recs[i - 1].1 is Some {
        recs[i - 1].1->0
    } else {
        last_text(recs, id, i - 1)
    }
}

/// The PostScript name (id 6) when there is one; otherwise the family (id 1)
/// followed by `-` and the subfamily (id 2), or the family alone when there
/// is no subfamily.
pub open spec fn postscript_name_of(recs: Seq<(u16, Option<Seq<char>>)>) -> Seq<char> {
    let family = last_text(recs, 1, recs.len() as int);
    let subfamily = last_text(recs, 2, recs.len() as int);
    let ps = last_text(recs, 6, recs.len() as int);
    if ps.len() > 0 {
        ps
    } else if subfamily.len() == 0 {
        family
    } else {
        family + seq!['-'] + subfamily
    }
}

fn copy_string(s: &String) -> (r: String)
    ensures
        r@ == s@,
{
    s.clone()
}

/// The PostScript name given by a face's name records (see
/// [`postscript_name_of`]).
pub fn postscript_name(records: &Vec<NameRecord>) -> (r: String)
    ensures
        r@ == postscript_name_of(records@.map_values(|x: NameRecord| record_view(x))),
{
    let ghost recs = records@.map_values(|x: NameRecord| record_view(x));
    let mut family = String::new();
    let mut subfamily = String::new();
    let mut ps = String::new();
    let mut i: usize = 0;
    while i < records.len()
        invariant
            i <= records@.len(),
            recs == records@.map_values(|x: NameRecord| record_view(x)),
            family@ == last_text(recs, 1, i as int),
            subfamily@ == last_text(recs, 2, i as int),
            ps@ == last_text(recs, 6, i as int),
        decreases records@.len() - i,
    {
        let rec = &records[i];
        match &rec.text {
            Some(t) => {
                if rec.name_id == 1 {
                    family = copy_string(t);
                } else if rec.name_id == 2 {
                    subfamily = copy_string(t);
                } else if rec.name_id == 6 {
                    ps = copy_string(t);
                }
            },
            None => {},
        }
        i = i + 1;
    }
    if ps.as_str().unicode_len() > 0 {
        return ps;
    }
    if subfamily.as_str().unicode_len() == 0 {
        return family;
    }
    proof {
        reveal_strlit("-");
    }
    family.append("-");
    family.append(subfamily.as_str());
    family
}

/// The PostScript name of face `index` of the font file `data`, as
/// [`postscript_name`] gives it from the face's name records; `None` when
/// the data is not a font that parses.
pub fn read_postscript_name(data: &[u8], index: u32) -> (r: Option<String>)
    ensures
        match face_name_records(data@, index) {
            Some(recs) => r matches Some(s) && s@ == postscript_name_of(recs),
            None => r is None,
        },
{
    match name_records(data, index) {
        Some(records) => Some(postscript_name(&records)),
        None => None,
    }
}

} // verus!
