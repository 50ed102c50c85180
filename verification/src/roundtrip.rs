//! What the reader makes of what the writer writes: the DIR body the
//! writer lays down parses back to the files it was given, and a whole
//! archive opens back to the footer and the two control blocks written.

use vstd::prelude::*;
use vstd::arithmetic::power2::{pow2, lemma2_to64};
use vstd::utf8::{
    encode_utf8, encode_scalar, is_scalar, char_is_scalar, encode_utf8_valid_utf8,
    encode_utf8_decode_utf8, has_width_1_encoding, char_u32_cast, has_width_2_encoding, has_width_3_encoding,
};

use crate::bytes::{cstring_at, nul_free, nul_from, text_of, u32_at};
use crate::varint::{
    le_bytes, le_value, lemma_le_roundtrip, lemma_varint_minimal, lemma_varint_roundtrip, varint_at,
    varint_encode,
};
use crate::decompress::crc32_ieee;
use crate::dir::{
    parse_solid_table, count_sum, cstring_column, file_rows, parse_dir, parse_file_table, solid_rows, u32_column,
    varint_column, DirBlockView, FileEntryView, SolidBlockView,
};
use crate::chars::has_char;
use crate::decompress::{decode_with, run_chain, HostFn};
use crate::error::ArcErrorView;
use crate::footer::block_type;
use crate::decompress::no_host;
use crate::dir::full_path_of;
use crate::extract::{
    block_counts, block_files, entry_without_data, extractable, plan_blocks, plan_files, size_sum, ExtractStepView,
    FileOutcomeView, PlannedEntryView,
};
use crate::footer::{
    descriptor_window, footer_descriptor_pos, footer_window_start, lemma_last_sig, sig_at,
};
use crate::reader::{
    control_block, entries_at, entry_at, open_archive, parse_footer_body, ArchiveSummaryView,
    ControlBlockEntryView,
};
use crate::footer::{parse_descriptor, LocalDescriptorView, SIGNATURE_LE};
use crate::writer::{
    archive_image, descriptor_bytes, footer_body, header_body, image_data, image_dir,
    image_dir_descriptor, image_dir_start, image_footer, image_footer_descriptor,
    image_footer_start, image_header_descriptor, signature_bytes,
    column, column_entry, cstr, dir_body, dirs_section, file_section, solid_section, total_len, u32_le, FileColumn, InputFileView,
};

verus! {


proof fn lemma_scalar_bytes_nonzero(v: u32)
    requires
        v != 0,
        is_scalar(v),
    ensures
        forall|i: int| 0 <= i < encode_scalar(v).len() ==> encode_scalar(v)[i] != 0,
{
    if has_width_1_encoding(v) {
        assert((v & 0x7F) as u8 != 0) by (bit_vector)
            requires
                v != 0,
                v <= 0x7F,
        ;
    } else {
        assert(0xC0u8 | ((v >> 6) & 0x1F) as u8 != 0) by (bit_vector);
        assert(0xE0u8 | ((v >> 12) & 0x0F) as u8 != 0) by (bit_vector);
        assert(0xF0u8 | ((v >> 18) & 0x7) as u8 != 0) by (bit_vector);
        assert(0x80u8 | (v & 0x3F) as u8 != 0) by (bit_vector);
        assert(0x80u8 | ((v >> 6) & 0x3F) as u8 != 0) by (bit_vector);
        assert(0x80u8 | ((v >> 12) & 0x3F) as u8 != 0) by (bit_vector);
    }
}

/// The UTF-8 encoding of NUL-free text holds no zero byte.
proof fn lemma_encode_nonzero(s: Seq<char>)
    requires
        nul_free(s),
    ensures
        forall|i: int| 0 <= i < encode_utf8(s).len() ==> encode_utf8(s)[i] != 0,
    decreases s.len(),
{
    if s.len() > 0 {
        char_is_scalar(s[0]);
        assert(s[0] != '\0');
        if s[0] as u32 == 0 {
            char_u32_cast(s[0], 0u32);
            char_u32_cast('\0', 0u32);
        }
        lemma_scalar_bytes_nonzero(s[0] as u32);
        lemma_encode_nonzero(s.drop_first());
        let a = encode_scalar(s[0] as u32);
        let b = encode_utf8(s.drop_first());
        assert forall|i: int| 0 <= i < encode_utf8(s).len() implies encode_utf8(s)[i] != 0 by {
            if i < a.len() {
                assert(encode_utf8(s)[i] == a[i]);
            } else {
                assert(encode_utf8(s)[i] == b[i - a.len()]);
            }
        }
    }
}

proof fn lemma_nul_at(buf: Seq<u8>, i: int, j: int)
    requires
        0 <= i <= j < buf.len(),
        buf[j] == 0,
        forall|k: int| i <= k < j ==> buf[k] != 0,
    ensures
        nul_from(buf, i) == Some(j),
    decreases j - i,
{
    if i < j {
        lemma_nul_at(buf, i + 1, j);
    }
}

/// A NUL-terminated string reads back as the text written, whatever
/// surrounds it.
pub proof fn lemma_cstring_roundtrip(p: Seq<u8>, s: Seq<char>, q: Seq<u8>)
    requires
        nul_free(s),
    ensures
        cstring_at(p + cstr(s) + q, p.len() as int) == Some((s, (p.len() + cstr(s).len()) as int)),
{
    let enc = encode_utf8(s);
    let buf = p + cstr(s) + q;
    lemma_encode_nonzero(s);
    let j: int = (p.len() + enc.len()) as int;
    assert(buf[j] == 0);
    assert forall|k: int| p.len() <= k < j implies buf[k] != 0 by {
        assert(buf[k] == enc[k - p.len()]);
    }
    lemma_nul_at(buf, p.len() as int, j);
    assert(buf.subrange(p.len() as int, j) =~= enc);
    encode_utf8_valid_utf8(s);
    encode_utf8_decode_utf8(s);
    assert(text_of(enc) == s);
}

/// A little-endian u32 reads back as written.
pub proof fn lemma_u32_roundtrip(p: Seq<u8>, v: u32, q: Seq<u8>)
    ensures
        u32_at(p + u32_le(v) + q, p.len() as int) == Some((v, p.len() + 4int)),
        u32_le(v).len() == 4,
{
    lemma2_to64();
    lemma_le_roundtrip(v as nat, 4);
    let buf = p + u32_le(v) + q;
    assert(buf.subrange(p.len() as int, p.len() + 4int) =~= u32_le(v));
}

proof fn lemma_column_front(fv: Seq<InputFileView>, col: FileColumn)
    requires
        fv.len() > 0,
    ensures
        column(fv, col) == column_entry(col, fv[0]) + column(fv.drop_first(), col),
    decreases fv.len(),
{
    if fv.len() == 1 {
        assert(fv.drop_last() =~= Seq::<InputFileView>::empty());
        assert(fv.drop_first() =~= Seq::<InputFileView>::empty());
        assert(column(fv.drop_last(), col) =~= Seq::<u8>::empty());
        assert(column(fv.drop_first(), col) =~= Seq::<u8>::empty());
        assert(column(fv, col) =~= column_entry(col, fv[0]));
    } else {
        lemma_column_front(fv.drop_last(), col);
        assert(fv.drop_last().drop_first() =~= fv.drop_first().drop_last());
        assert(fv.drop_first().last() == fv.last());
        assert(column(fv, col) =~= column_entry(col, fv[0]) + column(fv.drop_first(), col));
    }
}

/// The base names of the files.
pub open spec fn names_of(fv: Seq<InputFileView>) -> Seq<Seq<char>> {
    fv.map_values(|f: InputFileView| f.name)
}

proof fn lemma_name_column(p: Seq<u8>, fv: Seq<InputFileView>, q: Seq<u8>)
    requires
        forall|i: int| 0 <= i < fv.len() ==> nul_free(#[trigger] fv[i].name),
    ensures
        cstring_column(p + column(fv, FileColumn::Name) + q, p.len() as int, fv.len()) == Some(
            (names_of(fv), (p.len() + column(fv, FileColumn::Name).len()) as int),
        ),
    decreases fv.len(),
{
    let c = column(fv, FileColumn::Name);
    let buf = p + c + q;
    if fv.len() == 0 {
        assert(names_of(fv) =~= Seq::<Seq<char>>::empty());
    } else {
        lemma_column_front(fv, FileColumn::Name);
        let e = cstr(fv[0].name);
        let rest = fv.drop_first();
        let cr = column(rest, FileColumn::Name);
        assert(buf =~= p + e + (cr + q));
        assert(nul_free(fv[0].name));
        lemma_cstring_roundtrip(p, fv[0].name, cr + q);
        assert(buf =~= (p + e) + cr + q);
        assert forall|i: int| 0 <= i < rest.len() implies nul_free(#[trigger] rest[i].name) by {
            assert(rest[i] == fv[i + 1]);
        }
        lemma_name_column(p + e, rest, q);
        assert(names_of(fv) =~= seq![fv[0].name] + names_of(rest));
    }
}

/// The number a varint column holds for a file.
pub open spec fn varint_value(col: FileColumn, f: InputFileView) -> u64 {
    match col {
        FileColumn::Size => f.bytes.len() as u64,
        _ => 0,
    }
}

proof fn lemma_varint_column(p: Seq<u8>, fv: Seq<InputFileView>, q: Seq<u8>, col: FileColumn)
    requires
        col is DirIndex || col is Size,
    ensures
        varint_column(p + column(fv, col) + q, p.len() as int, fv.len()) == Some(
            (
                fv.map_values(|f: InputFileView| varint_value(col, f)),
                (p.len() + column(fv, col).len()) as int,
            ),
        ),
    decreases fv.len(),
{
    let c = column(fv, col);
    let buf = p + c + q;
    if fv.len() == 0 {
        assert(fv.map_values(|f: InputFileView| varint_value(col, f)) =~= Seq::<u64>::empty());
    } else {
        lemma_column_front(fv, col);
        let v = varint_value(col, fv[0]);
        let e = column_entry(col, fv[0]);
        assert(e == varint_encode(v));
        let rest = fv.drop_first();
        let cr = column(rest, col);
        assert(buf =~= p + varint_encode(v) + (cr + q));
        lemma_varint_roundtrip(p, v, cr + q);
        assert(buf =~= (p + e) + cr + q);
        lemma_varint_column(p + e, rest, q, col);
        assert(fv.map_values(|f: InputFileView| varint_value(col, f)) =~= seq![v]
            + rest.map_values(|f: InputFileView| varint_value(col, f)));
    }
}

/// The number a u32 column holds for a file.
pub open spec fn u32_value(col: FileColumn, f: InputFileView) -> u32 {
    match col {
        FileColumn::Crc => crc32_ieee(f.bytes),
        _ => 0,
    }
}

proof fn lemma_u32_column(p: Seq<u8>, fv: Seq<InputFileView>, q: Seq<u8>, col: FileColumn)
    requires
        col is Time || col is Crc,
    ensures
        u32_column(p + column(fv, col) + q, p.len() as int, fv.len()) == Some(
            (
                fv.map_values(|f: InputFileView| u32_value(col, f)),
                (p.len() + column(fv, col).len()) as int,
            ),
        ),
    decreases fv.len(),
{
    let c = column(fv, col);
    let buf = p + c + q;
    if fv.len() == 0 {
        assert(fv.map_values(|f: InputFileView| u32_value(col, f)) =~= Seq::<u32>::empty());
    } else {
        lemma_column_front(fv, col);
        let v = u32_value(col, fv[0]);
        let e = column_entry(col, fv[0]);
        assert(e == u32_le(v));
        let rest = fv.drop_first();
        let cr = column(rest, col);
        assert(buf =~= p + u32_le(v) + (cr + q));
        lemma_u32_roundtrip(p, v, cr + q);
        assert(buf =~= (p + e) + cr + q);
        lemma_u32_column(p + e, rest, q, col);
        assert(fv.map_values(|f: InputFileView| u32_value(col, f)) =~= seq![v]
            + rest.map_values(|f: InputFileView| u32_value(col, f)));
    }
}

proof fn lemma_flag_column(fv: Seq<InputFileView>)
    ensures
        column(fv, FileColumn::IsDir) =~= Seq::new(fv.len(), |i: int| 0u8),
    decreases fv.len(),
{
    if fv.len() > 0 {
        lemma_flag_column(fv.drop_last());
    }
}

/// The directory the writer describes: one stored solid block holding
/// all the files, the empty root directory, and one entry per file with
/// its name, size and CRC.
pub open spec fn dir_of_files(fv: Seq<InputFileView>, data_back: u64) -> DirBlockView {
    DirBlockView {
        solid_blocks: seq![
            SolidBlockView {
                n_files: fv.len() as u64,
                compressor: "storing"@,
                rel_pos: data_back,
                compsize: total_len(fv) as u64,
            },
        ],
        dirs: seq![Seq::<char>::empty()],
        files: fv.map_values(
            |f: InputFileView|
                FileEntryView {
                    basename: f.name,
                    dir_index: 0,
                    size: f.bytes.len() as u64,
                    time: 0,
                    is_dir: false,
                    crc: crc32_ieee(f.bytes),
                },
        ),
    }
}

proof fn lemma_storing_nul_free()
    ensures
        nul_free("storing"@),
{
    reveal_strlit("storing");
}

#[verifier::rlimit(40)]
#[verifier::spinoff_prover]
proof fn lemma_solid_section(fv: Seq<InputFileView>, data_back: u64, rest: Seq<u8>)
    requires
        fv.len() <= u64::MAX,
    ensures
        parse_solid_table(solid_section(fv, data_back) + rest, 0) == Some(
            (dir_of_files(fv, data_back).solid_blocks, fv.len(), solid_section(fv, data_back).len() as int),
        ),
{
    let n = fv.len() as u64;
    let total = #[verifier::truncate] (total_len(fv) as u64);
    let s0 = varint_encode(1);
    let s1 = varint_encode(n);
    let s2 = cstr("storing"@);
    let s3 = varint_encode(data_back);
    let s4 = varint_encode(total);
    let b = solid_section(fv, data_back) + rest;
    let e: Seq<u8> = Seq::empty();
    assert(b =~= e + s0 + (s1 + s2 + s3 + s4 + rest));
    lemma_varint_roundtrip(e, 1, s1 + s2 + s3 + s4 + rest);
    let p1 = s0;
    assert(b =~= p1 + s1 + (s2 + s3 + s4 + rest));
    lemma_varint_roundtrip(p1, n, s2 + s3 + s4 + rest);
    let p2 = p1 + s1;
    assert(b =~= p2 + s2 + (s3 + s4 + rest));
    lemma_storing_nul_free();
    lemma_cstring_roundtrip(p2, "storing"@, s3 + s4 + rest);
    let p3 = p2 + s2;
    assert(b =~= p3 + s3 + (s4 + rest));
    lemma_varint_roundtrip(p3, data_back, s4 + rest);
    let p4 = p3 + s3;
    assert(b =~= p4 + s4 + rest);
    lemma_varint_roundtrip(p4, total, rest);
    let p5 = p4 + s4;
    reveal_with_fuel(varint_column, 2);
    reveal_with_fuel(cstring_column, 2);
    assert(varint_column(b, p1.len() as int, 1) == Some((seq![n], p2.len() as int)));
    assert(cstring_column(b, p2.len() as int, 1) == Some((seq!["storing"@], p3.len() as int)));
    assert(varint_column(b, p3.len() as int, 1) == Some((seq![data_back], p4.len() as int)));
    assert(varint_column(b, p4.len() as int, 1) == Some((seq![total], p5.len() as int)));
    assert(count_sum(seq![n]) == n) by {
        reveal_with_fuel(count_sum, 2);
        assert(seq![n].drop_last() =~= Seq::<u64>::empty());
    }
    assert(solid_rows(seq![n], seq!["storing"@], seq![data_back], seq![total]) =~= dir_of_files(
        fv,
        data_back,
    ).solid_blocks);
}

proof fn lemma_dirs_section(p: Seq<u8>, rest: Seq<u8>)
    ensures
        varint_at(p + dirs_section() + rest, p.len() as int) matches Some((nd, k)) && nd == 1
            && cstring_column(p + dirs_section() + rest, (p.len() + k) as int, 1) == Some(
            (seq![Seq::<char>::empty()], (p.len() + dirs_section().len()) as int),
        ),
{
    let s5 = varint_encode(1);
    let s6 = cstr(Seq::empty());
    let b = p + dirs_section() + rest;
    reveal_with_fuel(cstring_column, 2);
    assert(b =~= p + s5 + (s6 + rest));
    lemma_varint_roundtrip(p, 1, s6 + rest);
    assert(b =~= (p + s5) + s6 + rest);
    lemma_cstring_roundtrip(p + s5, Seq::empty(), rest);
}

#[verifier::rlimit(30)]
proof fn lemma_file_section(p: Seq<u8>, fv: Seq<InputFileView>, data_back: u64)
    requires
        forall|i: int| 0 <= i < fv.len() ==> nul_free(#[trigger] fv[i].name),
    ensures
        parse_file_table(p + file_section(fv), p.len() as int, fv.len()) == Some(
            dir_of_files(fv, data_back).files,
        ),
{
    let c1 = column(fv, FileColumn::Name);
    let c2 = column(fv, FileColumn::DirIndex);
    let c3 = column(fv, FileColumn::Size);
    let c4 = column(fv, FileColumn::Time);
    let c5 = column(fv, FileColumn::IsDir);
    let c6 = column(fv, FileColumn::Crc);
    let b = p + file_section(fv);
    let e: Seq<u8> = Seq::empty();
    assert(b =~= p + c1 + (c2 + c3 + c4 + c5 + c6));
    lemma_name_column(p, fv, c2 + c3 + c4 + c5 + c6);
    let p8 = p + c1;
    assert(b =~= p8 + c2 + (c3 + c4 + c5 + c6));
    lemma_varint_column(p8, fv, c3 + c4 + c5 + c6, FileColumn::DirIndex);
    let p9 = p8 + c2;
    assert(b =~= p9 + c3 + (c4 + c5 + c6));
    lemma_varint_column(p9, fv, c4 + c5 + c6, FileColumn::Size);
    let p10 = p9 + c3;
    assert(b =~= p10 + c4 + (c5 + c6));
    lemma_u32_column(p10, fv, c5 + c6, FileColumn::Time);
    let p11 = p10 + c4;
    lemma_flag_column(fv);
    assert(b.subrange(p11.len() as int, (p11.len() + fv.len()) as int) =~= c5);
    let p12 = p11 + c5;
    assert(b =~= p12 + c6 + e);
    lemma_u32_column(p12, fv, e, FileColumn::Crc);
    let names = names_of(fv);
    let dir_idx = fv.map_values(|f: InputFileView| varint_value(FileColumn::DirIndex, f));
    let sizes = fv.map_values(|f: InputFileView| varint_value(FileColumn::Size, f));
    let times = fv.map_values(|f: InputFileView| u32_value(FileColumn::Time, f));
    let crcs = fv.map_values(|f: InputFileView| u32_value(FileColumn::Crc, f));
    assert(parse_file_table(b, p.len() as int, fv.len()) == Some(
        file_rows(names, dir_idx, sizes, times, c5, crcs),
    ));
    assert(file_rows(names, dir_idx, sizes, times, c5, crcs) =~= dir_of_files(
        fv,
        data_back,
    ).files);
}

/// The DIR body the writer lays down parses back to exactly the files
/// it was given (names, sizes, CRCs), in one stored solid block, as long
/// as no name holds a NUL character.
pub proof fn lemma_dir_body_roundtrip(fv: Seq<InputFileView>, data_back: u64)
    requires
        fv.len() <= u64::MAX,
        forall|i: int| 0 <= i < fv.len() ==> nul_free(#[trigger] fv[i].name),
    ensures
        parse_dir(dir_body(fv, data_back)) == Some(dir_of_files(fv, data_back)),
{
    reveal(dir_body);
    let a = solid_section(fv, data_back);
    let d = dirs_section();
    let f = file_section(fv);
    let b = dir_body(fv, data_back);
    assert(b =~= a + (d + f));
    lemma_solid_section(fv, data_back, d + f);
    assert(b =~= a + d + f);
    lemma_dirs_section(a, f);
    assert(b =~= (a + d) + f);
    lemma_file_section(a + d, fv, data_back);
}

proof fn lemma_varint_zero()
    ensures
        varint_encode(0) == seq![0u8],
{
    lemma2_to64();
    assert(le_bytes(0, 1) =~= seq![0u8]) by {
        reveal_with_fuel(le_bytes, 2);
    }
}

proof fn lemma_signature_value()
    ensures
        u32_at(signature_bytes(), 0) == Some((SIGNATURE_LE, 4int)),
{
    let sb = signature_bytes();
    reveal_with_fuel(le_value, 5);
    assert(sb.subrange(0, 4) =~= sb);
    assert(sb.drop_first() =~= seq![0x72u8, 0x43u8, 0x01u8]);
    assert(sb.drop_first().drop_first() =~= seq![0x43u8, 0x01u8]);
    assert(sb.drop_first().drop_first().drop_first() =~= seq![0x01u8]);
    assert(sb.drop_first().drop_first().drop_first().drop_first() =~= Seq::<u8>::empty());
}

/// The descriptor the parser finds in a descriptor the writer made.
pub open spec fn descriptor_view(
    block_ty: u8,
    compressor: Seq<char>,
    origsize: u64,
    compsize: u64,
    crc: u32,
    pos: u64,
) -> LocalDescriptorView {
    LocalDescriptorView {
        descriptor_pos: pos,
        block_type: block_ty,
        compressor,
        origsize,
        compsize,
        crc,
        block_pos: (pos - compsize) as u64,
    }
}

proof fn lemma_parse_descriptor_extend(w: Seq<u8>, e: Seq<u8>, pos: u64)
    requires
        parse_descriptor(w, pos) is Ok,
    ensures
        parse_descriptor(w + e, pos) == parse_descriptor(w, pos),
{
    let b = w + e;
    assert(b.subrange(0, 4) =~= w.subrange(0, 4));
    let p1 = 4int;
    crate::dir::lemma_varint_at_extend(w, e, p1);
    let (bt, n1) = varint_at(w, p1)->0;
    crate::dir::lemma_cstring_at_extend(w, e, p1 + n1);
    let (comp, p3) = cstring_at(w, p1 + n1)->0;
    crate::dir::lemma_varint_at_extend(w, e, p3);
    let (o, n3) = varint_at(w, p3)->0;
    crate::dir::lemma_varint_at_extend(w, e, p3 + n3);
    let (c, n4) = varint_at(w, p3 + n3)->0;
    let q = p3 + n3 + n4;
    assert(b.subrange(q, q + 4) =~= w.subrange(q, q + 4));
}

/// A local descriptor the writer builds (`descriptor_bytes`, what
/// `build_local_descriptor` returns), read back by `read_local_descriptor`
/// (whose result is `parse_descriptor` of the 4 KiB `descriptor_window`)
/// where it sits in a file, with any bytes before and after it: the read
/// gives back its fields, with `block_pos` the descriptor's position less
/// `compsize`, as long as the descriptor fits in the window.
pub proof fn lemma_descriptor_in_file(
    head: Seq<u8>,
    tail: Seq<u8>,
    block_ty: u8,
    compressor: Seq<char>,
    origsize: u64,
    compsize: u64,
    crc: u32,
)
    requires
        nul_free(compressor),
        compsize <= head.len(),
        head.len() <= u64::MAX,
        descriptor_bytes(block_ty, compressor, origsize, compsize, crc).len() <= 4096,
    ensures
        parse_descriptor(
            descriptor_window(
                head + descriptor_bytes(block_ty, compressor, origsize, compsize, crc) + tail,
                head.len() as int,
            ),
            head.len() as u64,
        ) == Ok::<LocalDescriptorView, ArcErrorView>(
            descriptor_view(block_ty, compressor, origsize, compsize, crc, head.len() as u64),
        ),
{
    let pos = head.len() as u64;
    let d = descriptor_bytes(block_ty, compressor, origsize, compsize, crc);
    let data = head + d + tail;
    lemma_descriptor_roundtrip(block_ty, compressor, origsize, compsize, crc, pos);
    let w = descriptor_window(data, pos as int);
    let rest = w.subrange(d.len() as int, w.len() as int);
    assert(w =~= d + rest);
    lemma_parse_descriptor_extend(d, rest, pos);
}

/// A descriptor the writer makes parses back to its fields.
#[verifier::rlimit(60)]
pub proof fn lemma_descriptor_roundtrip(
    block_ty: u8,
    compressor: Seq<char>,
    origsize: u64,
    compsize: u64,
    crc: u32,
    pos: u64,
)
    requires
        nul_free(compressor),
        compsize <= pos,
    ensures
        parse_descriptor(descriptor_bytes(block_ty, compressor, origsize, compsize, crc), pos)
            == Ok::<LocalDescriptorView, ArcErrorView>(
            descriptor_view(block_ty, compressor, origsize, compsize, crc, pos),
        ),
        descriptor_bytes(block_ty, compressor, origsize, compsize, crc).len() <= 39 + cstr(
            compressor,
        ).len(),
        descriptor_bytes(block_ty, compressor, origsize, compsize, crc).subrange(0, 4)
            == signature_bytes(),
{
    reveal(descriptor_bytes);
    let s0 = signature_bytes();
    let s1 = varint_encode(block_ty as u64);
    let s2 = cstr(compressor);
    let s3 = varint_encode(origsize);
    let s4 = varint_encode(compsize);
    let s5 = u32_le(crc);
    let body = s0 + s1 + s2 + s3 + s4 + s5;
    let d = body + u32_le(crc32_ieee(body));
    let tail = u32_le(crc32_ieee(body));
    let e: Seq<u8> = Seq::empty();
    lemma_signature_value();
    assert(d =~= e + s0 + (s1 + s2 + s3 + s4 + s5 + tail));
    assert(d.subrange(0, 4) =~= s0);
    assert(s0.subrange(0, 4) =~= s0);
    assert(u32_at(d, 0) == Some((SIGNATURE_LE, 4int)));
    lemma_varint_roundtrip(s0, block_ty as u64, s2 + s3 + s4 + s5 + tail);
    assert(d =~= s0 + s1 + (s2 + s3 + s4 + s5 + tail));
    lemma_cstring_roundtrip(s0 + s1, compressor, s3 + s4 + s5 + tail);
    assert(d =~= (s0 + s1) + s2 + (s3 + s4 + s5 + tail));
    lemma_varint_roundtrip(s0 + s1 + s2, origsize, s4 + s5 + tail);
    assert(d =~= (s0 + s1 + s2) + s3 + (s4 + s5 + tail));
    lemma_varint_roundtrip(s0 + s1 + s2 + s3, compsize, s5 + tail);
    assert(d =~= (s0 + s1 + s2 + s3) + s4 + (s5 + tail));
    lemma_u32_roundtrip(s0 + s1 + s2 + s3 + s4, crc, tail);
    assert(d =~= (s0 + s1 + s2 + s3 + s4) + s5 + tail);
    lemma_u32_roundtrip(body, crc32_ieee(body), e);
    lemma_varint_minimal(block_ty as u64);
    lemma_varint_minimal(origsize);
    lemma_varint_minimal(compsize);
    assert((block_ty as u64) as u8 == block_ty);
}

/// One control-block entry as the footer body holds it.
pub open spec fn entry_bytes(
    block_ty: u8,
    compressor: Seq<char>,
    rel_pos: u64,
    origsize: u64,
    compsize: u64,
    crc: u32,
) -> Seq<u8> {
    varint_encode(block_ty as u64) + cstr(compressor) + varint_encode(rel_pos) + varint_encode(
        origsize,
    ) + varint_encode(compsize) + u32_le(crc)
}

#[verifier::rlimit(100)]
#[verifier::spinoff_prover]
proof fn lemma_entry_roundtrip(
    p: Seq<u8>,
    block_ty: u8,
    compressor: Seq<char>,
    rel_pos: u64,
    origsize: u64,
    compsize: u64,
    crc: u32,
    q: Seq<u8>,
)
    requires
        nul_free(compressor),
    ensures
        entry_at(p + entry_bytes(block_ty, compressor, rel_pos, origsize, compsize, crc) + q, p.len() as int)
            == Some(
            (
                ControlBlockEntryView {
                    block_type: block_ty,
                    compressor,
                    rel_pos,
                    origsize,
                    compsize,
                    crc,
                },
                (p.len() + entry_bytes(block_ty, compressor, rel_pos, origsize, compsize, crc).len()) as int,
            ),
        ),
{
    reveal(entry_at);
    let s1 = varint_encode(block_ty as u64);
    let s2 = cstr(compressor);
    let s3 = varint_encode(rel_pos);
    let s4 = varint_encode(origsize);
    let s5 = varint_encode(compsize);
    let s6 = u32_le(crc);
    let b = p + entry_bytes(block_ty, compressor, rel_pos, origsize, compsize, crc) + q;
    assert(b =~= p + s1 + (s2 + s3 + s4 + s5 + s6 + q));
    lemma_varint_roundtrip(p, block_ty as u64, s2 + s3 + s4 + s5 + s6 + q);
    assert(b =~= (p + s1) + s2 + (s3 + s4 + s5 + s6 + q));
    lemma_cstring_roundtrip(p + s1, compressor, s3 + s4 + s5 + s6 + q);
    assert(b =~= (p + s1 + s2) + s3 + (s4 + s5 + s6 + q));
    lemma_varint_roundtrip(p + s1 + s2, rel_pos, s4 + s5 + s6 + q);
    assert(b =~= (p + s1 + s2 + s3) + s4 + (s5 + s6 + q));
    lemma_varint_roundtrip(p + s1 + s2 + s3, origsize, s5 + s6 + q);
    assert(b =~= (p + s1 + s2 + s3 + s4) + s5 + (s6 + q));
    lemma_varint_roundtrip(p + s1 + s2 + s3 + s4, compsize, s6 + q);
    assert(b =~= (p + s1 + s2 + s3 + s4 + s5) + s6 + q);
    lemma_u32_roundtrip(p + s1 + s2 + s3 + s4 + s5, crc, q);
    assert((block_ty as u64) as u8 == block_ty);
}

/// The control blocks the writer's footer lists: the HEADER block, then
/// the DIR block.
pub open spec fn image_entries(fv: Seq<InputFileView>) -> Seq<ControlBlockEntryView> {
    seq![
        ControlBlockEntryView {
            block_type: block_type::HEADER,
            compressor: "storing"@,
            rel_pos: image_footer_start(fv) as u64,
            origsize: header_body().len() as u64,
            compsize: header_body().len() as u64,
            crc: crc32_ieee(header_body()),
        },
        ControlBlockEntryView {
            block_type: block_type::DIR,
            compressor: "storing"@,
            rel_pos: (image_footer_start(fv) - image_dir_start(fv)) as u64,
            origsize: image_dir(fv).len() as u64,
            compsize: image_dir(fv).len() as u64,
            crc: crc32_ieee(image_dir(fv)),
        },
    ]
}

#[verifier::rlimit(80)]
proof fn lemma_footer_body_parse(fv: Seq<InputFileView>)
    ensures
        parse_footer_body(image_footer(fv)) == Some((image_entries(fv), seq![0u8, 0u8, 0u8, 0u8])),
{
    reveal(footer_body);
    let fs = image_footer_start(fv);
    let ds = image_dir_start(fv);
    let dir = image_dir(fv);
    let hb = header_body();
    let e1 = entry_bytes(
        block_type::HEADER,
        "storing"@,
        fs as u64,
        hb.len() as u64,
        hb.len() as u64,
        crc32_ieee(hb),
    );
    let e2 = entry_bytes(
        block_type::DIR,
        "storing"@,
        (fs - ds) as u64,
        dir.len() as u64,
        dir.len() as u64,
        crc32_ieee(dir),
    );
    lemma_varint_zero();
    assert(encode_utf8(Seq::<char>::empty()) =~= Seq::<u8>::empty());
    let trailer = seq![0u8, 0u8, 0u8, 0u8];
    assert(seq![0u8] + varint_encode(0) + cstr(Seq::empty()) + varint_encode(0) =~= trailer);
    let v2 = varint_encode(2);
    let fb = image_footer(fv);
    assert(fb =~= v2 + e1 + (e2 + trailer));
    let e: Seq<u8> = Seq::empty();
    assert(fb =~= e + v2 + (e1 + e2 + trailer));
    lemma_varint_roundtrip(e, 2, e1 + e2 + trailer);
    lemma_storing_nul_free();
    lemma_entry_roundtrip(
        v2,
        block_type::HEADER,
        "storing"@,
        fs as u64,
        hb.len() as u64,
        hb.len() as u64,
        crc32_ieee(hb),
        e2 + trailer,
    );
    assert(fb =~= (v2 + e1) + e2 + trailer);
    lemma_entry_roundtrip(
        v2 + e1,
        block_type::DIR,
        "storing"@,
        (fs - ds) as u64,
        dir.len() as u64,
        dir.len() as u64,
        crc32_ieee(dir),
        trailer,
    );
    reveal_with_fuel(entries_at, 3);
    assert(fb.skip((v2 + e1 + e2).len() as int) =~= trailer);
    assert(image_entries(fv) =~= seq![image_entries(fv)[0]] + (seq![image_entries(fv)[1]]
        + Seq::empty()));
}

/// Stored bytes decode to themselves when the expected size is theirs.
pub proof fn lemma_storing_decodes(b: Seq<u8>, host: HostFn)
    requires
        b.len() < u64::MAX,
    ensures
        decode_with("storing"@, b, b.len() as u64, host) == Ok::<Seq<u8>, ArcErrorView>(b),
{
    reveal_strlit("storing");
    assert(!has_char("storing"@, '+'));
    reveal_with_fuel(run_chain, 2);
}

/// Where the writer's footer descriptor sits.
pub open spec fn image_footer_descriptor_pos(fv: Seq<InputFileView>) -> nat {
    image_footer_start(fv) + image_footer(fv).len()
}

/// What opening the writer's archive gives: the stored FOOTER block's
/// descriptor, the HEADER and DIR entries, and an all-zero trailer.
pub open spec fn image_summary(fv: Seq<InputFileView>) -> ArchiveSummaryView {
    let fb = image_footer(fv);
    ArchiveSummaryView {
        footer: descriptor_view(
            block_type::FOOTER,
            "storing"@,
            fb.len() as u64,
            fb.len() as u64,
            crc32_ieee(fb),
            image_footer_descriptor_pos(fv) as u64,
        ),
        control_blocks: image_entries(fv),
        trailer: seq![0u8, 0u8, 0u8, 0u8],
    }
}

proof fn lemma_image_layout(fv: Seq<InputFileView>)
    ensures
        archive_image(fv) == header_body() + image_header_descriptor() + image_data(fv) + image_dir(
            fv,
        ) + image_dir_descriptor(fv) + image_footer(fv) + image_footer_descriptor(fv),
        archive_image(fv).len() == image_footer_descriptor_pos(fv) + image_footer_descriptor(
            fv,
        ).len(),
        archive_image(fv).subrange(image_footer_start(fv) as int, image_footer_descriptor_pos(fv) as int)
            == image_footer(fv),
        archive_image(fv).subrange(image_dir_start(fv) as int, (image_dir_start(fv) + image_dir(fv).len()) as int)
            == image_dir(fv),
        archive_image(fv).subrange(0, header_body().len() as int) == header_body(),
        archive_image(fv).subrange(image_footer_descriptor_pos(fv) as int, archive_image(fv).len() as int)
            == image_footer_descriptor(fv),
{
    let img = archive_image(fv);
    let a = header_body() + image_header_descriptor() + image_data(fv);
    assert(a.len() == image_dir_start(fv));
    assert(img.subrange(image_dir_start(fv) as int, (image_dir_start(fv) + image_dir(fv).len()) as int)
        =~= image_dir(fv));
    assert(img.subrange(image_footer_start(fv) as int, image_footer_descriptor_pos(fv) as int)
        =~= image_footer(fv));
    assert(img.subrange(0, header_body().len() as int) =~= header_body());
    assert(img.subrange(image_footer_descriptor_pos(fv) as int, img.len() as int)
        =~= image_footer_descriptor(fv));
}

/// Writing an archive and opening it back gives the footer the writer
/// wrote and its two control blocks, HEADER and DIR. This holds unless
/// the signature bytes happen to occur again inside the footer's own
/// descriptor (in its CRCs), which would make the search for the last
/// signature stop there.
#[verifier::rlimit(60)]
#[verifier::spinoff_prover]
pub proof fn lemma_write_then_open(fv: Seq<InputFileView>)
    requires
        archive_image(fv).len() <= u64::MAX,
        forall|q: int|
            image_footer_descriptor_pos(fv) < q ==> !sig_at(#[trigger] archive_image(fv), q),
    ensures
        open_archive(archive_image(fv)) == Ok::<ArchiveSummaryView, ArcErrorView>(image_summary(fv)),
{
    let img = archive_image(fv);
    let fb = image_footer(fv);
    let fd = image_footer_descriptor(fv);
    let dp = image_footer_descriptor_pos(fv);
    lemma_image_layout(fv);
    lemma_storing_nul_free();
    lemma_descriptor_roundtrip(
        block_type::FOOTER,
        "storing"@,
        fb.len() as u64,
        fb.len() as u64,
        crc32_ieee(fb),
        dp as u64,
    );
    reveal_strlit("storing");
    assert(cstr("storing"@).len() == 8) by {
        vstd::utf8::is_ascii_chars_encode_utf8("storing"@);
    }
    assert(fd.len() <= 47);
    // the footer descriptor is the last signature in the last 4 KiB
    assert(sig_at(img, dp as int)) by {
        assert(fd.subrange(0, 4) == signature_bytes());
        assert(img[dp as int] == fd[0]);
        assert(img[dp + 1int] == fd[1]);
        assert(img[dp + 2int] == fd[2]);
        assert(img[dp + 3int] == fd[3]);
    }
    let lo = footer_window_start(img.len()) as int;
    assert(lo <= dp);
    lemma_last_sig(img, lo, img.len() - 4);
    match footer_descriptor_pos(img) {
        Some(p) => {
            if p < dp {
                assert(!sig_at(img, dp as int));
            }
        },
        None => {},
    }
    assert(footer_descriptor_pos(img) == Some(dp as int));
    assert(descriptor_window(img, dp as int) == fd);
    // the footer block is stored, decodes to itself and passes its CRC
    lemma_storing_decodes(fb, no_host());
    lemma_footer_body_parse(fv);
}

/// In the writer's archive, the DIR entry of the footer leads back to
/// the DIR body written, and the HEADER entry to the header written.
pub proof fn lemma_write_then_read_blocks(fv: Seq<InputFileView>)
    requires
        archive_image(fv).len() <= u64::MAX,
    ensures
        control_block(archive_image(fv), image_summary(fv).footer, image_entries(fv)[1])
            == Ok::<Seq<u8>, ArcErrorView>(image_dir(fv)),
        control_block(archive_image(fv), image_summary(fv).footer, image_entries(fv)[0])
            == Ok::<Seq<u8>, ArcErrorView>(header_body()),
{
    lemma_image_layout(fv);
    lemma_storing_decodes(image_dir(fv), no_host());
    lemma_storing_decodes(header_body(), no_host());
}

/// The file entries the writer's DIR block lists.
pub open spec fn entries_of_files(fv: Seq<InputFileView>) -> Seq<FileEntryView> {
    dir_of_files(fv, 0).files
}

/// What extracting the writer's archive plans: each file written with
/// exactly its bytes, under its own name, with a matching CRC.
pub open spec fn extraction_of_files(fv: Seq<InputFileView>) -> Seq<PlannedEntryView> {
    fv.map_values(
        |f: InputFileView|
            PlannedEntryView {
                step: Some(ExtractStepView::WriteFile(f.name, f.bytes)),
                outcome: FileOutcomeView::Wrote(f.name),
            },
    )
}

proof fn lemma_contents_front(fv: Seq<InputFileView>)
    requires
        fv.len() > 0,
    ensures
        column(fv, FileColumn::Contents) == fv[0].bytes + column(fv.drop_first(), FileColumn::Contents),
{
    lemma_column_front(fv, FileColumn::Contents);
}

proof fn lemma_plan_files_of(p: Seq<u8>, fv: Seq<InputFileView>)
    requires
        forall|i: int| 0 <= i < fv.len() ==> (#[trigger] fv[i]).bytes.len() <= u64::MAX,
    ensures
        plan_files(
            seq![Seq::<char>::empty()],
            entries_of_files(fv),
            p + column(fv, FileColumn::Contents),
            p.len() as int,
        ) == (extraction_of_files(fv), None::<ArcErrorView>),
    decreases fv.len(),
{
    let dirs = seq![Seq::<char>::empty()];
    let raw = p + column(fv, FileColumn::Contents);
    if fv.len() == 0 {
        assert(entries_of_files(fv) =~= Seq::<FileEntryView>::empty());
        assert(extraction_of_files(fv) =~= Seq::<PlannedEntryView>::empty());
    } else {
        lemma_contents_front(fv);
        let b0 = fv[0].bytes;
        let rest = fv.drop_first();
        assert(raw =~= (p + b0) + column(rest, FileColumn::Contents));
        assert(raw.subrange(p.len() as int, (p.len() + b0.len()) as int) =~= b0);
        assert(entries_of_files(fv).drop_first() =~= entries_of_files(rest));
        assert(full_path_of(dirs, entries_of_files(fv)[0]) == fv[0].name);
        assert(entries_of_files(fv)[0].size == b0.len());
        assert(!entries_of_files(fv)[0].is_dir);
        assert(forall|i: int| 0 <= i < rest.len() ==> rest[i] == fv[i + 1]);
        lemma_plan_files_of(p + b0, rest);
        assert(extraction_of_files(fv) =~= seq![extraction_of_files(fv)[0]] + extraction_of_files(rest));
    }
}

proof fn lemma_size_sum_of(fv: Seq<InputFileView>)
    requires
        forall|i: int| 0 <= i < fv.len() ==> (#[trigger] fv[i]).bytes.len() <= u64::MAX,
    ensures
        size_sum(entries_of_files(fv)) == total_len(fv),
    decreases fv.len(),
{
    if fv.len() > 0 {
        assert(entries_of_files(fv).drop_last() =~= entries_of_files(fv.drop_last()));
        assert(forall|i: int| 0 <= i < fv.drop_last().len() ==> fv.drop_last()[i] == fv[i]);
        lemma_size_sum_of(fv.drop_last());
    }
}

/// Extracting the writer's archive, with the DIR block the writer wrote,
/// writes every file with exactly its bytes and reports no mismatch and
/// no error.
#[verifier::rlimit(40)]
pub proof fn lemma_write_then_extract(fv: Seq<InputFileView>)
    requires
        archive_image(fv).len() <= u64::MAX,
        fv.len() <= u64::MAX,
    ensures
        extractable(dir_of_files(fv, image_data(fv).len() as u64)),
        plan_blocks(
            archive_image(fv),
            image_dir_start(fv) as u64,
            dir_of_files(fv, image_data(fv).len() as u64),
            0,
        ) == (extraction_of_files(fv), None::<ArcErrorView>),
{
    let img = archive_image(fv);
    let data = image_data(fv);
    let d = dir_of_files(fv, data.len() as u64);
    let ds = image_dir_start(fv);
    lemma_image_layout(fv);
    assert forall|i: int| 0 <= i < fv.len() implies (#[trigger] fv[i]).bytes.len() <= u64::MAX by {
        lemma_contents_member(fv, i);
    }
    lemma_size_sum_of(fv);
    assert(count_sum(block_counts(d).subrange(0, 0)) == 0);
    assert(block_counts(d) =~= seq![fv.len() as u64]);
    assert(count_sum(seq![fv.len() as u64]) == fv.len()) by {
        reveal_with_fuel(count_sum, 2);
        assert(seq![fv.len() as u64].drop_last() =~= Seq::<u64>::empty());
    }
    assert(block_files(d, 0) =~= entries_of_files(fv));
    if total_len(fv) == 0 {
        // an empty block: every file is empty and is created empty
        let dirs = seq![Seq::<char>::empty()];
        let ents = entries_of_files(fv);
        assert(d.solid_blocks[0].compsize == 0);
        assert(ents.map_values(|f: FileEntryView| entry_without_data(dirs, "storing"@, None, f))
            =~= extraction_of_files(fv)) by {
            assert forall|i: int| 0 <= i < fv.len() implies fv[i].bytes =~= Seq::<u8>::empty() by {
                lemma_contents_member(fv, i);
            }
            assert forall|i: int| 0 <= i < fv.len() implies full_path_of(dirs, #[trigger] ents[i]) == fv[i].name by {}
        }
        assert(extraction_of_files(fv) + Seq::<PlannedEntryView>::empty() =~= extraction_of_files(fv));
        reveal_with_fuel(plan_blocks, 2);
        return;
    }
    let hl = header_body().len() + image_header_descriptor().len();
    assert(img.subrange(hl as int, ds as int) =~= data);
    lemma_storing_decodes(data, no_host());
    lemma_plan_files_of(Seq::empty(), fv);
    assert(Seq::<u8>::empty() + data =~= data);
    assert(extraction_of_files(fv) + Seq::<PlannedEntryView>::empty() =~= extraction_of_files(fv));
    reveal_with_fuel(plan_blocks, 2);
}

proof fn lemma_contents_member(fv: Seq<InputFileView>, i: int)
    requires
        0 <= i < fv.len(),
    ensures
        fv[i].bytes.len() <= column(fv, FileColumn::Contents).len(),
    decreases fv.len(),
{
    if i < fv.len() - 1 {
        assert(fv.drop_last()[i] == fv[i]);
        lemma_contents_member(fv.drop_last(), i);
    }
}

} // verus!
