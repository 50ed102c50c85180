//! Minimal FreeArc archive writer.
//!
//! Writes single-solid-block archives using the `storing` codec only:
//!   - one HEADER block (8 bytes of magic + version)
//!   - one DATA solid block (the files concatenated verbatim)
//!   - one DIR block (one solid block, all files in one flat directory)
//!   - one FOOTER block (the list of the HEADER and DIR blocks)
//! with a 4-byte CRC at the end of every local block descriptor.

use vstd::prelude::*;
use vstd::utf8::encode_utf8;
use vstd::string::StringSliceAdditionalSpecFns;

use crate::decompress::{crc32, crc32_ieee};
use crate::error::ArcError;
use crate::footer::block_type;
use crate::varint::{le_bytes, push_le, varint_encode, write_varint};

verus! {

/// One file going into the archive.
pub struct InputFile {
    pub name: String,
    pub bytes: Vec<u8>,
}

pub struct InputFileView {
    pub name: Seq<char>,
    pub bytes: Seq<u8>,
}

impl View for InputFile {
    type V = InputFileView;

    open spec fn view(&self) -> InputFileView {
        InputFileView { name: self.name@, bytes: self.bytes@ }
    }
}

/// The files, seen through their views.
pub open spec fn files_view(files: Seq<InputFile>) -> Seq<InputFileView> {
    files.map_values(|f: InputFile| f@)
}

/// A NUL-terminated string: the UTF-8 bytes of `s`, then a zero byte.
pub open spec fn cstr(s: Seq<char>) -> Seq<u8> {
    encode_utf8(s).push(0)
}

/// A u32 as 4 little-endian bytes.
pub open spec fn u32_le(v: u32) -> Seq<u8> {
    le_bytes(v as nat, 4)
}

/// The signature `ArC\x01`.
pub open spec fn signature_bytes() -> Seq<u8> {
    seq![0x41u8, 0x72u8, 0x43u8, 0x01u8]
}

/// A local block descriptor: signature, block type (varint), compressor
/// (NUL-terminated), origsize and compsize (varints), the CRC of the
/// block's data, and the CRC of all the descriptor bytes before it.
#[verifier::opaque]
pub open spec fn descriptor_bytes(
    block_ty: u8,
    compressor: Seq<char>,
    origsize: u64,
    compsize: u64,
    data_crc: u32,
) -> Seq<u8> {
    let d = signature_bytes() + varint_encode(block_ty as u64) + cstr(compressor) + varint_encode(
        origsize,
    ) + varint_encode(compsize) + u32_le(data_crc);
    d + u32_le(crc32_ieee(d))
}

/// The per-file columns the writer lays down.
pub enum FileColumn {
    /// The file's bytes (the DATA block).
    Contents,
    /// Base name, NUL-terminated.
    Name,
    /// Index of the parent directory: always the root, 0.
    DirIndex,
    /// Size, as a varint.
    Size,
    /// Modification time: always 0, as a u32.
    Time,
    /// Is-directory flag: always 0.
    IsDir,
    /// CRC-32 of the contents, as a u32.
    Crc,
}

/// What one file contributes to a column.
pub open spec fn column_entry(col: FileColumn, f: InputFileView) -> Seq<u8> {
    match col {
        FileColumn::Contents => f.bytes,
        FileColumn::Name => cstr(f.name),
        FileColumn::DirIndex => varint_encode(0),
        FileColumn::Size => varint_encode(f.bytes.len() as u64),
        FileColumn::Time => u32_le(0),
        FileColumn::IsDir => seq![0u8],
        FileColumn::Crc => u32_le(crc32_ieee(f.bytes)),
    }
}

/// A column: the entries of all files, in order.
pub open spec fn column(files: Seq<InputFileView>, col: FileColumn) -> Seq<u8>
    decreases files.len(),
{
    if files.len() == 0 {
        Seq::empty()
    } else {
        column(files.drop_last(), col) + column_entry(col, files.last())
    }
}

/// Total size of the files' contents.
pub open spec fn total_len(files: Seq<InputFileView>) -> nat {
    column(files, FileColumn::Contents).len()
}

/// The solid-block table of the DIR body: one block of all the files,
/// stored, `data_back` bytes before the DIR block.
pub open spec fn solid_section(files: Seq<InputFileView>, data_back: u64) -> Seq<u8> {
    varint_encode(1) + varint_encode(files.len() as u64) + cstr("storing"@) + varint_encode(data_back)
        + varint_encode(total_len(files) as u64)
}

/// The directory names of the DIR body: just the empty root.
pub open spec fn dirs_section() -> Seq<u8> {
    varint_encode(1) + cstr(Seq::empty())
}

/// The file table of the DIR body, column by column.
pub open spec fn file_section(files: Seq<InputFileView>) -> Seq<u8> {
    column(files, FileColumn::Name) + column(files, FileColumn::DirIndex) + column(
        files,
        FileColumn::Size,
    ) + column(files, FileColumn::Time) + column(files, FileColumn::IsDir) + column(
        files,
        FileColumn::Crc,
    )
}

/// The DIR block body: the solid-block table, the directory names and
/// the file table.
#[verifier::opaque]
pub open spec fn dir_body(files: Seq<InputFileView>, data_back: u64) -> Seq<u8> {
    solid_section(files, data_back) + dirs_section() + file_section(files)
}

/// The HEADER block body: the signature and FreeArc's version bytes.
pub open spec fn header_body() -> Seq<u8> {
    signature_bytes() + seq![0x00u8, 0x00u8, 0x06u8, 0x07u8]
}

/// The FOOTER block body: two control-block entries (HEADER and DIR,
/// each with its position as distance back from the footer block, its
/// sizes and CRC), then the archive trailer (not locked, no comment, no
/// recovery settings).
#[verifier::opaque]
pub open spec fn footer_body(header: Seq<u8>, dir: Seq<u8>, header_back: u64, dir_back: u64) -> Seq<u8> {
    varint_encode(2) + varint_encode(block_type::HEADER as u64) + cstr("storing"@) + varint_encode(
        header_back,
    ) + varint_encode(header.len() as u64) + varint_encode(header.len() as u64) + u32_le(
        crc32_ieee(header),
    ) + varint_encode(block_type::DIR as u64) + cstr("storing"@) + varint_encode(dir_back)
        + varint_encode(dir.len() as u64) + varint_encode(dir.len() as u64) + u32_le(
        crc32_ieee(dir),
    ) + seq![0u8] + varint_encode(0) + cstr(Seq::empty()) + varint_encode(0)
}

/// The HEADER block's descriptor.
pub open spec fn image_header_descriptor() -> Seq<u8> {
    descriptor_bytes(block_type::HEADER, "storing"@, 8, 8, crc32_ieee(header_body()))
}

/// The DATA block: the files' bytes, concatenated.
pub open spec fn image_data(files: Seq<InputFileView>) -> Seq<u8> {
    column(files, FileColumn::Contents)
}

/// The DIR block body, for data that ends where the DIR block starts.
pub open spec fn image_dir(files: Seq<InputFileView>) -> Seq<u8> {
    dir_body(files, image_data(files).len() as u64)
}

/// The DIR block's descriptor.
pub open spec fn image_dir_descriptor(files: Seq<InputFileView>) -> Seq<u8> {
    descriptor_bytes(
        block_type::DIR,
        "storing"@,
        image_dir(files).len() as u64,
        image_dir(files).len() as u64,
        crc32_ieee(image_dir(files)),
    )
}

/// Where the DIR block starts.
pub open spec fn image_dir_start(files: Seq<InputFileView>) -> nat {
    header_body().len() + image_header_descriptor().len() + image_data(files).len()
}

/// Where the FOOTER block starts.
pub open spec fn image_footer_start(files: Seq<InputFileView>) -> nat {
    image_dir_start(files) + image_dir(files).len() + image_dir_descriptor(files).len()
}

/// The FOOTER block body: the HEADER block at offset 0, the DIR block at
/// its start, each as distance back from the footer block.
pub open spec fn image_footer(files: Seq<InputFileView>) -> Seq<u8> {
    footer_body(
        header_body(),
        image_dir(files),
        image_footer_start(files) as u64,
        (image_footer_start(files) - image_dir_start(files)) as u64,
    )
}

/// The FOOTER block's descriptor.
pub open spec fn image_footer_descriptor(files: Seq<InputFileView>) -> Seq<u8> {
    descriptor_bytes(
        block_type::FOOTER,
        "storing"@,
        image_footer(files).len() as u64,
        image_footer(files).len() as u64,
        crc32_ieee(image_footer(files)),
    )
}

/// The complete archive for `files`: HEADER body and descriptor, the
/// files' bytes, DIR body and descriptor, FOOTER body and descriptor.
pub open spec fn archive_image(files: Seq<InputFileView>) -> Seq<u8> {
    header_body() + image_header_descriptor() + image_data(files) + image_dir(files)
        + image_dir_descriptor(files) + image_footer(files) + image_footer_descriptor(files)
}

fn write_cstring(out: &mut Vec<u8>, s: &str)
    ensures
        final(out)@ == old(out)@ + cstr(s@),
{
    let ghost before = out@;
    out.extend_from_slice(s.as_bytes());
    out.push(0);
    assert(out@ =~= before + cstr(s@));
}

fn push_u32_le(out: &mut Vec<u8>, v: u32)
    ensures
        final(out)@ == old(out)@ + u32_le(v),
{
    push_le(out, v as u64, 4);
}

/// Build a local block descriptor: signature + type + compressor +
/// origsize + compsize + CRC of the data + CRC of the descriptor.
fn build_local_descriptor(
    block_ty: u8,
    compressor: &str,
    origsize: u64,
    compsize: u64,
    data_crc: u32,
) -> (d: Vec<u8>)
    ensures
        d@ == descriptor_bytes(block_ty, compressor@, origsize, compsize, data_crc),
{
    reveal(descriptor_bytes);
    let mut d: Vec<u8> = Vec::new();
    d.push(0x41);
    d.push(0x72);
    d.push(0x43);
    d.push(0x01);
    assert(d@ =~= signature_bytes());
    write_varint(&mut d, block_ty as u64);
    write_cstring(&mut d, compressor);
    write_varint(&mut d, origsize);
    write_varint(&mut d, compsize);
    push_u32_le(&mut d, data_crc);
    let descr_crc = crc32(d.as_slice());
    push_u32_le(&mut d, descr_crc);
    d
}

proof fn lemma_column_step(files: Seq<InputFileView>, i: int, col: FileColumn)
    requires
        0 <= i < files.len(),
    ensures
        column(files.take(i + 1), col) == column(files.take(i), col) + column_entry(col, files[i]),
{
    assert(files.take(i + 1).drop_last() =~= files.take(i));
}

proof fn lemma_column_prefix_len(files: Seq<InputFileView>, i: int, col: FileColumn)
    requires
        0 <= i <= files.len(),
    ensures
        column(files.take(i), col).len() <= column(files, col).len(),
    decreases files.len() - i,
{
    if i < files.len() {
        lemma_column_step(files, i, col);
        lemma_column_prefix_len(files, i + 1, col);
    } else {
        assert(files.take(i) =~= files);
    }
}

/// Append one column of the file table to `out`.
fn write_column(out: &mut Vec<u8>, files: &[InputFile], col: FileColumn)
    ensures
        final(out)@ == old(out)@ + column(files_view(files@), col),
{
    let ghost fv = files_view(files@);
    let ghost before = out@;
    let mut i: usize = 0;
    assert(fv.take(0) =~= Seq::<InputFileView>::empty());
    while i < files.len()
        invariant
            i <= files.len(),
            fv == files_view(files@),
            out@ == before + column(fv.take(i as int), col),
        decreases files.len() - i,
    {
        let ghost prev = out@;
        let f = &files[i];
        match col {
            FileColumn::Contents => out.extend_from_slice(f.bytes.as_slice()),
            FileColumn::Name => write_cstring(out, f.name.as_str()),
            FileColumn::DirIndex => write_varint(out, 0),
            FileColumn::Size => write_varint(out, f.bytes.len() as u64),
            FileColumn::Time => push_u32_le(out, 0),
            FileColumn::IsDir => out.push(0),
            FileColumn::Crc => push_u32_le(out, crc32(f.bytes.as_slice())),
        }
        proof {
            lemma_column_step(fv, i as int, col);
            assert(fv[i as int] == files@[i as int]@);
            assert(out@ =~= prev + column_entry(col, fv[i as int]));
        }
        i = i + 1;
    }
    assert(fv.take(i as int) =~= fv);
}

/// Total size of the files' contents, which must fit in a u64.
fn contents_len(files: &[InputFile]) -> (n: u64)
    requires
        total_len(files_view(files@)) <= u64::MAX,
    ensures
        n == total_len(files_view(files@)),
{
    let ghost fv = files_view(files@);
    let mut n: u64 = 0;
    let mut i: usize = 0;
    assert(fv.take(0) =~= Seq::<InputFileView>::empty());
    while i < files.len()
        invariant
            i <= files.len(),
            fv == files_view(files@),
            column(fv, FileColumn::Contents).len() <= u64::MAX,
            n == column(fv.take(i as int), FileColumn::Contents).len(),
        decreases files.len() - i,
    {
        proof {
            lemma_column_step(fv, i as int, FileColumn::Contents);
            lemma_column_prefix_len(fv, i + 1, FileColumn::Contents);
            assert(fv[i as int] == files@[i as int]@);
        }
        n = n + files[i].bytes.len() as u64;
        i = i + 1;
    }
    assert(fv.take(i as int) =~= fv);
    n
}

/// Build the DIR block body: one solid block with all input files, all
/// in the root directory (one empty directory name).
fn build_dir_body(files: &[InputFile], data_back: u64) -> (body: Vec<u8>)
    requires
        total_len(files_view(files@)) <= u64::MAX,
    ensures
        body@ == dir_body(files_view(files@), data_back),
{
    reveal(dir_body);
    let ghost fv = files_view(files@);
    let mut body: Vec<u8> = Vec::new();
    // Section 1: solid-block table (one block).
    write_varint(&mut body, 1);
    write_varint(&mut body, files.len() as u64);
    write_cstring(&mut body, "storing");
    write_varint(&mut body, data_back);
    let total = contents_len(files);
    write_varint(&mut body, total);
    // Section 2: directory names, just the empty root.
    write_varint(&mut body, 1);
    write_cstring(&mut body, "");
    proof {
        reveal_strlit("");
    }
    // Section 3: the file table, column by column.
    write_column(&mut body, files, FileColumn::Name);
    write_column(&mut body, files, FileColumn::DirIndex);
    write_column(&mut body, files, FileColumn::Size);
    write_column(&mut body, files, FileColumn::Time);
    write_column(&mut body, files, FileColumn::IsDir);
    write_column(&mut body, files, FileColumn::Crc);
    assert(fv.len() == files@.len());
    assert(body@ =~= solid_section(fv, data_back) + dirs_section() + file_section(fv));
    body
}

/// Build the FOOTER block body for a HEADER and DIR block that sit
/// `header_back` and `dir_back` bytes before the footer block.
fn build_footer_body(header: &[u8], dir: &[u8], header_back: u64, dir_back: u64) -> (footer: Vec<
    u8,
>)
    ensures
        footer@ == footer_body(header@, dir@, header_back, dir_back),
{
    reveal(footer_body);
    let mut footer: Vec<u8> = Vec::new();
    // two control blocks: HEADER, then DIR
    write_varint(&mut footer, 2);
    write_varint(&mut footer, block_type::HEADER as u64);
    write_cstring(&mut footer, "storing");
    write_varint(&mut footer, header_back);
    write_varint(&mut footer, header.len() as u64);
    write_varint(&mut footer, header.len() as u64);
    push_u32_le(&mut footer, crc32(header));
    write_varint(&mut footer, block_type::DIR as u64);
    write_cstring(&mut footer, "storing");
    write_varint(&mut footer, dir_back);
    write_varint(&mut footer, dir.len() as u64);
    write_varint(&mut footer, dir.len() as u64);
    push_u32_le(&mut footer, crc32(dir));
    // trailer: not locked, no comment, no recovery settings, no comment
    footer.push(0);
    write_varint(&mut footer, 0);
    write_cstring(&mut footer, "");
    write_varint(&mut footer, 0);
    proof {
        reveal_strlit("");
    }
    assert(footer@ =~= footer_body(header@, dir@, header_back, dir_back));
    footer
}

/// Append a complete FreeArc archive holding `files` to `out`: HEADER
/// body and descriptor, the files' bytes, DIR body and descriptor,
/// FOOTER body and descriptor. Writing to memory cannot fail.
#[verifier::spinoff_prover]
pub fn write_archive(out: &mut Vec<u8>, files: &[InputFile]) -> (r: Result<(), ArcError>)
    ensures
        r is Ok,
        final(out)@ == old(out)@ + archive_image(files_view(files@)),
{
    let ghost fv = files_view(files@);
    let ghost start = out@;
    let base = out.len();
    // --- HEADER block ---
    let mut header: Vec<u8> = Vec::new();
    header.push(0x41);
    header.push(0x72);
    header.push(0x43);
    header.push(0x01);
    header.push(0x00);
    header.push(0x00);
    header.push(0x06);
    header.push(0x07);
    assert(header@ =~= header_body());
    let header_descriptor = build_local_descriptor(
        block_type::HEADER,
        "storing",
        8,
        8,
        crc32(header.as_slice()),
    );
    out.extend_from_slice(header.as_slice());
    out.extend_from_slice(header_descriptor.as_slice());
    let ghost s1 = header@ + header_descriptor@;
    assert(out@ =~= start + s1);
    let data_start = out.len() - base;
    // --- DATA solid block: the files, concatenated ---
    write_column(out, files, FileColumn::Contents);
    let ghost data = column(fv, FileColumn::Contents);
    let dir_start = out.len() - base;
    assert(dir_start - data_start == data.len());
    // --- DIR block ---
    let dir = build_dir_body(files, (dir_start - data_start) as u64);
    let dir_descriptor = build_local_descriptor(
        block_type::DIR,
        "storing",
        dir.len() as u64,
        dir.len() as u64,
        crc32(dir.as_slice()),
    );
    let ghost s2 = s1 + data;
    out.extend_from_slice(dir.as_slice());
    out.extend_from_slice(dir_descriptor.as_slice());
    let ghost s3 = s2 + dir@ + dir_descriptor@;
    assert(out@ =~= start + s3);
    let footer_start = out.len() - base;
    // --- FOOTER block ---
    let footer = build_footer_body(
        header.as_slice(),
        dir.as_slice(),
        footer_start as u64,
        (footer_start - dir_start) as u64,
    );
    let footer_descriptor = build_local_descriptor(
        block_type::FOOTER,
        "storing",
        footer.len() as u64,
        footer.len() as u64,
        crc32(footer.as_slice()),
    );
    out.extend_from_slice(footer.as_slice());
    out.extend_from_slice(footer_descriptor.as_slice());
    assert(out@ =~= start + (s3 + footer@ + footer_descriptor@));
    assert(s3 + footer@ + footer_descriptor@ =~= archive_image(fv));
    Ok(())
}

} // verus!
