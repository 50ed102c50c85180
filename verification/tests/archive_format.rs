use freearc_cellar::cls_host::{looks_like_cls, split_codec};
use freearc_cellar::decompress::{crc32, decompress, is_supported, support_level, SupportLevel};
use freearc_cellar::dir::{parse, DirBlock, FileEntry, SolidBlock};
use freearc_cellar::error::ArcError;
use freearc_cellar::extract::{is_extractable, plan_extraction, BlockTask, ExtractStep, Extraction, FileOutcome};
use freearc_cellar::footer::block_type;
use freearc_cellar::varint::{read_varint, write_varint};
use freearc_cellar::writer::{write_archive, InputFile};
use freearc_cellar::reader::{check_control_block, control_block_bytes};
use freearc_cellar::{open, read_control_block};

#[test]
fn split_codec_basic() {
    assert_eq!(split_codec("lolly:d2g:al1"), ("lolly", "d2g:al1"));
    assert_eq!(split_codec("delta"), ("delta", ""));
    assert_eq!(split_codec(""), ("", ""));
}

#[test]
fn looks_like_cls_recognises_fitgirl_codecs() {
    assert!(looks_like_cls("lolzi"));
    assert!(looks_like_cls("lolzx:al1"));
    assert!(looks_like_cls("lolly:d2g"));
    assert!(looks_like_cls("lollypop:d1024:al1"));
    assert!(looks_like_cls("srep:m3f:l256"));
}

#[test]
fn looks_like_cls_rejects_open_codecs() {
    assert!(!looks_like_cls("storing"));
    assert!(!looks_like_cls("lzma:mfbt4:d1m"));
    assert!(!looks_like_cls("zstd:22"));
}

#[test]
fn looks_like_cls_rejects_chains() {
    assert!(!looks_like_cls("srep+dispack+lollypop"));
    assert!(!looks_like_cls("lollypop+lzma"));
}

#[test]
fn storing_roundtrip() {
    let body = b"the quick brown fox";
    let out = decompress("storing", body, body.len() as u64).unwrap();
    assert_eq!(&out, body);
}

#[test]
fn storing_size_mismatch_is_truncated() {
    let body = b"abc";
    let err = decompress("storing", body, 99).err().unwrap();
    assert!(matches!(err, ArcError::Truncated));
}

#[test]
fn zstd_roundtrip() {
    let body = b"hello hello hello hello hello world world world world".repeat(8);
    let comp = zstd::stream::encode_all(body.as_slice(), 3).unwrap();
    let out = decompress("zstd", &comp, body.len() as u64).unwrap();
    assert_eq!(out, body);
    let out2 = decompress("zstd:22", &comp, body.len() as u64).unwrap();
    assert_eq!(out2, body);
}

#[test]
fn unknown_codec_returns_unsupported() {
    let err = decompress("lolzi", b"", 0).err().unwrap();
    assert!(matches!(err, ArcError::UnsupportedCompressor(_)));
}

#[test]
fn support_level_classifies_correctly() {
    assert_eq!(support_level("storing"), SupportLevel::Native);
    assert_eq!(support_level("lzma"), SupportLevel::Native);
    assert_eq!(support_level("lzma:mfbt4:d1m"), SupportLevel::Native);
    assert_eq!(support_level("zstd"), SupportLevel::Native);
    assert_eq!(support_level("zstd:22"), SupportLevel::Native);
    assert_eq!(support_level("lolzi"), SupportLevel::Hybrid);
    assert_eq!(support_level("lollypop:d1024"), SupportLevel::Hybrid);
    assert_eq!(support_level("srep+dispack+lollypop"), SupportLevel::Hybrid);
    assert_eq!(support_level(""), SupportLevel::Unsupported);
}

#[test]
fn is_supported_matches_dispatch() {
    assert!(is_supported("storing"));
    assert!(is_supported("lzma:mfbt4:d1m"));
    assert!(is_supported("zstd:22"));
    assert!(is_supported("lolzi"));
    assert!(!is_supported(""));
    assert!(!is_supported("totally_made_up_codec_xyz"));
}

#[test]
fn support_level_handles_chains() {
    assert_eq!(support_level("storing+lzma"), SupportLevel::Native);
    assert_eq!(
        support_level("srep:m3f+dispack070+delta+lollypop:d1024"),
        SupportLevel::Hybrid
    );
    assert_eq!(support_level("lollypop+lzma"), SupportLevel::Hybrid);
    assert_eq!(
        support_level("lzma+totally_made_up_codec_xyz"),
        SupportLevel::Unsupported
    );
}

#[test]
fn decompress_chain_storing_only_roundtrip() {
    let body = b"chain-test-payload".to_vec();
    let out = decompress("storing+storing", &body, body.len() as u64).unwrap();
    assert_eq!(out, body);
}

/// A minimal DIR block: one storing solid block of two files at
/// rel_pos 10 with compsize 20, an empty root directory, two entries.
fn synth() -> Vec<u8> {
    let mut v = Vec::new();
    v.push(0x02);
    v.push(0x04);
    v.extend_from_slice(b"storing\0");
    v.push(0x14);
    v.push(0x28);
    v.push(0x02);
    v.push(0x00);
    v.extend_from_slice(b"a.txt\0");
    v.extend_from_slice(b"b.txt\0");
    v.push(0x00);
    v.push(0x00);
    v.push(0xc8);
    v.push(0x21);
    v.push(0x03);
    v.extend_from_slice(&1_000_000u32.to_le_bytes());
    v.extend_from_slice(&2_000_000u32.to_le_bytes());
    v.push(0);
    v.push(0);
    v.extend_from_slice(&0xdeadbeefu32.to_le_bytes());
    v.extend_from_slice(&0xcafebabeu32.to_le_bytes());
    v
}

#[test]
fn parses_minimal_dir() {
    let raw = synth();
    let d = parse(&raw).expect("parse");
    assert_eq!(d.solid_blocks.len(), 1);
    assert_eq!(d.solid_blocks[0].n_files, 2);
    assert_eq!(d.solid_blocks[0].compressor, "storing");
    assert_eq!(d.solid_blocks[0].rel_pos, 10);
    assert_eq!(d.solid_blocks[0].compsize, 20);
    assert_eq!(d.dirs, vec![String::new()]);
    assert_eq!(d.files.len(), 2);
    assert_eq!(d.files[0].basename, "a.txt");
    assert_eq!(d.files[0].size, 100);
    assert_eq!(d.files[0].time, 1_000_000);
    assert_eq!(d.files[0].crc, 0xdeadbeef);
    assert_eq!(d.files[1].basename, "b.txt");
    assert_eq!(d.files[1].size, 200);
    assert_eq!(d.files[1].time, 2_000_000);
    assert_eq!(d.files[1].crc, 0xcafebabe);
}

#[test]
fn parse_rejects_cut_dir_block() {
    let raw = synth();
    let err = parse(&raw[..raw.len() - 1]).err().unwrap();
    assert!(matches!(err, ArcError::Truncated));
}

#[test]
fn one_byte() {
    let mut p = 0;
    assert_eq!(read_varint(&[0x06], &mut p).unwrap(), 3);
    assert_eq!(p, 1);
}

#[test]
fn two_byte() {
    let mut p = 0;
    assert_eq!(read_varint(&[0x91, 0x01], &mut p).unwrap(), 100);
    assert_eq!(p, 2);
}

#[test]
fn zero() {
    let mut p = 0;
    assert_eq!(read_varint(&[0x00], &mut p).unwrap(), 0);
    assert_eq!(p, 1);
}

#[test]
fn write_read_roundtrip() {
    let values: &[u64] = &[
        0,
        1,
        63,
        127,
        128,
        200,
        16383,
        16384,
        100_000,
        2_097_151,
        2_097_152,
        9_577_819,
        268_435_455,
        268_435_456,
        34_359_738_367,
        34_359_738_368,
        4_398_046_511_103,
        4_398_046_511_104,
        562_949_953_421_311,
        562_949_953_421_312,
        72_057_594_037_927_935,
        72_057_594_037_927_936,
        u64::MAX,
    ];
    for &v in values {
        let mut buf = Vec::new();
        write_varint(&mut buf, v);
        let mut p = 0;
        let got = read_varint(&buf, &mut p).unwrap();
        assert_eq!(got, v, "round-trip failed for {}: bytes={:02x?}", v, buf);
        assert_eq!(p, buf.len(), "didn't consume all bytes for {}", v);
    }
}

#[test]
fn varint_cut_short_is_truncated() {
    let mut p = 0;
    assert!(matches!(read_varint(&[0x91], &mut p), Err(ArcError::Truncated)));
    assert_eq!(p, 0);
}

#[test]
fn write_then_open_roundtrips_one_file() {
    let files = vec![InputFile {
        name: "hello.txt".into(),
        bytes: b"Hello, FreeArc!\n".to_vec(),
    }];
    let mut buf = Vec::new();
    write_archive(&mut buf, &files).expect("write");
    let summary = open(&buf).expect("open");
    assert_eq!(summary.control_blocks.len(), 2);
    assert_eq!(summary.footer.block_type, block_type::FOOTER);
    assert_eq!(summary.footer.compressor, "storing");
}

fn three_files() -> Vec<InputFile> {
    vec![
        InputFile { name: "a.txt".into(), bytes: b"alpha\n".to_vec() },
        InputFile { name: "b.txt".into(), bytes: b"beta beta beta\n".to_vec() },
        InputFile {
            name: "c.bin".into(),
            bytes: (0u8..=255).cycle().take(2000).collect(),
        },
    ]
}

#[test]
fn write_then_extract_roundtrips_three_files() {
    let files = three_files();
    let mut buf = Vec::new();
    write_archive(&mut buf, &files).expect("write");
    let summary = open(&buf).expect("open");
    let dir_entry = summary
        .control_blocks
        .iter()
        .find(|e| e.block_type == block_type::DIR)
        .expect("dir entry");
    let dir_raw = read_control_block(&buf, &summary.footer, dir_entry).expect("read dir");
    let parsed = parse(&dir_raw).expect("parse dir");
    assert_eq!(parsed.solid_blocks.len(), 1);
    assert_eq!(parsed.files.len(), 3);
    assert_eq!(parsed.files[0].basename, "a.txt");
    assert_eq!(parsed.files[1].basename, "b.txt");
    assert_eq!(parsed.files[2].basename, "c.bin");
    assert_eq!(parsed.files[0].size, files[0].bytes.len() as u64);
    assert_eq!(parsed.files[2].size, files[2].bytes.len() as u64);
    for (parsed_f, input_f) in parsed.files.iter().zip(files.iter()) {
        assert_eq!(parsed_f.crc, crc32(&input_f.bytes));
    }
    let dir_pos = summary.footer.block_pos.checked_sub(dir_entry.rel_pos).expect("dir pos");
    assert!(is_extractable(&parsed));
    let plan = plan_extraction(&buf, dir_pos, &parsed);
    assert!(plan.error.is_none());
    assert_eq!(plan.stats.wrote, 3);
    assert_eq!(plan.stats.skipped_unsupported, 0);
    assert_eq!(plan.stats.crc_mismatch, 0);
    for (entry, input) in plan.entries.iter().zip(files.iter()) {
        match &entry.step {
            Some(ExtractStep::WriteFile(path, bytes)) => {
                assert_eq!(path, &input.name);
                assert_eq!(bytes, &input.bytes, "bytes diverged for {}", input.name);
            }
            _ => panic!("no write planned for {}", input.name),
        }
        assert!(matches!(entry.outcome, FileOutcome::Wrote(_)));
    }
}

#[test]
fn extract_storing_two_files() {
    let a: &[u8] = b"hello, world\n";
    let b: &[u8] = b"goodbye, world\n";
    let crc_a = crc32(a);
    let crc_b = crc32(b);
    let mut file = vec![0u8; 200];
    file[100..100 + a.len()].copy_from_slice(a);
    file[100 + a.len()..100 + a.len() + b.len()].copy_from_slice(b);
    let solid = SolidBlock {
        n_files: 2,
        compressor: "storing".to_owned(),
        rel_pos: 200 - 100,
        compsize: (a.len() + b.len()) as u64,
    };
    let parsed = DirBlock {
        solid_blocks: vec![solid],
        dirs: vec![String::new()],
        files: vec![
            FileEntry {
                basename: "a.txt".into(),
                dir_index: 0,
                size: a.len() as u64,
                time: 0,
                is_dir: false,
                crc: crc_a,
            },
            FileEntry {
                basename: "b.txt".into(),
                dir_index: 0,
                size: b.len() as u64,
                time: 0,
                is_dir: false,
                crc: crc_b,
            },
        ],
    };
    assert!(is_extractable(&parsed));
    let plan = plan_extraction(&file, 200, &parsed);
    assert!(plan.error.is_none());
    assert_eq!(plan.stats.wrote, 2);
    assert_eq!(plan.stats.skipped_unsupported, 0);
    assert_eq!(plan.stats.crc_mismatch, 0);
    match &plan.entries[0].step {
        Some(ExtractStep::WriteFile(_, bytes)) => assert_eq!(bytes.as_slice(), a),
        _ => panic!("read a"),
    }
    match &plan.entries[1].step {
        Some(ExtractStep::WriteFile(_, bytes)) => assert_eq!(bytes.as_slice(), b),
        _ => panic!("read b"),
    }
    assert!(matches!(plan.entries[0].outcome, FileOutcome::Wrote(_)));
    assert!(matches!(plan.entries[1].outcome, FileOutcome::Wrote(_)));
}

#[test]
fn extract_reports_crc_mismatch() {
    let a: &[u8] = b"payload";
    let mut file = vec![0u8; 50];
    file[10..10 + a.len()].copy_from_slice(a);
    let parsed = DirBlock {
        solid_blocks: vec![SolidBlock {
            n_files: 1,
            compressor: "storing".to_owned(),
            rel_pos: 40,
            compsize: a.len() as u64,
        }],
        dirs: vec![String::new()],
        files: vec![FileEntry {
            basename: "x.bin".into(),
            dir_index: 0,
            size: a.len() as u64,
            time: 0,
            is_dir: false,
            crc: crc32(a) ^ 1,
        }],
    };
    let plan = plan_extraction(&file, 50, &parsed);
    assert_eq!(plan.stats.crc_mismatch, 1);
    assert_eq!(plan.stats.wrote, 0);
    assert!(matches!(plan.entries[0].outcome, FileOutcome::CrcMismatch { .. }));
}

#[test]
fn crc32_check_value() {
    assert_eq!(crc32(b"123456789"), 0xCBF4_3926);
    assert_eq!(crc32(b""), 0);
}

#[test]
fn broken_lzma_stream_reports_the_decoder() {
    let err = decompress("lzma:d1m", b"\x00", 10).err().unwrap();
    match err {
        ArcError::UnsupportedCompressor(msg) => assert!(msg.starts_with("lzma decode failed: "), "{}", msg),
        other => panic!("unexpected {:?}", other),
    }
}

#[test]
fn bare_lzma_decodes_with_default_parameters() {
    let body = b"bare lzma bare lzma bare lzma".repeat(4);
    let mut comp = Vec::new();
    lzma_rs::lzma_compress(&mut std::io::Cursor::new(&body), &mut comp).unwrap();
    assert_eq!(decompress("lzma", &comp[13..], u64::MAX).unwrap(), body);
    match decompress("lzma", b"\x00", 10).err().unwrap() {
        ArcError::UnsupportedCompressor(msg) => assert!(msg.starts_with("lzma decode failed: "), "{}", msg),
        other => panic!("unexpected {:?}", other),
    }
}

#[test]
fn broken_zstd_stream_reports_the_decoder() {
    let err = decompress("zstd", b"not zstd at all", 10).err().unwrap();
    match err {
        ArcError::UnsupportedCompressor(msg) => assert!(msg.starts_with("zstd decode failed: ")),
        other => panic!("unexpected {:?}", other),
    }
}

#[test]
fn lzma_stream_roundtrip() {
    let body = b"lzma lzma lzma payload payload payload".repeat(5);
    let mut comp = Vec::new();
    lzma_rs::lzma_compress(&mut std::io::Cursor::new(&body), &mut comp).unwrap();
    assert_eq!(comp[0], 0x5d);
    let out = decompress("lzma:d1m", &comp[13..], u64::MAX).unwrap();
    assert_eq!(out, body);
}

fn two_block_dir(first_method: &str, second_method: &str, a: &[u8], b: &[u8]) -> (Vec<u8>, DirBlock) {
    // Block 0 holds `a` at offset 10, block 1 holds `b` right after it;
    // the DIR block sits at offset 100.
    let mut file = vec![0u8; 100];
    file[10..10 + a.len()].copy_from_slice(a);
    file[10 + a.len()..10 + a.len() + b.len()].copy_from_slice(b);
    let parsed = DirBlock {
        solid_blocks: vec![
            SolidBlock { n_files: 1, compressor: first_method.to_owned(), rel_pos: 90, compsize: a.len() as u64 },
            SolidBlock {
                n_files: 1,
                compressor: second_method.to_owned(),
                rel_pos: 90 - a.len() as u64,
                compsize: b.len() as u64,
            },
        ],
        dirs: vec![String::new()],
        files: vec![
            FileEntry { basename: "a.bin".into(), dir_index: 0, size: a.len() as u64, time: 0, is_dir: false, crc: crc32(a) },
            FileEntry { basename: "b.bin".into(), dir_index: 0, size: b.len() as u64, time: 0, is_dir: false, crc: crc32(b) },
        ],
    };
    (file, parsed)
}

#[test]
fn extraction_asks_for_each_block_and_uses_the_answer() {
    let a: &[u8] = b"first block";
    let b: &[u8] = b"second";
    let (file, parsed) = two_block_dir("storing", "lolly:d2g", a, b);
    let mut x = Extraction::new(file.clone(), 100, parsed);
    match x.next_task() {
        BlockTask::Decode { method, input, orig_size } => {
            assert_eq!(method, "storing");
            assert_eq!(input, a);
            assert_eq!(orig_size, a.len() as u64);
        }
        BlockTask::Done => panic!("block 0 needs decoding"),
    }
    assert!(x.is_waiting());
    x.supply(Ok(a.to_vec()));
    assert!(!x.is_waiting());
    match x.next_task() {
        BlockTask::Decode { method, input, orig_size } => {
            assert_eq!(method, "lolly:d2g");
            assert_eq!(input, b);
            assert_eq!(orig_size, b.len() as u64);
        }
        BlockTask::Done => panic!("block 1 needs decoding"),
    }
    // What the plugin host would have made of the block.
    x.supply(Ok(b.to_vec()));
    assert!(matches!(x.next_task(), BlockTask::Done));
    let plan = x.finish();
    assert!(plan.error.is_none());
    assert_eq!(plan.stats.wrote, 2);
    match &plan.entries[1].step {
        Some(ExtractStep::WriteFile(p, bytes)) => {
            assert_eq!(p, "b.bin");
            assert_eq!(bytes.as_slice(), b);
        }
        _ => panic!("b.bin is written"),
    }
}

#[test]
fn extraction_skips_a_block_the_decoder_does_not_support() {
    let a: &[u8] = b"first block";
    let b: &[u8] = b"second";
    let (file, parsed) = two_block_dir("storing", "lolly", a, b);
    let mut x = Extraction::new(file, 100, parsed);
    assert!(matches!(x.next_task(), BlockTask::Decode { .. }));
    x.supply(Ok(a.to_vec()));
    assert!(matches!(x.next_task(), BlockTask::Decode { .. }));
    x.supply(Err(ArcError::UnsupportedCompressor("lolly: no plugin".to_owned())));
    assert!(matches!(x.next_task(), BlockTask::Done));
    let plan = x.finish();
    assert_eq!(plan.stats.wrote, 1);
    assert_eq!(plan.stats.skipped_unsupported, 1);
    match &plan.entries[1].outcome {
        FileOutcome::SkippedUnsupported { path, compressor, detail } => {
            assert_eq!(path, "b.bin");
            assert_eq!(compressor, "lolly");
            assert_eq!(detail, "lolly: no plugin");
        }
        other => panic!("unexpected {:?}", other),
    }
    assert!(plan.entries[1].step.is_none());
}

#[test]
fn extraction_stops_at_a_decoding_error() {
    let a: &[u8] = b"first block";
    let b: &[u8] = b"second";
    let (file, parsed) = two_block_dir("zstd", "storing", a, b);
    let mut x = Extraction::new(file, 100, parsed);
    assert!(matches!(x.next_task(), BlockTask::Decode { .. }));
    x.supply(Err(ArcError::Truncated));
    assert!(matches!(x.next_task(), BlockTask::Done));
    let plan = x.finish();
    assert!(matches!(plan.error, Some(ArcError::Truncated)));
    assert!(plan.entries.is_empty());
}

#[test]
fn extraction_with_decompress_answers_matches_plan_extraction() {
    let a: &[u8] = b"first block";
    let b: &[u8] = b"second";
    let (file, parsed) = two_block_dir("storing", "lolly", a, b);
    let expected = plan_extraction(&file, 100, &parsed);
    let mut x = Extraction::new(file, 100, parsed);
    while let BlockTask::Decode { method, input, orig_size } = x.next_task() {
        x.supply(decompress(&method, &input, orig_size));
    }
    let plan = x.finish();
    assert_eq!(plan.entries.len(), expected.entries.len());
    assert_eq!(plan.stats.wrote, expected.stats.wrote);
    assert_eq!(plan.stats.skipped_unsupported, expected.stats.skipped_unsupported);
    for (p, e) in plan.entries.iter().zip(expected.entries.iter()) {
        assert_eq!(format!("{:?}", p.outcome), format!("{:?}", e.outcome));
    }
}

#[test]
fn empty_block_creates_its_files_empty() {
    let parsed = DirBlock {
        solid_blocks: vec![SolidBlock { n_files: 2, compressor: "lzma".to_owned(), rel_pos: 0, compsize: 0 }],
        dirs: vec![String::new()],
        files: vec![
            FileEntry { basename: "sub".into(), dir_index: 0, size: 0, time: 0, is_dir: true, crc: 0 },
            FileEntry { basename: "empty.txt".into(), dir_index: 0, size: 0, time: 0, is_dir: false, crc: 0 },
        ],
    };
    let plan = plan_extraction(&[], 0, &parsed);
    assert!(plan.error.is_none());
    assert_eq!(plan.stats.wrote, 2);
    assert!(matches!(&plan.entries[0].step, Some(ExtractStep::CreateDir(p)) if p == "sub"));
    match &plan.entries[1].step {
        Some(ExtractStep::WriteFile(p, bytes)) => {
            assert_eq!(p, "empty.txt");
            assert!(bytes.is_empty());
        }
        _ => panic!("the empty file is created"),
    }
}

#[test]
fn parse_ignores_trailing_bytes() {
    let raw = synth();
    let mut longer = raw.clone();
    longer.extend_from_slice(b"\xff\x00trailing");
    let a = parse(&raw).expect("parse");
    let b = parse(&longer).expect("parse longer");
    assert_eq!(format!("{:?}", a), format!("{:?}", b));
}

#[test]
fn chain_decodes_each_stage_right_to_left() {
    let body = b"chained payload".to_vec();
    assert_eq!(decompress("storing + storing", &body, body.len() as u64).unwrap(), body);
    assert_eq!(support_level("storing+lolzi"), SupportLevel::Hybrid);
    assert_eq!(support_level("lolzi+nope"), SupportLevel::Unsupported);
    assert_eq!(support_level("lzma:d1m+zstd"), SupportLevel::Native);
}

#[test]
fn control_block_read_in_parts() {
    let files = three_files();
    let mut buf = Vec::new();
    write_archive(&mut buf, &files).expect("write");
    let summary = open(&buf).expect("open");
    let entry = summary.control_blocks.iter().find(|e| e.block_type == block_type::DIR).expect("dir");
    let raw = control_block_bytes(&buf, &summary.footer, entry).expect("bytes");
    let whole = read_control_block(&buf, &summary.footer, entry).expect("read");
    let checked = check_control_block(entry, decompress(&entry.compressor, &raw, entry.origsize)).expect("check");
    assert_eq!(checked, whole);
    let mut bad = whole.clone();
    bad[0] ^= 1;
    assert!(matches!(check_control_block(entry, Ok(bad)), Err(ArcError::CrcMismatch { .. })));
    assert!(matches!(check_control_block(entry, Err(ArcError::Truncated)), Err(ArcError::Truncated)));
}

#[test]
fn write_then_extract_empty_files() {
    let files = vec![
        InputFile { name: "a.txt".into(), bytes: Vec::new() },
        InputFile { name: "b.txt".into(), bytes: Vec::new() },
    ];
    let mut buf = Vec::new();
    write_archive(&mut buf, &files).expect("write");
    let summary = open(&buf).expect("open");
    let entry = summary.control_blocks.iter().find(|e| e.block_type == block_type::DIR).expect("dir");
    let parsed = parse(&read_control_block(&buf, &summary.footer, entry).expect("read")).expect("parse");
    let dir_pos = summary.footer.block_pos - entry.rel_pos;
    let plan = plan_extraction(&buf, dir_pos, &parsed);
    assert!(plan.error.is_none());
    assert_eq!(plan.stats.wrote, 2);
    for (e, f) in plan.entries.iter().zip(files.iter()) {
        match &e.step {
            Some(ExtractStep::WriteFile(p, bytes)) => {
                assert_eq!(p, &f.name);
                assert!(bytes.is_empty());
            }
            _ => panic!("{} is created", f.name),
        }
    }
}

#[test]
fn extract_block_past_the_end_is_an_io_error() {
    let parsed = DirBlock {
        solid_blocks: vec![SolidBlock { n_files: 1, compressor: "storing".to_owned(), rel_pos: 10, compsize: 50 }],
        dirs: vec![String::new()],
        files: vec![FileEntry { basename: "x".into(), dir_index: 0, size: 50, time: 0, is_dir: false, crc: 0 }],
    };
    let file = vec![0u8; 40];
    let plan = plan_extraction(&file, 40, &parsed);
    assert!(matches!(plan.error, Some(ArcError::Io(_))));
    assert_eq!(plan.error.unwrap().message(), "io: failed to fill whole buffer");
    let before = DirBlock {
        solid_blocks: vec![SolidBlock { n_files: 1, compressor: "storing".to_owned(), rel_pos: 41, compsize: 5 }],
        dirs: vec![String::new()],
        files: parsed.files.clone(),
    };
    assert!(matches!(plan_extraction(&file, 40, &before).error, Some(ArcError::Truncated)));
}

#[test]
fn local_descriptor_reads_back_between_other_bytes() {
    let files = three_files();
    let mut buf = Vec::new();
    write_archive(&mut buf, &files).expect("write");
    let pos = freearc_cellar::footer::find_footer_descriptor(&buf).expect("signature");
    let d = freearc_cellar::footer::read_local_descriptor(&buf, pos).expect("descriptor");
    let mut shifted = vec![0xAAu8; 100];
    shifted.extend_from_slice(&buf);
    shifted.extend_from_slice(b"ArC\x01 and more trailing bytes");
    let e = freearc_cellar::footer::read_local_descriptor(&shifted, pos + 100).expect("descriptor");
    assert_eq!(e.descriptor_pos, pos + 100);
    assert_eq!(e.block_type, d.block_type);
    assert_eq!(e.compressor, d.compressor);
    assert_eq!(e.origsize, d.origsize);
    assert_eq!(e.compsize, d.compsize);
    assert_eq!(e.crc, d.crc);
    assert_eq!(e.block_pos, d.block_pos + 100);
}

#[test]
fn open_in_two_parts() {
    let files = three_files();
    let mut buf = Vec::new();
    write_archive(&mut buf, &files).expect("write");
    let (footer, raw) = freearc_cellar::reader::open_footer(&buf).expect("footer");
    let whole = open(&buf).expect("open");
    assert_eq!(footer.compressor, whole.footer.compressor);
    let decoded = decompress(&footer.compressor, &raw, footer.origsize);
    let s = freearc_cellar::reader::open_decoded(footer, decoded).expect("open decoded");
    assert_eq!(s.control_blocks.len(), whole.control_blocks.len());
    assert_eq!(s.trailer, whole.trailer);
    let (footer, _) = freearc_cellar::reader::open_footer(&buf).expect("footer");
    assert!(matches!(
        freearc_cellar::reader::open_decoded(footer, Ok(b"not the footer".to_vec())),
        Err(ArcError::CrcMismatch { what: "footer", .. })
    ));
    assert!(matches!(freearc_cellar::reader::open_footer(b"no archive here"), Err(ArcError::NoFooterSignature)));
}
