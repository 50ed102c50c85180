use freearc_cellar::cellar::archive::{archive_peek, archive_peek_reads, open_failure, ArchiveError};
use freearc_cellar::cls_callback::{classify_op, failure_exit_code, ClsContext, ClsOp};
use freearc_cellar::cls_host::{dll_candidates, host_exited, host_not_configured};
use freearc_cellar::decompress::{ChainDecoder, DecodeStep};
use freearc_cellar::error::{dec_text, hex_text, ArcError};
use freearc_cellar::survey::{classify_archive, classify_summary, looks_like_freearc, signature_window, Status};
use freearc_cellar::writer::{write_archive, InputFile};
use freearc_cellar::footer::block_type;
use freearc_cellar::{method_histogram, open, read_control_block, scan_blocks, type_label, BlockHeader, MAGIC};

fn sample_archive() -> Vec<u8> {
    let files = vec![
        InputFile { name: "readme.txt".into(), bytes: b"read me\n".to_vec() },
        InputFile { name: "data.bin".into(), bytes: vec![7u8; 300] },
    ];
    let mut buf = Vec::new();
    write_archive(&mut buf, &files).expect("write");
    buf
}

#[test]
fn survey_of_written_archive_is_native() {
    let buf = sample_archive();
    let (status, files, codecs) = classify_archive(&buf).expect("classify");
    assert_eq!(status, Status::Native);
    assert_eq!(files, 2);
    assert_eq!(codecs, vec!["storing".to_string()]);
    assert_eq!(status.tag(), "NATIVE ");
}

#[test]
fn survey_of_garbage_is_an_error() {
    let err = classify_archive(b"this is not an archive at all").err().unwrap();
    assert!(matches!(err, ArcError::NoFooterSignature));
}

#[test]
fn status_tags_are_padded() {
    assert_eq!(Status::Hybrid.tag(), "HYBRID ");
    assert_eq!(Status::Blocked.tag(), "BLOCKED");
    assert_eq!(Status::Broken.tag(), "BROKEN ");
}

#[test]
fn quick_signature_check() {
    let buf = sample_archive();
    let (skip, len) = signature_window(buf.len() as u64).unwrap();
    let window = &buf[skip as usize..(skip + len) as usize];
    assert!(looks_like_freearc(window));
    assert!(!looks_like_freearc(b"ArC"));
    assert!(!looks_like_freearc(b"no signature here"));
    assert!(looks_like_freearc(b"..ArC\x01.."));
    assert_eq!(signature_window(3), None);
    assert_eq!(signature_window(10), Some((0, 10)));
    assert_eq!(signature_window(10_000), Some((10_000 - 4096, 4096)));
}

#[test]
fn scan_finds_written_blocks() {
    let buf = sample_archive();
    let blocks = scan_blocks(&buf);
    assert!(!blocks.is_empty());
    for b in &blocks {
        assert_eq!(&buf[b.offset as usize..b.offset as usize + 4], &MAGIC);
    }
    let hist = method_histogram(&blocks);
    let total: usize = hist.iter().map(|(_, n)| *n).sum();
    let named = blocks.iter().filter(|b| !b.method.is_empty()).count();
    assert_eq!(total, named);
    for w in hist.windows(2) {
        assert!(w[0].0 < w[1].0);
    }
}

#[test]
fn block_type_labels() {
    assert_eq!(type_label(3), "DIR");
    assert_eq!(type_label(4), "FOOTER");
    assert_eq!(type_label(99), "?");
}

#[test]
fn peek_lists_files_and_codecs() {
    let buf = sample_archive();
    let peek = archive_peek("x.arc".to_string(), &buf).ok().expect("peek");
    assert_eq!(peek.archive_path, "x.arc");
    assert_eq!(peek.archive_bytes, buf.len() as u64);
    assert_eq!(peek.file_count, 2);
    assert_eq!(peek.total_uncompressed_bytes, 308);
    assert_eq!(peek.files[0].path, "readme.txt");
    assert_eq!(peek.files[1].size, 300);
    assert!(peek.partial_reason.is_none());
    assert!(peek.codecs.iter().all(|c| c.method == "storing" && c.supported_natively));
}

#[test]
fn peek_of_garbage_is_not_freearc() {
    let err = archive_peek("junk".to_string(), b"junk bytes").err().unwrap();
    assert!(matches!(err, ArchiveError::NotFreeArc { .. }));
}

#[test]
fn decimal_and_hex_text() {
    assert_eq!(dec_text(0), "0");
    assert_eq!(dec_text(-17), "-17");
    assert_eq!(dec_text(i64::MIN), "-9223372036854775808");
    assert_eq!(dec_text(1234567), "1234567");
    assert_eq!(hex_text(0xbeef, 8), "0x0000beef");
}

#[test]
fn plugin_names_cover_both_casings() {
    let c = dll_candidates("lolly");
    assert_eq!(c, vec!["cls-lolly.dll", "CLS-lolly.dll", "cls-LOLLY.dll", "CLS-LOLLY.dll"]);
}

#[test]
fn plugin_host_errors() {
    match host_exited("lolly:d2g", 3, b"  boom \n") {
        ArcError::UnsupportedCompressor(m) => assert_eq!(m, "lolly:d2g: cls host exited 3 (boom)"),
        other => panic!("unexpected {:?}", other),
    }
    match host_exited("srep", -1, b"") {
        ArcError::UnsupportedCompressor(m) => assert_eq!(m, "srep: cls host exited -1 (no stderr)"),
        other => panic!("unexpected {:?}", other),
    }
    match host_not_configured("lolzi", "CELLAR_CLS_DIR", "point at the directory containing cls-*.dll") {
        ArcError::UnsupportedCompressor(m) => assert_eq!(
            m,
            "lolzi: CELLAR_CLS_DIR not set (point at the directory containing cls-*.dll)"
        ),
        other => panic!("unexpected {:?}", other),
    }
}

#[test]
fn chain_decoder_asks_host_for_cls_stage() {
    let (mut dec, step) = ChainDecoder::start("storing+lolly:d2g", b"abc", 3);
    match step {
        DecodeStep::NeedHost { method, input, .. } => {
            assert_eq!(method, "lolly:d2g");
            assert_eq!(input, b"abc".to_vec());
        }
        _ => panic!("expected a host request"),
    }
    assert!(dec.is_waiting());
    let step = dec.resume(Ok(b"xyz".to_vec()));
    match step {
        DecodeStep::Finished(r) => assert_eq!(r.unwrap(), b"xyz".to_vec()),
        _ => panic!("expected the end of the chain"),
    }
}

#[test]
fn cls_callback_state() {
    let mut ctx = ClsContext::new(b"abcdef".to_vec(), b"d2g").unwrap();
    assert_eq!(ctx.read(4), b"abcd".to_vec());
    assert_eq!(ctx.read(-5), Vec::<u8>::new());
    assert_eq!(ctx.read(10), b"ef".to_vec());
    assert_eq!(ctx.read(10), Vec::<u8>::new());
    ctx.write(b"out");
    ctx.write(b"put");
    assert_eq!(ctx.param_string(0), Vec::<u8>::new());
    assert_eq!(ctx.param_string(10), b"d2g\0".to_vec());
    assert_eq!(ctx.param_string(3), b"d2\0".to_vec());
    assert_eq!(ctx.into_output(), b"output".to_vec());
    assert!(ClsContext::new(Vec::new(), b"a\0b").is_none());
}

#[test]
fn cls_ops_and_exit_codes() {
    assert_eq!(classify_op(4096), ClsOp::Read);
    assert_eq!(classify_op(5120), ClsOp::Read);
    assert_eq!(classify_op(6144), ClsOp::Write);
    assert_eq!(classify_op(3), ClsOp::GetParams);
    assert_eq!(classify_op(1), ClsOp::Malloc);
    assert_eq!(classify_op(2), ClsOp::Free);
    assert_eq!(classify_op(77), ClsOp::Unknown);
    assert_eq!(failure_exit_code(-2), 2);
    assert_eq!(failure_exit_code(500), 127);
}

#[test]
fn scan_decodes_utf8_method_names() {
    let mut buf = b"..ArC\x01\x07".to_vec();
    buf.extend_from_slice(&[0xC3, 0xA9, 0x00]);
    buf.extend_from_slice(b"ArC\x01\x02lz\xFFma\x00");
    let blocks = scan_blocks(&buf);
    assert_eq!(blocks.len(), 2);
    assert_eq!(blocks[0].offset, 2);
    assert_eq!(blocks[0].kind, 7);
    assert_eq!(blocks[0].method, "é");
    assert_eq!(blocks[1].method, "lz\u{FFFD}ma");
}

fn library_reads(buf: &[u8], summary: &freearc_cellar::ArchiveSummary) -> Vec<Result<Vec<u8>, ArcError>> {
    summary
        .control_blocks
        .iter()
        .map(|e| {
            if e.block_type == block_type::DIR {
                read_control_block(buf, &summary.footer, e)
            } else {
                Ok(Vec::new())
            }
        })
        .collect()
}

#[test]
fn survey_with_given_reads() {
    let buf = sample_archive();
    let summary = open(&buf).expect("open");
    let reads = library_reads(&buf, &summary);
    let (st, n, cs) = classify_summary(&summary, &reads);
    let whole = classify_archive(&buf).ok().unwrap();
    assert_eq!((st, n, cs.clone()), (whole.0, whole.1, whole.2));
    assert_eq!(st, Status::Native);
    assert_eq!(n, 2);
    // A DIR block that could not be read leaves the archive broken.
    let failed: Vec<Result<Vec<u8>, ArcError>> = summary
        .control_blocks
        .iter()
        .map(|_| Err(ArcError::UnsupportedCompressor("lolzi: no plugin".to_owned())))
        .collect();
    let (st, n, _) = classify_summary(&summary, &failed);
    assert_eq!(st, Status::Broken);
    assert_eq!(n, 0);
}

#[test]
fn peek_with_given_reads() {
    let buf = sample_archive();
    let summary = open(&buf).expect("open");
    let reads = library_reads(&buf, &summary);
    let p = archive_peek_reads("a.arc".to_string(), buf.len() as u64, &summary, &reads).ok().unwrap();
    let q = archive_peek("a.arc".to_string(), &buf).ok().unwrap();
    assert_eq!(p.file_count, q.file_count);
    assert_eq!(p.file_count, 2);
    assert_eq!(p.total_uncompressed_bytes, q.total_uncompressed_bytes);
    assert_eq!(p.archive_bytes, buf.len() as u64);
    let unsupported: Vec<Result<Vec<u8>, ArcError>> = summary
        .control_blocks
        .iter()
        .map(|_| Err(ArcError::UnsupportedCompressor("lolzi".to_owned())))
        .collect();
    let p = archive_peek_reads("a.arc".to_string(), 1, &summary, &unsupported).ok().unwrap();
    assert_eq!(p.file_count, 0);
    assert_eq!(
        p.partial_reason.as_deref(),
        Some("DIR block uses unsupported codec lolzi; file list may be incomplete")
    );
    match open_failure(ArcError::NoFooterSignature) {
        ArchiveError::NotFreeArc { detail } => assert_eq!(detail, "missing ArC\\x01 signature in last 4 KiB"),
        _ => panic!(),
    }
    assert!(matches!(open_failure(ArcError::Truncated), ArchiveError::ReadFailed { .. }));
}

#[test]
fn histogram_lists_only_methods_that_occur() {
    assert!(method_histogram(&[]).is_empty());
    let blocks: Vec<BlockHeader> = ["lzma", "", "storing", "lzma"]
        .iter()
        .enumerate()
        .map(|(i, m)| BlockHeader { offset: i as u64, kind: 0, method: m.to_string() })
        .collect();
    assert_eq!(method_histogram(&blocks), vec![("lzma".to_string(), 2), ("storing".to_string(), 1)]);
    let only_empty = vec![BlockHeader { offset: 0, kind: 0, method: String::new() }];
    assert!(method_histogram(&only_empty).is_empty());
}
