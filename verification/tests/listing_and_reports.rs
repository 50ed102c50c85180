use freearc_cellar::cellar::installer::installer_command;
use freearc_cellar::cellar::wine::{wineboot_failed, WineError};
use freearc_cellar::cls_host::no_plugin_error;
use freearc_cellar::dir::{DirBlock, FileEntry, SolidBlock};
use freearc_cellar::error::ArcError;
use freearc_cellar::listing::{dump_line, kind_histogram, kind_label, kind_to_byte, solid_indices, sort_by_name};
use freearc_cellar::scan::BlockHeader;
use freearc_cellar::writer::InputFile;

fn entry(name: &str) -> FileEntry {
    FileEntry { basename: name.to_string(), dir_index: 0, size: 1, time: 0, is_dir: false, crc: 0 }
}

fn solid(n: u64) -> SolidBlock {
    SolidBlock { n_files: n, compressor: "storing".to_string(), rel_pos: 0, compsize: 0 }
}

#[test]
fn files_are_assigned_to_their_solid_block() {
    let d = DirBlock {
        solid_blocks: vec![solid(2), solid(0), solid(1)],
        dirs: vec![String::new()],
        files: vec![entry("a"), entry("b"), entry("c"), entry("d")],
    };
    assert_eq!(solid_indices(&d), vec![0, 0, 2, 3]);
    let empty = DirBlock { solid_blocks: vec![], dirs: vec![], files: vec![entry("x")] };
    assert_eq!(solid_indices(&empty), vec![0]);
}

#[test]
fn dump_kinds_and_labels() {
    assert_eq!(kind_to_byte("DIR"), Some(3));
    assert_eq!(kind_to_byte("Header"), Some(1));
    assert_eq!(kind_to_byte("data"), Some(2));
    assert_eq!(kind_to_byte("footer"), Some(4));
    assert_eq!(kind_to_byte("recovery"), None);
    assert_eq!(kind_label(0x06), "compressed data");
    assert_eq!(kind_label(0x42), "(unknown)");
}

#[test]
fn kind_histogram_counts_in_order() {
    let b = |kind: u8| BlockHeader { offset: 0, kind, method: String::new() };
    let h = kind_histogram(&[b(7), b(2), b(7), b(0)]);
    assert_eq!(h, vec![(0, 1), (2, 1), (7, 2)]);
    assert!(kind_histogram(&[]).is_empty());
}

#[test]
fn hexdump_lines() {
    let line = dump_line(0, b"ArC\x01 hello");
    assert_eq!(line, format!("00000000  {:<48}  ArC. hello", "41 72 43 01 20 68 65 6c 6c 6f"));
    let full: Vec<u8> = (0u8..16).collect();
    assert_eq!(
        dump_line(1, &full),
        "00000010  00 01 02 03 04 05 06 07 08 09 0a 0b 0c 0d 0e 0f   ................"
    );
    assert!(dump_line(0x1000_0000, b"x").starts_with("100000000  78"));
}

#[test]
fn files_are_stored_in_name_order() {
    let f = |n: &str, b: u8| InputFile { name: n.to_string(), bytes: vec![b] };
    let sorted = sort_by_name(vec![f("b.txt", 1), f("a.txt", 2), f("B.txt", 3), f("a.txt", 4)]);
    let names: Vec<(&str, u8)> = sorted.iter().map(|x| (x.name.as_str(), x.bytes[0])).collect();
    assert_eq!(names, vec![("B.txt", 3), ("a.txt", 2), ("a.txt", 4), ("b.txt", 1)]);
}

#[test]
fn wineboot_failure_message() {
    match wineboot_failed(Some(1), b"l1\nl2\n") {
        WineError::SpawnFailed { message } => {
            assert_eq!(message, "wineboot --init exited with Some(1). stderr tail: l1 | l2")
        }
        _ => panic!(),
    }
}

#[test]
fn installer_runs_in_a_virtual_desktop() {
    let c = installer_command("/bin/wine", "/pfx", "C:\\setup.exe");
    assert_eq!(c.program, "/bin/wine");
    assert_eq!(c.args, vec!["explorer", "/desktop=cellar-installer,1280x720", "C:\\setup.exe", "/LOG=C:\\cellar-install.log"]);
    assert_eq!(
        c.env,
        vec![
            ("WINEPREFIX".to_string(), "/pfx".to_string()),
            ("WINEAUDIODRIVER".to_string(), String::new()),
            ("WINEDEBUG".to_string(), "-all,err+seh".to_string()),
        ]
    );
}

#[test]
fn missing_plugin_error_lists_what_was_tried() {
    let tried = vec!["cls-x.dll".to_string(), "CLS-X.dll".to_string()];
    match no_plugin_error("x:1", "x", "/p", &tried) {
        ArcError::UnsupportedCompressor(m) => {
            assert_eq!(m, "x:1: no cls-x.dll in CELLAR_CLS_DIR (/p), tried [\"cls-x.dll\", \"CLS-X.dll\"]")
        }
        other => panic!("unexpected {:?}", other),
    }
}
