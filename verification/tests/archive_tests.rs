use std::io::Write;
use winusb_switcher_lite::archive::{plan_entry, plan_extraction, ExtractStep};
use winusb_switcher_lite::error::AppError;
use winusb_switcher_lite::paths::PathStyle;

fn strings(v: &[&str]) -> Vec<String> {
    v.iter().map(|s| s.to_string()).collect()
}

fn sample_zip() -> Vec<u8> {
    let mut w = zip::ZipWriter::new(std::io::Cursor::new(Vec::new()));
    let opts = zip::write::SimpleFileOptions::default()
        .compression_method(zip::CompressionMethod::Deflated)
        .unix_permissions(0o755);
    w.add_directory("JLink_V930a/", opts).unwrap();
    w.start_file("JLink_V930a/JLinkExe", opts).unwrap();
    w.write_all(b"#!/bin/sh\necho J-Link\n").unwrap();
    w.add_symlink("JLink_V930a/libjlinkarm.so", "libjlinkarm.so.8", opts).unwrap();
    w.finish().unwrap().into_inner()
}

fn unsafe_zip() -> Vec<u8> {
    let mut w = zip::ZipWriter::new(std::io::Cursor::new(Vec::new()));
    let opts = zip::write::SimpleFileOptions::default();
    w.start_file("ok.txt", opts).unwrap();
    w.write_all(b"fine").unwrap();
    w.start_file("../evil.txt", opts).unwrap();
    w.write_all(b"bad").unwrap();
    w.start_file("later.txt", opts).unwrap();
    w.write_all(b"never").unwrap();
    w.finish().unwrap().into_inner()
}

#[test]
fn extraction_plan_of_payload_on_unix() {
    let (steps, err) = plan_extraction(PathStyle::Unix, "/res/JLink_V930a.zip", &sample_zip());
    assert_eq!(err, None);
    assert_eq!(
        steps,
        vec![
            ExtractStep::CreateDir(strings(&["JLink_V930a"])),
            ExtractStep::WriteFile(strings(&["JLink_V930a", "JLinkExe"]), b"#!/bin/sh\necho J-Link\n".to_vec()),
            ExtractStep::Symlink(strings(&["JLink_V930a", "libjlinkarm.so"]), "libjlinkarm.so.8".to_string()),
        ]
    );
}

#[test]
fn extraction_plan_writes_links_as_files_on_windows() {
    let (steps, err) = plan_extraction(PathStyle::Windows, "C:\\res\\JLink_V930a.zip", &sample_zip());
    assert_eq!(err, None);
    assert_eq!(steps.len(), 3);
    assert_eq!(
        steps[2],
        ExtractStep::WriteFile(strings(&["JLink_V930a", "libjlinkarm.so"]), b"libjlinkarm.so.8".to_vec())
    );
}

#[test]
fn extraction_plan_stops_at_unsafe_entry() {
    let (steps, err) = plan_extraction(PathStyle::Unix, "/x.zip", &unsafe_zip());
    assert_eq!(steps, vec![ExtractStep::WriteFile(strings(&["ok.txt"]), b"fine".to_vec())]);
    assert_eq!(err, Some(AppError::Internal("Unsafe zip entry path: ../evil.txt".to_string())));
}

#[test]
fn extraction_plan_refuses_bad_headers() {
    let (steps, err) = plan_extraction(PathStyle::Unix, "/x.zip", b"<html>not a zip</html>");
    assert_eq!(steps, vec![]);
    assert_eq!(err, Some(AppError::Internal("Bundled J-Link zip is invalid or incomplete: /x.zip".to_string())));
    let (steps, err) = plan_extraction(PathStyle::Unix, "/x.zip", b"version https://git-lfs.github.com/spec/v1\n");
    assert_eq!(steps, vec![]);
    assert_eq!(matches!(err, Some(AppError::Platform(_))), true);
}

#[test]
fn extraction_plan_reports_undecodable_archive() {
    let (steps, err) = plan_extraction(PathStyle::Unix, "/x.zip", b"PK\x03\x04truncated");
    assert_eq!(steps, vec![]);
    assert_eq!(matches!(err, Some(AppError::Internal(_))), true);
}

#[test]
fn plan_entry_reads_one_entry() {
    let z = sample_zip();
    assert_eq!(plan_entry(PathStyle::Unix, &z, 0), Ok(ExtractStep::CreateDir(strings(&["JLink_V930a"]))));
    assert_eq!(matches!(plan_entry(PathStyle::Unix, &z, 7), Err((None, AppError::Internal(_)))), true);
}

fn corrupt_content_zip(link: bool) -> Vec<u8> {
    let mut w = zip::ZipWriter::new(std::io::Cursor::new(Vec::new()));
    let opts = zip::write::SimpleFileOptions::default()
        .compression_method(zip::CompressionMethod::Stored)
        .unix_permissions(0o644);
    if link {
        w.add_symlink("lib/libjlinkarm.so", "libjlinkarm.so.8.corrupt-me", opts).unwrap();
    } else {
        w.start_file("JLink/readme.txt", opts).unwrap();
        w.write_all(b"corrupt-me please").unwrap();
    }
    let mut bytes = w.finish().unwrap().into_inner();
    let at = bytes.windows(10).position(|x| x == b"corrupt-me").unwrap();
    bytes[at] = b'C';
    bytes
}

#[test]
fn failed_file_read_leaves_empty_file_step() {
    let (steps, err) = plan_extraction(PathStyle::Unix, "/x.zip", &corrupt_content_zip(false));
    assert_eq!(steps, vec![ExtractStep::WriteFile(strings(&["JLink", "readme.txt"]), Vec::new())]);
    assert_eq!(matches!(err, Some(AppError::Io(_))), true);
}

#[test]
fn failed_link_read_leaves_its_directory_step() {
    let (steps, err) = plan_extraction(PathStyle::Unix, "/x.zip", &corrupt_content_zip(true));
    assert_eq!(steps, vec![ExtractStep::CreateDir(strings(&["lib"]))]);
    assert_eq!(matches!(err, Some(AppError::Io(_))), true);
}
