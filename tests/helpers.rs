use libmesabox::{actual_path, ReadableVec, UtilReadDyn, UtilWriteDyn};
use std::io::{Read, Write};

#[test]
fn actual_path_without_dir_keeps_path() {
    assert_eq!(actual_path(&None, "a/b"), "a/b");
}

#[test]
fn actual_path_joins_relative() {
    let dir = Some("/tmp/work".to_string());
    assert_eq!(actual_path(&dir, "a/b"), "/tmp/work/a/b");
}

#[test]
fn actual_path_keeps_absolute() {
    let dir = Some("/tmp/work".to_string());
    assert_eq!(actual_path(&dir, "/etc/passwd"), "/etc/passwd");
}

#[test]
fn readable_vec_reads_leading_bytes() {
    let mut v = ReadableVec(vec![1u8, 2, 3]);
    let mut buf = [0u8; 2];
    assert_eq!(v.read(&mut buf).unwrap(), 2);
    assert_eq!(buf, [1, 2]);
}

#[test]
fn read_adapter_forwards() {
    let mut r = UtilReadDyn::new(ReadableVec(vec![7u8, 8]), Some(3));
    assert_eq!(r.fd(), Some(3));
    let mut buf = [0u8; 4];
    assert_eq!(r.read(&mut buf).unwrap(), 2);
    assert_eq!(&buf[..2], &[7, 8]);
}

#[test]
fn write_adapter_forwards() {
    let mut w = UtilWriteDyn::new(Vec::new(), None);
    assert_eq!(w.fd(), None);
    w.write_all(b"hi").unwrap();
    w.flush().unwrap();
    assert_eq!(w.inner, b"hi".to_vec());
}
