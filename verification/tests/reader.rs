use xmltodict_rs::reader::file_like::{FileChunk, FileLikeRead};
use xmltodict_rs::reader::generator::{GeneratorChunk, GeneratorRead};
use xmltodict_rs::reader::pending::PendingBytes;
use xmltodict_rs::reader::{deliver, AdapterError, ReadStep};

#[test]
fn pending_bytes_start_empty() {
    let p = PendingBytes::default();
    assert_eq!(p.remaining(), 0);
    assert!(p.is_empty());
}

#[test]
fn pending_bytes_hand_out_in_order() {
    let mut p = PendingBytes::default();
    p.fill_from_slice(b"hello");
    assert_eq!(p.remaining(), 5);
    assert!(!p.is_empty());
    let mut out = [0u8; 2];
    assert_eq!(p.copy_into(&mut out), 2);
    assert_eq!(&out, b"he");
    assert_eq!(p.remaining(), 3);
    let mut out = [b'.'; 4];
    assert_eq!(p.copy_into(&mut out), 3);
    assert_eq!(&out, b"llo.");
    assert_eq!(p.remaining(), 0);
    assert!(p.is_empty());
    assert_eq!(p.copy_into(&mut out), 0);
    assert_eq!(&out, b"llo.");
}

#[test]
fn pending_bytes_clear_and_refill() {
    let mut p = PendingBytes::default();
    p.fill_from_slice(b"abc");
    p.clear();
    assert!(p.is_empty());
    p.fill_from_slice(b"xy");
    p.fill_from_slice(b"z");
    let mut out = [0u8; 8];
    assert_eq!(p.copy_into(&mut out), 1);
    assert_eq!(out[0], b'z');
    let mut none: [u8; 0] = [];
    p.fill_from_slice(b"q");
    assert_eq!(p.copy_into(&mut none), 0);
    assert_eq!(p.remaining(), 1);
}

#[test]
fn deliver_keeps_what_does_not_fit() {
    let mut p = PendingBytes::default();
    let mut out = [0u8; 3];
    assert_eq!(deliver(&mut p, b"abcdef", &mut out), 3);
    assert_eq!(&out, b"abc");
    assert_eq!(p.remaining(), 3);
    let mut rest = [0u8; 8];
    assert_eq!(p.copy_into(&mut rest), 3);
    assert_eq!(&rest[..3], b"def");
    let mut p = PendingBytes::default();
    let mut out = [b'-'; 4];
    assert_eq!(deliver(&mut p, b"ab", &mut out), 2);
    assert_eq!(&out, b"ab--");
    assert!(p.is_empty());
}

#[test]
fn file_like_read_buffers_surplus_bytes() {
    let mut r = FileLikeRead::new();
    let mut out = [0u8; 4];
    assert_eq!(r.begin(&mut out), ReadStep::Fetch(4));
    let n = r.accept(FileChunk::<String>::Bytes(b"0123456789".to_vec()), &mut out);
    assert_eq!(n, Ok(4));
    assert_eq!(&out, b"0123");
    assert_eq!(r.begin(&mut out), ReadStep::Done(4));
    assert_eq!(&out, b"4567");
    assert_eq!(r.begin(&mut out), ReadStep::Done(2));
    assert_eq!(&out[..2], b"89");
    assert_eq!(r.begin(&mut out), ReadStep::Fetch(4));
    assert_eq!(r.accept(FileChunk::<String>::Bytes(Vec::new()), &mut out), Ok(0));
}

#[test]
fn file_like_read_into_an_empty_buffer_is_over_at_once() {
    let mut r = FileLikeRead::new();
    let mut none: [u8; 0] = [];
    assert_eq!(r.begin(&mut none), ReadStep::Done(0));
}

#[test]
fn file_like_read_reports_what_went_wrong() {
    let mut r = FileLikeRead::new();
    let mut out = [0u8; 4];
    assert_eq!(
        r.accept(FileChunk::<String>::Unsupported("str".to_string()), &mut out),
        Err(AdapterError::UnsupportedChunk("str".to_string()))
    );
    assert_eq!(
        r.accept(FileChunk::Failed("boom".to_string()), &mut out),
        Err(AdapterError::Source("boom".to_string()))
    );
    assert_eq!(&out, &[0u8; 4]);
    assert_eq!(r.begin(&mut out), ReadStep::Fetch(4));
}

#[test]
fn generator_read_passes_over_empty_chunks() {
    let mut r = GeneratorRead::new();
    let mut out = [0u8; 4];
    assert_eq!(r.begin(&mut out), ReadStep::Fetch(4));
    assert_eq!(
        r.accept(GeneratorChunk::<String>::Bytes(Vec::new()), &mut out),
        Ok(ReadStep::Fetch(4))
    );
    assert_eq!(
        r.accept(GeneratorChunk::<String>::Text(String::new()), &mut out),
        Ok(ReadStep::Fetch(4))
    );
    assert_eq!(
        r.accept(GeneratorChunk::<String>::Text("<a>b</a>".to_string()), &mut out),
        Ok(ReadStep::Done(4))
    );
    assert_eq!(&out, b"<a>b");
    assert_eq!(r.begin(&mut out), ReadStep::Done(4));
    assert_eq!(&out, b"</a>");
    assert_eq!(r.begin(&mut out), ReadStep::Fetch(4));
    assert_eq!(
        r.accept(GeneratorChunk::<String>::Bytes(b"xy".to_vec()), &mut out),
        Ok(ReadStep::Done(2))
    );
    assert_eq!(&out, b"xya>");
}

#[test]
fn generator_read_stays_done_once_exhausted() {
    let mut r = GeneratorRead::new();
    let mut out = [0u8; 4];
    assert_eq!(r.accept(GeneratorChunk::<String>::Exhausted, &mut out), Ok(ReadStep::Done(0)));
    assert_eq!(r.begin(&mut out), ReadStep::Done(0));
    assert_eq!(r.begin(&mut out), ReadStep::Done(0));
    let mut none: [u8; 0] = [];
    assert_eq!(r.begin(&mut none), ReadStep::Done(0));
}

#[test]
fn generator_read_reports_what_went_wrong() {
    let mut r = GeneratorRead::new();
    let mut out = [0u8; 4];
    assert_eq!(
        r.accept(GeneratorChunk::<String>::Absent, &mut out),
        Err(AdapterError::AbsentChunk)
    );
    assert_eq!(
        r.accept(GeneratorChunk::<String>::Unsupported("int".to_string()), &mut out),
        Err(AdapterError::UnsupportedChunk("int".to_string()))
    );
    assert_eq!(
        r.accept(GeneratorChunk::Failed(7u32), &mut out),
        Err(AdapterError::Source(7u32))
    );
    assert_eq!(r.begin(&mut out), ReadStep::Fetch(4));
}

#[test]
fn generator_read_text_counts_in_bytes() {
    let mut r = GeneratorRead::new();
    let mut out = [0u8; 3];
    assert_eq!(
        r.accept(GeneratorChunk::<String>::Text("\u{e9}\u{e9}".to_string()), &mut out),
        Ok(ReadStep::Done(3))
    );
    assert_eq!(&out, &[0xc3, 0xa9, 0xc3]);
    assert_eq!(r.begin(&mut out), ReadStep::Done(1));
    assert_eq!(out[0], 0xa9);
}
