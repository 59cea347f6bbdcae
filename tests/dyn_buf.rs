use rad_core::source::dyn_buf::{DataContainer, DynCursor};

fn container(chunks: &[&[u8]]) -> DataContainer {
    let mut c = DataContainer::new();
    for ch in chunks {
        c.add_buf(ch.to_vec());
    }
    c
}

#[test]
fn chunks_accumulate() {
    let mut c = container(&[b"abc", b"", b"de"]);
    assert_eq!(c.size(), 5);
    assert_eq!(c.chunk_count(), 2);
    assert_eq!(c.byte_len(), None);
    c.set_eof();
    assert!(c.eof());
    assert_eq!(c.byte_len(), Some(5));
}

#[test]
fn locate_finds_chunk_and_offset() {
    let c = container(&[b"abc", b"de", b"fghi"]);
    assert_eq!(c.locate(0), Some((0, 0)));
    assert_eq!(c.locate(2), Some((0, 2)));
    assert_eq!(c.locate(3), Some((1, 0)));
    assert_eq!(c.locate(6), Some((2, 1)));
    assert_eq!(c.locate(9), Some((3, 0)));
    assert_eq!(c.locate(10), None);
}

#[test]
fn cursor_reads_across_chunks() {
    let c = container(&[b"abc", b"de", b"fghi"]);
    let mut cur = DynCursor::new();
    assert_eq!(cur.read(&c, 2), Some(b"ab".to_vec()));
    assert_eq!(cur.read(&c, 10), Some(b"c".to_vec()));
    assert_eq!(cur.read(&c, 10), Some(b"de".to_vec()));
    assert_eq!(cur.position(), 5);
    assert_eq!(cur.read(&c, 10), Some(b"fghi".to_vec()));
    assert_eq!(cur.read(&c, 10), None);
}

#[test]
fn cursor_waits_for_more_then_continues() {
    let mut c = container(&[b"ab"]);
    let mut cur = DynCursor::new();
    assert_eq!(cur.read(&c, 8), Some(b"ab".to_vec()));
    assert_eq!(cur.read(&c, 8), None);
    c.add_buf(b"cd".to_vec());
    assert_eq!(cur.read(&c, 8), Some(b"cd".to_vec()));
}

#[test]
fn cursor_seeks() {
    let c = container(&[b"abc", b"de", b"fghi"]);
    let mut cur = DynCursor::new();
    assert_eq!(cur.seek_from_start(&c, 4), Some(4));
    assert_eq!(cur.read(&c, 10), Some(b"e".to_vec()));
    assert_eq!(cur.seek_from_start(&c, 11), None);
    assert_eq!(cur.position(), 5);
    assert_eq!(cur.seek_from_end(&c, 2), Some(7));
    assert_eq!(cur.read(&c, 10), Some(b"hi".to_vec()));
    assert_eq!(cur.seek_from_end(&c, 10), None);
    assert_eq!(cur.seek_from_end(&c, 0), None);
    assert_eq!(cur.seek_from_start(&c, 9), None);
    assert_eq!(cur.seek_from_start(&c, 8), Some(8));
    assert_eq!(cur.read(&c, 10), Some(b"i".to_vec()));
    assert_eq!(cur.read(&c, 10), None);
    let empty = DataContainer::new();
    let mut cur2 = DynCursor::new();
    assert_eq!(cur2.seek_from_end(&empty, 0), None);
}
