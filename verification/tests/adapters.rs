//! Windows of a source, cursors over one, and pools of seeking readers.

use std::io::{Read, Seek};

use forensic_vfs::adapters::{
    read_pooled, SeekBeforeStart, SeekFrom, SeekPoolSource, SeekRead, SourceCursor, SubRange,
};
use forensic_vfs::error::{io_err, VfsError, VfsResult};
use forensic_vfs::{DynSource, ImageSource, SourceId};

struct MemSource(Vec<u8>);

impl ImageSource for MemSource {
    fn len(&self) -> u64 {
        self.0.len() as u64
    }
    fn read_at(&self, offset: u64, buf: &mut [u8]) -> VfsResult<usize> {
        let off = usize::try_from(offset).unwrap_or(usize::MAX);
        let Some(src) = self.0.get(off..) else {
            return Ok(0);
        };
        let n = src.len().min(buf.len());
        buf[..n].copy_from_slice(&src[..n]);
        Ok(n)
    }
    fn source_id(&self) -> SourceId {
        SourceId::new(42)
    }
}

fn mem(bytes: &[u8]) -> DynSource {
    DynSource::new(Box::new(MemSource(bytes.to_vec())))
}

/// A standard cursor as a seeking reader.
struct Seekable(std::io::Cursor<Vec<u8>>);

impl SeekRead for Seekable {
    fn seek_to(&mut self, offset: u64) -> Result<u64, std::io::Error> {
        self.0.seek(std::io::SeekFrom::Start(offset))
    }
    fn read_some(&mut self, buf: &mut [u8]) -> Result<usize, std::io::Error> {
        self.0.read(buf)
    }
}

fn seekable(data: &[u8]) -> Seekable {
    Seekable(std::io::Cursor::new(data.to_vec()))
}

/// Fill the buffer, as `read_exact` does.
fn read_exact(cur: &mut SourceCursor, buf: &mut [u8]) {
    let mut done = 0;
    while done < buf.len() {
        let n = cur.read(&mut buf[done..]).unwrap();
        assert!(n > 0, "the cursor ended early");
        done += n;
    }
}

/// Read to the end of the window, as `read_to_end` does.
fn read_to_end(cur: &mut SourceCursor) -> Vec<u8> {
    let mut out = Vec::new();
    let mut buf = [0u8; 4];
    loop {
        let n = cur.read(&mut buf).unwrap();
        if n == 0 {
            return out;
        }
        out.extend_from_slice(&buf[..n]);
    }
}

#[test]
fn adapters_subrange_windows_the_parent() {
    let base = mem(&[0, 1, 2, 3, 4, 5, 6, 7, 8, 9]);
    let sr = SubRange::new(base, 2, 5);
    assert_eq!(sr.len(), 5);
    let mut buf = [0u8; 5];
    assert_eq!(sr.read_at(0, &mut buf).unwrap(), 5);
    assert_eq!(buf, [2, 3, 4, 5, 6]);
    // Offset within the window.
    let mut two = [0u8; 2];
    assert_eq!(sr.read_at(3, &mut two).unwrap(), 2);
    assert_eq!(two, [5, 6]);
}

#[test]
fn adapters_subrange_clamps_reads_to_the_window() {
    let base = mem(&[0, 1, 2, 3, 4, 5, 6, 7, 8, 9]);
    let sr = SubRange::new(base, 2, 5); // covers parent bytes [2,7)
    let mut buf = [0xffu8; 8];
    // Ask for 8 bytes from offset 3: only 2 remain in the window.
    assert_eq!(sr.read_at(3, &mut buf).unwrap(), 2);
    assert_eq!(&buf[..2], &[5, 6]);
    // What lies past the window is left alone.
    assert_eq!(&buf[2..], &[0xff; 6]);
    // Read at/after the window end yields 0.
    assert_eq!(sr.read_at(5, &mut buf).unwrap(), 0);
    assert_eq!(sr.read_at(99, &mut buf).unwrap(), 0);
}

#[test]
fn adapters_subrange_len_is_clamped_to_parent_bounds() {
    let base = mem(&[0, 1, 2, 3]);
    // Ask for a window longer than the parent has from base=2.
    let sr = SubRange::new(base, 2, 100);
    assert_eq!(sr.len(), 2); // clamped to parent.len()-base
}

#[test]
fn adapters_subrange_nests() {
    let base = mem(&[0, 1, 2, 3, 4, 5, 6, 7, 8, 9]);
    let outer = SubRange::new(base, 2, 6).into_source(); // parent bytes [2,8)
    let inner = SubRange::new(outer, 1, 3); // outer bytes [1,4) = parent [3,6)
    let mut buf = [0u8; 3];
    assert_eq!(inner.read_at(0, &mut buf).unwrap(), 3);
    assert_eq!(buf, [3, 4, 5]);
}

#[test]
fn adapters_sourcecursor_bridges_read_and_seek() {
    let base = mem(&[0, 1, 2, 3, 4, 5, 6, 7, 8, 9]);
    let mut cur = SourceCursor::new(base, 2, 6); // window over parent [2,8)
    let mut first = [0u8; 3];
    read_exact(&mut cur, &mut first);
    assert_eq!(first, [2, 3, 4]);
    // Seek within the window and read the rest.
    assert_eq!(cur.seek(SeekFrom::Start(4)).unwrap(), 4);
    let rest = read_to_end(&mut cur);
    assert_eq!(rest, vec![6, 7]);
    // SeekFrom::End clamps to the window length.
    assert_eq!(cur.seek(SeekFrom::End(0)).unwrap(), 6);
}

#[test]
fn coverage_sourcecursor_current_and_negative_seek() {
    let base = mem(&[0, 1, 2, 3, 4, 5]);
    let mut cur = SourceCursor::new(base, 0, 6);
    let mut one = [0u8; 2];
    read_exact(&mut cur, &mut one);
    // Current-relative seek.
    assert_eq!(cur.seek(SeekFrom::Current(1)).unwrap(), 3);
    // Negative seek before the window start is a loud error, not a wrap.
    assert!(cur.seek(SeekFrom::Current(-100)).is_err());
    assert!(cur.seek(SeekFrom::Start(2)).is_ok());
}

#[test]
fn a_seek_before_the_start_leaves_the_cursor() {
    let mut cur = SourceCursor::new(mem(&[0, 1, 2, 3]), 0, 4);
    assert_eq!(cur.seek(SeekFrom::Start(1)), Ok(1));
    assert_eq!(cur.seek(SeekFrom::End(-5)), Err(SeekBeforeStart));
    assert_eq!(read_to_end(&mut cur), vec![1, 2, 3]);
    // A seek past the end is allowed and reads nothing.
    assert_eq!(cur.seek(SeekFrom::Start(100)), Ok(100));
    assert_eq!(read_to_end(&mut cur), Vec::<u8>::new());
}

#[test]
fn seek_pool_source_bridges_read_seek_to_image_source() {
    let data: Vec<u8> = (0..=255).collect();
    let len = data.len() as u64;
    // Two independent cursors over the same bytes = a 2-reader pool.
    let pool = SeekPoolSource::new(vec![seekable(&data), seekable(&data)], len);
    assert_eq!(pool.len(), 256);
    let mut buf = [0u8; 4];
    assert_eq!(pool.read_at(10, &mut buf).unwrap(), 4);
    assert_eq!(buf, [10, 11, 12, 13]);
    // read past EOF -> 0
    assert_eq!(pool.read_at(256, &mut buf).unwrap(), 0);
    // usable as a DynSource (single-reader pool)
    let src = DynSource::new(Box::new(SeekPoolSource::single(seekable(&data), len)));
    let mut b2 = [0u8; 2];
    assert_eq!(src.read_at(254, &mut b2).unwrap(), 2);
    assert_eq!(b2, [254, 255]);
}

/// A reader that gives one byte at a time.
struct Trickle(std::io::Cursor<Vec<u8>>);

impl SeekRead for Trickle {
    fn seek_to(&mut self, offset: u64) -> Result<u64, std::io::Error> {
        self.0.seek(std::io::SeekFrom::Start(offset))
    }
    fn read_some(&mut self, buf: &mut [u8]) -> Result<usize, std::io::Error> {
        let n = buf.len().min(1);
        self.0.read(&mut buf[..n])
    }
}

#[test]
fn a_pool_reads_on_until_the_request_is_filled() {
    let data: Vec<u8> = (0..32).collect();
    let pool = SeekPoolSource::single(Trickle(std::io::Cursor::new(data)), 32);
    let mut buf = [0u8; 8];
    assert_eq!(pool.read_at(20, &mut buf).unwrap(), 8);
    assert_eq!(buf, [20, 21, 22, 23, 24, 25, 26, 27]);
    // Only what the stream has left is asked for.
    let mut tail = [0xffu8; 8];
    assert_eq!(pool.read_at(30, &mut tail).unwrap(), 2);
    assert_eq!(tail, [30, 31, 0xff, 0xff, 0xff, 0xff, 0xff, 0xff]);
}

/// A reader that fails.
struct Broken {
    on_seek: bool,
}

impl SeekRead for Broken {
    fn seek_to(&mut self, offset: u64) -> Result<u64, std::io::Error> {
        if self.on_seek {
            Err(std::io::Error::other("no seek"))
        } else {
            Ok(offset)
        }
    }
    fn read_some(&mut self, _buf: &mut [u8]) -> Result<usize, std::io::Error> {
        Err(std::io::Error::other("no read"))
    }
}

#[test]
fn a_pool_names_the_operation_that_failed() {
    let mut buf = [0u8; 4];
    let seek = SeekPoolSource::single(Broken { on_seek: true }, 8);
    match seek.read_at(0, &mut buf) {
        Err(VfsError::Io { op, source }) => {
            assert_eq!(op, "seek");
            assert_eq!(source.to_string(), "no seek");
        }
        _ => panic!("the seek failed"),
    }
    let read = SeekPoolSource::single(Broken { on_seek: false }, 8);
    match read.read_at(0, &mut buf) {
        Err(VfsError::Io { op, source }) => {
            assert_eq!(op, "read");
            assert_eq!(source.to_string(), "no read");
        }
        _ => panic!("the read failed"),
    }
}

#[test]
fn coverage_source_id_accessors() {
    assert_eq!(SourceId::root().get(), 0);
    assert_eq!(SourceId::new(7).get(), 7);
    assert_eq!(SourceId::default(), SourceId::root());
    // SubRange inherits the parent's lineage.
    let parent = mem(&[0; 8]);
    let sr = SubRange::new(parent, 0, 8);
    assert_eq!(sr.source_id(), SourceId::new(42));
}

#[test]
fn io_err_wraps_with_the_op_label() {
    let e = io_err("read")(std::io::Error::other("boom"));
    assert!(e.to_string().contains("read"));
}

#[test]
fn a_pooled_read_works_on_the_reader_at_hand() {
    let mut reader = seekable(&[0, 1, 2, 3, 4, 5, 6, 7]);
    let mut buf = [0xffu8; 6];
    assert_eq!(read_pooled(&mut reader, 8, 5, &mut buf).unwrap(), 3);
    assert_eq!(buf, [5, 6, 7, 0xff, 0xff, 0xff]);
}
