use h2wire::bititor::BitItor;
use h2wire::borrow_iter::{BorrowPeekable, BorrowTake};
use h2wire::buf::Buf;
use h2wire::bytes::{Bytes, BytesMut};
use h2wire::frame::GenericFrame;

#[test]
fn test_buf() {
    let mut buf = vec![1, 2, 3, 4];
    let tb = GenericFrame::point_to(&mut buf);

    assert_eq!(&[1, 2, 3, 4], tb.buf());
}

#[test]
fn test_mut_buf() {
    let mut buf = vec![1, 2, 3, 4];
    let mut tmb = GenericFrame::point_to(&mut buf);

    {
        let mr = tmb.mut_buf();

        mr[0] = 0;
        mr[3] = 9;
    }

    assert_eq!(&[0, 2, 3, 9], tmb.buf());
}

#[test]
fn bytes_iterate() {
    let mut buf = [0u8, 1, 2, 3, 4, 5, 6, 7, 8, 9];

    let buf2 = buf.clone();

    let mut bts = Bytes::new(&mut buf);

    let mut i = 0;
    while let Some(b) = bts.next() {
        assert_eq!(b, buf2[i]);
        i += 1;
    }
    assert_eq!(i, 10);
}

#[test]
fn read_test() {
    let mut buf = [34u8, 1, 5, 9, 42, 66, 21, 68, 43, 233];

    let mut t1 = Vec::new();
    let mut t2 = Vec::new();

    t1.extend_from_slice(&buf[..5]);
    t2.extend_from_slice(&buf[5..]);

    let mut b1 = Bytes::new(&mut buf);

    let mut read_to1 = [0; 5];
    let mut read_to2 = [0; 5];

    assert_eq!(b1.read(&mut read_to1), 5);
    assert_eq!(b1.read(&mut read_to2), 5);

    assert_eq!(&t1, &read_to1);
    assert_eq!(&t2, &read_to2);
}

#[test]
fn write_test() {
    let buf = [123u8, 15, 51, 75, 93, 20, 13, 13, 45, 12];

    let mut t1 = Vec::new();
    let mut t2 = Vec::new();
    let mut t3 = Vec::new();

    t1.extend_from_slice(&buf[..5]);
    t2.extend_from_slice(&buf[5..7]);
    t3.extend_from_slice(&buf[7..]);

    let mut write_to = [0; 10];

    {
        let mut w1 = BytesMut::new(&mut write_to);

        assert_eq!(w1.write(&t1), 5);
        assert_eq!(w1.write(&t2), 2);
        assert_eq!(w1.write(&t3), 3);
        w1.flush();
    }

    assert_eq!(&buf, &write_to);
}

#[test]
fn bit_iterator() {
    // iterate through a buffer and rebuild it from the bits
    let buf = [0xf3, 0x21, 0x75, 0x21];

    let mut biter = Bytes::new(&buf);

    let mut bi = BitItor::new(&mut biter);

    let mut tbuf = [0u8; 4];
    let mut index = 0;
    let mut bit = 0;

    while let Some(b) = bi.next() {
        tbuf[index] <<= 1;
        if b {
            tbuf[index] |= 0x1;
        }

        bit += 1;
        if bit > 7 {
            bit = 0;
            index += 1;
        }
    }

    assert_eq!(buf, tbuf);
}

#[test]
fn read_stops_at_the_end_of_the_cursor() {
    let buf = [1u8, 2, 3];
    let mut bts = Bytes::new(&buf);
    let mut dst = [9u8; 5];
    assert_eq!(bts.read(&mut dst), 3);
    assert_eq!(dst, [1, 2, 3, 9, 9]);
    assert_eq!(bts.read(&mut dst), 0);
    assert_eq!(bts.len(), 0);
    assert_eq!(bts.next(), None);
}

#[test]
fn write_stops_at_the_end_of_the_buffer() {
    let mut out = [0u8; 3];
    let mut w = BytesMut::new(&mut out);
    assert_eq!(w.room(), 3);
    assert_eq!(w.write(&[7, 8]), 2);
    assert_eq!(w.write(&[9, 10]), 1);
    assert_eq!(w.room(), 0);
    assert_eq!(out, [7, 8, 9]);
}

#[test]
fn take_gives_a_window_or_nothing() {
    let buf = [1u8, 2, 3, 4];
    let mut bts = Bytes::new(&buf);
    assert_eq!(bts.peek(), Some(1));
    assert_eq!(bts.take(3), Some(&buf[..3]));
    assert_eq!(bts.take(2), None);
    assert_eq!(bts.take(1), Some(&buf[3..]));
    assert_eq!(bts.take(0), Some(&buf[4..]));
    assert_eq!(bts.peek(), None);
}

#[test]
fn peeking_does_not_read() {
    let buf = [5u8, 6];
    let mut bts = Bytes::new(&buf);
    {
        let mut p = bts.borrow_peekable();
        assert_eq!(p.bpeek(), Some(5));
        assert_eq!(p.bpeek(), Some(5));
        assert_eq!(p.next(), Some(5));
        assert_eq!(p.next(), Some(6));
        assert_eq!(p.bpeek(), None);
        assert_eq!(p.next(), None);
    }
    assert_eq!(bts.next(), None);
}

#[test]
fn borrowed_take_leaves_the_rest_to_the_parent() {
    let buf = [1u8, 2, 3, 4, 5];
    let mut bts = Bytes::new(&buf);
    {
        let mut t = bts.borrow_take(2);
        assert_eq!(t.size_hint(), (2, None));
        assert_eq!(t.next(), Some(1));
        assert_eq!(t.next(), Some(2));
        assert_eq!(t.next(), None);
    }
    assert_eq!(bts.next(), Some(3));
    {
        let mut t = bts.borrow_take(10);
        assert_eq!(t.next(), Some(4));
        assert_eq!(t.next(), Some(5));
        assert_eq!(t.next(), None);
    }
}

#[test]
fn put_writes_one_octet_at_a_time() {
    let mut out = [0u8; 2];
    let mut w = BytesMut::from(&mut out[..]);
    assert_eq!(w.put(7), true);
    assert_eq!(w.put(8), true);
    assert_eq!(w.put(9), false);
    assert_eq!(out, [7, 8]);
}

#[test]
fn cursor_from_a_slice() {
    let buf = [4u8, 5];
    let mut bts = Bytes::from(&buf[..]);
    assert_eq!(bts.next(), Some(4));
    assert_eq!(bts.len(), 1);
}
