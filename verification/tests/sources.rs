use i2c_iter::source::{ByteSource, VecSource};

#[test]
fn vec_source_produces_bytes_in_order() {
    let mut s = VecSource::new(vec![0x01, 0x02, 0x03]);
    assert_eq!(s.next(), Some(0x01));
    assert_eq!(s.next(), Some(0x02));
    assert_eq!(s.next(), Some(0x03));
    assert_eq!(s.next(), None);
    assert_eq!(s.next(), None);
}

#[test]
fn empty_vec_source_is_exhausted_at_once() {
    let mut s = VecSource::new(Vec::new());
    assert_eq!(s.next(), None);
}
