use neurox::utils::cl_utils::calc_ws;
use neurox::utils::vec_utils::{CursorReader, VecWriter};
use neurox::activation::Activation;

fn bits(x: f32) -> u32 {
    x.to_bits()
}

#[test]
fn writer_lays_out_big_endian() {
    let mut w = VecWriter::new();
    w.usize(1);
    w.i32(-2);
    w.single(bits(1.0));
    let v = w.vec();
    assert_eq!(v.len(), 16);
    assert_eq!(&v[0..8], &[0, 0, 0, 0, 0, 0, 0, 1]);
    assert_eq!(&v[8..12], &[0xFF, 0xFF, 0xFF, 0xFE]);
    assert_eq!(&v[12..16], &[0x3F, 0x80, 0x00, 0x00]);
}

#[test]
fn writer_len_and_reserve() {
    let mut w = VecWriter::new();
    assert_eq!(w.len(), 0);
    w.reserve(64);
    assert_eq!(w.len(), 0);
    w.usize(7);
    assert_eq!(w.len(), 8);
}

#[test]
fn writer_index_stores_activation_id() {
    let mut w = VecWriter::new();
    w.index(Activation::Sigmoid.id());
    let v = w.vec();
    assert_eq!(&v[..], &[0, 0, 0, 0, 0, 0, 0, 3]);
}

#[test]
fn cursor_reads_back_what_was_written() {
    let mut w = VecWriter::new();
    w.usize(513);
    w.single(bits(-2.5));
    w.i32(-77);
    let v = w.vec();
    let mut r = CursorReader::new(v.as_slice());
    assert_eq!(r.usize(), 513);
    assert_eq!(f32::from_bits(r.single()), -2.5);
    assert_eq!(r.i32(), -77);
    assert_eq!(r.pos(), 16);
}

#[test]
fn cursor_indexed_reads_activation() {
    let mut w = VecWriter::new();
    w.usize(2);
    let v = w.vec();
    let mut r = CursorReader::new(v.as_slice());
    let a: Activation = r.indexed();
    assert_eq!(a, Activation::TanH);
}

#[test]
fn cursor_past_end_reads_zero_padded() {
    let data = [0x41u8, 0x20];
    let mut r = CursorReader::new(&data);
    // two real bytes, then zeros: 0x41200000 is 10.0
    assert_eq!(f32::from_bits(r.single()), 10.0);
    assert_eq!(r.pos(), 2);
    assert_eq!(r.usize(), 0);
    assert_eq!(r.pos(), 2);
}

#[test]
fn cursor_hands_back_its_slice() {
    let data = [1u8, 2, 3];
    let r = CursorReader::new(&data);
    assert_eq!(r.cursor(), &data[..]);
}

#[test]
fn calc_ws_picks_largest_even_tile() {
    assert_eq!(calc_ws(256, 1000), 250);
    assert_eq!(calc_ws(8, 7), 7);
    assert_eq!(calc_ws(4, 7), 1);
    assert_eq!(calc_ws(0, 5), 1);
    assert_eq!(calc_ws(16, 64), 16);
}
