use neurox::dual_vec::DualVec;
use neurox::Executor;

fn bits(x: f32) -> u32 {
    x.to_bits()
}

fn host_values(b: &mut DualVec) -> Vec<u32> {
    b.cpu();
    let mut out = Vec::new();
    for i in 0..b.len() {
        out.push(b.get(i));
    }
    out
}

#[test]
fn write_host_read_through_device_side() {
    let cpu = Executor::CPU;
    let gpu = Executor::GPU;
    let mut b = DualVec::from_vec((&cpu, &gpu), vec![0, 0, 0]);
    b.cpu();
    b.set(1, bits(7.5));
    // push the value to the device side, make that side authoritative, then
    // read it back through the host side again
    b.gpu().unwrap();
    b.updated_gpu();
    b.cpu();
    assert_eq!(f32::from_bits(b.get(1)), 7.5);
    assert_eq!(b.get(0), 0);
}

#[test]
fn host_only_buffer_has_no_device_side() {
    let cpu = Executor::CPU;
    let mut b = DualVec::from_exec(&cpu, 2);
    assert!(b.gpu().is_err());
}

#[test]
fn shuffle_keeps_values_and_pairing() {
    let cpu = Executor::CPU;
    let a_vals: Vec<u32> = (1..=8).map(|k| bits(k as f32)).collect();
    let b_vals: Vec<u32> = (1..=8).map(|k| bits(10.0 * k as f32)).collect();
    let mut a = DualVec::from_vec((&cpu, &cpu), a_vals.clone());
    let mut b = DualVec::from_vec((&cpu, &cpu), b_vals.clone());
    a.shuffle_with(&mut b);
    let mut got_a = host_values(&mut a);
    let got_b = host_values(&mut b);
    // matching positions stay paired
    for i in 0..8 {
        let x = f32::from_bits(got_a[i]);
        let y = f32::from_bits(got_b[i]);
        assert_eq!(y, 10.0 * x);
    }
    // and each buffer keeps its multiset of values
    let mut expected = a_vals.clone();
    got_a.sort();
    expected.sort();
    assert_eq!(got_a, expected);
}

#[test]
fn shuffle_with_unequal_lengths_changes_nothing() {
    let cpu = Executor::CPU;
    let mut a = DualVec::from_vec((&cpu, &cpu), vec![1, 2, 3]);
    let mut b = DualVec::from_vec((&cpu, &cpu), vec![4, 5]);
    a.shuffle_with(&mut b);
    assert_eq!(host_values(&mut a), vec![1, 2, 3]);
    assert_eq!(host_values(&mut b), vec![4, 5]);
}

#[test]
fn expand_preserves_and_zero_pads() {
    let cpu = Executor::CPU;
    let mut b = DualVec::from_vec((&cpu, &cpu), vec![9, 8]);
    b.expand_to(5);
    assert_eq!(b.len(), 5);
    assert_eq!(b.capacity(), 5);
    assert_eq!(host_values(&mut b), vec![9, 8, 0, 0, 0]);
}

#[test]
fn truncate_shrinks_but_keeps_capacity() {
    let cpu = Executor::CPU;
    let mut b = DualVec::from_vec((&cpu, &cpu), vec![1, 2, 3, 4]);
    b.truncate_to(2);
    assert_eq!(b.len(), 2);
    assert_eq!(b.capacity(), 4);
    assert_eq!(host_values(&mut b), vec![1, 2]);
    b.expand_to(3);
    assert_eq!(b.capacity(), 4);
    assert_eq!(b.len(), 4);
}

#[test]
fn clear_zeroes_everything() {
    let cpu = Executor::CPU;
    let mut b = DualVec::from_vec((&cpu, &cpu), vec![5, 6, 7]);
    b.clear();
    assert_eq!(host_values(&mut b), vec![0, 0, 0]);
}

#[test]
fn randomize_scales_into_a_small_range() {
    let cpu = Executor::CPU;
    let mut b = DualVec::from_exec(&cpu, 16);
    b.randomize(&cpu);
    for v in host_values(&mut b) {
        let x = f32::from_bits(v);
        // values in [-1, 1] scaled by 4 / 16
        assert!(x.abs() <= 0.25 + 1e-6, "out of range: {}", x);
    }
}

#[test]
fn clone_copies_values() {
    let cpu = Executor::CPU;
    let mut b = DualVec::from_vec((&cpu, &cpu), vec![3, 1, 4]);
    let mut c = b.clone();
    assert_eq!(host_values(&mut c), host_values(&mut b));
}
