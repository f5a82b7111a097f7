use viow_plugin_api::SignalType;
use viow_plugin_api::WaveData;

#[test]
fn width_of_bit_and_vectors() {
    assert_eq!(SignalType::Bit.width(), 1);
    assert_eq!(SignalType::Vector(3, 0).width(), 3);
    assert_eq!(SignalType::Vector(0, 3).width(), 3);
    assert_eq!(SignalType::Vector(-4, 4).width(), 8);
    assert_eq!(SignalType::Vector(7, 7).width(), 0);
    assert_eq!(SignalType::Vector(i32::MAX, i32::MIN).width(), u32::MAX as usize);
}

#[test]
fn layout_follows_prefix_sums() {
    let signals = vec![
        SignalType::Bit,
        SignalType::Vector(3, 0),
        SignalType::Vector(0, 7),
        SignalType::Bit,
    ];
    let w = WaveData::new(&signals, 0, 4);
    assert_eq!(w.bitranges, vec![(0, 1), (1, 4), (4, 11), (11, 12)]);
    assert_eq!(w.bytes_per_frame, 1 + 3 + 7 + 1);
    assert_eq!(w.bitranges[0].0, 0);
    for k in 1..w.bitranges.len() {
        assert_eq!(w.bitranges[k].0, w.bitranges[k - 1].1);
    }
    assert_eq!(w.bitranges.last().unwrap().1, w.bytes_per_frame);
}

#[test]
fn bitranges_are_disjoint() {
    let signals = vec![SignalType::Vector(2, 0), SignalType::Bit, SignalType::Vector(0, 4)];
    let w = WaveData::new(&signals, 0, 1);
    for i in 0..w.bitranges.len() {
        for j in 0..w.bitranges.len() {
            if i != j {
                let (si, ei) = w.bitranges[i];
                let (sj, ej) = w.bitranges[j];
                assert!(ei <= sj || ej <= si);
            }
        }
    }
    for p in 0..w.bytes_per_frame {
        let owners = w
            .bitranges
            .iter()
            .filter(|(s, e)| *s <= p && p < *e)
            .count();
        assert_eq!(owners, 1);
    }
}

#[test]
fn storage_is_sized_and_zeroed() {
    let signals = vec![SignalType::Bit, SignalType::Vector(3, 0)];
    let w = WaveData::new(&signals, 10, 12);
    assert_eq!(w.cycle_start, 10);
    assert_eq!(w.cycle_end, 12);
    assert_eq!(w.data.len(), w.bytes_per_frame * 2);
    assert!(w.data.iter().all(|&b| b == 0));
}

#[test]
fn empty_signal_list() {
    let w = WaveData::new(&Vec::new(), 5, 9);
    assert_eq!(w.bytes_per_frame, 0);
    assert_eq!(w.bitranges.len(), 0);
    assert_eq!(w.data.len(), 0);
}

#[test]
fn empty_cycle_range() {
    let signals = vec![SignalType::Vector(15, 0)];
    let w = WaveData::new(&signals, 7, 7);
    assert_eq!(w.bytes_per_frame, 15);
    assert_eq!(w.data.len(), 0);
}

#[test]
fn try_new_accepts_what_fits() {
    let signals = vec![SignalType::Bit, SignalType::Vector(3, 0)];
    let w = WaveData::try_new(&signals, 10, 12).unwrap();
    assert_eq!(w.bytes_per_frame, 4);
    assert_eq!(w.data.len(), 8);
}

#[test]
fn try_new_rejects_oversized_storage() {
    let signals = vec![SignalType::Bit, SignalType::Bit];
    assert!(WaveData::try_new(&signals, 0, u64::MAX).is_none());
}

#[test]
fn set_get_round_trip() {
    let signals = vec![SignalType::Bit, SignalType::Vector(3, 0), SignalType::Vector(0, 3)];
    let mut w = WaveData::new(&signals, 0, 3);
    let v1 = [true, false, true];
    let v2 = [false, true, true];
    w.set(1, 2, &v1);
    w.set(2, 2, &v2);
    assert_eq!(w.get(1, 2), v1.to_vec());
    assert_eq!(w.get(2, 2), v2.to_vec());
    w.set(0, 0, &[true]);
    assert_eq!(w.get(0, 0), vec![true]);
    assert_eq!(w.get(0, 2), vec![false]);
}

#[test]
fn frame_store_example() {
    let signals = vec![SignalType::Bit, SignalType::Vector(3, 0)];
    let mut w = WaveData::new(&signals, 10, 12);
    assert_eq!(w.bitranges, vec![(0, 1), (1, 4)]);
    assert_eq!(w.bytes_per_frame, 4);
    assert_eq!(w.data.len(), 8);
    w.set(0, 11, &[true]);
    let bits = [true, false, true];
    w.set(1, 11, &bits);
    assert_eq!(w.get(1, 11), bits.to_vec());
    assert_eq!(w.get(0, 11), vec![true]);
    assert_eq!(w.get(0, 10), vec![false]);
    assert_eq!(w.get(1, 10), vec![false, false, false]);
}

#[test]
fn overwriting_one_cycle_leaves_others() {
    let signals = vec![SignalType::Vector(1, 0)];
    let mut w = WaveData::new(&signals, 0, 3);
    w.set(0, 0, &[true]);
    w.set(0, 1, &[false]);
    w.set(0, 2, &[true]);
    w.set(0, 1, &[true]);
    assert_eq!(w.get(0, 0), vec![true]);
    assert_eq!(w.get(0, 1), vec![true]);
    assert_eq!(w.get(0, 2), vec![true]);
}

#[test]
fn nonzero_storage_unit_reads_true() {
    let signals = vec![SignalType::Vector(2, 0)];
    let mut w = WaveData::new(&signals, 0, 1);
    w.data[0] = 2;
    w.data[1] = 1;
    assert_eq!(w.get(0, 0), vec![true, true]);
}
