use plato_window::{PaddingStrategy, Window, WindowConfig};

#[test]
fn config_builders_keep_other_fields() {
    let config = WindowConfig::new(4).with_padding(PaddingStrategy::Wrap).with_stride(3);
    assert_eq!(config.size, 4);
    assert_eq!(config.stride, 3);
    assert_eq!(config.padding, PaddingStrategy::Wrap);
    let config = config.with_padding(PaddingStrategy::Zero);
    assert_eq!(config.stride, 3);
    assert_eq!(config.padding, PaddingStrategy::Zero);
}

#[test]
fn stride_zero_is_taken_as_one() {
    let config = WindowConfig::new(2).with_stride(0);
    assert_eq!(config.stride, 1);
    let mut w = Window::new(vec![1.0, 2.0, 3.0], 2);
    assert!(w.slide(0));
    assert_eq!(w.current(), &[2.0, 3.0]);
}

#[test]
fn size_zero_is_taken_as_one() {
    let w = Window::new(vec![7, 8, 9], 0);
    assert_eq!(w.current(), &[7]);
    assert_eq!(w.count(), 3);
    let windows = Window::collect_all(vec![7, 8], WindowConfig::new(0));
    assert_eq!(windows, vec![vec![7], vec![8]]);
}

#[test]
fn padding_keeps_data_at_the_end() {
    let data = vec![4.0, 5.0, 6.0];
    for strategy in [
        PaddingStrategy::NoPadding,
        PaddingStrategy::Zero,
        PaddingStrategy::Mirror,
        PaddingStrategy::Wrap,
    ] {
        let out = strategy.apply(&data, 5);
        assert_eq!(&out[out.len() - 3..], &data[..]);
    }
}

#[test]
fn padding_makes_the_window_fit() {
    let data = vec![1, 2, 3];
    assert_eq!(PaddingStrategy::Zero.apply(&data, 6).len(), 6);
    assert_eq!(PaddingStrategy::Mirror.apply(&data, 6).len(), 6);
    assert_eq!(PaddingStrategy::Wrap.apply(&data, 6).len(), 6);
    assert_eq!(PaddingStrategy::NoPadding.apply(&data, 6).len(), 3);
}

#[test]
fn padding_unneeded_leaves_data_alone() {
    let empty: Vec<f64> = vec![];
    assert_eq!(PaddingStrategy::Zero.apply(&empty, 3), empty);
    assert_eq!(PaddingStrategy::Wrap.apply(&empty, 3), empty);
    let data = vec![1.0, 2.0, 3.0];
    assert_eq!(PaddingStrategy::Mirror.apply(&data, 3), data);
    assert_eq!(PaddingStrategy::Zero.apply(&data, 0), data);
}

#[test]
fn mirror_reflects_at_the_boundary() {
    let data = vec![1, 2, 3, 4];
    let out = PaddingStrategy::Mirror.apply(&data, 7);
    assert_eq!(out, vec![3, 2, 1, 1, 2, 3, 4]);
    for k in 0..3 {
        assert_eq!(out[2 - k], out[3 + k]);
    }
}

#[test]
fn wrap_cycles_through_the_data() {
    let data = vec![1, 2];
    let out = PaddingStrategy::Wrap.apply(&data, 7);
    assert_eq!(out, vec![1, 2, 1, 2, 1, 1, 2]);
}

#[test]
fn zero_padding_uses_the_default_value() {
    let out = PaddingStrategy::Zero.apply(&[5u8, 6], 5);
    assert_eq!(out, vec![0, 0, 0, 5, 6]);
    let out = PaddingStrategy::Zero.apply(&[true], 3);
    assert_eq!(out, vec![false, false, true]);
}

#[test]
fn with_config_pads_the_data() {
    let config = WindowConfig::new(4).with_padding(PaddingStrategy::Zero);
    let w = Window::with_config(vec![1.0, 2.0], config);
    assert_eq!(w.current(), &[0.0, 0.0, 1.0, 2.0]);
    assert_eq!(w.count(), 1);
}

#[test]
fn collect_all_with_padding() {
    let config = WindowConfig::new(3).with_padding(PaddingStrategy::Wrap);
    let windows = Window::collect_all(vec![1, 2], config);
    assert_eq!(windows, vec![vec![1, 1, 2]]);
    let config = WindowConfig::new(4).with_padding(PaddingStrategy::Mirror).with_stride(2);
    let windows = Window::collect_all(vec![1, 2, 3], config);
    assert_eq!(windows, vec![vec![1, 1, 2, 3]]);
}

#[test]
fn collect_all_runs_to_the_end() {
    let data: Vec<u32> = (0..10).collect();
    let windows = Window::collect_all(data, WindowConfig::new(3).with_stride(3));
    assert_eq!(windows, vec![vec![0, 1, 2], vec![3, 4, 5], vec![6, 7, 8]]);
    let windows = Window::collect_all(vec![1, 2], WindowConfig::new(3));
    assert!(windows.is_empty());
}

#[test]
fn collect_all_with_huge_stride() {
    let windows = Window::collect_all(vec![1, 2, 3], WindowConfig::new(2).with_stride(usize::MAX));
    assert_eq!(windows, vec![vec![1, 2]]);
}

#[test]
fn sliding_visits_the_collected_windows() {
    let data = vec![1.0, 2.0, 3.0, 4.0, 5.0, 6.0, 7.0];
    let collected = Window::collect_all(data.clone(), WindowConfig::new(3).with_stride(2));
    let mut w = Window::new(data, 3);
    let mut k = 0;
    loop {
        assert_eq!(w.current(), &collected[k][..]);
        k += 1;
        if !w.slide(2) {
            break;
        }
    }
    assert_eq!(k, collected.len());
}

#[test]
fn at_is_defined_below_count() {
    let w = Window::new(vec![1, 2, 3, 4, 5, 6], 4);
    assert_eq!(w.count(), 3);
    for i in 0..3 {
        assert_eq!(w.at(i).unwrap(), &[1 + i as i32, 2 + i as i32, 3 + i as i32, 4 + i as i32]);
    }
    assert_eq!(w.at(3), None);
    assert_eq!(w.at(usize::MAX), None);
    let collected = Window::collect_all(vec![1, 2, 3, 4, 5, 6], WindowConfig::new(4));
    assert_eq!(collected.len(), w.count());
}

#[test]
fn current_is_cut_short_at_the_end() {
    let mut w = Window::new(vec![1, 2, 3, 4, 5], 3);
    assert!(w.slide(2));
    assert!(!w.slide(1));
    assert_eq!(w.current(), &[4, 5]);
    assert!(!w.slide(1));
    assert_eq!(w.current(), &[5]);
}

#[test]
fn clone_keeps_the_position() {
    let mut w = Window::new(vec![1, 2, 3, 4], 2);
    assert!(w.slide(1));
    let c = w.clone();
    assert_eq!(c.current(), &[2, 3]);
    assert_eq!(c.count(), 3);
}

#[test]
fn mirror_reflects_again_past_the_data() {
    assert_eq!(PaddingStrategy::Mirror.apply(&[1.0], 3), vec![1.0, 1.0, 1.0]);
    let out = PaddingStrategy::Mirror.apply(&[1, 2], 7);
    assert_eq!(out, vec![1, 1, 2, 2, 1, 1, 2]);
    assert_eq!(out.len(), 7);
    assert_eq!(&out[5..], &[1, 2]);
    let w = Window::with_config(vec![1, 2], WindowConfig::new(7).with_padding(PaddingStrategy::Mirror));
    assert_eq!(w.current(), &[1, 1, 2, 2, 1, 1, 2]);
}

#[test]
fn with_config_is_new_over_apply() {
    let data = vec![3.0, 1.0, 4.0];
    for padding in [
        PaddingStrategy::NoPadding,
        PaddingStrategy::Zero,
        PaddingStrategy::Mirror,
        PaddingStrategy::Wrap,
    ] {
        let config = WindowConfig::new(5).with_padding(padding).with_stride(2);
        let a = Window::with_config(data.clone(), config.clone());
        let b = Window::new(padding.apply(&data, 5), 5);
        assert_eq!(a.data(), b.data());
        assert_eq!(a.size(), b.size());
        assert_eq!(a.position(), b.position());
        assert_eq!(a.current(), b.current());
        assert_eq!(a.count(), b.count());
    }
}

#[test]
fn collect_all_matches_at_with_stride_one() {
    let data = vec![1.0, 2.0, 3.0];
    let config = WindowConfig::new(4).with_padding(PaddingStrategy::Zero);
    let w = Window::with_config(data.clone(), config.clone());
    let r = Window::collect_all(data, config);
    assert_eq!(r.len(), w.count());
    for i in 0..r.len() {
        assert_eq!(w.at(i), Some(&r[i][..]));
    }
    assert_eq!(w.at(r.len()), None);
}
