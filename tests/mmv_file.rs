use byteorder::{ByteOrder, LittleEndian};
use memmap::MmapMut;
use mmv::{Layout, MMVFlags, Mapping, Metric, MetricSem, MetricType, MmvError, MMV};

fn anon(len: usize) -> Mapping {
    Mapping::new(MmapMut::map_anon(len).unwrap())
}

fn snapshot(m: &Mapping) -> Vec<u8> {
    let mut out = Vec::new();
    for i in 0..m.len() {
        out.push(m.byte(i));
    }
    out
}

fn int_metric(name: &str, v: i64) -> Metric {
    Metric::new(name, 1, MetricSem::Counter, 0, 0, MetricType::I64(v), "short", "long").unwrap()
}

fn trials_and_pi() -> Vec<Metric> {
    let trials = Metric::new(
        "trials", 1, MetricSem::Counter, 0, 0, MetricType::I64(0),
        "Trials",
        "Number of Monte Carlo trials").unwrap();
    let pi = Metric::new(
        "pi", 1, MetricSem::Instant, 0, 0, MetricType::F64Bits(0.0f64.to_bits()),
        "Estimated Pi",
        "Estimated value of Pi through Monte Carlo trials").unwrap();
    vec![trials, pi]
}

fn text_at(bytes: &[u8], pos: usize) -> &[u8] {
    let end = bytes[pos..].iter().position(|b| *b == 0).unwrap();
    &bytes[pos..pos + end]
}

#[test]
fn layout_sizes() {
    let l = Layout::new(2);
    assert_eq!(l.size, 1384);
    assert_eq!(l.metric_section, 88);
    assert_eq!(l.value_section, 88 + 2 * 104);
    assert_eq!(l.string_section, 88 + 2 * 104 + 2 * 32);
    assert_eq!(Layout::new(0).size, 88);
    assert_eq!(Layout::new(0).string_section, 88);
    assert!(mmv::layout::mmv_size_fits(1000));
    assert!(!mmv::layout::mmv_size_fits(usize::MAX / 100));
}

#[test]
fn two_metrics_scenario() {
    let mut metrics = trials_and_pi();
    let file = MMV::new("unused", MMVFlags::empty(), 0);
    let mut mapping = anon(1384);
    assert_eq!(file.map_region(&mut mapping, &mut metrics), Ok(()));
    assert_eq!(mapping.len(), 40 + 48 + 2 * (104 + 32 + 512));
    let before = snapshot(&mapping);

    let (trials, pi) = metrics.split_at_mut(1);
    assert_eq!(trials[0].set_val(&mut mapping, MetricType::I64(5)), Ok(()));
    assert_eq!(pi[0].set_val(&mut mapping, MetricType::F64Bits(3.14f64.to_bits())), Ok(()));

    let after = snapshot(&mapping);
    let value_section = 88 + 2 * 104;
    assert_eq!(LittleEndian::read_i64(&after[value_section..]), 5);
    assert_eq!(LittleEndian::read_f64(&after[value_section + 32..]), 3.14);
    for k in 0..after.len() {
        let in_slot = (value_section..value_section + 8).contains(&k)
            || (value_section + 32..value_section + 40).contains(&k);
        if !in_slot {
            assert_eq!(after[k], before[k], "byte {} changed", k);
        }
    }
    assert_eq!(metrics[0].val(), MetricType::I64(5));
    assert_eq!(metrics[1].val(), MetricType::F64Bits(3.14f64.to_bits()));
}

#[test]
fn encoded_image_fields() {
    let metrics = trials_and_pi();
    let flags = MMVFlags::process().union(MMVFlags::noprefix());
    let file = MMV::new("unused", flags, 7);
    let mut mapping = anon(1384);
    assert_eq!(file.encode(&mut mapping, 1234, 99, &metrics), Ok(()));
    let b = snapshot(&mapping);
    assert_eq!(&b[0..4], b"MMV\0");
    assert_eq!(LittleEndian::read_u32(&b[4..]), 1);
    assert_eq!(LittleEndian::read_i64(&b[8..]), 1234);
    assert_eq!(LittleEndian::read_i64(&b[16..]), 1234);
    assert_eq!(LittleEndian::read_i32(&b[24..]), 3);
    assert_eq!(LittleEndian::read_u32(&b[28..]), 3);
    assert_eq!(LittleEndian::read_i32(&b[32..]), 99);
    assert_eq!(LittleEndian::read_u32(&b[36..]), 7);
    // table of contents
    let toc: Vec<(u32, u32, u64)> = (0..3)
        .map(|t| {
            let p = 40 + 16 * t;
            (LittleEndian::read_u32(&b[p..]), LittleEndian::read_u32(&b[p + 4..]),
             LittleEndian::read_u64(&b[p + 8..]))
        })
        .collect();
    assert_eq!(toc, vec![(3, 2, 88), (4, 2, 296), (5, 4, 360)]);
    // metric blocks
    assert_eq!(text_at(&b, 88), b"trials");
    assert_eq!(LittleEndian::read_u32(&b[88 + 64..]), 1);
    assert_eq!(LittleEndian::read_u32(&b[88 + 68..]), 2);
    assert_eq!(LittleEndian::read_u32(&b[88 + 72..]), 1);
    assert_eq!(LittleEndian::read_u64(&b[88 + 88..]), 360);
    assert_eq!(LittleEndian::read_u64(&b[88 + 96..]), 360 + 256);
    assert_eq!(text_at(&b, 192), b"pi");
    assert_eq!(LittleEndian::read_u32(&b[192 + 68..]), 5);
    assert_eq!(LittleEndian::read_u32(&b[192 + 72..]), 3);
    assert_eq!(LittleEndian::read_u64(&b[192 + 88..]), 360 + 512);
    assert_eq!(LittleEndian::read_u64(&b[192 + 96..]), 360 + 768);
    // value blocks
    assert_eq!(LittleEndian::read_i64(&b[296..]), 0);
    assert_eq!(LittleEndian::read_u64(&b[296 + 16..]), 88);
    assert_eq!(LittleEndian::read_u64(&b[328 + 16..]), 192);
    assert_eq!(LittleEndian::read_u64(&b[328 + 24..]), 0);
    // string blocks
    assert_eq!(text_at(&b, 360), b"Trials");
    assert_eq!(text_at(&b, 616), b"Number of Monte Carlo trials");
    assert_eq!(text_at(&b, 872), b"Estimated Pi");
    assert_eq!(text_at(&b, 1128), b"Estimated value of Pi through Monte Carlo trials");
}

#[test]
fn encode_overwrites_stale_bytes() {
    let metrics = vec![int_metric("a", -2)];
    let file = MMV::new("unused", MMVFlags::empty(), 0);
    let size = Layout::new(1).size;
    let mut dirty = MmapMut::map_anon(size).unwrap();
    for b in dirty.iter_mut() {
        *b = 0xAA;
    }
    let mut mapping = Mapping::new(dirty);
    assert_eq!(file.encode(&mut mapping, 5, 1, &metrics), Ok(()));
    let b = snapshot(&mapping);
    assert_eq!(text_at(&b, 88), b"a");
    assert!(b[90..88 + 64].iter().all(|x| *x == 0));
    assert_eq!(LittleEndian::read_i64(&b[88 + 104..]), -2);
    assert_eq!(LittleEndian::read_u64(&b[88 + 104 + 8..]), 0);
}

#[test]
fn generations_match_after_map() {
    let mut metrics = vec![int_metric("x", 1), int_metric("y", 2)];
    let file = MMV::new("unused", MMVFlags::empty(), 0);
    let mut mapping = anon(Layout::new(2).size);
    assert_eq!(file.map_region(&mut mapping, &mut metrics), Ok(()));
    let b = snapshot(&mapping);
    assert_eq!(&b[8..16], &b[16..24]);
    assert!(LittleEndian::read_i64(&b[8..]) > 0);
    assert!(LittleEndian::read_i32(&b[32..]) > 0);
}

#[test]
fn slots_are_disjoint_for_many_sizes() {
    for n in 0..40usize {
        let mut metrics: Vec<Metric> = (0..n).map(|i| int_metric(&format!("m{}", i), i as i64)).collect();
        let layout = Layout::new(n);
        let mut mapping = anon(layout.size);
        let file = MMV::new("unused", MMVFlags::empty(), 0);
        assert_eq!(file.encode(&mut mapping, 1, 1, &metrics), Ok(()));
        assert_eq!(MMV::split_mmap_views(&mut mapping, &mut metrics), Ok(()));
        assert!(mapping.slots_handed_out());
        let offsets: Vec<usize> = metrics.iter().map(|m| m.slot_offset().unwrap()).collect();
        for i in 0..n {
            assert_eq!(offsets[i], layout.value_section + 32 * i);
            for j in 0..n {
                if i != j {
                    assert!(offsets[i] + 8 <= offsets[j] || offsets[j] + 8 <= offsets[i]);
                }
            }
        }
    }
}

#[test]
fn update_touches_only_its_slot() {
    let mut metrics: Vec<Metric> = (0..5).map(|i| int_metric(&format!("m{}", i), 0)).collect();
    let file = MMV::new("unused", MMVFlags::sentinel(), 3);
    let mut mapping = anon(Layout::new(5).size);
    assert_eq!(file.map_region(&mut mapping, &mut metrics), Ok(()));
    let before = snapshot(&mapping);
    assert_eq!(metrics[3].set_val(&mut mapping, MetricType::I64(-1)), Ok(()));
    let after = snapshot(&mapping);
    let slot = metrics[3].slot_offset().unwrap();
    for k in 0..after.len() {
        if k < slot || k >= slot + 8 {
            assert_eq!(after[k], before[k]);
        } else {
            assert_eq!(after[k], 0xFF);
        }
    }
}

#[test]
fn name_and_help_capacity() {
    let ok_name = "n".repeat(63);
    let long_name = "n".repeat(64);
    let ok_help = "h".repeat(255);
    let long_help = "h".repeat(256);
    let v = MetricType::I64(0);
    assert!(Metric::new(&ok_name, 0, MetricSem::Discrete, 0, 0, v, &ok_help, &ok_help).is_ok());
    assert_eq!(
        Metric::new(&long_name, 0, MetricSem::Discrete, 0, 0, v, "", "").err(),
        Some(MmvError::Validation));
    assert_eq!(
        Metric::new("a", 0, MetricSem::Discrete, 0, 0, v, &long_help, "").err(),
        Some(MmvError::Validation));
    assert_eq!(
        Metric::new("a", 0, MetricSem::Discrete, 0, 0, v, "", &long_help).err(),
        Some(MmvError::Validation));
    // two bytes per character
    assert!(Metric::new(&"é".repeat(31), 0, MetricSem::Discrete, 0, 0, v, "", "").is_ok());
    assert!(Metric::new(&"é".repeat(32), 0, MetricSem::Discrete, 0, 0, v, "", "").is_err());
}

#[test]
fn metric_accessors() {
    let m = Metric::new("load", 9, MetricSem::Instant, 2, 3, MetricType::I64(4), "s", "l").unwrap();
    assert_eq!(m.name(), "load");
    assert_eq!(m.item(), 9);
    assert_eq!(m.sem(), MetricSem::Instant);
    assert_eq!(m.indom(), 2);
    assert_eq!(m.dim(), 3);
    assert_eq!(m.short_help(), "s");
    assert_eq!(m.long_help(), "l");
    assert_eq!(m.val(), MetricType::I64(4));
    assert!(!m.is_mapped());
    assert_eq!(m.slot_offset(), None);
    assert_eq!(MetricSem::Counter.code(), 1);
    assert_eq!(MetricSem::Discrete.code(), 4);
    assert_eq!(MetricType::F64Bits(1).type_code(), 5);
    assert_eq!(MetricType::I64(-1).bits(), u64::MAX);
}

#[test]
fn wrong_kind_is_rejected_and_changes_nothing() {
    let mut metrics = trials_and_pi();
    let file = MMV::new("unused", MMVFlags::empty(), 0);
    let mut mapping = anon(1384);
    file.map_region(&mut mapping, &mut metrics).unwrap();
    let before = snapshot(&mapping);
    assert_eq!(metrics[0].set_val(&mut mapping, MetricType::F64Bits(1.5f64.to_bits())),
               Err(MmvError::TypeMismatch));
    assert_eq!(metrics[1].set_val(&mut mapping, MetricType::I64(3)), Err(MmvError::TypeMismatch));
    assert_eq!(snapshot(&mapping), before);
    assert_eq!(metrics[0].val(), MetricType::I64(0));
}

#[test]
fn update_before_map_fails() {
    let mut m = int_metric("early", 0);
    let mut mapping = anon(Layout::new(1).size);
    let before = snapshot(&mapping);
    assert_eq!(m.set_val(&mut mapping, MetricType::I64(1)), Err(MmvError::NotMapped));
    assert_eq!(snapshot(&mapping), before);
    assert_eq!(m.val(), MetricType::I64(0));
}

#[test]
fn slot_of_another_file_fails() {
    let file = MMV::new("unused", MMVFlags::empty(), 0);
    let mut big_metrics: Vec<Metric> = (0..3).map(|i| int_metric(&format!("m{}", i), 0)).collect();
    let mut big = anon(Layout::new(3).size);
    file.map_region(&mut big, &mut big_metrics).unwrap();
    let mut small_metrics = vec![int_metric("s", 0)];
    let mut small = anon(Layout::new(1).size);
    file.map_region(&mut small, &mut small_metrics).unwrap();
    let before = snapshot(&small);
    assert_eq!(big_metrics[0].set_val(&mut small, MetricType::I64(1)), Err(MmvError::Layout));
    assert_eq!(small_metrics[0].set_val(&mut big, MetricType::I64(1)), Err(MmvError::Layout));
    assert_eq!(snapshot(&small), before);
}

#[test]
fn update_into_unsplit_mapping_fails() {
    let file = MMV::new("unused", MMVFlags::empty(), 0);
    let mut metrics = vec![int_metric("a", 0)];
    let mut mapping = anon(Layout::new(1).size);
    file.map_region(&mut mapping, &mut metrics).unwrap();
    let mut fresh = anon(Layout::new(1).size);
    assert!(!fresh.slots_handed_out());
    assert_eq!(metrics[0].set_val(&mut fresh, MetricType::I64(1)), Err(MmvError::Layout));
    assert_eq!(metrics[0].val(), MetricType::I64(0));
}

#[test]
fn splitting_twice_fails() {
    let file = MMV::new("unused", MMVFlags::empty(), 0);
    let mut first = vec![int_metric("a", 0), int_metric("b", 0)];
    let mut mapping = anon(Layout::new(2).size);
    file.map_region(&mut mapping, &mut first).unwrap();
    let mut second = vec![int_metric("a", 0), int_metric("b", 0)];
    assert_eq!(MMV::split_mmap_views(&mut mapping, &mut second), Err(MmvError::Layout));
    assert!(!second[0].is_mapped());
    assert_eq!(file.encode(&mut mapping, 1, 1, &second), Err(MmvError::Layout));
    assert_eq!(file.map_region(&mut mapping, &mut second), Err(MmvError::Layout));
}

#[test]
fn split_in_wrong_order_fails() {
    let file = MMV::new("unused", MMVFlags::empty(), 0);
    let metrics = vec![int_metric("a", 0), int_metric("b", 0)];
    let mut mapping = anon(Layout::new(2).size);
    assert_eq!(file.encode(&mut mapping, 1, 1, &metrics), Ok(()));
    let mut swapped = vec![int_metric("b", 0), int_metric("a", 0)];
    assert_eq!(MMV::split_mmap_views(&mut mapping, &mut swapped), Err(MmvError::Layout));
    assert!(!mapping.slots_handed_out());
    assert!(!swapped[0].is_mapped() && !swapped[1].is_mapped());
    let mut same = vec![int_metric("a", 0), int_metric("b", 0)];
    assert_eq!(MMV::split_mmap_views(&mut mapping, &mut same), Ok(()));
    assert_eq!(same[1].slot_offset(), Some(88 + 2 * 104 + 32));
}

#[test]
fn duplicate_names_are_rejected() {
    let file = MMV::new("unused", MMVFlags::empty(), 0);
    let mut metrics = vec![int_metric("same", 0), int_metric("other", 0), int_metric("same", 1)];
    let mut mapping = anon(Layout::new(3).size);
    let before = snapshot(&mapping);
    assert_eq!(file.map_region(&mut mapping, &mut metrics), Err(MmvError::Validation));
    assert_eq!(file.encode(&mut mapping, 1, 1, &metrics), Err(MmvError::Validation));
    assert_eq!(snapshot(&mapping), before);
    assert!(!metrics[0].is_mapped());
}

#[test]
fn layout_mismatch_fails() {
    let mut metrics = trials_and_pi();
    let file = MMV::new("unused", MMVFlags::empty(), 0);
    let mut mapping = anon(1383);
    let before = snapshot(&mapping);
    assert_eq!(file.map_region(&mut mapping, &mut metrics), Err(MmvError::Layout));
    assert_eq!(file.encode(&mut mapping, 1, 1, &metrics), Err(MmvError::Layout));
    assert_eq!(MMV::split_mmap_views(&mut mapping, &mut metrics), Err(MmvError::Layout));
    assert_eq!(snapshot(&mapping), before);
    assert!(!metrics[0].is_mapped());
}

#[test]
fn mapping_twice_fails() {
    let mut metrics = trials_and_pi();
    let file = MMV::new("unused", MMVFlags::empty(), 0);
    let mut mapping = anon(1384);
    file.map_region(&mut mapping, &mut metrics).unwrap();
    let mut again = anon(1384);
    assert_eq!(file.map_region(&mut again, &mut metrics), Err(MmvError::Layout));
    assert_eq!(metrics[0].slot_offset(), Some(296));
}

#[test]
fn flags_and_settings() {
    assert_eq!(MMVFlags::empty().bits(), 0);
    let f = MMVFlags::noprefix().union(MMVFlags::sentinel());
    assert_eq!(f.bits(), 5);
    assert!(f.contains(MMVFlags::sentinel()));
    assert!(!f.contains(MMVFlags::process()));
    assert_eq!(MMVFlags::from_bits_truncate(0xFF).bits(), 7);
    let file = MMV::new("/tmp/x.mmv", f, 11);
    assert_eq!(file.path(), "/tmp/x.mmv");
    assert_eq!(file.flags(), f);
    assert_eq!(file.cluster_id(), 11);
}

#[test]
fn mapping_bytes_round_trip() {
    let mapping = anon(16);
    assert_eq!(mapping.len(), 16);
    assert_eq!(mapping.byte(15), 0);
    let inner = mapping.into_inner();
    assert_eq!(inner.len(), 16);
}
