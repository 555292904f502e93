use anachro_485::managed::ManagedArcSlab;
use anachro_485::managed::ManagedArcStr;
use anachro_485::managed::Reroot;
use anachro_485::slab::BSlab;

#[test]
fn it_works() {
    let mut slab = BSlab::new(32, 512);
    slab.init().unwrap();
    let mut allocs = vec![];

    for i in 0..32 {
        let alloc_box = slab.alloc_box().unwrap();
        slab.box_write_byte(&alloc_box, 0, i);
        slab.box_write_byte(&alloc_box, 1, 0x42);
        allocs.push(alloc_box);
    }

    assert!(slab.alloc_box().is_none());

    for (i, ab) in allocs.iter().enumerate() {
        assert_eq!(i as u8, slab.box_read_byte(ab, 0));
        assert_eq!(0x42, slab.box_read_byte(ab, 1));
    }

    // Drop allocs, freeing them for reuse
    for ab in allocs {
        slab.drop_box(ab);
    }

    let mut allocs = vec![];

    for _ in 0..32 {
        allocs.push(slab.alloc_box().unwrap());
    }

    assert!(slab.alloc_box().is_none());
    for ab in allocs {
        slab.drop_box(ab);
    }
}

#[test]
fn slicing_and_arcs() {
    let mut slab = BSlab::new(32, 128);
    slab.init().unwrap();

    let slab_box = slab.alloc_box().unwrap();
    for i in 0..128 {
        slab.box_write_byte(&slab_box, i, i as u8);
    }

    let slab_arc = slab_box.into_arc(&slab);
    for i in 0..128 {
        assert_eq!(slab.arc_read_byte(&slab_arc, i), i as u8);
    }

    let sl_1 = slab_arc.sub_slice_arc(&mut slab, 0, 64).unwrap();
    let sl_2 = slab_arc.sub_slice_arc(&mut slab, 64, 64).unwrap();

    for (i, by) in slab.slice_to_vec(&sl_1).iter().enumerate() {
        assert_eq!(*by, i as u8);
    }
    for (i, by) in slab.slice_to_vec(&sl_2).iter().enumerate() {
        assert_eq!(*by, i as u8 + 64);
    }

    let sl_2_1 = sl_2.sub_slice_arc(&mut slab, 0, 32).unwrap();
    let sl_2_2 = sl_2.sub_slice_arc(&mut slab, 32, 32).unwrap();

    for (i, by) in slab.slice_to_vec(&sl_2_1).iter().enumerate() {
        assert_eq!(*by, i as u8 + 64);
    }
    for (i, by) in slab.slice_to_vec(&sl_2_2).iter().enumerate() {
        assert_eq!(*by, i as u8 + 64 + 32);
    }

    // We should now be able to allocate EXACTLY 31 pages, not 32.
    let mut allocs = vec![];

    for i in 0..31 {
        let alloc_box = slab.alloc_box().unwrap();
        slab.box_write_byte(&alloc_box, 0, i);
        slab.box_write_byte(&alloc_box, 1, 0x42);
        allocs.push(alloc_box);
    }

    assert!(slab.alloc_box().is_none());

    // Now, if we drop the root arc, we still shouldn't be able to alloc.
    slab.drop_arc(slab_arc);
    assert!(slab.alloc_box().is_none());

    // Now, the top level slices, still no alloc
    slab.drop_slice(sl_1);
    slab.drop_slice(sl_2);
    assert!(slab.alloc_box().is_none());

    // Second to last, still no alloc
    slab.drop_slice(sl_2_1);
    assert!(slab.alloc_box().is_none());

    // Final slice. Should be free now.
    slab.drop_slice(sl_2_2);
    assert!(slab.alloc_box().is_some());
}

#[test]
fn smoke() {
    let mut slab = BSlab::new(4, 128);
    slab.init().unwrap();

    let sbox = slab.alloc_box().unwrap();

    let payload = vec![1u8, 2, 3, 4];
    slab.box_copy_from_slice(&sbox, 0, &payload);

    let arc_1 = sbox.into_arc(&slab);
    let key = arc_1.rerooter_key(&slab);

    let brw = ManagedArcSlab::Borrowed { addr: key.start, len: 4 };
    let own: ManagedArcSlab = brw.reroot(&key, &mut slab).unwrap();

    match own {
        ManagedArcSlab::Owned(ssa) => {
            assert_eq!(vec![1u8, 2, 3, 4], slab.slice_to_vec(&ssa));
        }
        _ => panic!("Not owned!"),
    }
}

// Conservation across alloc/clone/drop: counting free chunks plus chunks held
// by live handles always accounts for the whole pool.
#[test]
fn conservation_alloc_clone_drop() {
    let mut slab = BSlab::new(8, 32);
    slab.init().unwrap();
    let held = |s: &BSlab| -> usize { s.rcs.iter().filter(|rc| **rc > 0).count() };
    assert_eq!(slab.free.len() + held(&slab), 8);

    let b1 = slab.alloc_box().unwrap();
    assert_eq!(slab.free.len() + held(&slab), 8);

    let a1 = b1.into_arc(&slab);
    let a2 = slab.clone_arc(&a1);
    assert_eq!(slab.free.len() + held(&slab), 8);
    assert_eq!(slab.rcs[a1.idx], 2);

    slab.drop_arc(a2);
    assert_eq!(slab.rcs[a1.idx], 1);
    slab.drop_arc(a1);
    assert_eq!(slab.free.len() + held(&slab), 8);
    assert_eq!(slab.free.len(), 8);
}

// Sub-slice contents equal the parent's window for every valid pair.
#[test]
fn sub_slice_matches_parent_window() {
    let mut slab = BSlab::new(2, 16);
    slab.init().unwrap();
    let b = slab.alloc_box().unwrap();
    for i in 0..16 {
        slab.box_write_byte(&b, i, (i * 3) as u8);
    }
    let arc = b.into_arc(&slab);
    for start in 0..16 {
        for len in 0..(16 - start + 1) {
            let s = arc.sub_slice_arc(&mut slab, start, len).unwrap();
            let got = slab.slice_to_vec(&s);
            let want: Vec<u8> = (start..start + len).map(|i| (i * 3) as u8).collect();
            assert_eq!(got, want);
            slab.drop_slice(s);
        }
    }
    // And the failing shapes are rejected.
    assert!(arc.sub_slice_arc(&mut slab, 16, 0).is_err());
    assert!(arc.sub_slice_arc(&mut slab, 8, 9).is_err());
    slab.drop_arc(arc);
}

// Re-root of a borrow outside the key's range answers Err.
#[test]
fn reroot_outside_range_fails() {
    let mut slab = BSlab::new(4, 64);
    slab.init().unwrap();
    let b1 = slab.alloc_box().unwrap();
    let a1 = b1.into_arc(&slab);
    let key = a1.rerooter_key(&slab);

    // A span beginning past the chunk's end.
    let outside = ManagedArcSlab::Borrowed { addr: key.end, len: 4 };
    assert!(outside.reroot(&key, &mut slab).is_err());

    // An empty borrow is likewise refused.
    let empty = ManagedArcSlab::Borrowed { addr: key.start, len: 0 };
    assert!(empty.reroot(&key, &mut slab).is_err());

    // The failures took no reference count.
    assert_eq!(slab.rcs[a1.idx], 1);
    slab.drop_arc(a1);
}

// Re-root of a borrow inside the range covers the same addresses and bytes,
// and takes one new count on the chunk.
#[test]
fn reroot_inside_range_is_pointer_and_value_equal() {
    let mut slab = BSlab::new(4, 64);
    slab.init().unwrap();
    let b1 = slab.alloc_box().unwrap();
    let data = vec![10u8, 20, 30, 40, 50, 60];
    slab.box_copy_from_slice(&b1, 8, &data);
    let a1 = b1.into_arc(&slab);
    let key = a1.rerooter_key(&slab);

    let brw = ManagedArcSlab::Borrowed { addr: key.start + 8, len: 6 };
    let own = brw.reroot(&key, &mut slab).unwrap();
    match own {
        ManagedArcSlab::Owned(ssa) => {
            assert_eq!(ssa.arc.idx, a1.idx);
            assert_eq!(key.start + ssa.start, key.start + 8);
            assert_eq!(slab.slice_to_vec(&ssa), data);
            assert_eq!(slab.rcs[a1.idx], 2);
            slab.drop_slice(ssa);
        }
        _ => panic!("Not owned!"),
    }
    slab.drop_arc(a1);
}

// UTF-8 string views: valid bytes convert, invalid bytes are refused and the
// consumed view's count is released.
#[test]
fn str_arc_checks_utf8() {
    let mut slab = BSlab::new(4, 32);
    slab.init().unwrap();
    let b = slab.alloc_box().unwrap();
    let hello = vec![b'h', b'e', b'l', b'l', b'o'];
    slab.box_copy_from_slice(&b, 0, &hello);
    let arc = b.into_arc(&slab);
    let good = arc.sub_slice_arc(&mut slab, 0, 5).unwrap();
    let sa = good.into_str_arc(&mut slab).unwrap();
    assert_eq!(slab.slice_to_vec(&sa.inner), hello);
    slab.drop_slice(sa.inner);
    slab.drop_arc(arc);

    let b2 = slab.alloc_box().unwrap();
    let bad_bytes = vec![0xFFu8, 0xFE];
    slab.box_copy_from_slice(&b2, 0, &bad_bytes);
    let arc2 = b2.into_arc(&slab);
    let idx2 = arc2.idx;
    let view = arc2.sub_slice_arc(&mut slab, 0, 2).unwrap();
    assert_eq!(slab.rcs[idx2], 2);
    assert!(view.into_str_arc(&mut slab).is_err());
    // The failed conversion consumed the view and released its count.
    assert_eq!(slab.rcs[idx2], 1);
    slab.drop_arc(arc2);
}

// The byte and span UTF-8 checkers agree with the real validator, so a
// verified caller can establish a borrowed string view's validity.
#[test]
fn utf8_checkers() {
    assert!(anachro_485::slab::bytes_are_utf8(&vec![b'h', b'i']));
    assert!(!anachro_485::slab::bytes_are_utf8(&vec![0xFF, 0xFE]));

    let mut slab = BSlab::new(2, 16);
    slab.init().unwrap();
    let b = slab.alloc_box().unwrap();
    slab.box_copy_from_slice(&b, 0, &vec![b'o', b'k', 0xFF]);
    let arc = b.into_arc(&slab);
    let key = arc.rerooter_key(&slab);
    assert!(anachro_485::managed::span_is_utf8(&slab, key.start, 2));
    assert!(!anachro_485::managed::span_is_utf8(&slab, key.start, 3));
    slab.drop_arc(arc);
}

// A borrowed string view re-roots to an owning string arc when the bytes
// are valid UTF-8, and is refused when they are not.
#[test]
fn str_view_reroot() {
    let mut slab = BSlab::new(4, 64);
    slab.init().unwrap();
    let b = slab.alloc_box().unwrap();
    let text = vec![b'b', b'u', b's'];
    slab.box_copy_from_slice(&b, 0, &text);
    slab.box_write_byte(&b, 3, 0xFF);
    let arc = b.into_arc(&slab);
    let key = arc.rerooter_key(&slab);

    let brw = ManagedArcStr::Borrowed { addr: key.start, len: 3 };
    match brw.reroot(&key, &mut slab).unwrap() {
        ManagedArcStr::Owned(sa) => {
            assert_eq!(slab.slice_to_vec(&sa.inner), text);
            assert_eq!(slab.rcs[arc.idx], 2);
            slab.drop_slice(sa.inner);
        }
        _ => panic!("Not owned!"),
    }

    // Bytes that are not UTF-8 cannot become a string view.
    let bad = ManagedArcStr::Borrowed { addr: key.start, len: 4 };
    assert!(bad.reroot(&key, &mut slab).is_err());
    assert_eq!(slab.rcs[arc.idx], 1);
    slab.drop_arc(arc);
}
