use hamsando::dst::{AllocDst, Dst, DstBox, Heap, TryAllocDst, TryAllocDstError};
use hamsando::layout::MemLayout;
use hamsando::shapes::{MixedDst, StrDst, UnitSliceDst};

#[test]
fn str_test() {
    let text = "thisisatest";
    let mut heap = Heap::new();
    let boxed: DstBox<StrDst> = DstBox::new_dst(&mut heap, text.len(), |u| {
        u.init(StrDst {
            text: text.to_string(),
        })
    })
    .unwrap();

    assert_eq!(boxed.len(), text.len());
    assert_eq!(boxed.get().text, text);
}

#[test]
fn zst_test() {
    let items: Vec<()> = Vec::new();
    let mut heap = Heap::new();
    let boxed: DstBox<UnitSliceDst> =
        DstBox::new_dst(&mut heap, items.len(), |u| u.init(UnitSliceDst { items })).unwrap();

    assert_eq!(boxed.len(), 0);
    assert_eq!(boxed.get().items.len(), 0);
}

fn new_mixed(heap: &mut Heap, data1: i16, data2: usize, data3: u32, slice: &[i128]) -> DstBox<MixedDst> {
    let slice = slice.to_vec();
    DstBox::new_dst(heap, slice.len(), |u| {
        u.init(MixedDst {
            data1,
            data2,
            data3,
            slice,
        })
    })
    .unwrap()
}

#[test]
fn complex_test() {
    let mut heap = Heap::new();
    let v = new_mixed(&mut heap, -12, 65537, 50, &[-2, 5, 20]);
    assert_eq!(v.get().data1, -12);
    assert_eq!(v.get().data2, 65537);
    assert_eq!(v.get().data3, 50);
    assert_eq!(v.get().slice[0], -2);
    assert_eq!(v.get().slice[1], 5);
    assert_eq!(v.get().slice[2], 20);
    assert_eq!(v.len(), 3);
    assert_eq!(v.len(), v.get().slice.len());
}

#[test]
fn clone_test() {
    let mut heap = Heap::new();
    let v1 = new_mixed(&mut heap, -12, 65537, 50, &[-2, 5, 20]);

    let v2: DstBox<MixedDst> =
        DstBox::new_dst(&mut heap, v1.len(), |ptr| v1.get().clone_to_raw(ptr)).unwrap();
    assert_eq!(v2.get().data1, v1.get().data1);
    assert_eq!(v2.get().data2, v1.get().data2);
    assert_eq!(v2.get().data3, v1.get().data3);
    assert_eq!(v2.get().slice[0], v1.get().slice[0]);
    assert_eq!(v2.get().slice[1], v1.get().slice[1]);
    assert_eq!(v2.get().slice[2], v1.get().slice[2]);
    assert_eq!(v2.len(), v1.len());
}

#[test]
fn zero_size_skips_allocator() {
    let mut heap = Heap::new();
    let items: Vec<()> = Vec::new();
    let boxed: DstBox<UnitSliceDst> =
        DstBox::new_dst(&mut heap, 0, |u| u.init(UnitSliceDst { items })).unwrap();
    assert_eq!(boxed.len(), 0);
    assert_eq!(heap.live_allocations(), 0);
}

#[test]
fn failed_init_leaves_no_leak() {
    let mut heap = Heap::new();
    let r: Result<DstBox<StrDst>, TryAllocDstError<i32>> =
        DstBox::try_new_dst(&mut heap, 4, |_u| Err(7));
    assert!(matches!(r, Err(TryAllocDstError::Init(7))));
    assert_eq!(heap.live_allocations(), 0);
}

#[test]
fn successful_alloc_is_counted_and_released() {
    let mut heap = Heap::new();
    let boxed: DstBox<StrDst> = DstBox::new_dst(&mut heap, 2, |u| {
        u.init(StrDst {
            text: "ab".to_string(),
        })
    })
    .unwrap();
    assert_eq!(heap.live_allocations(), 1);
    let value = boxed.release(&mut heap);
    assert_eq!(value.text, "ab");
    assert_eq!(heap.live_allocations(), 0);
}

#[test]
fn mixed_layout_matches_field_order() {
    let l = MixedDst::layout(3).unwrap();
    assert_eq!(l.size(), 80);
    assert_eq!(l.align(), 16);

    let l0 = MixedDst::layout(0).unwrap();
    assert_eq!(l0.size(), 32);
    assert_eq!(l0.align(), 16);
}

#[test]
fn str_layout_is_bytes() {
    let l = StrDst::layout(11).unwrap();
    assert_eq!(l.size(), 11);
    assert_eq!(l.align(), 1);

    let z = UnitSliceDst::layout(7).unwrap();
    assert_eq!(z.size(), 0);
    assert_eq!(z.align(), 1);
}

#[test]
fn layout_extend_and_pad() {
    let (combined, offset) = MemLayout::of_u16().extend(MemLayout::of_word()).unwrap();
    assert_eq!(offset, 8);
    assert_eq!(combined.size(), 16);
    assert_eq!(combined.align(), 8);

    let (with_u32, off2) = combined.extend(MemLayout::of_u32()).unwrap();
    assert_eq!(off2, 16);
    assert_eq!(with_u32.size(), 20);

    let padded = with_u32.pad_to_align().unwrap();
    assert_eq!(padded.size(), 24);
    assert_eq!(padded.align(), 8);
}

#[test]
fn layout_overflow_is_reported() {
    assert!(MemLayout::array(MemLayout::of_u128(), usize::MAX / 4).is_err());
}
