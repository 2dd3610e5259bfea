use binpatch::Patch;
use binpatch::PatchDescriptor;
use binpatch::PatchError;

fn beef_to_face() -> PatchDescriptor {
    PatchDescriptor { location: 2, before: vec![0xbe, 0xef], after: vec![0xfa, 0xce] }
}

#[test]
fn scenario_patch_twice_then_unpatch() {
    let d = beef_to_face();
    let mut buf: Vec<u8> = vec![0xde, 0xad, 0xbe, 0xef];

    assert_eq!(d.patch(&mut buf), Ok(()));
    assert_eq!(buf, vec![0xde, 0xad, 0xfa, 0xce]);

    assert_eq!(d.patch(&mut buf), Err(PatchError::AlreadyPatched));
    assert_eq!(buf, vec![0xde, 0xad, 0xfa, 0xce]);

    assert_eq!(d.unpatch(&mut buf), Ok(()));
    assert_eq!(buf, vec![0xde, 0xad, 0xbe, 0xef]);
}

#[test]
fn unpatch_twice_reports_already_unpatched() {
    let d = beef_to_face();
    let mut buf: Vec<u8> = vec![0xde, 0xad, 0xfa, 0xce];

    assert_eq!(d.unpatch(&mut buf), Ok(()));
    assert_eq!(buf, vec![0xde, 0xad, 0xbe, 0xef]);

    assert_eq!(d.unpatch(&mut buf), Err(PatchError::AlreadyUnpatched));
    assert_eq!(buf, vec![0xde, 0xad, 0xbe, 0xef]);
}

#[test]
fn unpatch_on_never_patched_buffer() {
    let d = beef_to_face();
    let mut buf: Vec<u8> = vec![0xde, 0xad, 0xbe, 0xef];

    assert_eq!(d.unpatch(&mut buf), Err(PatchError::AlreadyUnpatched));
    assert_eq!(buf, vec![0xde, 0xad, 0xbe, 0xef]);
}

#[test]
fn modified_region_rejected_both_ways() {
    let d = PatchDescriptor { location: 0, before: vec![1, 2], after: vec![3, 4] };
    let mut buf: Vec<u8> = vec![9, 9, 9];

    assert_eq!(d.patch(&mut buf), Err(PatchError::BinaryModified));
    assert_eq!(buf, vec![9, 9, 9]);

    assert_eq!(d.unpatch(&mut buf), Err(PatchError::BinaryModified));
    assert_eq!(buf, vec![9, 9, 9]);
}

#[test]
fn region_past_end_reports_read_fail() {
    let d = PatchDescriptor { location: 3, before: vec![1, 2], after: vec![3, 4] };
    let mut buf: Vec<u8> = vec![1, 2, 3, 4];

    assert_eq!(d.patch(&mut buf), Err(PatchError::ReadFail));
    assert_eq!(buf, vec![1, 2, 3, 4]);

    assert_eq!(d.unpatch(&mut buf), Err(PatchError::ReadFail));
    assert_eq!(buf, vec![1, 2, 3, 4]);
}

#[test]
fn location_past_end_reports_read_fail() {
    let d = PatchDescriptor { location: 10, before: vec![1], after: vec![2] };
    let mut buf: Vec<u8> = vec![1, 2];

    assert_eq!(d.patch(&mut buf), Err(PatchError::ReadFail));
    assert_eq!(buf, vec![1, 2]);
}

#[test]
fn composite_fails_fast_and_skips_later_members() {
    let d1 = PatchDescriptor { location: 0, before: vec![0xff], after: vec![0x00] };
    let d2 = PatchDescriptor { location: 1, before: vec![0xbb], after: vec![0xcc] };
    let composite = Patch::Composite(vec![Patch::Leaf(d1), Patch::Leaf(d2)]);
    let mut buf: Vec<u8> = vec![0xaa, 0xbb];

    assert_eq!(composite.patch(&mut buf), Err(PatchError::BinaryModified));
    assert_eq!(buf[1], 0xbb);
    assert_eq!(buf, vec![0xaa, 0xbb]);
}

#[test]
fn composite_keeps_earlier_effects_on_failure() {
    let d1 = PatchDescriptor { location: 0, before: vec![0xaa], after: vec![0x11] };
    let d2 = PatchDescriptor { location: 1, before: vec![0xff], after: vec![0x22] };
    let composite = Patch::Composite(vec![Patch::Leaf(d1), Patch::Leaf(d2)]);
    let mut buf: Vec<u8> = vec![0xaa, 0xbb];

    assert_eq!(composite.patch(&mut buf), Err(PatchError::BinaryModified));
    assert_eq!(buf, vec![0x11, 0xbb]);
}

#[test]
fn composite_patch_and_unpatch_all_members() {
    let d1 = PatchDescriptor { location: 0, before: vec![1], after: vec![7] };
    let d2 = PatchDescriptor { location: 2, before: vec![3, 4], after: vec![8, 9] };
    let composite = Patch::Composite(vec![Patch::Leaf(d1), Patch::Leaf(d2)]);
    let mut buf: Vec<u8> = vec![1, 2, 3, 4, 5];

    assert_eq!(composite.patch(&mut buf), Ok(()));
    assert_eq!(buf, vec![7, 2, 8, 9, 5]);

    assert_eq!(composite.unpatch(&mut buf), Ok(()));
    assert_eq!(buf, vec![1, 2, 3, 4, 5]);
}

#[test]
fn nested_composite_behaves_like_flat() {
    let mk = |loc: usize, b: u8, a: u8| PatchDescriptor {
        location: loc,
        before: vec![b],
        after: vec![a],
    };
    let nested = Patch::Composite(vec![
        Patch::Composite(vec![Patch::Leaf(mk(0, 1, 11)), Patch::Leaf(mk(1, 2, 12))]),
        Patch::Leaf(mk(2, 3, 13)),
    ]);
    let flat = Patch::Composite(vec![
        Patch::Leaf(mk(0, 1, 11)),
        Patch::Leaf(mk(1, 2, 12)),
        Patch::Leaf(mk(2, 3, 13)),
    ]);

    let mut buf_nested: Vec<u8> = vec![1, 2, 3];
    let mut buf_flat: Vec<u8> = vec![1, 2, 3];
    assert_eq!(nested.patch(&mut buf_nested), Ok(()));
    assert_eq!(flat.patch(&mut buf_flat), Ok(()));
    assert_eq!(buf_nested, buf_flat);
    assert_eq!(buf_nested, vec![11, 12, 13]);

    assert_eq!(nested.unpatch(&mut buf_nested), Ok(()));
    assert_eq!(flat.unpatch(&mut buf_flat), Ok(()));
    assert_eq!(buf_nested, buf_flat);
    assert_eq!(buf_nested, vec![1, 2, 3]);

    // A failing member inside the nest surfaces identically too.
    let mut bad_nested: Vec<u8> = vec![1, 9, 3];
    let mut bad_flat: Vec<u8> = vec![1, 9, 3];
    assert_eq!(nested.patch(&mut bad_nested), Err(PatchError::BinaryModified));
    assert_eq!(flat.patch(&mut bad_flat), Err(PatchError::BinaryModified));
    assert_eq!(bad_nested, bad_flat);
    assert_eq!(bad_nested, vec![11, 9, 3]);
}

#[test]
fn empty_composite_succeeds_without_touching_buffer() {
    let composite = Patch::Composite(vec![]);
    let mut buf: Vec<u8> = vec![1, 2, 3];

    assert_eq!(composite.patch(&mut buf), Ok(()));
    assert_eq!(buf, vec![1, 2, 3]);
    assert_eq!(composite.unpatch(&mut buf), Ok(()));
    assert_eq!(buf, vec![1, 2, 3]);
}

#[test]
fn noop_descriptor_always_patches() {
    let d = PatchDescriptor { location: 1, before: vec![5], after: vec![5] };
    let mut buf: Vec<u8> = vec![4, 5, 6];

    assert_eq!(d.patch(&mut buf), Ok(()));
    assert_eq!(d.patch(&mut buf), Ok(()));
    assert_eq!(buf, vec![4, 5, 6]);
}

#[test]
fn replacement_may_change_region_width() {
    let d = PatchDescriptor { location: 1, before: vec![0xbe, 0xef], after: vec![0xfa] };
    let mut buf: Vec<u8> = vec![0, 0xbe, 0xef, 9];

    assert_eq!(d.patch(&mut buf), Ok(()));
    assert_eq!(buf, vec![0, 0xfa, 9]);

    assert_eq!(d.unpatch(&mut buf), Ok(()));
    assert_eq!(buf, vec![0, 0xbe, 0xef, 9]);
}

#[test]
fn empty_before_inserts_at_location() {
    let d = PatchDescriptor { location: 2, before: vec![], after: vec![0x42] };
    let mut buf: Vec<u8> = vec![1, 2, 3];

    assert_eq!(d.patch(&mut buf), Ok(()));
    assert_eq!(buf, vec![1, 2, 0x42, 3]);
}

#[test]
fn patch_at_buffer_boundary() {
    let d = PatchDescriptor { location: 2, before: vec![3, 4], after: vec![5, 6] };
    let mut buf: Vec<u8> = vec![1, 2, 3, 4];

    assert_eq!(d.patch(&mut buf), Ok(()));
    assert_eq!(buf, vec![1, 2, 5, 6]);
}
