use keru::{PodSlab, PodSlabElement, PodSlabMetadata};

#[derive(Copy, Clone, Debug)]
struct Vertex {
    position: [f32; 4],
    normal: [f32; 4],
    color: [f32; 4],
    filled: usize,
    next_free: usize,
}

impl PodSlabElement for Vertex {
    fn spec_metadata(&self) -> PodSlabMetadata {
        self.metadata()
    }

    fn spec_with_metadata(&self, m: PodSlabMetadata) -> Self {
        let mut v = *self;
        v.set_metadata(m);
        v
    }

    fn metadata(&self) -> PodSlabMetadata {
        if self.filled == 0 {
            return PodSlabMetadata::Vacant { next_free: self.next_free };
        } else {
            return PodSlabMetadata::Filled;
        }
    }

    fn set_metadata(&mut self, metadata: PodSlabMetadata) {
        match metadata {
            PodSlabMetadata::Filled => self.filled = 1,
            PodSlabMetadata::Vacant { next_free } => {
                self.filled = 0;
                self.next_free = next_free;
            }
        }
    }

    fn spec_zeroed() -> Self {
        Self::zeroed()
    }

    fn zeroed() -> Self {
        Vertex { position: [0.0; 4], normal: [0.0; 4], color: [0.0; 4], filled: 0, next_free: 0 }
    }
}

fn create_test_vertex(pos: f32) -> Vertex {
    Vertex {
        position: [pos, 0.0, 0.0, 1.0],
        normal: [0.0, 1.0, 0.0, 0.0],
        color: [1.0, 1.0, 1.0, 1.0],
        filled: 0,
        next_free: 0,
    }
}

#[test]
fn test_basic_insertion() {
    let mut slab = PodSlab::new();
    let v1 = create_test_vertex(1.0);
    let v2 = create_test_vertex(2.0);

    let idx1 = slab.insert(v1);
    let idx2 = slab.insert(v2);

    assert_eq!(idx1, 0);
    assert_eq!(idx2, 1);
    assert_eq!(slab.get(idx1).unwrap().position[0], 1.0);
    assert_eq!(slab.get(idx2).unwrap().position[0], 2.0);
}

#[test]
fn removed_slot_is_reused_first() {
    let mut slab = PodSlab::new();
    let a = slab.insert(create_test_vertex(1.0));
    let b = slab.insert(create_test_vertex(2.0));
    let c = slab.insert(create_test_vertex(3.0));
    assert_eq!((a, b, c), (0, 1, 2));

    let removed = slab.remove(b).unwrap();
    assert_eq!(removed.position[0], 2.0);
    assert!(slab.get(b).is_none());
    assert!(slab.remove(b).is_none());

    let d = slab.insert(create_test_vertex(4.0));
    assert_eq!(d, b);
    assert_eq!(slab.get(d).unwrap().position[0], 4.0);
    let e = slab.insert(create_test_vertex(5.0));
    assert_eq!(e, 3);
}

#[test]
fn free_list_is_lifo() {
    let mut slab = PodSlab::new();
    for i in 0..4 {
        slab.insert(create_test_vertex(i as f32));
    }
    slab.remove(1);
    slab.remove(3);
    assert_eq!(slab.insert(create_test_vertex(10.0)), 3);
    assert_eq!(slab.insert(create_test_vertex(11.0)), 1);
    assert_eq!(slab.insert(create_test_vertex(12.0)), 4);
}

#[test]
fn iter_skips_vacant_and_as_slice_keeps_them() {
    let mut slab = PodSlab::new();
    for i in 0..3 {
        slab.insert(create_test_vertex(i as f32));
    }
    slab.remove(1);
    let filled: Vec<f32> = slab.iter().iter().map(|v| v.position[0]).collect();
    assert_eq!(filled, vec![0.0, 2.0]);
    assert_eq!(slab.as_slice().len(), 3);
    assert_eq!(slab.as_slice()[1].filled, 0);
    assert_eq!(slab.as_slice()[1].next_free, 3);
    assert_eq!(slab.as_slice()[1].position, [0.0; 4]);
    assert_eq!(slab.as_slice()[2].position[0], 2.0);
}

#[test]
fn out_of_range_get_and_remove() {
    let mut slab: PodSlab<Vertex> = PodSlab::new();
    assert!(slab.get(0).is_none());
    assert!(slab.remove(5).is_none());
}

#[test]
fn iter_mut_updates_only_the_filled_elements() {
    let mut slab = PodSlab::new();
    let a = slab.insert(create_test_vertex(1.0));
    let b = slab.insert(create_test_vertex(2.0));
    let c = slab.insert(create_test_vertex(3.0));
    slab.remove(b);
    slab.iter_mut(|mut v: Vertex| {
        v.position[0] += 10.0;
        v
    });
    assert_eq!(slab.get(a).unwrap().position[0], 11.0);
    assert_eq!(slab.get(c).unwrap().position[0], 13.0);
    assert!(slab.get(b).is_none());
    assert_eq!(slab.as_slice()[b].position[0], 0.0);
    assert_eq!(slab.iter().len(), 2);
}
