use daub::ordered;
use daub::scene::{Layer, Scene};

const KIND_A: u64 = 1;
const KIND_B: u64 = 2;

#[derive(Debug, PartialEq)]
enum Primitive {
    A(u32),
    B,
}

#[test]
fn groups_interleaved_primitives_by_type() {
    let mut layer: Layer<(), Primitive> = Layer::new(());

    layer.push(KIND_A, Primitive::A(1));
    layer.push(KIND_B, Primitive::B);
    layer.push(KIND_A, Primitive::A(2));
    layer.push(KIND_B, Primitive::B);

    assert_eq!(layer.len(), 4);
    assert_eq!(layer.batch_count(), 2);

    let first = &layer.batches()[0];
    assert_eq!(first.kind(), KIND_A);
    assert_eq!(first.primitives().len(), 2);
    assert_eq!(first.primitives()[0], Primitive::A(1));
    assert_eq!(first.primitives()[1], Primitive::A(2));
}

#[test]
fn type_order_follows_first_appearance() {
    let mut layer: Layer<(), Primitive> = Layer::new(());

    layer.push(KIND_B, Primitive::B);
    layer.push(KIND_A, Primitive::A(1));
    layer.push(KIND_B, Primitive::B);

    let batches = layer.batches();
    assert_eq!(batches[0].kind(), KIND_B);
    assert_eq!(batches[1].kind(), KIND_A);
}

#[test]
fn scene_preserves_layer_order() {
    let mut first: Layer<(), Primitive> = Layer::new(());
    first.push(KIND_A, Primitive::A(1));
    let mut second = Layer::new(());
    second.push(KIND_B, Primitive::B);
    let mut scene = Scene::new();

    scene.push(first);
    scene.push(second);

    assert_eq!(scene.len(), 2);
    assert_eq!(scene.primitive_count(), 2);
    let layers = scene.layers();
    assert_eq!(layers[0].batches()[0].kind(), KIND_A);
    assert_eq!(layers[1].batches()[0].kind(), KIND_B);
}

#[test]
fn scene_can_be_created_from_owned_layers() {
    let mut first: Layer<(), Primitive> = Layer::new(());
    first.push(KIND_A, Primitive::A(1));
    let mut second = Layer::new(());
    second.push(KIND_B, Primitive::B);

    let scene = Scene::from_layers(vec![first, second]);

    assert_eq!(scene.len(), 2);
    assert_eq!(scene.primitive_count(), 2);
}

#[test]
fn scene_can_be_created_from_one_layer() {
    let mut layer: Layer<(), Primitive> = Layer::new(());
    layer.push(KIND_A, Primitive::A(1));

    let scene = Scene::from_layer(layer);

    assert_eq!(scene.len(), 1);
    assert_eq!(scene.primitive_count(), 1);
}

#[test]
fn scene_empty_extend_does_not_create_a_batch() {
    let mut layer: Layer<(), Primitive> = Layer::new(());
    layer.extend(KIND_A, Vec::new());
    assert!(layer.is_empty());
    assert_eq!(layer.batch_count(), 0);

    let mut scene: ordered::Scene<(), Primitive> = ordered::Scene::new(());
    scene.extend(KIND_A, Vec::new());
    assert!(scene.is_empty());
    assert_eq!(scene.batch_count(), 0);
}

#[test]
fn groups_consecutive_primitives() {
    let mut scene: ordered::Scene<(), Primitive> = ordered::Scene::new(());

    scene.push(KIND_A, Primitive::A(1));
    scene.push(KIND_A, Primitive::A(2));
    scene.push(KIND_B, Primitive::B);
    scene.push(KIND_B, Primitive::B);

    assert_eq!(scene.len(), 4);
    assert_eq!(scene.batch_count(), 2);

    let first = &scene.batches()[0];
    assert_eq!(first.kind(), KIND_A);
    assert_eq!(first.primitives().len(), 2);
    assert_eq!(first.primitives()[0], Primitive::A(1));
    assert_eq!(first.primitives()[1], Primitive::A(2));
}

#[test]
fn preserves_interleaved_submission_order() {
    let mut scene: ordered::Scene<(), Primitive> = ordered::Scene::new(());

    scene.push(KIND_A, Primitive::A(1));
    scene.push(KIND_B, Primitive::B);
    scene.push(KIND_A, Primitive::A(2));

    assert_eq!(scene.len(), 3);
    assert_eq!(scene.batch_count(), 3);

    let batches = scene.batches();
    assert_eq!(batches[0].kind(), KIND_A);
    assert_eq!(batches[1].kind(), KIND_B);
    assert_eq!(batches[2].kind(), KIND_A);
}

#[test]
fn batch_writer_appends_to_the_batch_of_its_kind() {
    let mut layer: Layer<&str, Primitive> = Layer::new("bounds");
    layer.push(KIND_B, Primitive::B);
    {
        let mut writer = layer.batch(KIND_A);
        assert!(writer.is_empty());
        writer.push(Primitive::A(3));
        writer.extend(vec![Primitive::A(4), Primitive::A(5)]);
        assert_eq!(writer.len(), 3);
    }
    {
        let mut writer = layer.batch(KIND_B);
        writer.push(Primitive::B);
    }
    assert_eq!(layer.clip_bounds, "bounds");
    assert_eq!(layer.batch_count(), 2);
    assert_eq!(layer.batches()[0].len(), 2);
    assert_eq!(layer.batches()[1].primitives(), &[Primitive::A(3), Primitive::A(4), Primitive::A(5)]);
    assert_eq!(layer.len(), 5);
}

#[test]
fn a_new_batch_without_primitives_is_counted_but_empty() {
    let mut layer: Layer<(), Primitive> = Layer::new(());
    let _ = layer.batch(KIND_A);
    assert_eq!(layer.batch_count(), 1);
    assert!(layer.is_empty());
    layer.clear();
    assert_eq!(layer.batch_count(), 0);

    let mut scene: ordered::Scene<(), Primitive> = ordered::Scene::new(());
    scene.push(KIND_A, Primitive::A(1));
    let _ = scene.batch(KIND_A);
    assert_eq!(scene.batch_count(), 1);
    let _ = scene.batch(KIND_B);
    assert_eq!(scene.batch_count(), 2);
    assert!(!scene.is_empty());
    scene.clear();
    assert!(scene.is_empty());
}

#[test]
fn extend_joins_the_existing_batch() {
    let mut layer: Layer<(), Primitive> = Layer::new(());
    layer.push(KIND_A, Primitive::A(1));
    layer.push(KIND_B, Primitive::B);
    layer.extend(KIND_A, vec![Primitive::A(2), Primitive::A(3)]);
    assert_eq!(layer.batch_count(), 2);
    assert_eq!(layer.batches()[0].primitives(), &[Primitive::A(1), Primitive::A(2), Primitive::A(3)]);

    let mut scene: ordered::Scene<(), Primitive> = ordered::Scene::new(());
    scene.push(KIND_A, Primitive::A(1));
    scene.extend(KIND_A, vec![Primitive::A(2)]);
    scene.extend(KIND_B, vec![Primitive::B]);
    assert_eq!(scene.batch_count(), 2);
    assert_eq!(scene.len(), 3);
}

#[test]
fn scene_extend_and_clear() {
    let mut scene: Scene<(), Primitive> = Scene::new();
    assert!(scene.is_empty());
    scene.extend(vec![Layer::new(()), Layer::new(())]);
    assert_eq!(scene.len(), 2);
    assert_eq!(scene.primitive_count(), 0);
    scene.clear();
    assert!(scene.is_empty());
}
