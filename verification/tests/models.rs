use block_byte::coord::Vec3;
use block_byte::face::Face;
use block_byte::model::{
    AnimatorChannel, BBAnimation, BBElement, BBFace, BBGroup, BBKeyframe, BBMeshFace, BBModel,
    BBOutliner, BBTexture, Element, Model, ModelTexture, NamedValue, Sample,
};
use block_byte::registry::{LoadRegistry, TextureData};
use block_byte::vertices::TexCoords;

fn at(x: i32) -> Vec3<i32> {
    Vec3 { x, y: x + 1, z: x + 2 }
}

fn named<V>(name: &str, value: V) -> NamedValue<V> {
    NamedValue { name: name.to_string(), value }
}

fn cube(uuid: &str, visibility: bool) -> BBElement<i32> {
    let names = ["north", "south", "up", "down", "west", "east"];
    BBElement::Cube {
        uuid: uuid.to_string(),
        from: at(0),
        to: at(10),
        origin: at(5),
        rotation: at(90),
        faces: names
            .iter()
            .enumerate()
            .map(|(i, name)| {
                let u = i as i32;
                named(
                    name,
                    BBFace {
                        uv: TexCoords { u1: u, v1: 0, u2: u + 1, v2: 1 },
                        texture: 0,
                        rotation: 450,
                    },
                )
            })
            .collect(),
        visibility,
    }
}

fn locator(uuid: &str, name: &str) -> BBElement<i32> {
    BBElement::Locator {
        uuid: uuid.to_string(),
        position: at(3),
        rotation: at(0),
        name: name.to_string(),
        visibility: true,
    }
}

fn mesh(uuid: &str, corners: usize) -> BBElement<i32> {
    BBElement::Mesh {
        uuid: uuid.to_string(),
        origin: at(1),
        rotation: at(2),
        vertices: (0..4).map(|i| named(&format!("v{}", i), at(i))).collect(),
        faces: vec![BBMeshFace {
            uv: (0..4).map(|i| named(&format!("v{}", i), [i, i * 2])).collect(),
            vertices: (0..corners).map(|i| format!("v{}", i)).collect(),
            texture: 0,
        }],
        visibility: true,
    }
}

fn keyframe(channel: AnimatorChannel, order: i64) -> BBKeyframe<i32> {
    BBKeyframe { channel, time: order as i32, order, data_points: vec![at(order as i32)] }
}

fn texture(name: &str) -> BBTexture<i32> {
    BBTexture { uv_width: 16, uv_height: 32, name: name.to_string(), source: "data".to_string() }
}

fn model() -> BBModel<i32> {
    BBModel {
        elements: vec![
            cube("c", true),
            cube("hidden", false),
            locator("l", "hand"),
            mesh("m", 4),
        ],
        outliner: vec![
            BBOutliner::Element("c".to_string()),
            BBOutliner::Element("hidden".to_string()),
            BBOutliner::Group {
                uuid: "g".to_string(),
                children: vec![
                    BBOutliner::Element("m".to_string()),
                    BBOutliner::Element("l".to_string()),
                ],
            },
        ],
        groups: vec![BBGroup { uuid: "g".to_string(), origin: at(7) }],
        animations: vec![BBAnimation {
            name: "walk".to_string(),
            animators: vec![named(
                "g",
                vec![
                    keyframe(AnimatorChannel::Rotation, 20),
                    keyframe(AnimatorChannel::Scale, 1),
                    keyframe(AnimatorChannel::Rotation, 10),
                ],
            )],
        }],
        textures: vec![texture("a.png"), texture("$3"), texture("@stone"), texture("b.png")],
    }
}

fn textures() -> LoadRegistry<TextureData> {
    let mut textures = LoadRegistry::default();
    textures.register("stone".to_string(), String::new());
    textures
}

#[test]
fn models_have_bones() {
    let model = Model::from_bbmodel(&model(), &textures());
    let root = &model.root_bone;
    assert!(root.origin.is_none());
    assert_eq!(root.elements.len(), 1);
    assert_eq!(root.children.len(), 1);
    match &root.elements[0] {
        Element::Cube { from, uvs, .. } => {
            assert_eq!(*from, at(0));
            let (coords, rotation, texture) = uvs.by_face(Face::Back);
            assert_eq!((coords.u1, *rotation, *texture), (1, 1, 0));
            assert_eq!(uvs.by_face(Face::Left).0.u1, 4);
        }
        _ => panic!("the part is a cube"),
    }
    let bone = &root.children[0];
    assert_eq!(bone.origin, Some(at(7)));
    assert_eq!(bone.elements.len(), 2);
    match &bone.elements[0] {
        Element::Mesh { faces, .. } => {
            assert_eq!(faces.len(), 1);
            assert_eq!(faces[0].vertices[2], (at(2), [2, 4]));
        }
        _ => panic!("the part is a mesh"),
    }
}

#[test]
fn models_name_textures() {
    let model = Model::from_bbmodel(&model(), &textures());
    assert!(matches!(&model.textures[0].0, ModelTexture::Embed(source, 0) if source == "data"));
    assert!(matches!(model.textures[1].0, ModelTexture::Variable(3)));
    assert!(matches!(&model.textures[2].0, ModelTexture::Texture(key) if key.numeric_id() == 0));
    assert!(matches!(model.textures[3].0, ModelTexture::Embed(_, 1)));
    assert_eq!((model.textures[3].1, model.textures[3].2), (16, 32));
}

#[test]
fn animations_are_sampled() {
    let model = Model::from_bbmodel(&model(), &textures());
    assert_eq!(model.animation("walk"), Some(0));
    assert_eq!(model.animation("run"), None);
    let walk = &model.root_bone.children[0].animators[0];
    assert!(walk.sample(AnimatorChannel::Translation, 15).is_none());
    assert!(matches!(
        walk.sample(AnimatorChannel::Rotation, 5),
        Some(Sample::At(data)) if data == at(10)
    ));
    match walk.sample(AnimatorChannel::Rotation, 15) {
        Some(Sample::Between(a, b)) => assert_eq!((a.order, b.order), (10, 20)),
        _ => panic!("the time lies between two keyframes"),
    }
    assert!(matches!(
        walk.sample(AnimatorChannel::Rotation, 25),
        Some(Sample::At(data)) if data == at(20)
    ));
    assert!(model.root_bone.animators[0].position.is_empty());
}

#[test]
fn anchors_are_found() {
    let model = Model::from_bbmodel(&model(), &textures());
    let path = model.anchor("hand").unwrap();
    assert_eq!(path.way, vec![0]);
    assert_eq!(path.element, 1);
    assert!(model.anchor("foot").is_none());
}

#[test]
fn broken_models_are_refused() {
    let mut missing = model();
    missing.outliner.push(BBOutliner::Element("nothing".to_string()));
    assert!(Model::try_from_bbmodel(&missing, &textures()).is_none());
    let mut triangle = model();
    triangle.elements.push(mesh("t", 3));
    triangle.outliner.push(BBOutliner::Element("t".to_string()));
    assert!(Model::try_from_bbmodel(&triangle, &textures()).is_none());
    let mut unknown = model();
    unknown.textures.push(texture("@wood"));
    assert!(Model::try_from_bbmodel(&unknown, &textures()).is_none());
    let mut empty = model();
    empty.animations[0].animators[0].value[0].data_points.clear();
    assert!(Model::try_from_bbmodel(&empty, &textures()).is_none());
    assert!(Model::try_from_bbmodel(&model(), &textures()).is_some());
}
