//! Models that are made of bones, and the animations that move them.

use crate::coord::Vec3;
use crate::face::{Face, FaceMap};
use crate::registry::{Key, LoadRegistry, TextureData};
use crate::sorted::{is_sorted_order, sorted_order};
use crate::text::{self, parse_unsigned_spec};
use crate::vertices::TexCoords;
use vstd::prelude::*;

verus! {

/// What has a name.
pub trait Named {
    spec fn name_spec(&self) -> Seq<char>;

    fn name(&self) -> (r: &str)
        ensures
            r@ == self.name_spec(),
    ;
}

/// A value with a name.
pub struct NamedValue<V> {
    pub name: String,
    pub value: V,
}

impl<V> Named for NamedValue<V> {
    open spec fn name_spec(&self) -> Seq<char> {
        self.name@
    }

    fn name(&self) -> (r: &str) {
        self.name.as_str()
    }
}

/// The place of the last of the first `n` entries that has a name.
pub open spec fn last_named<T: Named>(list: Seq<T>, name: Seq<char>, n: int) -> Option<int>
    decreases n,
{
    if n <= 0 {
        None
    } else if list[n - 1].name_spec() == name {
        Some(n - 1)
    } else {
        last_named(list, name, n - 1)
    }
}

/// The entry of a list that has a name: the last one.
pub open spec fn named<T: Named>(list: Seq<T>, name: Seq<char>) -> Option<T> {
    match last_named(list, name, list.len() as int) {
        Some(i) => Some(list[i]),
        None => None,
    }
}

/// The entry of a list that has a name: the last one.
fn find_named<'a, T: Named>(list: &'a Vec<T>, name: &str) -> (r: Option<&'a T>)
    ensures
        match r {
            Some(entry) => named(list@, name@) == Some(*entry),
            None => named(list@, name@) is None,
        },
{
    let mut i: usize = list.len();
    while i > 0
        invariant
            i <= list@.len(),
            last_named(list@, name@, list@.len() as int) == last_named(list@, name@, i as int),
        decreases i,
    {
        i -= 1;
        if text::equals(list[i].name(), name) {
            return Some(&list[i]);
        }
    }
    None
}

#[derive(Copy, Clone, PartialEq, Eq, Structural, Debug)]
pub enum AnimatorChannel {
    Translation,
    Rotation,
    Scale,
}

/// A texture of a model file. `F` is the type of numbers.
pub struct BBTexture<F: Copy> {
    pub uv_width: F,
    pub uv_height: F,
    pub name: String,
    pub source: String,
}

/// A side of a cube; the rectangle is given in pixels of the texture.
#[derive(Copy, Clone)]
pub struct BBFace<F: Copy> {
    pub uv: TexCoords<F>,
    pub texture: usize,
    /// In degrees.
    pub rotation: u32,
}

/// A side of a mesh: the names of its corners, and where they lie on the texture, in pixels.
pub struct BBMeshFace<F: Copy> {
    pub uv: Vec<NamedValue<[F; 2]>>,
    pub vertices: Vec<String>,
    pub texture: usize,
}

/// A part of a model file.
pub enum BBElement<F: Copy> {
    Cube {
        uuid: String,
        from: Vec3<F>,
        to: Vec3<F>,
        origin: Vec3<F>,
        rotation: Vec3<F>,
        faces: Vec<NamedValue<BBFace<F>>>,
        visibility: bool,
    },
    Locator { uuid: String, position: Vec3<F>, rotation: Vec3<F>, name: String, visibility: bool },
    Mesh {
        uuid: String,
        origin: Vec3<F>,
        rotation: Vec3<F>,
        vertices: Vec<NamedValue<Vec3<F>>>,
        faces: Vec<BBMeshFace<F>>,
        visibility: bool,
    },
}

impl<F: Copy> Named for BBElement<F> {
    open spec fn name_spec(&self) -> Seq<char> {
        match self {
            BBElement::Cube { uuid, .. } => uuid@,
            BBElement::Locator { uuid, .. } => uuid@,
            BBElement::Mesh { uuid, .. } => uuid@,
        }
    }

    fn name(&self) -> (r: &str) {
        match self {
            BBElement::Cube { uuid, .. } => uuid.as_str(),
            BBElement::Locator { uuid, .. } => uuid.as_str(),
            BBElement::Mesh { uuid, .. } => uuid.as_str(),
        }
    }
}

impl<F: Copy> BBElement<F> {
    pub open spec fn visible(self) -> bool {
        match self {
            BBElement::Cube { visibility, .. } => visibility,
            BBElement::Locator { visibility, .. } => visibility,
            BBElement::Mesh { visibility, .. } => visibility,
        }
    }

    /// The name by which the outline calls the part.
    pub fn uuid(&self) -> (r: &str)
        ensures
            r@ == self.name_spec(),
    {
        self.name()
    }

    fn is_visible(&self) -> (r: bool)
        ensures
            r == self.visible(),
    {
        match self {
            BBElement::Cube { visibility, .. } => *visibility,
            BBElement::Locator { visibility, .. } => *visibility,
            BBElement::Mesh { visibility, .. } => *visibility,
        }
    }
}

/// How the parts of a model file are grouped.
pub enum BBOutliner {
    Group { uuid: String, children: Vec<BBOutliner> },
    Element(String),
}

/// A group of a model file.
pub struct BBGroup<F: Copy> {
    pub uuid: String,
    pub origin: Vec3<F>,
}

impl<F: Copy> Named for BBGroup<F> {
    open spec fn name_spec(&self) -> Seq<char> {
        self.uuid@
    }

    fn name(&self) -> (r: &str) {
        self.uuid.as_str()
    }
}

/// A keyframe of a model file. `order` orders keyframes as their times do.
pub struct BBKeyframe<F: Copy> {
    pub channel: AnimatorChannel,
    pub time: F,
    pub order: i64,
    pub data_points: Vec<Vec3<F>>,
}

/// An animation of a model file: the keyframes of each group.
pub struct BBAnimation<F: Copy> {
    pub name: String,
    pub animators: Vec<NamedValue<Vec<BBKeyframe<F>>>>,
}

impl<F: Copy> Named for BBAnimation<F> {
    open spec fn name_spec(&self) -> Seq<char> {
        self.name@
    }

    fn name(&self) -> (r: &str) {
        self.name.as_str()
    }
}

/// What a model file holds.
pub struct BBModel<F: Copy> {
    pub elements: Vec<BBElement<F>>,
    pub outliner: Vec<BBOutliner>,
    pub groups: Vec<BBGroup<F>>,
    pub animations: Vec<BBAnimation<F>>,
    pub textures: Vec<BBTexture<F>>,
}

/// A point in time and what the bone is like then. `order` orders keyframes as their times do.
#[derive(Copy, Clone)]
pub struct Keyframe<F: Copy> {
    pub time: F,
    pub order: i64,
    pub data: Vec3<F>,
}

/// What one animation does to a bone.
pub struct BoneAnimation<F: Copy> {
    pub position: Vec<Keyframe<F>>,
    pub rotation: Vec<Keyframe<F>>,
    pub scale: Vec<Keyframe<F>>,
}

/// What a bone is like at some time.
#[derive(Copy, Clone)]
pub enum Sample<F: Copy> {
    At(Vec3<F>),
    /// Between two keyframes.
    Between(Keyframe<F>, Keyframe<F>),
}

/// What a bone is like at a time: the first two keyframes from `i` on that the time lies between,
/// or else the last keyframe.
pub open spec fn sample_from<F: Copy>(frames: Seq<Keyframe<F>>, time: i64, i: int) -> Sample<F>
    decreases frames.len() - i,
{
    if i + 1 >= frames.len() {
        Sample::At(frames.last().data)
    } else if frames[i].order <= time <= frames[i + 1].order {
        Sample::Between(frames[i], frames[i + 1])
    } else {
        sample_from(frames, time, i + 1)
    }
}

impl<F: Copy> BoneAnimation<F> {
    /// The keyframes of a channel.
    pub open spec fn frames(self, channel: AnimatorChannel) -> Seq<Keyframe<F>> {
        match channel {
            AnimatorChannel::Translation => self.position@,
            AnimatorChannel::Rotation => self.rotation@,
            AnimatorChannel::Scale => self.scale@,
        }
    }

    /// What the bone is like at a time, which is given by the number that orders it among the
    /// keyframes.
    pub fn sample(&self, channel: AnimatorChannel, time: i64) -> (r: Option<Sample<F>>)
        ensures
            r == if self.frames(channel).len() == 0 {
                None
            } else if time <= self.frames(channel)[0].order {
                Some(Sample::At(self.frames(channel)[0].data))
            } else {
                Some(sample_from(self.frames(channel), time, 0))
            },
    {
        let frames = match channel {
            AnimatorChannel::Translation => &self.position,
            AnimatorChannel::Rotation => &self.rotation,
            AnimatorChannel::Scale => &self.scale,
        };
        if frames.is_empty() {
            return None;
        }
        if time <= frames[0].order {
            return Some(Sample::At(frames[0].data));
        }
        let mut i: usize = 0;
        while i < frames.len() - 1
            invariant
                i < frames@.len(),
                frames@ == self.frames(channel),
                time > frames@[0].order,
                sample_from(frames@, time, 0) == sample_from(frames@, time, i as int),
            decreases frames@.len() - i,
        {
            if frames[i].order <= time && time <= frames[i + 1].order {
                return Some(Sample::Between(frames[i], frames[i + 1]));
            }
            i += 1;
        }
        Some(Sample::At(frames[frames.len() - 1].data))
    }
}

/// Of keyframes in order, a time after the first lies between two neighbours, and one after all
/// of them belongs to the last.
pub proof fn law_sample_is_near<F: Copy>(frames: Seq<Keyframe<F>>, time: i64, i: int)
    requires
        0 <= i < frames.len(),
        frames[i].order <= time,
        forall|a: int, b: int|
            0 <= a < b < frames.len() ==> (#[trigger] frames[a]).order <= (#[trigger] frames[b]).order,
    ensures
        time > frames.last().order ==> sample_from(frames, time, i) == Sample::At(
            frames.last().data,
        ),
        time <= frames.last().order && i + 1 < frames.len() ==> (sample_from(frames, time, i)
            matches Sample::Between(a, b) && a.order <= time <= b.order),
    decreases frames.len() - i,
{
    if i + 1 < frames.len() {
        if time > frames[i + 1].order {
            law_sample_is_near(frames, time, i + 1);
        } else {
            assert(time <= frames[i + 1].order);
            if i + 1 < frames.len() - 1 {
                assert(frames[i + 1].order <= frames[frames.len() - 1].order);
            }
        }
    }
}

/// The keyframes of a channel among the first `n`.
pub open spec fn of_channel<F: Copy>(
    keyframes: Seq<BBKeyframe<F>>,
    channel: AnimatorChannel,
    n: int,
) -> Seq<Keyframe<F>>
    decreases n,
{
    if n <= 0 {
        Seq::empty()
    } else {
        let before = of_channel(keyframes, channel, n - 1);
        let keyframe = keyframes[n - 1];
        if keyframe.channel == channel {
            before.push(
                Keyframe {
                    time: keyframe.time,
                    order: keyframe.order,
                    data: keyframe.data_points@[0],
                },
            )
        } else {
            before
        }
    }
}

/// The numbers that order keyframes.
pub open spec fn orders<F: Copy>(frames: Seq<Keyframe<F>>) -> Seq<i64> {
    frames.map_values(|frame: Keyframe<F>| frame.order)
}

/// Whether `sorted` lists `frames` by time; keyframes at the same time keep their order.
pub open spec fn is_sorted_by_time<F: Copy>(
    frames: Seq<Keyframe<F>>,
    sorted: Seq<Keyframe<F>>,
) -> bool {
    exists|order: Seq<usize>| #[trigger]
        is_sorted_order(orders(frames), false, frames.len() as int, order) && sorted == Seq::new(
            frames.len(),
            |i: int| frames[order[i] as int],
        )
}

fn sort_by_time<F: Copy>(frames: &Vec<Keyframe<F>>) -> (r: Vec<Keyframe<F>>)
    ensures
        is_sorted_by_time(frames@, r@),
{
    let mut keys: Vec<i64> = Vec::new();
    let mut i: usize = 0;
    while i < frames.len()
        invariant
            i <= frames@.len(),
            keys@ == orders(frames@).take(i as int),
        decreases frames@.len() - i,
    {
        keys.push(frames[i].order);
        i += 1;
        assert(keys@ =~= orders(frames@).take(i as int));
    }
    assert(keys@ =~= orders(frames@));
    let order = sorted_order(&keys, false);
    let mut r: Vec<Keyframe<F>> = Vec::new();
    let mut i: usize = 0;
    while i < order.len()
        invariant
            i <= order@.len(),
            order@.len() == frames@.len(),
            is_sorted_order(orders(frames@), false, frames@.len() as int, order@),
            r@ == Seq::new(i as nat, |j: int| frames@[order@[j] as int]),
        decreases order@.len() - i,
    {
        r.push(frames[order[i]]);
        i += 1;
        assert(r@ =~= Seq::new(i as nat, |j: int| frames@[order@[j] as int]));
    }
    r
}

/// The keyframes that an animation has for a group.
pub open spec fn keyframes_of<F: Copy>(
    animation: BBAnimation<F>,
    uuid: Option<Seq<char>>,
) -> Seq<BBKeyframe<F>> {
    match uuid {
        Some(uuid) => match named(animation.animators@, uuid) {
            Some(animator) => animator.value@,
            None => Seq::empty(),
        },
        None => Seq::empty(),
    }
}

/// Whether every keyframe of a group has a value.
pub open spec fn have_data<F: Copy>(keyframes: Seq<BBKeyframe<F>>) -> bool {
    forall|i: int| 0 <= i < keyframes.len() ==> (#[trigger] keyframes[i]).data_points@.len() > 0
}

/// Whether a bone's animation is made of these keyframes.
pub open spec fn is_bone_animation<F: Copy>(
    bone: BoneAnimation<F>,
    keyframes: Seq<BBKeyframe<F>>,
) -> bool {
    forall|channel: AnimatorChannel|
        is_sorted_by_time(
            of_channel(keyframes, channel, keyframes.len() as int),
            #[trigger] bone.frames(channel),
        )
}

fn build_animation<F: Copy>(keyframes: &Vec<BBKeyframe<F>>) -> (r: Option<BoneAnimation<F>>)
    ensures
        r is Some <==> have_data(keyframes@),
        r matches Some(animation) ==> is_bone_animation(animation, keyframes@),
{
    let mut position: Vec<Keyframe<F>> = Vec::new();
    let mut rotation: Vec<Keyframe<F>> = Vec::new();
    let mut scale: Vec<Keyframe<F>> = Vec::new();
    let mut i: usize = 0;
    while i < keyframes.len()
        invariant
            i <= keyframes@.len(),
            forall|j: int| 0 <= j < i ==> (#[trigger] keyframes@[j]).data_points@.len() > 0,
            position@ == of_channel(keyframes@, AnimatorChannel::Translation, i as int),
            rotation@ == of_channel(keyframes@, AnimatorChannel::Rotation, i as int),
            scale@ == of_channel(keyframes@, AnimatorChannel::Scale, i as int),
        decreases keyframes@.len() - i,
    {
        let keyframe = &keyframes[i];
        if keyframe.data_points.len() == 0 {
            return None;
        }
        let frame = Keyframe {
            time: keyframe.time,
            order: keyframe.order,
            data: keyframe.data_points[0],
        };
        match keyframe.channel {
            AnimatorChannel::Translation => position.push(frame),
            AnimatorChannel::Rotation => rotation.push(frame),
            AnimatorChannel::Scale => scale.push(frame),
        }
        i += 1;
    }
    let r = BoneAnimation {
        position: sort_by_time(&position),
        rotation: sort_by_time(&rotation),
        scale: sort_by_time(&scale),
    };
    assert forall|channel: AnimatorChannel| is_sorted_by_time(
        of_channel(keyframes@, channel, keyframes@.len() as int),
        #[trigger] r.frames(channel),
    ) by {
        match channel {
            AnimatorChannel::Translation => {},
            AnimatorChannel::Rotation => {},
            AnimatorChannel::Scale => {},
        }
    }
    Some(r)
}

/// Whether all animations have values for the keyframes of a group.
pub open spec fn have_animators<F: Copy>(
    animations: Seq<BBAnimation<F>>,
    uuid: Option<Seq<char>>,
) -> bool {
    forall|i: int|
        0 <= i < animations.len() ==> have_data(keyframes_of(#[trigger] animations[i], uuid))
}

/// Whether these are the animations of a group.
pub open spec fn are_animators<F: Copy>(
    animators: Seq<BoneAnimation<F>>,
    animations: Seq<BBAnimation<F>>,
    uuid: Option<Seq<char>>,
) -> bool {
    &&& animators.len() == animations.len()
    &&& forall|i: int|
        0 <= i < animators.len() ==> is_bone_animation(
            #[trigger] animators[i],
            keyframes_of(animations[i], uuid),
        )
}

/// The view of a name that may be missing.
pub open spec fn optional_name(uuid: Option<&str>) -> Option<Seq<char>> {
    match uuid {
        Some(uuid) => Some(uuid@),
        None => None,
    }
}

fn build_animators<F: Copy>(animations: &Vec<BBAnimation<F>>, uuid: Option<&str>) -> (r: Option<
    Vec<BoneAnimation<F>>,
>)
    ensures
        r is Some <==> have_animators(animations@, optional_name(uuid)),
        r matches Some(animators) ==> are_animators(animators@, animations@, optional_name(uuid)),
{
    let none: Vec<BBKeyframe<F>> = Vec::new();
    let mut r: Vec<BoneAnimation<F>> = Vec::new();
    let mut i: usize = 0;
    while i < animations.len()
        invariant
            i <= animations@.len(),
            none@.len() == 0,
            r@.len() == i,
            forall|j: int|
                0 <= j < i ==> have_data(
                    keyframes_of(#[trigger] animations@[j], optional_name(uuid)),
                ),
            forall|j: int|
                0 <= j < i ==> is_bone_animation(
                    #[trigger] r@[j],
                    keyframes_of(animations@[j], optional_name(uuid)),
                ),
        decreases animations@.len() - i,
    {
        let keyframes = match uuid {
            Some(uuid) => match find_named(&animations[i].animators, uuid) {
                Some(animator) => &animator.value,
                None => &none,
            },
            None => &none,
        };
        assert(keyframes@ =~= keyframes_of(animations@[i as int], optional_name(uuid)));
        match build_animation(keyframes) {
            Some(animation) => {
                r.push(animation);
            },
            None => {
                assert(!have_data(keyframes_of(animations@[i as int], optional_name(uuid))));
                return None;
            },
        }
        i += 1;
    }
    Some(r)
}

/// A side of a mesh: its corners with where they lie on the texture, in pixels.
pub struct MeshFace<F: Copy> {
    pub vertices: Vec<(Vec3<F>, [F; 2])>,
    pub texture: usize,
}

/// A part of a bone. A side of a cube has a rectangle of a texture, in pixels, how often it is
/// turned by a right angle, and which texture it is.
pub enum Element<F: Copy> {
    Cube {
        from: Vec3<F>,
        to: Vec3<F>,
        origin: Vec3<F>,
        rotation: Vec3<F>,
        uvs: FaceMap<(TexCoords<F>, u8, usize)>,
    },
    Locator { name: String, position: Vec3<F>, rotation: Vec3<F> },
    Mesh { origin: Vec3<F>, rotation: Vec3<F>, faces: Vec<MeshFace<F>> },
}

/// What a side is called in a model file.
pub open spec fn face_name_spec(face: Face) -> Seq<char> {
    match face {
        Face::Back => "south"@,
        Face::Front => "north"@,
        Face::Up => "up"@,
        Face::Down => "down"@,
        Face::Left => "west"@,
        Face::Right => "east"@,
    }
}

fn face_name(face: Face) -> (r: &'static str)
    ensures
        r@ == face_name_spec(face),
{
    match face {
        Face::Back => "south",
        Face::Front => "north",
        Face::Up => "up",
        Face::Down => "down",
        Face::Left => "west",
        Face::Right => "east",
    }
}

/// Whether a cube has a side, in a texture of the model.
pub open spec fn has_face<F: Copy>(
    faces: Seq<NamedValue<BBFace<F>>>,
    textures: nat,
    face: Face,
) -> bool {
    named(faces, face_name_spec(face)) matches Some(entry) && entry.value.texture < textures
}

/// A side of a cube.
pub open spec fn cube_face<F: Copy>(faces: Seq<NamedValue<BBFace<F>>>, face: Face) -> (
    TexCoords<F>,
    u8,
    usize,
) {
    let entry = named(faces, face_name_spec(face))->0;
    (entry.value.uv, (entry.value.rotation / 90 % 4) as u8, entry.value.texture)
}

fn build_face<F: Copy>(faces: &Vec<NamedValue<BBFace<F>>>, textures: usize, face: Face) -> (r: Option<
    (TexCoords<F>, u8, usize),
>)
    ensures
        r is Some <==> has_face(faces@, textures as nat, face),
        r matches Some(side) ==> side == cube_face(faces@, face),
{
    match find_named(faces, face_name(face)) {
        Some(entry) => if entry.value.texture < textures {
            Some((entry.value.uv, (entry.value.rotation / 90 % 4) as u8, entry.value.texture))
        } else {
            None
        },
        None => None,
    }
}

/// Whether the corners of a side are known.
pub open spec fn has_corners<F: Copy>(
    face: BBMeshFace<F>,
    vertices: Seq<NamedValue<Vec3<F>>>,
) -> bool {
    forall|i: int|
        0 <= i < face.vertices@.len() ==> named(vertices, (#[trigger] face.vertices@[i])@) is Some
            && named(face.uv@, face.vertices@[i]@) is Some
}

/// Whether a mesh can have a side: one with four known corners, in a texture of the model.
pub open spec fn is_whole_face<F: Copy>(
    face: BBMeshFace<F>,
    vertices: Seq<NamedValue<Vec3<F>>>,
    textures: nat,
) -> bool {
    &&& face.texture < textures
    &&& face.vertices@.len() == 4
    &&& has_corners(face, vertices)
}

/// Whether a side was made from one of a model file.
pub open spec fn is_face_of<F: Copy>(
    side: MeshFace<F>,
    face: BBMeshFace<F>,
    vertices: Seq<NamedValue<Vec3<F>>>,
) -> bool {
    &&& side.texture == face.texture
    &&& side.vertices@.len() == face.vertices@.len()
    &&& forall|i: int|
        0 <= i < side.vertices@.len() ==> #[trigger] side.vertices@[i] == (
            (named(vertices, face.vertices@[i]@)->0).value,
            (named(face.uv@, face.vertices@[i]@)->0).value,
        )
}

fn build_mesh_face<F: Copy>(
    face: &BBMeshFace<F>,
    vertices: &Vec<NamedValue<Vec3<F>>>,
    textures: usize,
) -> (r: Option<MeshFace<F>>)
    ensures
        r is Some <==> is_whole_face(*face, vertices@, textures as nat),
        r matches Some(side) ==> is_face_of(side, *face, vertices@),
{
    if face.texture >= textures || face.vertices.len() != 4 {
        return None;
    }
    let mut corners: Vec<(Vec3<F>, [F; 2])> = Vec::new();
    let mut i: usize = 0;
    while i < face.vertices.len()
        invariant
            i <= face.vertices@.len(),
            corners@.len() == i,
            forall|j: int|
                0 <= j < i ==> named(vertices@, (#[trigger] face.vertices@[j])@) is Some && named(
                    face.uv@,
                    face.vertices@[j]@,
                ) is Some,
            forall|j: int|
                0 <= j < i ==> #[trigger] corners@[j] == (
                    (named(vertices@, face.vertices@[j]@)->0).value,
                    (named(face.uv@, face.vertices@[j]@)->0).value,
                ),
        decreases face.vertices@.len() - i,
    {
        let name = face.vertices[i].as_str();
        let position = match find_named(vertices, name) {
            Some(vertex) => vertex.value,
            None => {
                assert(named(vertices@, face.vertices@[i as int]@) is None);
                return None;
            },
        };
        let uv = match find_named(&face.uv, name) {
            Some(uv) => uv.value,
            None => {
                assert(named(face.uv@, face.vertices@[i as int]@) is None);
                return None;
            },
        };
        corners.push((position, uv));
        i += 1;
    }
    Some(MeshFace { vertices: corners, texture: face.texture })
}

/// Whether all sides of a mesh can be made.
pub open spec fn are_whole_faces<F: Copy>(
    faces: Seq<BBMeshFace<F>>,
    vertices: Seq<NamedValue<Vec3<F>>>,
    textures: nat,
) -> bool {
    forall|i: int| 0 <= i < faces.len() ==> is_whole_face(#[trigger] faces[i], vertices, textures)
}

/// Whether the sides were made from those of a model file.
pub open spec fn are_faces_of<F: Copy>(
    sides: Seq<MeshFace<F>>,
    faces: Seq<BBMeshFace<F>>,
    vertices: Seq<NamedValue<Vec3<F>>>,
) -> bool {
    &&& sides.len() == faces.len()
    &&& forall|i: int| 0 <= i < sides.len() ==> is_face_of(#[trigger] sides[i], faces[i], vertices)
}

fn build_mesh_faces<F: Copy>(
    faces: &Vec<BBMeshFace<F>>,
    vertices: &Vec<NamedValue<Vec3<F>>>,
    textures: usize,
) -> (r: Option<Vec<MeshFace<F>>>)
    ensures
        r is Some <==> are_whole_faces(faces@, vertices@, textures as nat),
        r matches Some(sides) ==> are_faces_of(sides@, faces@, vertices@),
{
    let mut r: Vec<MeshFace<F>> = Vec::new();
    let mut i: usize = 0;
    while i < faces.len()
        invariant
            i <= faces@.len(),
            r@.len() == i,
            forall|j: int|
                0 <= j < i ==> is_whole_face(#[trigger] faces@[j], vertices@, textures as nat),
            forall|j: int| 0 <= j < i ==> is_face_of(#[trigger] r@[j], faces@[j], vertices@),
        decreases faces@.len() - i,
    {
        match build_mesh_face(&faces[i], vertices, textures) {
            Some(face) => {
                r.push(face);
            },
            None => {
                assert(!is_whole_face(faces@[i as int], vertices@, textures as nat));
                return None;
            },
        }
        i += 1;
    }
    Some(r)
}

/// Whether a part of a model file can be made: it has all that it speaks of.
pub open spec fn is_whole_element<F: Copy>(element: BBElement<F>, textures: nat) -> bool {
    match element {
        BBElement::Cube { faces, .. } => forall|face: Face| #[trigger]
            has_face(faces@, textures, face),
        BBElement::Locator { .. } => true,
        BBElement::Mesh { vertices, faces, .. } => are_whole_faces(faces@, vertices@, textures),
    }
}

/// Whether all sides of a cube are as in the model file.
pub open spec fn are_cube_faces<F: Copy>(
    uvs: FaceMap<(TexCoords<F>, u8, usize)>,
    faces: Seq<NamedValue<BBFace<F>>>,
) -> bool {
    forall|face: Face| #[trigger] uvs.at(face) == cube_face(faces, face)
}

/// Whether a part was made from one of a model file.
pub open spec fn is_element_of<F: Copy>(element: Element<F>, bb: BBElement<F>) -> bool {
    match bb {
        BBElement::Cube { from, to, origin, rotation, faces, .. } => {
            &&& element matches Element::Cube { from: f, to: t, origin: o, rotation: r, uvs }
            &&& f == from && t == to && o == origin && r == rotation
            &&& are_cube_faces(uvs, faces@)
        },
        BBElement::Locator { position, rotation, name, .. } => {
            &&& element matches Element::Locator { name: n, position: p, rotation: r }
            &&& n@ == name@ && p == position && r == rotation
        },
        BBElement::Mesh { origin, rotation, vertices, faces, .. } => {
            &&& element matches Element::Mesh { origin: o, rotation: r, faces: sides }
            &&& o == origin && r == rotation
            &&& are_faces_of(sides@, faces@, vertices@)
        },
    }
}

fn build_uvs<F: Copy>(faces: &Vec<NamedValue<BBFace<F>>>, textures: usize) -> (r: Option<
    FaceMap<(TexCoords<F>, u8, usize)>,
>)
    ensures
        r is Some <==> forall|face: Face| #[trigger] has_face(faces@, textures as nat, face),
        r matches Some(uvs) ==> are_cube_faces(uvs, faces@),
{
    let front = build_face(faces, textures, Face::Front);
    let back = build_face(faces, textures, Face::Back);
    let left = build_face(faces, textures, Face::Left);
    let right = build_face(faces, textures, Face::Right);
    let up = build_face(faces, textures, Face::Up);
    let down = build_face(faces, textures, Face::Down);
    match (front, back, left, right, up, down) {
        (Some(front), Some(back), Some(left), Some(right), Some(up), Some(down)) => {
            let r = FaceMap { front, back, left, right, up, down };
            assert forall|face: Face| #[trigger] has_face(faces@, textures as nat, face) by {
                match face {
                    Face::Front => {},
                    Face::Back => {},
                    Face::Left => {},
                    Face::Right => {},
                    Face::Up => {},
                    Face::Down => {},
                }
            }
            assert forall|face: Face| #[trigger] r.at(face) == cube_face(faces@, face) by {
                match face {
                    Face::Front => {},
                    Face::Back => {},
                    Face::Left => {},
                    Face::Right => {},
                    Face::Up => {},
                    Face::Down => {},
                }
            }
            Some(r)
        },
        _ => None,
    }
}

fn build_element<F: Copy>(element: &BBElement<F>, textures: usize) -> (r: Option<Element<F>>)
    ensures
        r is Some <==> is_whole_element(*element, textures as nat),
        r matches Some(made) ==> is_element_of(made, *element),
{
    match element {
        BBElement::Cube { from, to, origin, rotation, faces, .. } => match build_uvs(
            faces,
            textures,
        ) {
            Some(uvs) => Some(
                Element::Cube {
                    from: *from,
                    to: *to,
                    origin: *origin,
                    rotation: *rotation,
                    uvs,
                },
            ),
            None => None,
        },
        BBElement::Locator { position, rotation, name, .. } => Some(
            Element::Locator { name: name.clone(), position: *position, rotation: *rotation },
        ),
        BBElement::Mesh { origin, rotation, vertices, faces, .. } => match build_mesh_faces(
            faces,
            vertices,
            textures,
        ) {
            Some(faces) => Some(Element::Mesh { origin: *origin, rotation: *rotation, faces }),
            None => None,
        },
    }
}

/// A part of a model that moves as a whole. A bone without an origin moves around zero.
pub struct Bone<F: Copy> {
    pub origin: Option<Vec3<F>>,
    pub elements: Vec<Element<F>>,
    pub children: Vec<Bone<F>>,
    pub animators: Vec<BoneAnimation<F>>,
}

/// Whether an outline can be made into a bone: it speaks of known parts, those that are shown can
/// be made, and the keyframes of its groups have values.
pub open spec fn is_whole_outline<F: Copy>(
    outliner: Seq<BBOutliner>,
    uuid: Option<Seq<char>>,
    model: BBModel<F>,
) -> bool
    decreases outliner,
{
    &&& have_animators(model.animations@, uuid)
    &&& forall|i: int|
        0 <= i < outliner.len() ==> match #[trigger] outliner[i] {
            BBOutliner::Group { uuid, children } => is_whole_outline(
                children@,
                Some(uuid@),
                model,
            ),
            BBOutliner::Element(uuid) => is_whole_entry(uuid@, model),
        }
}

/// Whether a part is known, and can be made if it is shown.
pub open spec fn is_whole_entry<F: Copy>(uuid: Seq<char>, model: BBModel<F>) -> bool {
    named(model.elements@, uuid) matches Some(element) && (element.visible() ==> is_whole_element(
        element,
        model.textures@.len(),
    ))
}

/// The shown parts among the first `n` entries of an outline.
pub open spec fn shown_elements<F: Copy>(
    outliner: Seq<BBOutliner>,
    model: BBModel<F>,
    n: int,
) -> Seq<BBElement<F>>
    decreases n,
{
    if n <= 0 {
        Seq::empty()
    } else {
        let before = shown_elements(outliner, model, n - 1);
        match outliner[n - 1] {
            BBOutliner::Element(uuid) => if (named(model.elements@, uuid@)->0).visible() {
                before.push(named(model.elements@, uuid@)->0)
            } else {
                before
            },
            BBOutliner::Group { .. } => before,
        }
    }
}

/// The places of the groups among the first `n` entries of an outline.
pub open spec fn group_places(outliner: Seq<BBOutliner>, n: int) -> Seq<int>
    decreases n,
{
    if n <= 0 {
        Seq::empty()
    } else if outliner[n - 1] is Group {
        group_places(outliner, n - 1).push(n - 1)
    } else {
        group_places(outliner, n - 1)
    }
}

/// Where a group has its origin.
pub open spec fn origin_of<F: Copy>(groups: Seq<BBGroup<F>>, uuid: Option<Seq<char>>) -> Option<
    Vec3<F>,
> {
    match uuid {
        Some(uuid) => match named(groups, uuid) {
            Some(group) => Some(group.origin),
            None => None,
        },
        None => None,
    }
}

/// Whether the parts were made from those of a model file.
pub open spec fn are_elements_of<F: Copy>(
    elements: Seq<Element<F>>,
    shown: Seq<BBElement<F>>,
) -> bool {
    &&& elements.len() == shown.len()
    &&& forall|i: int| 0 <= i < elements.len() ==> is_element_of(#[trigger] elements[i], shown[i])
}

/// Whether a bone was made from an outline: its parts are those that are shown, and its children
/// were made from its groups.
pub open spec fn is_bone_of<F: Copy>(
    bone: Bone<F>,
    outliner: Seq<BBOutliner>,
    uuid: Option<Seq<char>>,
    model: BBModel<F>,
) -> bool
    decreases bone, 0int,
{
    let places = group_places(outliner, outliner.len() as int);
    &&& bone.origin == origin_of(model.groups@, uuid)
    &&& are_animators(bone.animators@, model.animations@, uuid)
    &&& are_elements_of(
        bone.elements@,
        shown_elements(outliner, model, outliner.len() as int),
    )
    &&& bone.children@.len() == places.len()
    &&& forall|i: int|
        0 <= i < bone.children@.len() ==> is_child_of(
            #[trigger] bone.children@[i],
            outliner[places[i]],
            model,
        )
}

/// Whether a bone was made from a group.
pub open spec fn is_child_of<F: Copy>(bone: Bone<F>, entry: BBOutliner, model: BBModel<F>) -> bool
    decreases bone, 1int,
{
    match entry {
        BBOutliner::Group { uuid, children } => is_bone_of(bone, children@, Some(uuid@), model),
        BBOutliner::Element(_) => false,
    }
}

/// Whether bones were made from the groups at these places of an outline.
spec fn are_children_of<F: Copy>(
    children: Seq<Bone<F>>,
    outliner: Seq<BBOutliner>,
    places: Seq<int>,
    model: BBModel<F>,
) -> bool {
    &&& children.len() == places.len()
    &&& forall|i: int|
        0 <= i < children.len() ==> is_child_of(
            #[trigger] children[i],
            outliner[places[i]],
            model,
        )
}

fn build_bone<F: Copy>(outliner: &Vec<BBOutliner>, uuid: Option<&str>, model: &BBModel<F>) -> (r:
    Option<Bone<F>>)
    ensures
        r is Some <==> is_whole_outline(outliner@, optional_name(uuid), *model),
        r matches Some(bone) ==> is_bone_of(bone, outliner@, optional_name(uuid), *model),
    decreases outliner,
{
    let origin = match uuid {
        Some(uuid) => match find_named(&model.groups, uuid) {
            Some(group) => Some(group.origin),
            None => None,
        },
        None => None,
    };
    let animators = match build_animators(&model.animations, uuid) {
        Some(animators) => animators,
        None => {
            return None;
        },
    };
    let mut elements: Vec<Element<F>> = Vec::new();
    let mut children: Vec<Bone<F>> = Vec::new();
    let mut i: usize = 0;
    while i < outliner.len()
        invariant
            i <= outliner@.len(),
            forall|j: int|
                0 <= j < i ==> match #[trigger] outliner@[j] {
                    BBOutliner::Group { uuid, children } => is_whole_outline(
                        children@,
                        Some(uuid@),
                        *model,
                    ),
                    BBOutliner::Element(uuid) => is_whole_entry(uuid@, *model),
                },
            are_elements_of(elements@, shown_elements(outliner@, *model, i as int)),
            are_children_of(children@, outliner@, group_places(outliner@, i as int), *model),
        decreases outliner@.len() - i,
    {
        match &outliner[i] {
            BBOutliner::Group { uuid: group, children: inner } => {
                assert(decreases_to!(outliner@ => outliner@[i as int]));
                match build_bone(inner, Some(group.as_str()), model) {
                    Some(bone) => {
                        children.push(bone);
                        assert(is_child_of(bone, outliner@[i as int], *model));
                    },
                    None => {
                        assert(outliner@[i as int] is Group);
                        return None;
                    },
                }
            },
            BBOutliner::Element(name) => {
                match find_named(&model.elements, name.as_str()) {
                    Some(element) => {
                        if element.is_visible() {
                            match build_element(element, model.textures.len()) {
                                Some(element) => {
                                    elements.push(element);
                                },
                                None => {
                                    assert(outliner@[i as int] is Element);
                                    assert(!is_whole_entry(name@, *model));
                                    return None;
                                },
                            }
                        }
                    },
                    None => {
                        assert(outliner@[i as int] is Element);
                        assert(!is_whole_entry(name@, *model));
                        return None;
                    },
                }
            },
        }
        i += 1;
    }
    Some(Bone { origin, elements, children, animators })
}

/// Where a locator is in a bone: the children on the way, from the innermost, and its place among
/// the parts of the last.
pub struct AnchorPath {
    pub way: Vec<usize>,
    pub element: usize,
}

/// The place of the first locator of that name, from `i` on.
pub open spec fn first_locator<F: Copy>(elements: Seq<Element<F>>, anchor: Seq<char>, i: int) -> Option<
    int,
>
    decreases elements.len() - i,
{
    if i >= elements.len() {
        None
    } else if elements[i] matches Element::Locator { name, .. } && name@ == anchor {
        Some(i)
    } else {
        first_locator(elements, anchor, i + 1)
    }
}

/// Where the first locator of that name is: among the parts of the bone, or else in the first child
/// that has one.
pub open spec fn anchor_spec<F: Copy>(bone: Bone<F>, anchor: Seq<char>) -> Option<(Seq<usize>, int)>
    decreases bone, bone.children@.len() + 1,
{
    match first_locator(bone.elements@, anchor, 0) {
        Some(i) => Some((Seq::empty(), i)),
        None => anchor_in(bone, anchor, 0),
    }
}

/// Where the first locator of that name is among the children from `i` on.
pub open spec fn anchor_in<F: Copy>(bone: Bone<F>, anchor: Seq<char>, i: int) -> Option<
    (Seq<usize>, int),
>
    decreases bone, bone.children@.len() - i,
    when 0 <= i
{
    if i >= bone.children@.len() {
        None
    } else {
        match anchor_spec(bone.children@[i], anchor) {
            Some((way, element)) => Some((way.push(i as usize), element)),
            None => anchor_in(bone, anchor, i + 1),
        }
    }
}

impl<F: Copy> Bone<F> {
    /// Where the first locator of that name is.
    pub fn anchor(&self, anchor: &str) -> (r: Option<AnchorPath>)
        ensures
            match r {
                Some(path) => anchor_spec(*self, anchor@) == Some(
                    (path.way@, path.element as int),
                ),
                None => anchor_spec(*self, anchor@) is None,
            },
        decreases self,
    {
        let mut i: usize = 0;
        while i < self.elements.len()
            invariant
                i <= self.elements@.len(),
                first_locator(self.elements@, anchor@, 0) == first_locator(
                    self.elements@,
                    anchor@,
                    i as int,
                ),
            decreases self.elements@.len() - i,
        {
            if let Element::Locator { name, .. } = &self.elements[i] {
                if text::equals(name.as_str(), anchor) {
                    return Some(AnchorPath { way: Vec::new(), element: i });
                }
            }
            i += 1;
        }
        let mut i: usize = 0;
        while i < self.children.len()
            invariant
                i <= self.children@.len(),
                first_locator(self.elements@, anchor@, 0) is None,
                anchor_in(*self, anchor@, 0) == anchor_in(*self, anchor@, i as int),
            decreases self.children@.len() - i,
        {
            assert(decreases_to!(self.children@ => self.children@[i as int]));
            match self.children[i].anchor(anchor) {
                Some(path) => {
                    let mut path = path;
                    path.way.push(i);
                    return Some(path);
                },
                None => {},
            }
            i += 1;
        }
        None
    }
}

/// Where a model takes a texture from.
pub enum ModelTexture {
    /// The model file itself; the number counts such textures.
    Embed(String, usize),
    /// The textures that the model is shown in.
    Variable(usize),
    Texture(Key<TextureData>),
}

/// Whether a name begins with a mark.
pub open spec fn is_marked(name: Seq<char>, mark: char) -> bool {
    name.len() > 0 && name[0] == mark
}

/// Whether the name of a texture can be understood.
pub open spec fn is_known_texture(name: Seq<char>, ids: Seq<Seq<char>>) -> bool {
    if is_marked(name, '$') {
        parse_unsigned_spec(name.drop_first(), usize::MAX as int) is Some
    } else if is_marked(name, '@') {
        ids.contains(name.drop_first())
    } else {
        true
    }
}

/// How many of the first `n` textures are held by the model file.
pub open spec fn embedded<F: Copy>(textures: Seq<BBTexture<F>>, n: int) -> int
    decreases n,
{
    if n <= 0 {
        0
    } else {
        embedded(textures, n - 1) + if is_marked(textures[n - 1].name@, '$') || is_marked(
            textures[n - 1].name@,
            '@',
        ) {
            0int
        } else {
            1
        }
    }
}

/// Whether a texture is the one that the model file means.
pub open spec fn is_texture_of<F: Copy>(
    texture: ModelTexture,
    bb: BBTexture<F>,
    id: int,
    ids: Seq<Seq<char>>,
) -> bool {
    if is_marked(bb.name@, '$') {
        texture matches ModelTexture::Variable(variable) && parse_unsigned_spec(
            bb.name@.drop_first(),
            usize::MAX as int,
        ) == Some(variable as int)
    } else if is_marked(bb.name@, '@') {
        texture matches ModelTexture::Texture(key) && 0 <= key.index() < ids.len()
            && ids[key.index()] == bb.name@.drop_first()
    } else {
        texture matches ModelTexture::Embed(source, number) && source@ == bb.source@ && number == id
    }
}

/// Whether all textures are those that the model file means, in their sizes.
pub open spec fn are_textures_of<F: Copy>(
    textures: Seq<(ModelTexture, F, F)>,
    bb: Seq<BBTexture<F>>,
    ids: Seq<Seq<char>>,
) -> bool {
    &&& textures.len() == bb.len()
    &&& forall|i: int|
        0 <= i < textures.len() ==> {
            &&& is_texture_of((#[trigger] textures[i]).0, bb[i], embedded(bb, i), ids)
            &&& textures[i].1 == bb[i].uv_width
            &&& textures[i].2 == bb[i].uv_height
        }
}

/// Whether the names of all textures can be understood.
pub open spec fn are_known_textures<F: Copy>(bb: Seq<BBTexture<F>>, ids: Seq<Seq<char>>) -> bool {
    forall|i: int| 0 <= i < bb.len() ==> is_known_texture((#[trigger] bb[i]).name@, ids)
}

proof fn lemma_embedded_bound<F: Copy>(textures: Seq<BBTexture<F>>, n: int)
    requires
        0 <= n,
    ensures
        0 <= embedded(textures, n) <= n,
    decreases n,
{
    if n > 0 {
        lemma_embedded_bound(textures, n - 1);
    }
}

fn build_textures<F: Copy>(bb: &Vec<BBTexture<F>>, registry: &LoadRegistry<TextureData>) -> (r:
    Option<Vec<(ModelTexture, F, F)>>)
    requires
        registry.wf(),
    ensures
        r is Some <==> are_known_textures(bb@, registry.ids()),
        r matches Some(textures) ==> are_textures_of(textures@, bb@, registry.ids()),
{
    let mut r: Vec<(ModelTexture, F, F)> = Vec::new();
    let mut id: usize = 0;
    let mut i: usize = 0;
    while i < bb.len()
        invariant
            i <= bb@.len(),
            registry.wf(),
            id == embedded(bb@, i as int),
            r@.len() == i,
            forall|j: int|
                0 <= j < i ==> is_known_texture((#[trigger] bb@[j]).name@, registry.ids()),
            forall|j: int|
                0 <= j < i ==> {
                    &&& is_texture_of(
                        (#[trigger] r@[j]).0,
                        bb@[j],
                        embedded(bb@, j),
                        registry.ids(),
                    )
                    &&& r@[j].1 == bb@[j].uv_width
                    &&& r@[j].2 == bb@[j].uv_height
                },
        decreases bb@.len() - i,
    {
        proof {
            lemma_embedded_bound(bb@, i as int);
        }
        let texture = &bb[i];
        let name = texture.name.as_str();
        let mark = if name.is_empty() {
            ' '
        } else {
            name.get_char(0)
        };
        let made = if mark == '$' {
            let rest = name.substring_char(1, name.unicode_len());
            assert(rest@ =~= name@.drop_first());
            match text::parse_usize(rest) {
                Some(variable) => ModelTexture::Variable(variable),
                None => {
                    assert(!is_known_texture(bb@[i as int].name@, registry.ids()));
                    return None;
                },
            }
        } else if mark == '@' {
            let rest = name.substring_char(1, name.unicode_len());
            assert(rest@ =~= name@.drop_first());
            match registry.id(rest) {
                Some(key) => ModelTexture::Texture(key),
                None => {
                    assert(!is_known_texture(bb@[i as int].name@, registry.ids()));
                    return None;
                },
            }
        } else {
            id += 1;
            ModelTexture::Embed(texture.source.clone(), id - 1)
        };
        r.push((made, texture.uv_width, texture.uv_height));
        i += 1;
    }
    Some(r)
}

/// A model.
pub struct Model<F: Copy> {
    pub root_bone: Bone<F>,
    /// The names of the animations.
    pub animations: Vec<NamedValue<usize>>,
    pub textures: Vec<(ModelTexture, F, F)>,
}

impl<F: Copy> BBModel<F> {
    /// Whether the file can be made into a model.
    pub open spec fn is_whole(self, ids: Seq<Seq<char>>) -> bool {
        &&& is_whole_outline(self.outliner@, None, self)
        &&& are_known_textures(self.textures@, ids)
    }
}

impl<F: Copy> Model<F> {
    /// Whether the model was made from a file.
    pub open spec fn is_model_of(self, bb: BBModel<F>, ids: Seq<Seq<char>>) -> bool {
        &&& is_bone_of(self.root_bone, bb.outliner@, None, bb)
        &&& are_textures_of(self.textures@, bb.textures@, ids)
        &&& self.animations@.len() == bb.animations@.len()
        &&& forall|i: int|
            0 <= i < self.animations@.len() ==> (#[trigger] self.animations@[i]).name@
                == bb.animations@[i].name@ && self.animations@[i].value == i
    }

    /// Makes a model from a file, if the file can be made into one.
    pub fn try_from_bbmodel(bbmodel: &BBModel<F>, textures: &LoadRegistry<TextureData>) -> (r: Option<
        Model<F>,
    >)
        requires
            textures.wf(),
        ensures
            r is Some <==> bbmodel.is_whole(textures.ids()),
            r matches Some(model) ==> model.is_model_of(*bbmodel, textures.ids()),
    {
        let root_bone = match build_bone(&bbmodel.outliner, None, bbmodel) {
            Some(bone) => bone,
            None => {
                return None;
            },
        };
        let textures = match build_textures(&bbmodel.textures, textures) {
            Some(textures) => textures,
            None => {
                return None;
            },
        };
        let mut animations: Vec<NamedValue<usize>> = Vec::new();
        let mut i: usize = 0;
        while i < bbmodel.animations.len()
            invariant
                i <= bbmodel.animations@.len(),
                animations@.len() == i,
                forall|j: int|
                    0 <= j < i ==> (#[trigger] animations@[j]).name@ == bbmodel.animations@[j].name@
                        && animations@[j].value == j,
            decreases bbmodel.animations@.len() - i,
        {
            animations.push(NamedValue { name: bbmodel.animations[i].name.clone(), value: i });
            i += 1;
        }
        Some(Model { root_bone, animations, textures })
    }

    /// Makes a model from a file that can be made into one.
    pub fn from_bbmodel(bbmodel: &BBModel<F>, textures: &LoadRegistry<TextureData>) -> (r: Model<F>)
        requires
            textures.wf(),
            bbmodel.is_whole(textures.ids()),
        ensures
            r.is_model_of(*bbmodel, textures.ids()),
    {
        Model::try_from_bbmodel(bbmodel, textures).unwrap()
    }

    /// The number of an animation: that of the last one of that name.
    pub fn animation(&self, name: &str) -> (r: Option<usize>)
        ensures
            r == match named(self.animations@, name@) {
                Some(animation) => Some(animation.value),
                None => None,
            },
    {
        match find_named(&self.animations, name) {
            Some(animation) => Some(animation.value),
            None => None,
        }
    }

    /// Where the first locator of that name is.
    pub fn anchor(&self, name: &str) -> (r: Option<AnchorPath>)
        ensures
            match r {
                Some(path) => anchor_spec(self.root_bone, name@) == Some(
                    (path.way@, path.element as int),
                ),
                None => anchor_spec(self.root_bone, name@) is None,
            },
    {
        self.root_bone.anchor(name)
    }
}

/// Every animation of a model has as many entries in each bone as the model has animations: what
/// one asks for by name is there.
pub proof fn law_animations_are_there<F: Copy>(
    model: Model<F>,
    bb: BBModel<F>,
    ids: Seq<Seq<char>>,
    name: Seq<char>,
)
    requires
        model.is_model_of(bb, ids),
        named(model.animations@, name) is Some,
    ensures
        (named(model.animations@, name)->0).value < model.root_bone.animators@.len(),
{
    lemma_last_named(model.animations@, name, model.animations@.len() as int);
}

proof fn lemma_last_named<T: Named>(list: Seq<T>, name: Seq<char>, n: int)
    requires
        0 <= n <= list.len(),
    ensures
        last_named(list, name, n) matches Some(i) ==> 0 <= i < n && list[i].name_spec() == name,
    decreases n,
{
    if n > 0 {
        lemma_last_named(list, name, n - 1);
    }
}

/// Whether entry `i` of a list has a name, and no entry behind it has.
pub open spec fn is_last_named<V>(list: Seq<NamedValue<V>>, name: Seq<char>, i: int) -> bool {
    &&& 0 <= i < list.len()
    &&& list[i].name@ == name
    &&& forall|j: int| i < j < list.len() ==> (#[trigger] list[j]).name@ != name
}

/// Whether a side shows what the last entry of that name says: its rectangle, its texture, and a turn
/// by a right angle for every ninety degrees, up to full turns.
pub open spec fn shows_entry<F: Copy>(
    side: (TexCoords<F>, u8, usize),
    faces: Seq<NamedValue<BBFace<F>>>,
    name: Seq<char>,
) -> bool {
    exists|i: int| #[trigger]
        is_last_named(faces, name, i) && side.0 == faces[i].value.uv && side.2
            == faces[i].value.texture && 0 <= side.1 < 4 && exists|turns: int|
            0 <= faces[i].value.rotation - 90 * (#[trigger] (4 * turns) + side.1) < 90
}

proof fn lemma_named_is_last<V>(list: Seq<NamedValue<V>>, name: Seq<char>, n: int)
    requires
        0 <= n <= list.len(),
    ensures
        match last_named(list, name, n) {
            Some(i) => 0 <= i < n && list[i].name@ == name && forall|j: int|
                i < j < n ==> (#[trigger] list[j]).name@ != name,
            None => forall|j: int| 0 <= j < n ==> (#[trigger] list[j]).name@ != name,
        },
    decreases n,
{
    if n > 0 {
        lemma_named_is_last(list, name, n - 1);
    }
}

proof fn lemma_shows_entry<F: Copy>(
    side: (TexCoords<F>, u8, usize),
    faces: Seq<NamedValue<BBFace<F>>>,
    name: Seq<char>,
)
    requires
        named(faces, name) is Some,
        ({
            let entry = named(faces, name)->0;
            side == (entry.value.uv, (entry.value.rotation / 90 % 4) as u8, entry.value.texture)
        }),
    ensures
        shows_entry(side, faces, name),
{
    lemma_named_is_last(faces, name, faces.len() as int);
    let i = last_named(faces, name, faces.len() as int)->0;
    assert(is_last_named(faces, name, i));
    let rotation = faces[i].value.rotation as int;
    let turns = rotation / 90 / 4;
    assert(0 <= rotation - 90 * ((4 * turns) + side.1) < 90);
}

/// A cube of a model has the place, the origin and the turn of the cube that it was made from. Its
/// upper side shows the file's last entry that is named `up`, its lower side `down`, its left side
/// `west`, its right side `east`, its front `north` and its back `south`.
pub proof fn law_cube_sides<F: Copy>(element: Element<F>, bb: BBElement<F>, textures: nat)
    requires
        is_element_of(element, bb),
        is_whole_element(bb, textures),
        bb is Cube,
    ensures
        element is Cube,
        element->Cube_from == bb->Cube_from,
        element->Cube_to == bb->Cube_to,
        element->Cube_origin == bb->Cube_origin,
        element->Cube_rotation == bb->Cube_rotation,
        shows_entry(element->Cube_uvs.up, bb->Cube_faces@, "up"@),
        shows_entry(element->Cube_uvs.down, bb->Cube_faces@, "down"@),
        shows_entry(element->Cube_uvs.left, bb->Cube_faces@, "west"@),
        shows_entry(element->Cube_uvs.right, bb->Cube_faces@, "east"@),
        shows_entry(element->Cube_uvs.front, bb->Cube_faces@, "north"@),
        shows_entry(element->Cube_uvs.back, bb->Cube_faces@, "south"@),
{
    let faces = bb->Cube_faces@;
    let uvs = element->Cube_uvs;
    assert(has_face(faces, textures, Face::Up) && has_face(faces, textures, Face::Down));
    assert(has_face(faces, textures, Face::Left) && has_face(faces, textures, Face::Right));
    assert(has_face(faces, textures, Face::Front) && has_face(faces, textures, Face::Back));
    assert(uvs.at(Face::Up) == cube_face(faces, Face::Up));
    assert(uvs.at(Face::Down) == cube_face(faces, Face::Down));
    assert(uvs.at(Face::Left) == cube_face(faces, Face::Left));
    assert(uvs.at(Face::Right) == cube_face(faces, Face::Right));
    assert(uvs.at(Face::Front) == cube_face(faces, Face::Front));
    assert(uvs.at(Face::Back) == cube_face(faces, Face::Back));
    lemma_shows_entry(uvs.up, faces, "up"@);
    lemma_shows_entry(uvs.down, faces, "down"@);
    lemma_shows_entry(uvs.left, faces, "west"@);
    lemma_shows_entry(uvs.right, faces, "east"@);
    lemma_shows_entry(uvs.front, faces, "north"@);
    lemma_shows_entry(uvs.back, faces, "south"@);
}

/// A locator of a model has the name, the position and the turn of the one that it was made from.
pub proof fn law_locator_is_kept<F: Copy>(element: Element<F>, bb: BBElement<F>)
    requires
        is_element_of(element, bb),
        bb is Locator,
    ensures
        element is Locator,
        element->Locator_name@ == bb->Locator_name@,
        element->Locator_position == bb->Locator_position,
        element->Locator_rotation == bb->Locator_rotation,
{
}

/// A mesh of a model has the sides of the mesh that it was made from, in their order. A corner lies
/// where the file's last point of that name lies, and on the texture where the side's last entry of
/// that name says.
pub proof fn law_mesh_corners<F: Copy>(
    element: Element<F>,
    bb: BBElement<F>,
    textures: nat,
    side: int,
    corner: int,
)
    requires
        is_element_of(element, bb),
        is_whole_element(bb, textures),
        bb is Mesh,
        0 <= side < bb->Mesh_faces@.len(),
        0 <= corner < 4,
    ensures
        element is Mesh,
        element->Mesh_origin == bb->Mesh_origin,
        element->Mesh_rotation == bb->Mesh_rotation,
        element->Mesh_faces@.len() == bb->Mesh_faces@.len(),
        ({
            let made = element->Mesh_faces@[side];
            let file = bb->Mesh_faces@[side];
            let name = file.vertices@[corner]@;
            &&& made.texture == file.texture
            &&& made.vertices@.len() == 4
            &&& exists|i: int| #[trigger]
                is_last_named(bb->Mesh_vertices@, name, i) && made.vertices@[corner].0
                    == bb->Mesh_vertices@[i].value
            &&& exists|i: int| #[trigger]
                is_last_named(file.uv@, name, i) && made.vertices@[corner].1 == file.uv@[i].value
        }),
{
    let vertices = bb->Mesh_vertices@;
    let file = bb->Mesh_faces@[side];
    assert(is_whole_face(file, vertices, textures));
    assert(is_face_of(element->Mesh_faces@[side], file, vertices));
    let made = element->Mesh_faces@[side];
    let name = file.vertices@[corner]@;
    assert(named(vertices, file.vertices@[corner]@) is Some);
    assert(made.vertices@[corner] == (
        (named(vertices, file.vertices@[corner]@)->0).value,
        (named(file.uv@, file.vertices@[corner]@)->0).value,
    ));
    lemma_named_is_last(vertices, name, vertices.len() as int);
    lemma_named_is_last(file.uv@, name, file.uv@.len() as int);
    assert(is_last_named(vertices, name, last_named(vertices, name, vertices.len() as int)->0));
    assert(is_last_named(file.uv@, name, last_named(file.uv@, name, file.uv@.len() as int)->0));
}

/// Whether an entry of an outline calls for a part: one that is shown and that was made from the last
/// part of that name.
pub open spec fn calls_for<F: Copy>(entry: BBOutliner, model: BBModel<F>, part: int) -> bool {
    &&& entry is Element
    &&& 0 <= part < model.elements@.len()
    &&& model.elements@[part].visible()
    &&& model.elements@[part].name_spec() == entry->Element_0@
    &&& forall|later: int|
        part < later < model.elements@.len() ==> (#[trigger] model.elements@[later]).name_spec()
            != entry->Element_0@
}

proof fn lemma_element_named<F: Copy>(list: Seq<BBElement<F>>, name: Seq<char>, n: int)
    requires
        0 <= n <= list.len(),
    ensures
        match last_named(list, name, n) {
            Some(i) => 0 <= i < n && list[i].name_spec() == name && forall|j: int|
                i < j < n ==> (#[trigger] list[j]).name_spec() != name,
            None => forall|j: int| 0 <= j < n ==> (#[trigger] list[j]).name_spec() != name,
        },
    decreases n,
{
    if n > 0 {
        lemma_element_named(list, name, n - 1);
    }
}

/// Whether the parts at these places of an outline are those that it shows.
spec fn are_shown_places<F: Copy>(
    outliner: Seq<BBOutliner>,
    model: BBModel<F>,
    n: int,
    places: Seq<(int, int)>,
) -> bool {
    let shown = shown_elements(outliner, model, n);
    &&& places.len() == shown.len()
    &&& forall|i: int|
        0 <= i < places.len() ==> 0 <= (#[trigger] places[i]).0 < n && calls_for(
            outliner[places[i].0],
            model,
            places[i].1,
        ) && shown[i] == model.elements@[places[i].1]
    &&& forall|i: int, j: int|
        0 <= i < j < places.len() ==> (#[trigger] places[i]).0 < (#[trigger] places[j]).0
    &&& forall|k: int, part: int|
        0 <= k < n && #[trigger] calls_for(outliner[k], model, part) ==> places.contains((k, part))
}

proof fn lemma_shown_places<F: Copy>(
    outliner: Seq<BBOutliner>,
    uuid: Option<Seq<char>>,
    model: BBModel<F>,
    n: int,
) -> (places: Seq<(int, int)>)
    requires
        is_whole_outline(outliner, uuid, model),
        0 <= n <= outliner.len(),
    ensures
        are_shown_places(outliner, model, n, places),
    decreases n,
{
    if n <= 0 {
        Seq::empty()
    } else {
        let before = lemma_shown_places(outliner, uuid, model, n - 1);
        let entry = outliner[n - 1];
        match entry {
            BBOutliner::Element(name) => {
                assert(is_whole_entry(name@, model));
                lemma_element_named(model.elements@, name@, model.elements@.len() as int);
                let part = last_named(model.elements@, name@, model.elements@.len() as int)->0;
                assert forall|other: int| #[trigger]
                    calls_for(entry, model, other) implies other == part by {
                    if other < part {
                        assert(model.elements@[part].name_spec() != name@);
                    } else if part < other {
                        assert(model.elements@[other].name_spec() != name@);
                    }
                }
                if model.elements@[part].visible() {
                    assert(calls_for(entry, model, part));
                    let places = before.push((n - 1, part));
                    assert forall|k: int, other: int|
                        0 <= k < n && #[trigger] calls_for(
                            outliner[k],
                            model,
                            other,
                        ) implies places.contains((k, other)) by {
                        if k < n - 1 {
                            assert(before.contains((k, other)));
                            let i = choose|i: int| 0 <= i < before.len() && before[i] == (k, other);
                            assert(places[i] == (k, other));
                        } else {
                            assert(places[places.len() - 1] == (k, other));
                        }
                    }
                    places
                } else {
                    before
                }
            },
            BBOutliner::Group { .. } => before,
        }
    }
}

/// A bone has a part for every entry of its outline that calls for a part that is shown, in the order
/// of the outline, and no other.
pub proof fn law_shown_parts_in_order<F: Copy>(
    bone: Bone<F>,
    outliner: Seq<BBOutliner>,
    uuid: Option<Seq<char>>,
    model: BBModel<F>,
)
    requires
        is_whole_outline(outliner, uuid, model),
        is_bone_of(bone, outliner, uuid, model),
    ensures
        exists|places: Seq<(int, int)>| #![trigger places.len()]
            {
                &&& places.len() == bone.elements@.len()
                &&& forall|i: int|
                    0 <= i < places.len() ==> 0 <= (#[trigger] places[i]).0 < outliner.len()
                        && calls_for(outliner[places[i].0], model, places[i].1) && is_element_of(
                        bone.elements@[i],
                        model.elements@[places[i].1],
                    )
                &&& forall|i: int, j: int|
                    0 <= i < j < places.len() ==> (#[trigger] places[i]).0 < (
                    #[trigger] places[j]).0
                &&& forall|k: int, part: int|
                    0 <= k < outliner.len() && #[trigger] calls_for(outliner[k], model, part)
                        ==> places.contains((k, part))
            },
{
    let places = lemma_shown_places(outliner, uuid, model, outliner.len() as int);
    let shown = shown_elements(outliner, model, outliner.len() as int);
    assert(places.len() == bone.elements@.len());
    assert forall|i: int| 0 <= i < places.len() implies 0 <= (#[trigger] places[i]).0
        < outliner.len() && calls_for(outliner[places[i].0], model, places[i].1) && is_element_of(
        bone.elements@[i],
        model.elements@[places[i].1],
    ) by {
        assert(is_element_of(bone.elements@[i], shown[i]));
    }
}

proof fn lemma_group_places(outliner: Seq<BBOutliner>, n: int)
    requires
        0 <= n <= outliner.len(),
    ensures
        ({
            let places = group_places(outliner, n);
            &&& forall|i: int|
                0 <= i < places.len() ==> 0 <= #[trigger] places[i] < n && outliner[places[i]] is Group
            &&& forall|i: int, j: int|
                0 <= i < j < places.len() ==> #[trigger] places[i] < #[trigger] places[j]
            &&& forall|k: int|
                0 <= k < n && (#[trigger] outliner[k]) is Group ==> places.contains(k)
        }),
    decreases n,
{
    if n > 0 {
        lemma_group_places(outliner, n - 1);
        let before = group_places(outliner, n - 1);
        let places = group_places(outliner, n);
        assert forall|k: int| 0 <= k < n && (#[trigger] outliner[k]) is Group implies places.contains(
            k,
        ) by {
            if k < n - 1 {
                assert(before.contains(k));
                let i = choose|i: int| 0 <= i < before.len() && before[i] == k;
                assert(places[i] == k);
            } else {
                assert(places[places.len() - 1] == k);
            }
        }
    }
}

/// A bone has a child for every group of its outline, in the order of the outline, and no other; the
/// child is made from what stands in the group, and moves around the origin of the last group of that
/// name. The outermost bone has no origin.
pub proof fn law_groups_are_children<F: Copy>(
    bone: Bone<F>,
    outliner: Seq<BBOutliner>,
    uuid: Option<Seq<char>>,
    model: BBModel<F>,
)
    requires
        is_bone_of(bone, outliner, uuid, model),
    ensures
        uuid is None ==> bone.origin is None,
        uuid is Some ==> match bone.origin {
            Some(origin) => exists|i: int|
                0 <= i < model.groups@.len() && (#[trigger] model.groups@[i]).uuid@ == uuid->0
                    && model.groups@[i].origin == origin && forall|j: int|
                    i < j < model.groups@.len() ==> (#[trigger] model.groups@[j]).uuid@ != uuid->0,
            None => forall|i: int|
                0 <= i < model.groups@.len() ==> (#[trigger] model.groups@[i]).uuid@ != uuid->0,
        },
        exists|places: Seq<int>| #![trigger places.len()]
            {
                &&& places.len() == bone.children@.len()
                &&& forall|i: int|
                    0 <= i < places.len() ==> {
                        &&& 0 <= #[trigger] places[i] < outliner.len()
                        &&& outliner[places[i]] matches BBOutliner::Group { uuid, children }
                        &&& is_bone_of(bone.children@[i], children@, Some(uuid@), model)
                    }
                &&& forall|i: int, j: int|
                    0 <= i < j < places.len() ==> #[trigger] places[i] < #[trigger] places[j]
                &&& forall|k: int|
                    0 <= k < outliner.len() && (#[trigger] outliner[k]) is Group
                        ==> places.contains(k)
            },
{
    if let Some(uuid) = uuid {
        lemma_group_named(model.groups@, uuid, model.groups@.len() as int);
    }
    lemma_group_places(outliner, outliner.len() as int);
    let places = group_places(outliner, outliner.len() as int);
    assert(places.len() == bone.children@.len());
    assert forall|i: int| 0 <= i < places.len() implies {
        &&& 0 <= #[trigger] places[i] < outliner.len()
        &&& outliner[places[i]] matches BBOutliner::Group { uuid, children }
        &&& is_bone_of(bone.children@[i], children@, Some(uuid@), model)
    } by {
        assert(is_child_of(bone.children@[i], outliner[places[i]], model));
    }
}

proof fn lemma_group_named<F: Copy>(list: Seq<BBGroup<F>>, name: Seq<char>, n: int)
    requires
        0 <= n <= list.len(),
    ensures
        match last_named(list, name, n) {
            Some(i) => 0 <= i < n && list[i].uuid@ == name && forall|j: int|
                i < j < n ==> (#[trigger] list[j]).uuid@ != name,
            None => forall|j: int| 0 <= j < n ==> (#[trigger] list[j]).uuid@ != name,
        },
    decreases n,
{
    if n > 0 {
        lemma_group_named(list, name, n - 1);
    }
}

/// Whether keyframes are those of a channel, by time, with the first value of each.
pub open spec fn are_frames_of<F: Copy>(
    frames: Seq<Keyframe<F>>,
    keyframes: Seq<BBKeyframe<F>>,
    channel: AnimatorChannel,
) -> bool {
    &&& forall|i: int, j: int|
        0 <= i < j < frames.len() ==> (#[trigger] frames[i]).order <= (#[trigger] frames[j]).order
    &&& forall|i: int| 0 <= i < frames.len() ==> #[trigger] is_read(frames, keyframes, channel, i)
    &&& forall|k: int|
        0 <= k < keyframes.len() && keyframes[k].channel == channel ==> #[trigger] is_kept(
            frames,
            keyframes,
            channel,
            k,
        )
}

/// Whether a keyframe comes from a model file.
pub open spec fn is_read<F: Copy>(
    frames: Seq<Keyframe<F>>,
    keyframes: Seq<BBKeyframe<F>>,
    channel: AnimatorChannel,
    i: int,
) -> bool {
    exists|k: int|
        0 <= k < keyframes.len() && is_frame_of(frames[i], #[trigger] keyframes[k], channel)
}

/// Whether a keyframe of a model file is there.
pub open spec fn is_kept<F: Copy>(
    frames: Seq<Keyframe<F>>,
    keyframes: Seq<BBKeyframe<F>>,
    channel: AnimatorChannel,
    k: int,
) -> bool {
    exists|i: int| 0 <= i < frames.len() && is_frame_of(#[trigger] frames[i], keyframes[k], channel)
}

/// Whether a keyframe is that of a model file, in its channel and with its first value.
pub open spec fn is_frame_of<F: Copy>(
    frame: Keyframe<F>,
    keyframe: BBKeyframe<F>,
    channel: AnimatorChannel,
) -> bool {
    &&& keyframe.channel == channel
    &&& frame.time == keyframe.time
    &&& frame.order == keyframe.order
    &&& frame.data == keyframe.data_points@[0]
}

proof fn lemma_of_channel<F: Copy>(
    keyframes: Seq<BBKeyframe<F>>,
    channel: AnimatorChannel,
    n: int,
)
    requires
        0 <= n <= keyframes.len(),
    ensures
        ({
            let frames = of_channel(keyframes, channel, n);
            &&& forall|i: int|
                0 <= i < frames.len() ==> #[trigger] is_read(frames, keyframes, channel, i)
            &&& forall|k: int|
                0 <= k < n && keyframes[k].channel == channel ==> #[trigger] is_kept(
                    frames,
                    keyframes,
                    channel,
                    k,
                )
        }),
    decreases n,
{
    if n > 0 {
        lemma_of_channel(keyframes, channel, n - 1);
        let before = of_channel(keyframes, channel, n - 1);
        let frames = of_channel(keyframes, channel, n);
        assert forall|i: int| 0 <= i < frames.len() implies #[trigger] is_read(
            frames,
            keyframes,
            channel,
            i,
        ) by {
            if i < before.len() {
                assert(is_read(before, keyframes, channel, i));
                assert(frames[i] == before[i]);
            } else {
                assert(is_frame_of(frames[i], keyframes[n - 1], channel));
            }
        }
        assert forall|k: int| 0 <= k < n && keyframes[k].channel == channel implies #[trigger] is_kept(
            frames,
            keyframes,
            channel,
            k,
        ) by {
            if k < n - 1 {
                assert(is_kept(before, keyframes, channel, k));
                let i = choose|i: int|
                    0 <= i < before.len() && is_frame_of(
                        #[trigger] before[i],
                        keyframes[k],
                        channel,
                    );
                assert(is_frame_of(frames[i], keyframes[k], channel));
            } else {
                assert(is_frame_of(frames[frames.len() - 1], keyframes[k], channel));
            }
        }
    }
}

proof fn lemma_sorted_frames<F: Copy>(
    keyframes: Seq<BBKeyframe<F>>,
    channel: AnimatorChannel,
    sorted: Seq<Keyframe<F>>,
)
    requires
        sorted.len() <= usize::MAX,
        is_sorted_by_time(of_channel(keyframes, channel, keyframes.len() as int), sorted),
    ensures
        are_frames_of(sorted, keyframes, channel),
{
    let frames = of_channel(keyframes, channel, keyframes.len() as int);
    lemma_of_channel(keyframes, channel, keyframes.len() as int);
    let n = frames.len() as int;
    let keys = orders(frames);
    let order = choose|order: Seq<usize>| #[trigger]
        is_sorted_order(keys, false, n, order) && sorted == Seq::new(
            frames.len(),
            |i: int| frames[order[i] as int],
        );
    assert forall|i: int, j: int| 0 <= i < j < sorted.len() implies (#[trigger] sorted[i]).order <= (
    #[trigger] sorted[j]).order by {
        assert(crate::sorted::comes_before(keys, false, order[i], order[j]));
        assert(keys[order[i] as int] == sorted[i].order);
        assert(keys[order[j] as int] == sorted[j].order);
    }
    assert forall|i: int| 0 <= i < sorted.len() implies #[trigger] is_read(
        sorted,
        keyframes,
        channel,
        i,
    ) by {
        assert(order[i] < n);
        assert(is_read(frames, keyframes, channel, order[i] as int));
        assert(sorted[i] == frames[order[i] as int]);
    }
    assert forall|k: int|
        0 <= k < keyframes.len() && keyframes[k].channel == channel implies #[trigger] is_kept(
        sorted,
        keyframes,
        channel,
        k,
    ) by {
        assert(is_kept(frames, keyframes, channel, k));
        let j = choose|j: int|
            0 <= j < frames.len() && is_frame_of(#[trigger] frames[j], keyframes[k], channel);
        crate::sorted::law_sorted_order_is_complete(keys, false, order, j as usize);
        let i = choose|i: int| 0 <= i < n && #[trigger] order[i] == j as usize;
        assert(is_frame_of(sorted[i], keyframes[k], channel));
    }
}

/// A bone moves by the keyframes for positions, turns by those for rotations and grows by those for
/// scales, of the animator that has the name of its group, each in the order of time.
pub proof fn law_bones_follow_their_channels<F: Copy>(
    bone: BoneAnimation<F>,
    keyframes: Seq<BBKeyframe<F>>,
)
    requires
        is_bone_animation(bone, keyframes),
    ensures
        are_frames_of(bone.position@, keyframes, AnimatorChannel::Translation),
        are_frames_of(bone.rotation@, keyframes, AnimatorChannel::Rotation),
        are_frames_of(bone.scale@, keyframes, AnimatorChannel::Scale),
{
    assert(is_sorted_by_time(
        of_channel(keyframes, AnimatorChannel::Translation, keyframes.len() as int),
        bone.frames(AnimatorChannel::Translation),
    ));
    assert(is_sorted_by_time(
        of_channel(keyframes, AnimatorChannel::Rotation, keyframes.len() as int),
        bone.frames(AnimatorChannel::Rotation),
    ));
    assert(is_sorted_by_time(
        of_channel(keyframes, AnimatorChannel::Scale, keyframes.len() as int),
        bone.frames(AnimatorChannel::Scale),
    ));
    assert(bone.position.len() == bone.position@.len());
    assert(bone.rotation.len() == bone.rotation@.len());
    assert(bone.scale.len() == bone.scale@.len());
    lemma_sorted_frames(keyframes, AnimatorChannel::Translation, bone.position@);
    lemma_sorted_frames(keyframes, AnimatorChannel::Rotation, bone.rotation@);
    lemma_sorted_frames(keyframes, AnimatorChannel::Scale, bone.scale@);
}

/// A texture whose name begins with `$` is the variable of that number, one whose name begins with `@`
/// is the registered texture of that name, and any other is held by the file. Those are numbered from
/// zero on, in their order. Every texture keeps its size.
pub proof fn law_model_textures<F: Copy>(
    textures: Seq<(ModelTexture, F, F)>,
    bb: Seq<BBTexture<F>>,
    ids: Seq<Seq<char>>,
    i: int,
    j: int,
)
    requires
        are_textures_of(textures, bb, ids),
        0 <= i < j < bb.len(),
    ensures
        textures.len() == bb.len(),
        textures[i].1 == bb[i].uv_width,
        textures[i].2 == bb[i].uv_height,
        textures[i].0 is Variable <==> bb[i].name@.len() > 0 && bb[i].name@[0] == '$',
        textures[i].0 is Texture <==> bb[i].name@.len() > 0 && bb[i].name@[0] == '@',
        textures[i].0 matches ModelTexture::Variable(v) ==> parse_unsigned_spec(
            bb[i].name@.drop_first(),
            usize::MAX as int,
        ) == Some(v as int),
        textures[i].0 matches ModelTexture::Texture(key) ==> ids[key.index()]
            == bb[i].name@.drop_first(),
        textures[i].0 matches ModelTexture::Embed(source, _) ==> source@ == bb[i].source@,
        textures[0].0 matches ModelTexture::Embed(_, number) ==> number == 0,
        textures[i].0 is Embed && textures[j].0 is Embed ==> textures[i].0->Embed_1
            < textures[j].0->Embed_1,
        textures[i].0 is Embed && textures[i + 1].0 is Embed ==> textures[i + 1].0->Embed_1
            == textures[i].0->Embed_1 + 1,
{
    assert(is_texture_of(textures[0].0, bb[0], embedded(bb, 0), ids));
    assert(is_texture_of(textures[i].0, bb[i], embedded(bb, i), ids));
    assert(is_texture_of(textures[j].0, bb[j], embedded(bb, j), ids));
    assert(is_texture_of(textures[i + 1].0, bb[i + 1], embedded(bb, i + 1), ids));
    lemma_embedded_grows(bb, i + 1, j);
}

proof fn lemma_embedded_grows<F: Copy>(textures: Seq<BBTexture<F>>, m: int, n: int)
    requires
        0 <= m <= n,
    ensures
        embedded(textures, m) <= embedded(textures, n),
    decreases n - m,
{
    if m < n {
        lemma_embedded_grows(textures, m, n - 1);
    }
}

/// The bone at the end of a way, which lists the children from the innermost on.
pub open spec fn bone_at<F: Copy>(bone: Bone<F>, way: Seq<usize>) -> Bone<F>
    decreases way.len(),
{
    if way.len() == 0 {
        bone
    } else {
        bone_at(bone.children@[way.last() as int], way.drop_last())
    }
}

/// Where an anchor is found there is a locator of that name.
pub proof fn law_anchor_is_there<F: Copy>(bone: Bone<F>, anchor: Seq<char>)
    ensures
        anchor_spec(bone, anchor) matches Some((way, element)) ==> {
            &&& 0 <= element < bone_at(bone, way).elements@.len()
            &&& bone_at(bone, way).elements@[element] is Locator
            &&& bone_at(bone, way).elements@[element]->Locator_name@ == anchor
        },
    decreases bone, bone.children@.len() + 1,
{
    lemma_first_locator(bone.elements@, anchor, 0);
    if first_locator(bone.elements@, anchor, 0) is None {
        assert(bone.children.len() == bone.children@.len());
        lemma_anchor_in(bone, anchor, 0);
    }
}

proof fn lemma_first_locator<F: Copy>(elements: Seq<Element<F>>, anchor: Seq<char>, i: int)
    requires
        0 <= i,
    ensures
        match first_locator(elements, anchor, i) {
            Some(k) => i <= k < elements.len() && elements[k] is Locator
                && elements[k]->Locator_name@ == anchor,
            None => forall|k: int|
                i <= k < elements.len() ==> !((#[trigger] elements[k]) is Locator
                    && elements[k]->Locator_name@ == anchor),
        },
    decreases elements.len() - i,
{
    if i < elements.len() {
        lemma_first_locator(elements, anchor, i + 1);
    }
}

proof fn lemma_anchor_in<F: Copy>(bone: Bone<F>, anchor: Seq<char>, i: int)
    requires
        0 <= i,
        bone.children@.len() <= usize::MAX,
    ensures
        anchor_in(bone, anchor, i) matches Some((way, element)) ==> {
            &&& 0 <= element < bone_at(bone, way).elements@.len()
            &&& bone_at(bone, way).elements@[element] is Locator
            &&& bone_at(bone, way).elements@[element]->Locator_name@ == anchor
        },
    decreases bone, bone.children@.len() - i,
{
    if i < bone.children@.len() {
        assert(decreases_to!(bone.children@ => bone.children@[i]));
        law_anchor_is_there(bone.children@[i], anchor);
        match anchor_spec(bone.children@[i], anchor) {
            Some((way, element)) => {
                assert(way.push(i as usize).drop_last() =~= way);
            },
            None => {
                lemma_anchor_in(bone, anchor, i + 1);
            },
        }
    }
}

/// An anchor is missing only where no part of the bone is a locator of that name and no child has one.
pub proof fn law_missing_anchor<F: Copy>(bone: Bone<F>, anchor: Seq<char>, part: int, child: int)
    requires
        anchor_spec(bone, anchor) is None,
        0 <= part < bone.elements@.len(),
        0 <= child < bone.children@.len(),
    ensures
        !(bone.elements@[part] is Locator && bone.elements@[part]->Locator_name@ == anchor),
        anchor_spec(bone.children@[child], anchor) is None,
{
    lemma_first_locator(bone.elements@, anchor, 0);
    lemma_missing_children(bone, anchor, 0, child);
}

proof fn lemma_missing_children<F: Copy>(bone: Bone<F>, anchor: Seq<char>, i: int, child: int)
    requires
        0 <= i <= child < bone.children@.len(),
        anchor_in(bone, anchor, i) is None,
    ensures
        anchor_spec(bone.children@[child], anchor) is None,
    decreases child - i,
{
    if i < child {
        lemma_missing_children(bone, anchor, i + 1, child);
    }
}

/// Whether a way leads from a bone to one below it.
pub open spec fn is_way<F: Copy>(bone: Bone<F>, way: Seq<usize>) -> bool
    decreases way.len(),
{
    way.len() > 0 ==> way.last() < bone.children@.len() && is_way(
        bone.children@[way.last() as int],
        way.drop_last(),
    )
}

proof fn lemma_bone_below<F: Copy>(
    bone: Bone<F>,
    outliner: Seq<BBOutliner>,
    uuid: Option<Seq<char>>,
    model: BBModel<F>,
    way: Seq<usize>,
) -> (below: (Seq<BBOutliner>, Option<Seq<char>>))
    requires
        is_bone_of(bone, outliner, uuid, model),
        is_whole_outline(outliner, uuid, model),
        is_way(bone, way),
    ensures
        is_bone_of(bone_at(bone, way), below.0, below.1, model),
        is_whole_outline(below.0, below.1, model),
    decreases way.len(),
{
    if way.len() == 0 {
        (outliner, uuid)
    } else {
        let child = way.last() as int;
        lemma_group_places(outliner, outliner.len() as int);
        let place = group_places(outliner, outliner.len() as int)[child];
        assert(is_child_of(bone.children@[child], outliner[place], model));
        match outliner[place] {
            BBOutliner::Group { uuid, children } => lemma_bone_below(
                bone.children@[child],
                children@,
                Some(uuid@),
                model,
                way.drop_last(),
            ),
            BBOutliner::Element(_) => (outliner, uuid),
        }
    }
}

/// Of a model that was made from a file, every cube of every bone is one of the file's cubes that are
/// shown: its upper side shows the last entry that is named `up`, its lower side `down`, its left side
/// `west`, its right side `east`, its front `north` and its back `south`.
pub proof fn law_model_cubes<F: Copy>(
    model: Model<F>,
    bb: BBModel<F>,
    ids: Seq<Seq<char>>,
    way: Seq<usize>,
    i: int,
)
    requires
        bb.is_whole(ids),
        model.is_model_of(bb, ids),
        is_way(model.root_bone, way),
        0 <= i < bone_at(model.root_bone, way).elements@.len(),
        bone_at(model.root_bone, way).elements@[i] is Cube,
    ensures
        ({
            let made = bone_at(model.root_bone, way).elements@[i];
            exists|part: int|
                {
                    &&& 0 <= part < bb.elements@.len()
                    &&& (#[trigger] bb.elements@[part]) matches BBElement::Cube {
                        from,
                        to,
                        origin,
                        rotation,
                        faces,
                        visibility,
                        ..
                    }
                    &&& visibility
                    &&& made->Cube_from == from
                    &&& made->Cube_to == to
                    &&& made->Cube_origin == origin
                    &&& made->Cube_rotation == rotation
                    &&& shows_entry(made->Cube_uvs.up, faces@, "up"@)
                    &&& shows_entry(made->Cube_uvs.down, faces@, "down"@)
                    &&& shows_entry(made->Cube_uvs.left, faces@, "west"@)
                    &&& shows_entry(made->Cube_uvs.right, faces@, "east"@)
                    &&& shows_entry(made->Cube_uvs.front, faces@, "north"@)
                    &&& shows_entry(made->Cube_uvs.back, faces@, "south"@)
                }
        }),
{
    let (outliner, uuid) = lemma_bone_below(model.root_bone, bb.outliner@, None, bb, way);
    let bone = bone_at(model.root_bone, way);
    let places = lemma_shown_places(outliner, uuid, bb, outliner.len() as int);
    let shown = shown_elements(outliner, bb, outliner.len() as int);
    assert(is_element_of(bone.elements@[i], shown[i]));
    let (entry, part) = places[i];
    assert(calls_for(outliner[entry], bb, part));
    assert(bb.elements@[part] == shown[i]);
    lemma_element_named(bb.elements@, outliner[entry]->Element_0@, bb.elements@.len() as int);
    assert(is_whole_entry(outliner[entry]->Element_0@, bb));
    assert(is_whole_element(bb.elements@[part], bb.textures@.len())) by {
        let last = last_named(
            bb.elements@,
            outliner[entry]->Element_0@,
            bb.elements@.len() as int,
        )->0;
        if part < last {
            assert(bb.elements@[last].name_spec() != outliner[entry]->Element_0@);
        }
    }
    law_cube_sides(bone.elements@[i], bb.elements@[part], bb.textures@.len());
}

} // verus!
