//! Blocks: their colors, their rotations and what they offer.

use crate::color::Color;
use crate::face::{Axis, Face, FaceMap};
use crate::inventory::InventoryView;
use crate::registry::{BlockData, Key, ResearchData};
use crate::ui_element::UIScreen;
use crate::registry::{EntityData, PlantData};
use crate::rotation::{law_orientation_wf, law_rotation_unique, BlockRotation};
use crate::scripts::names;
use crate::text;
use vstd::prelude::*;

verus! {

pub type BlockKey = Key<BlockData>;

/// The color of a block: five bits for each of red, green and blue, red lowest.
#[derive(PartialEq, Eq, Hash, Copy, Clone, Structural, Debug)]
pub struct BlockColor(pub u16);

impl BlockColor {
    pub open spec fn color_spec(self) -> Color {
        Color {
            r: (self.0 as int % 32 * 8) as u8,
            g: (self.0 as int / 32 % 32 * 8) as u8,
            b: (self.0 as int / 1024 % 32 * 8) as u8,
            a: 255,
        }
    }

    /// The color with eight bits for each component.
    pub fn to_color(self) -> (r: Color)
        ensures
            r == self.color_spec(),
    {
        let v: u16 = self.0;
        proof {
            assert((v & 31u16) << 3u16 == v % 32 * 8) by (bit_vector);
            assert(((v >> 5u16) & 31u16) << 3u16 == v / 32 % 32 * 8) by (bit_vector);
            assert(((v >> 10u16) & 31u16) << 3u16 == v / 1024 % 32 * 8) by (bit_vector);
        }
        Color {
            r: ((v & 31u16) << 3u16) as u8,
            g: (((v >> 5u16) & 31u16) << 3u16) as u8,
            b: (((v >> 10u16) & 31u16) << 3u16) as u8,
            a: 255,
        }
    }
}

impl Default for BlockColor {
    fn default() -> (r: BlockColor)
        ensures
            r.0 == 32767,
    {
        BlockColor(32767)
    }
}

/// Which rotations a kind of block can have.
#[derive(Copy, Clone, PartialEq, Eq, Structural, Debug)]
pub enum BlockRotationMode {
    Fixed,
    Horizontal,
    Full,
    FullOriented,
    Axis,
}

/// The best of the first `n` faces, of those that are not on the axis `without`: the last of the
/// fittest.
pub open spec fn fittest_of(fitness: FaceMap<i64>, without: Option<Axis>, n: int) -> Option<Face>
    decreases n,
{
    if n <= 0 {
        None
    } else {
        let face = Face::all_spec()[n - 1];
        let before = fittest_of(fitness, without, n - 1);
        if without == Some(face.axis()) {
            before
        } else {
            match before {
                Some(best) if fitness.at(face) < fitness.at(best) => before,
                _ => Some(face),
            }
        }
    }
}

/// The fittest face that is not on the axis `without`.
pub open spec fn fittest(fitness: FaceMap<i64>, without: Option<Axis>) -> Face {
    fittest_of(fitness, without, 6)->0
}

/// The face of an axis that stands for the whole axis.
pub open spec fn axis_face(face: Face) -> Face {
    match face {
        Face::Back | Face::Right | Face::Up => face,
        Face::Front | Face::Left | Face::Down => face.opposite_spec(),
    }
}

/// Whether the rotation has these front and upper faces.
pub open spec fn faces_are(rotation: BlockRotation, front: Face, up: Face) -> bool {
    rotation.front() == front && rotation.up() == up
}

/// The upper face of a block that looks to `front`.
pub open spec fn natural_up(front: Face) -> Face {
    match front {
        Face::Up => Face::Back,
        Face::Down => Face::Front,
        _ => Face::Up,
    }
}

/// Whether the rotation stands for an axis, with `face` of it on top.
pub open spec fn is_axis_rotation(rotation: BlockRotation, face: Face) -> bool {
    faces_are(
        rotation,
        match face {
            Face::Front | Face::Back => Face::Up,
            _ => Face::Front,
        },
        face,
    )
}

impl BlockRotationMode {
    /// The fittest face that is not on the axis `without`.
    fn closest_face(fitness: &FaceMap<i64>, without: Option<Axis>) -> (r: Face)
        ensures
            r == fittest(*fitness, without),
            without matches Some(axis) ==> r.axis() != axis,
    {
        let all = Face::all();
        let mut best: Option<Face> = None;
        let mut i: usize = 0;
        while i < 6
            invariant
                i <= 6,
                all@ == Face::all_spec(),
                best == fittest_of(*fitness, without, i as int),
                without matches Some(axis) ==> (best matches Some(face) ==> face.axis() != axis),
                i > 0 && without !is Some ==> best is Some,
                i > 2 ==> best is Some,
            decreases 6 - i,
        {
            let face = all[i];
            let (axis, _) = face.axis_direction();
            let skip = match without {
                Some(other) => axis == other,
                None => false,
            };
            if !skip {
                best = match best {
                    Some(current) => {
                        if *fitness.by_face(face) < *fitness.by_face(current) {
                            Some(current)
                        } else {
                            Some(face)
                        }
                    },
                    None => Some(face),
                };
            }
            i += 1;
        }
        best.unwrap()
    }

    /// Whether `r` is the rotation of a block that is placed by someone looking in a direction.
    pub open spec fn is_looked_to(
        self,
        fitness: FaceMap<i64>,
        up_face: Face,
        r: BlockRotation,
    ) -> bool {
        match self {
            BlockRotationMode::Fixed => r == BlockRotation::FrontUp,
            BlockRotationMode::Horizontal => faces_are(r, fittest(fitness, Some(Axis::Y)), Face::Up),
            BlockRotationMode::Full => faces_are(
                r,
                fittest(fitness, None),
                natural_up(fittest(fitness, None)),
            ),
            BlockRotationMode::FullOriented => faces_are(
                r,
                fittest(fitness, Some(up_face.axis())),
                up_face,
            ),
            BlockRotationMode::Axis => is_axis_rotation(r, axis_face(fittest(fitness, None))),
        }
    }

    /// The rotation of a block that is placed by someone looking in a direction. The direction is
    /// given by how well each face fits it.
    pub fn from_look_direction(self, fitness: &FaceMap<i64>, up_face: Face) -> (r: BlockRotation)
        ensures
            self.is_looked_to(*fitness, up_face, r),
    {
        match self {
            BlockRotationMode::Fixed => BlockRotation::default(),
            BlockRotationMode::Horizontal => {
                BlockRotation::looking_to(
                    BlockRotationMode::closest_face(fitness, Some(Axis::Y)),
                )
            },
            BlockRotationMode::Full => {
                BlockRotation::looking_to(BlockRotationMode::closest_face(fitness, None))
            },
            BlockRotationMode::FullOriented => {
                let (axis, _) = up_face.axis_direction();
                BlockRotation::new(
                    BlockRotationMode::closest_face(fitness, Some(axis)),
                    up_face,
                ).unwrap()
            },
            BlockRotationMode::Axis => {
                BlockRotationMode::along_axis(BlockRotationMode::closest_face(fitness, None))
            },
        }
    }

    /// The rotation that stands for the axis of a face.
    fn along_axis(face: Face) -> (r: BlockRotation)
        ensures
            is_axis_rotation(r, axis_face(face)),
    {
        let face = match face {
            Face::Back | Face::Right | Face::Up => face,
            Face::Front | Face::Left | Face::Down => face.opposite(),
        };
        let front = match face {
            Face::Front | Face::Back => Face::Up,
            _ => Face::Front,
        };
        BlockRotation::new(front, face).unwrap()
    }

    /// Whether `r` is the rotation of this mode that is nearest to `value`.
    pub open spec fn is_nearest(self, value: BlockRotation, r: BlockRotation) -> bool {
        match self {
            BlockRotationMode::Fixed => r == BlockRotation::FrontUp,
            BlockRotationMode::Horizontal => faces_are(
                r,
                match value.front() {
                    Face::Up | Face::Down => Face::Front,
                    front => front,
                },
                Face::Up,
            ),
            BlockRotationMode::Full => faces_are(r, value.front(), natural_up(value.front())),
            BlockRotationMode::FullOriented => r == value,
            BlockRotationMode::Axis => is_axis_rotation(r, axis_face(value.up())),
        }
    }

    /// The rotation of this mode that is nearest to `value`.
    pub fn get_nearest_valid(self, value: BlockRotation) -> (r: BlockRotation)
        ensures
            self.is_nearest(value, r),
    {
        match self {
            BlockRotationMode::Fixed => BlockRotation::default(),
            BlockRotationMode::Horizontal => match value.front_face() {
                Face::Up | Face::Down => BlockRotation::new(Face::Front, Face::Up).unwrap(),
                front => BlockRotation::new(front, Face::Up).unwrap(),
            },
            BlockRotationMode::Full => match value.front_face() {
                Face::Up => BlockRotation::new(Face::Up, Face::Back).unwrap(),
                Face::Down => BlockRotation::new(Face::Down, Face::Front).unwrap(),
                front => BlockRotation::new(front, Face::Up).unwrap(),
            },
            BlockRotationMode::FullOriented => value,
            BlockRotationMode::Axis => BlockRotationMode::along_axis(value.up_face()),
        }
    }
}

impl Default for BlockRotationMode {
    fn default() -> (r: BlockRotationMode)
        ensures
            r == BlockRotationMode::Fixed,
    {
        BlockRotationMode::Fixed
    }
}

/// The nearest rotation of a mode is fixed, and a rotation of the mode is its own nearest one.
pub proof fn law_nearest_is_fixed(
    mode: BlockRotationMode,
    value: BlockRotation,
    a: BlockRotation,
    b: BlockRotation,
)
    requires
        mode.is_nearest(value, a),
        mode.is_nearest(a, b),
    ensures
        a == b,
{
    law_rotation_unique(a, a);
    if a.front() == b.front() && a.up() == b.up() {
        law_rotation_unique(a, b);
    }
}


/// The place of a face in the order of the faces: front, back, up, down, left, right.
pub open spec fn rank(face: Face) -> int {
    match face {
        Face::Front => 0,
        Face::Back => 1,
        Face::Up => 2,
        Face::Down => 3,
        Face::Left => 4,
        Face::Right => 5,
    }
}

/// No face off the axis that is left out fits better than the fittest one, which is off that axis too;
/// and none that comes later fits as well.
pub proof fn law_fittest(fitness: FaceMap<i64>, without: Option<Axis>, face: Face)
    requires
        without != Some(face.axis()),
    ensures
        without != Some(fittest(fitness, without).axis()),
        fitness.at(face) <= fitness.at(fittest(fitness, without)),
        rank(face) > rank(fittest(fitness, without)) ==> fitness.at(face) < fitness.at(
            fittest(fitness, without),
        ),
{
    let all = Face::all_spec();
    assert(all[0] == Face::Front && all[1] == Face::Back && all[2] == Face::Up && all[3]
        == Face::Down && all[4] == Face::Left && all[5] == Face::Right);
    reveal_with_fuel(fittest_of, 7);
}

/// A block that stands for an axis lies on the axis of the face that fits the look best: its upper face
/// is that face or the opposite one, whichever looks towards the high end of the axis. Its front looks
/// to the front, or up where the axis goes from front to back.
pub proof fn law_axis_of_look(fitness: FaceMap<i64>, up_face: Face, r: BlockRotation)
    requires
        BlockRotationMode::Axis.is_looked_to(fitness, up_face, r),
    ensures
        r.up().axis() == fittest(fitness, None).axis(),
        r.up().offset().x >= 0 && r.up().offset().y >= 0 && r.up().offset().z >= 0,
        r.front() == if r.up().axis() == Axis::Z {
            Face::Up
        } else {
            Face::Front
        },
{
}

/// A block that looks along the ground stands upright and looks to the face along the ground that
/// fits best.
pub proof fn law_horizontal_look(fitness: FaceMap<i64>, up_face: Face, r: BlockRotation, face: Face)
    requires
        BlockRotationMode::Horizontal.is_looked_to(fitness, up_face, r),
        face.axis() != Axis::Y,
    ensures
        r.up() == Face::Up,
        r.front() != Face::Up && r.front() != Face::Down,
        fitness.at(face) <= fitness.at(r.front()),
{
    law_fittest(fitness, Some(Axis::Y), face);
    law_fittest(fitness, Some(Axis::Y), Face::Front);
}

/// A block that looks anywhere looks to the face that fits best. It stands upright, unless it looks up
/// or down: then its upper face is at the back or in front.
pub proof fn law_full_look(fitness: FaceMap<i64>, up_face: Face, r: BlockRotation, face: Face)
    requires
        BlockRotationMode::Full.is_looked_to(fitness, up_face, r),
    ensures
        fitness.at(face) <= fitness.at(r.front()),
        r.front() == Face::Up ==> r.up() == Face::Back,
        r.front() == Face::Down ==> r.up() == Face::Front,
        r.front() != Face::Up && r.front() != Face::Down ==> r.up() == Face::Up,
{
    law_fittest(fitness, None, face);
}

/// A block that is attached to a face has its upper face there, and looks to the face beside it that
/// fits best.
pub proof fn law_oriented_look(fitness: FaceMap<i64>, up_face: Face, r: BlockRotation, face: Face)
    requires
        BlockRotationMode::FullOriented.is_looked_to(fitness, up_face, r),
        face.axis() != up_face.axis(),
    ensures
        r.up() == up_face,
        r.front().axis() != up_face.axis(),
        fitness.at(face) <= fitness.at(r.front()),
{
    law_fittest(fitness, Some(up_face.axis()), face);
}

/// A fixed block is never turned: its front looks to the front and its upper face up.
pub proof fn law_fixed_look(fitness: FaceMap<i64>, up_face: Face, value: BlockRotation, r: BlockRotation)
    requires
        BlockRotationMode::Fixed.is_looked_to(fitness, up_face, r)
            || BlockRotationMode::Fixed.is_nearest(value, r),
    ensures
        r.front() == Face::Front,
        r.up() == Face::Up,
{
}

/// The nearest rotation of a mode keeps what the mode can: an axis its axis, a block that looks along
/// the ground or anywhere its front, a block that can be turned in every way all of it.
pub proof fn law_nearest_keeps(value: BlockRotation, r: BlockRotation)
    ensures
        BlockRotationMode::Axis.is_nearest(value, r) ==> r.up().axis() == value.up().axis()
            && r.up().offset().x >= 0 && r.up().offset().y >= 0 && r.up().offset().z >= 0,
        BlockRotationMode::Horizontal.is_nearest(value, r) ==> r.up() == Face::Up && (
        value.front().axis() != Axis::Y ==> r.front() == value.front()) && (value.front().axis()
            == Axis::Y ==> r.front() == Face::Front),
        BlockRotationMode::Full.is_nearest(value, r) ==> r.front() == value.front() && (r.front()
            == Face::Up ==> r.up() == Face::Back) && (r.front() == Face::Down ==> r.up()
            == Face::Front) && (r.front().axis() != Axis::Y ==> r.up() == Face::Up),
        BlockRotationMode::FullOriented.is_nearest(value, r) ==> r == value,
{
}

/// The color of a block is five bits of each component, at eight bits each and without transparency:
/// the components, an eighth of each, make up the block's number again, red counting once, green
/// thirty-two times and blue thirty-two times as much as green.
pub proof fn law_block_color(color: BlockColor)
    ensures
        ({
            let c = color.color_spec();
            &&& c.r % 8 == 0 && c.g % 8 == 0 && c.b % 8 == 0
            &&& c.a == 255
            &&& c.r / 8 + 32 * (c.g / 8) + 1024 * (c.b / 8) == color.0 % 32768
        }),
{
    let c = color.color_spec();
    let v = color.0 as int;
    let (r, g, b) = (v % 32, v / 32 % 32, v / 1024 % 32);
    assert(c.r == r * 8 && c.g == g * 8 && c.b == b * 8);
    assert(r * 8 / 8 == r && g * 8 / 8 == g && b * 8 / 8 == b);
    assert(r + 32 * g + 1024 * b == v % 32768) by {
        assert(v == r + 32 * (v / 32));
        assert(v / 32 == g + 32 * (v / 1024));
        assert(v / 1024 == b + 32 * (v / 32768));
    }
}

/// The texts that tell what using a block or an entity does.
pub proof fn law_tooltips(block: BlockInteractAction, entity: EntityInteractAction)
    ensures
        block.tooltip_spec() is None <==> block is Ignore,
        block is OpenInventory ==> block.tooltip_spec() == Some("block_action.open_inventory"@),
        block is Pickup ==> block.tooltip_spec() == Some("block_action.pickup"@),
        block is ModifyProperty ==> block.tooltip_spec() == Some("block_action.modify_property"@),
        entity.tooltip_spec() is None <==> entity is Ignore,
        entity is Pickup ==> entity.tooltip_spec() == Some("block_action.pickup"@),
{
}

/// Each kind of machine face shows its own connector, and an empty one none.
pub proof fn law_connectors_of_machines(face: BlockMachineFace, list: Seq<Seq<char>>, name: Seq<char>)
    ensures
        face.connector_spec() is None <==> face is Empty,
        face is InventoryAccess ==> face.connector_spec() == Some("inventory"@),
        face is LogicInput ==> face.connector_spec() == Some("logic_input"@),
        face is LogicOutput ==> face.connector_spec() == Some("logic_output"@),
        face is SignalInput ==> face.connector_spec() == Some("signal_input"@),
        face is SignalOutput ==> face.connector_spec() == Some("signal_output"@),
        with_connector(list, None) == list,
        with_connector(list, Some(name)).contains(name),
        list.contains(name) ==> with_connector(list, Some(name)) == list,
        !list.contains(name) ==> with_connector(list, Some(name)).len() == list.len() + 1,
        forall|i: int| 0 <= i < list.len() ==> with_connector(list, Some(name))[i] == list[i],
{
    if !list.contains(name) {
        let r = list.push(name);
        assert(r[list.len() as int] == name);
    }
}

/// A block of a chunk: its kind, its color and its rotation.
#[derive(Copy, Clone)]
pub struct BlockEntry {
    pub block: BlockKey,
    pub color: BlockColor,
    pub rotation: BlockRotation,
}

impl BlockEntry {
    /// A block in its usual color and rotation.
    pub fn simple(block: BlockKey) -> (r: BlockEntry)
        ensures
            r == (BlockEntry {
                block,
                color: BlockColor(32767),
                rotation: BlockRotation::FrontUp,
            }),
    {
        BlockEntry { block, color: BlockColor::default(), rotation: BlockRotation::default() }
    }

    /// Whether something can be attached to the side of the block that points to `world_face`.
    /// `supporting` tells it of the sides of the unturned block.
    pub fn supports(&self, supporting: &FaceMap<bool>, world_face: Face) -> (r: bool)
        ensures
            exists|face: Face|
                self.rotation.orientation().apply_spec(face) == world_face && r
                    == #[trigger] supporting.at(face),
            forall|face: Face|
                self.rotation.orientation().apply_spec(face) == world_face ==> r
                    == #[trigger] supporting.at(face),
    {
        let face = self.rotation.inverse_rotate_face(world_face);
        proof {
            law_orientation_wf(self.rotation);
            assert forall|other: Face|
                self.rotation.orientation().apply_spec(other) == world_face implies
                #[trigger] supporting.at(other) == supporting.at(face) by {
                crate::orientation::law_apply_bijective(self.rotation.orientation(), face, other);
            }
        }
        *supporting.by_face(face)
    }
}

/// What happens when a block is used.
pub enum BlockInteractAction {
    Ignore,
    OpenInventory { screen: Key<UIScreen>, view: InventoryView },
    Pickup,
    ModifyProperty { property: String, value: u16 },
}

impl BlockInteractAction {
    /// The name of the text that tells what using the block does.
    pub open spec fn tooltip_spec(self) -> Option<Seq<char>> {
        match self {
            BlockInteractAction::Ignore => None,
            BlockInteractAction::OpenInventory { .. } => Some("block_action.open_inventory"@),
            BlockInteractAction::Pickup => Some("block_action.pickup"@),
            BlockInteractAction::ModifyProperty { .. } => Some("block_action.modify_property"@),
        }
    }

    /// The name of the text that tells what using the block does.
    pub fn tooltip(&self) -> (r: Option<&'static str>)
        ensures
            optional_view(r) == self.tooltip_spec(),
    {
        match self {
            BlockInteractAction::Ignore => None,
            BlockInteractAction::OpenInventory { .. } => Some("block_action.open_inventory"),
            BlockInteractAction::Pickup => Some("block_action.pickup"),
            BlockInteractAction::ModifyProperty { .. } => Some("block_action.modify_property"),
        }
    }
}

/// The view of a text, if there is one.
pub open spec fn optional_view(r: Option<&str>) -> Option<Seq<char>> {
    match r {
        Some(s) => Some(s@),
        None => None,
    }
}

impl Default for BlockInteractAction {
    fn default() -> (r: BlockInteractAction)
        ensures
            r is Ignore,
    {
        BlockInteractAction::Ignore
    }
}

/// What happens when an entity is used.
#[derive(Copy, Clone, PartialEq, Eq, Structural, Debug)]
pub enum EntityInteractAction {
    Ignore,
    Pickup,
}

impl EntityInteractAction {
    /// The name of the text that tells what using the entity does.
    pub open spec fn tooltip_spec(self) -> Option<Seq<char>> {
        match self {
            EntityInteractAction::Ignore => None,
            EntityInteractAction::Pickup => Some("block_action.pickup"@),
        }
    }

    /// The name of the text that tells what using the entity does.
    pub fn tooltip(&self) -> (r: Option<&'static str>)
        ensures
            optional_view(r) == self.tooltip_spec(),
    {
        match self {
            EntityInteractAction::Ignore => None,
            EntityInteractAction::Pickup => Some("block_action.pickup"),
        }
    }
}

impl Default for EntityInteractAction {
    fn default() -> (r: EntityInteractAction)
        ensures
            r == EntityInteractAction::Ignore,
    {
        EntityInteractAction::Ignore
    }
}

/// One of the blocks that an item can be placed as.
#[derive(Copy, Clone)]
pub struct ItemBlockPlacement {
    pub block: BlockKey,
    pub use_count: u16,
    pub research: Option<Key<ResearchData>>,
}

/// What using an item does. `C` tells what eating it does.
pub enum ItemAction<C> {
    Ignore,
    Place(Vec<ItemBlockPlacement>),
    SpawnEntity(Key<EntityData>),
    Plant(Key<PlantData>),
    RotateBlock,
    Consume(C),
}

impl<C> ItemAction<C> {
    pub open spec fn variations(self) -> nat {
        match self {
            ItemAction::Place(placements) => placements@.len(),
            _ => 1,
        }
    }

    /// In how many ways the item can be used.
    pub fn variation_count(&self) -> (r: usize)
        ensures
            r == self.variations(),
    {
        match self {
            ItemAction::Place(item_block_placements) => item_block_placements.len(),
            _ => 1,
        }
    }
}

impl<C> Default for ItemAction<C> {
    fn default() -> (r: ItemAction<C>)
        ensures
            r is Ignore,
    {
        ItemAction::Ignore
    }
}

/// What a machine does at one of its faces.
pub enum BlockMachineFace {
    InventoryAccess { input: InventoryView, output: InventoryView },
    LogicInput,
    LogicOutput,
    SignalInput,
    SignalOutput,
    Empty,
}

impl BlockMachineFace {
    pub open spec fn connector_spec(self) -> Option<Seq<char>> {
        match self {
            BlockMachineFace::InventoryAccess { .. } => Some("inventory"@),
            BlockMachineFace::LogicInput => Some("logic_input"@),
            BlockMachineFace::LogicOutput => Some("logic_output"@),
            BlockMachineFace::SignalInput => Some("signal_input"@),
            BlockMachineFace::SignalOutput => Some("signal_output"@),
            BlockMachineFace::Empty => None,
        }
    }

    /// The connector that shows at the face.
    pub fn connector(&self) -> (r: Option<&'static str>)
        ensures
            optional_view(r) == self.connector_spec(),
    {
        match self {
            BlockMachineFace::InventoryAccess { .. } => Some("inventory"),
            BlockMachineFace::LogicInput => Some("logic_input"),
            BlockMachineFace::LogicOutput => Some("logic_output"),
            BlockMachineFace::SignalInput => Some("signal_input"),
            BlockMachineFace::SignalOutput => Some("signal_output"),
            BlockMachineFace::Empty => None,
        }
    }
}

impl Default for BlockMachineFace {
    fn default() -> (r: BlockMachineFace)
        ensures
            r is Empty,
    {
        BlockMachineFace::Empty
    }
}

/// A list of connectors with one more name, unless it is there.
pub open spec fn with_connector(list: Seq<Seq<char>>, name: Option<Seq<char>>) -> Seq<Seq<char>> {
    match name {
        Some(name) if !list.contains(name) => list.push(name),
        _ => list,
    }
}

/// Whether a list of names holds a name.
pub fn contains_name(list: &Vec<String>, name: &str) -> (r: bool)
    ensures
        r == names(list@).contains(name@),
{
    let mut i: usize = 0;
    while i < list.len()
        invariant
            i <= list@.len(),
            forall|j: int| 0 <= j < i ==> names(list@)[j] != name@,
        decreases list@.len() - i,
    {
        if text::equals(list[i].as_str(), name) {
            assert(names(list@)[i as int] == name@);
            return true;
        }
        i += 1;
    }
    false
}

/// Adds the connectors that a machine shows at its faces to those of its model.
pub fn add_machine_connectors(
    faces: &FaceMap<BlockMachineFace>,
    connectors: &mut FaceMap<Vec<String>>,
)
    ensures
        forall|face: Face|
            names((#[trigger] final(connectors).at(face))@) == with_connector(
                names(old(connectors).at(face)@),
                faces.at(face).connector_spec(),
            ),
{
    let all = Face::all();
    let ghost start = *connectors;
    let mut i: usize = 0;
    while i < 6
        invariant
            i <= 6,
            all@ == Face::all_spec(),
            start == *old(connectors),
            forall|j: int|
                0 <= j < i ==> names(connectors.at(#[trigger] Face::all_spec()[j])@)
                    == with_connector(
                    names(start.at(Face::all_spec()[j])@),
                    faces.at(Face::all_spec()[j]).connector_spec(),
                ),
            forall|j: int|
                i <= j < 6 ==> connectors.at(#[trigger] Face::all_spec()[j]) == start.at(
                    Face::all_spec()[j],
                ),
        decreases 6 - i,
    {
        let face = all[i];
        let ghost before = *connectors;
        proof {
            assert(Face::all_spec()[i as int] == face);
            crate::face::law_all_faces(face);
        }
        if let Some(connector) = faces.by_face(face).connector() {
            let list = connectors.by_face_mut(face);
            if !contains_name(list, connector) {
                let ghost names_before = names(list@);
                list.push(connector.to_owned());
                assert(names(list@) =~= names_before.push(connector@));
            }
        }
        i += 1;
    }
    proof {
        assert forall|face: Face|
            names((#[trigger] connectors.at(face))@) == with_connector(
                names(old(connectors).at(face)@),
                faces.at(face).connector_spec(),
            ) by {
            crate::face::law_all_faces(face);
            let j = Face::all_spec().index_of(face);
            assert(Face::all_spec()[j] == face);
        }
    }
}

} // verus!
