//! The screens of the user interface as they are read from files.

use crate::block::contains_name;
use crate::net::PropertyModifyMode;
use crate::property::{extract_patched_properties_from_text, is_closed, properties_in};
use crate::registry::{
    is_group_line, Key, KeyGroup, LoadRegistry, RecipeData, ResearchData, TextureData,
};
use crate::screen::{CraftAreaRecipes, SlotId};
use crate::scripts::names;
use crate::text::{self, parse_signed_spec, parse_unsigned_spec, split_spec, trim_spec};
use crate::ui_style::{conditional_views, style_of, ErrorView, StyleError, UIStyleList};
use vstd::prelude::*;

verus! {

/// A node of a document. The nodes of a document stand in the order of their beginnings, and each
/// knows how many nodes it is inside of.
pub struct XmlNode {
    pub depth: usize,
    pub is_text: bool,
    pub tag: String,
    pub text: Option<String>,
    pub attributes: Vec<(String, String)>,
}

/// A node as the contracts speak of it.
pub struct NodeView {
    pub depth: int,
    pub is_text: bool,
    pub tag: Seq<char>,
    pub text: Option<Seq<char>>,
    pub attributes: Seq<(Seq<char>, Seq<char>)>,
}

impl View for XmlNode {
    type V = NodeView;

    open spec fn view(&self) -> NodeView {
        NodeView {
            depth: self.depth as int,
            is_text: self.is_text,
            tag: self.tag@,
            text: match self.text {
                Some(text) => Some(text@),
                None => None,
            },
            attributes: self.attributes@.map_values(
                |attribute: (String, String)| (attribute.0@, attribute.1@),
            ),
        }
    }
}

/// The views of several nodes.
pub open spec fn node_views(nodes: Seq<XmlNode>) -> Seq<NodeView> {
    nodes.map_values(|node: XmlNode| node@)
}

/// The nodes that `roxmltree` finds in a text, from the root element on; there are none if it
/// cannot read the text.
pub uninterp spec fn xml_nodes(text: Seq<char>) -> Option<Seq<NodeView>>;

/// Why `roxmltree` cannot read a text.
#[verifier::external_type_specification]
#[verifier::external_body]
pub struct ExXmlError(roxmltree::Error);

/// Reads a document with `roxmltree::Document::parse` and lists the root element with
/// `Node::descendants`: the nodes are those that `xml_nodes` names, or there is an error. A document
/// that was read has a root element, which comes first.
#[verifier::external_body]
fn read_xml(text: &str) -> (r: Result<Vec<XmlNode>, roxmltree::Error>)
    ensures
        match r {
            Ok(nodes) => nodes@.len() > 0 && xml_nodes(text@) == Some(node_views(nodes@)),
            Err(_) => xml_nodes(text@) is None,
        },
{
    let document = roxmltree::Document::parse(text)?;
    Ok(document.root_element().descendants().map(|node| XmlNode {
        depth: node.ancestors().count(),
        is_text: node.is_text(),
        tag: node.tag_name().name().to_string(),
        text: node.text().map(|text| text.to_string()),
        attributes: node.attributes().map(|a| (a.name().to_string(), a.value().to_string())).collect(),
    }).collect())
}

/// Whether a number has the form of a random unique number: its version is four and its variant two.
pub open spec fn is_random_uuid(uuid: u128) -> bool {
    &&& (uuid as int) / 0x1000_0000_0000_0000_0000int % 16 == 4
    &&& (uuid as int) / 0x4000_0000_0000_0000int % 4 == 2
}

/// A number that `uuid::Uuid::new_v4` makes up. Which one it is depends on chance; its form does
/// not.
#[verifier::external_body]
fn new_uuid() -> (r: u128)
    ensures
        is_random_uuid(r),
{
    uuid::Uuid::new_v4().as_u128()
}

/// The value of the first attribute of that name, from `i` on.
pub open spec fn attribute_from(
    attributes: Seq<(Seq<char>, Seq<char>)>,
    name: Seq<char>,
    i: int,
) -> Option<Seq<char>>
    decreases attributes.len() - i,
{
    if i >= attributes.len() {
        None
    } else if attributes[i].0 == name {
        Some(attributes[i].1)
    } else {
        attribute_from(attributes, name, i + 1)
    }
}

impl NodeView {
    /// The value of an attribute.
    pub open spec fn attribute(self, name: Seq<char>) -> Option<Seq<char>> {
        attribute_from(self.attributes, name, 0)
    }
}

/// The view of a text that may be missing.
pub open spec fn optional_text(text: Option<&str>) -> Option<Seq<char>> {
    match text {
        Some(text) => Some(text@),
        None => None,
    }
}

impl XmlNode {
    /// The value of an attribute.
    pub fn attribute(&self, name: &str) -> (r: Option<&str>)
        ensures
            optional_text(r) == self@.attribute(name@),
    {
        let mut i: usize = 0;
        while i < self.attributes.len()
            invariant
                i <= self.attributes@.len(),
                self@.attribute(name@) == attribute_from(self@.attributes, name@, i as int),
            decreases self.attributes@.len() - i,
        {
            let attribute = &self.attributes[i];
            assert(self@.attributes[i as int] == (attribute.0@, attribute.1@));
            if text::equals(attribute.0.as_str(), name) {
                return Some(attribute.1.as_str());
            }
            i += 1;
        }
        None
    }
}

/// What the files of screens speak of.
pub struct UIRegistries<'a> {
    pub textures: &'a LoadRegistry<TextureData>,
    pub recipes: &'a LoadRegistry<RecipeData>,
    pub research: &'a LoadRegistry<ResearchData>,
    pub styles: &'a LoadRegistry<UIStyleList>,
}

impl<'a> UIRegistries<'a> {
    pub open spec fn wf(self) -> bool {
        &&& self.textures.wf()
        &&& self.recipes.wf()
        &&& self.research.wf()
        &&& self.styles.wf()
    }
}

/// Why a file is no screen. `E` is the type of what is wrong with a style.
#[derive(Debug)]
pub enum UIError<E> {
    /// The file is no document.
    Document,
    /// An element is not written as it must be.
    Malformed,
    Style(E),
}

impl View for UIError<StyleError<String>> {
    type V = UIError<ErrorView>;

    open spec fn view(&self) -> UIError<ErrorView> {
        match self {
            UIError::Document => UIError::Document,
            UIError::Malformed => UIError::Malformed,
            UIError::Style(e) => UIError::Style(e@),
        }
    }
}

/// What an element is.
pub enum UIElementType {
    Box(Vec<UIElement>),
    Label(String),
    ItemSlot { slot: SlotId },
    CraftArea { recipes: CraftAreaRecipes },
    ResearchTree { research: KeyGroup<ResearchData> },
    Button { text: String, property: String, value: u16, modify_mode: PropertyModifyMode },
}

/// An element of a screen.
pub struct UIElement {
    pub element_type: UIElementType,
    pub style: UIStyleList,
    pub style_classes: Vec<Key<UIStyleList>>,
    pub uuid: u128,
}

/// A screen.
pub struct UIScreen {
    pub root: UIElement,
    pub display_properties: Vec<String>,
    pub button_properties: Vec<String>,
}

/// Whether a text that shows properties can be read.
pub open spec fn is_shown_text(text: Option<Seq<char>>) -> bool {
    text matches Some(text) && is_closed(text, true)
}

/// Whether a name means a group of a registry.
pub open spec fn is_group_name<T>(registry: LoadRegistry<T>, id: Seq<char>) -> bool {
    if id.len() == 0 {
        true
    } else if is_group_line(id) {
        registry.group_ids().contains_key(id.drop_first())
    } else {
        registry.ids().contains(id)
    }
}

/// Whether a group is the one that a name means.
pub open spec fn is_group_of<T>(
    group: KeyGroup<T>,
    registry: LoadRegistry<T>,
    id: Seq<char>,
) -> bool {
    if id.len() == 0 {
        group == KeyGroup::<T>::Empty
    } else if is_group_line(id) {
        group == registry.group_ids()[id.drop_first()]
    } else {
        &&& group matches KeyGroup::Single(key)
        &&& 0 <= key.index() < registry.ids().len()
        &&& registry.ids()[key.index()] == id
    }
}

/// The slot that a text means.
pub open spec fn slot_of(id: Option<Seq<char>>) -> Option<SlotId> {
    match id {
        Some(id) => if id == "trash"@ {
            Some(SlotId::Trash)
        } else {
            match parse_unsigned_spec(id, usize::MAX as int) {
                Some(id) => Some(SlotId::Id(id as usize)),
                None => None,
            }
        },
        None => None,
    }
}

/// The number that a text means; a negative one stands for that far below the limit.
pub open spec fn value_number(value: Option<Seq<char>>) -> Option<u16> {
    match value {
        Some(value) => match parse_signed_spec(value, -32768, 32767) {
            Some(value) => Some(
                (if value < 0 {
                    value + 65536
                } else {
                    value
                }) as u16,
            ),
            None => None,
        },
        None => None,
    }
}

/// How a text says that a property changes.
pub open spec fn mode_of(mode: Option<Seq<char>>) -> Option<PropertyModifyMode> {
    match mode {
        Some(mode) => if mode == "add"@ {
            Some(PropertyModifyMode::Add)
        } else if mode == "set"@ {
            Some(PropertyModifyMode::Assign)
        } else {
            None
        },
        None => None,
    }
}

/// Whether a node is written as an element of its tag must be; those inside of it do not count.
pub open spec fn is_well_tagged(node: NodeView, registries: UIRegistries) -> bool {
    if node.tag == "box"@ {
        true
    } else if node.tag == "label"@ {
        is_shown_text(node.text)
    } else if node.tag == "slot"@ {
        slot_of(node.attribute("id"@)) is Some
    } else if node.tag == "craft"@ {
        node.attribute("recipes"@) matches Some(recipes) && (recipes == "cheat_menu"@
            || is_group_name(*registries.recipes, recipes))
    } else if node.tag == "research"@ {
        node.attribute("research"@) matches Some(research) && is_group_name(
            *registries.research,
            research,
        )
    } else if node.tag == "buttton"@ {
        &&& is_shown_text(node.text)
        &&& node.attribute("property"@) is Some
        &&& value_number(node.attribute("value"@)) is Some
        &&& mode_of(node.attribute("mode"@)) is Some
    } else {
        false
    }
}

/// What is wrong with the style of a node.
pub open spec fn style_error(node: NodeView, registries: UIRegistries) -> Option<
    UIError<ErrorView>,
> {
    match node.attribute("style"@) {
        Some(style) => match style_of(style, registries.textures.ids()) {
            Ok(_) => None,
            Err(StyleError::Malformed) => Some(UIError::Malformed),
            Err(e) => Some(UIError::Style(e)),
        },
        None => None,
    }
}

/// The names among the first `n` pieces of a text, without the white space around them.
pub open spec fn class_names(pieces: Seq<Seq<char>>, n: int) -> Seq<Seq<char>>
    decreases n,
{
    if n <= 0 {
        Seq::empty()
    } else {
        let before = class_names(pieces, n - 1);
        if trim_spec(pieces[n - 1]).len() > 0 {
            before.push(trim_spec(pieces[n - 1]))
        } else {
            before
        }
    }
}

/// The style classes that a node names.
pub open spec fn classes_of(node: NodeView) -> Seq<Seq<char>> {
    match node.attribute("class"@) {
        Some(classes) => class_names(
            split_spec(classes, ' '),
            split_spec(classes, ' ').len() as int,
        ),
        None => Seq::empty(),
    }
}

/// Whether all of several names are known.
pub open spec fn are_known(list: Seq<Seq<char>>, ids: Seq<Seq<char>>) -> bool {
    forall|i: int| 0 <= i < list.len() ==> ids.contains(#[trigger] list[i])
}

/// What is wrong with an element: first with what it is, then with its style, then with its classes.
pub open spec fn error_of(nodes: Seq<NodeView>, at: int, registries: UIRegistries) -> Option<
    UIError<ErrorView>,
>
    decreases nodes.len() - at, 0int,
{
    if at < 0 || at >= nodes.len() || !is_well_tagged(nodes[at], registries) {
        Some(UIError::Malformed)
    } else {
        let inner = if nodes[at].tag == "box"@ {
            child_error(nodes, at, at + 1, registries)
        } else {
            None
        };
        if inner is Some {
            inner
        } else if style_error(nodes[at], registries) is Some {
            style_error(nodes[at], registries)
        } else if !are_known(classes_of(nodes[at]), registries.styles.ids()) {
            Some(UIError::Malformed)
        } else {
            None
        }
    }
}

/// Whether the node at `j` is still inside of the one at `at`.
pub open spec fn is_inside(nodes: Seq<NodeView>, at: int, j: int) -> bool {
    j < nodes.len() && nodes[j].depth > nodes[at].depth
}

/// Whether a node that is inside of the one at `at` is an element directly inside of it.
pub open spec fn is_child(nodes: Seq<NodeView>, at: int, j: int) -> bool {
    nodes[j].depth == nodes[at].depth + 1 && !nodes[j].is_text
}

/// What is wrong with the first element inside of another with which something is wrong, from `j` on.
pub open spec fn child_error(
    nodes: Seq<NodeView>,
    at: int,
    j: int,
    registries: UIRegistries,
) -> Option<UIError<ErrorView>>
    decreases nodes.len() - j, 1int,
    when 0 <= at < j
{
    if !is_inside(nodes, at, j) {
        None
    } else if is_child(nodes, at, j) && error_of(nodes, j, registries) is Some {
        error_of(nodes, j, registries)
    } else {
        child_error(nodes, at, j + 1, registries)
    }
}

/// The places of the elements inside of the one at `at`, from `j` on.
pub open spec fn children_from(nodes: Seq<NodeView>, at: int, j: int) -> Seq<int>
    decreases nodes.len() - j,
{
    if !is_inside(nodes, at, j) {
        Seq::empty()
    } else if is_child(nodes, at, j) {
        seq![j] + children_from(nodes, at, j + 1)
    } else {
        children_from(nodes, at, j + 1)
    }
}

/// Whether keys are those of several names.
pub open spec fn are_keys_of(
    keys: Seq<Key<UIStyleList>>,
    list: Seq<Seq<char>>,
    ids: Seq<Seq<char>>,
) -> bool {
    &&& keys.len() == list.len()
    &&& forall|i: int|
        0 <= i < keys.len() ==> 0 <= (#[trigger] keys[i]).index() < ids.len()
            && ids[keys[i].index()] == list[i]
}

/// Whether a list of rules is the one that a node is written with.
pub open spec fn is_style_of(style: UIStyleList, node: NodeView, registries: UIRegistries) -> bool {
    &&& style.properties@.len() == 0
    &&& match node.attribute("style"@) {
        Some(text) => style_of(text, registries.textures.ids()) == Ok::<_, ErrorView>(
            conditional_views(style.rules@),
        ),
        None => style.rules@.len() == 0,
    }
}

/// Whether an element is the one that the node at `at` is written as.
pub open spec fn is_element(
    element: UIElement,
    nodes: Seq<NodeView>,
    at: int,
    registries: UIRegistries,
) -> bool
    decreases element,
{
    let node = nodes[at];
    &&& is_style_of(element.style, node, registries)
    &&& are_keys_of(element.style_classes@, classes_of(node), registries.styles.ids())
    &&& is_random_uuid(element.uuid)
    &&& if node.tag == "box"@ {
        &&& element.element_type matches UIElementType::Box(children)
        &&& children@.len() == children_from(nodes, at, at + 1).len()
        &&& forall|i: int|
            0 <= i < children@.len() ==> is_element(
                #[trigger] children@[i],
                nodes,
                children_from(nodes, at, at + 1)[i],
                registries,
            )
    } else if node.tag == "label"@ {
        element.element_type matches UIElementType::Label(text) && node.text == Some(text@)
    } else if node.tag == "slot"@ {
        element.element_type matches UIElementType::ItemSlot { slot } && slot_of(
            node.attribute("id"@),
        ) == Some(slot)
    } else if node.tag == "craft"@ {
        &&& element.element_type matches UIElementType::CraftArea { recipes }
        &&& is_recipes_of(recipes, node.attribute("recipes"@)->0, *registries.recipes)
    } else if node.tag == "research"@ {
        &&& element.element_type matches UIElementType::ResearchTree { research }
        &&& is_group_of(research, *registries.research, node.attribute("research"@)->0)
    } else {
        &&& element.element_type matches UIElementType::Button { text, property, value, modify_mode }
        &&& node.text == Some(text@)
        &&& node.attribute("property"@) == Some(property@)
        &&& value_number(node.attribute("value"@)) == Some(value)
        &&& mode_of(node.attribute("mode"@)) == Some(modify_mode)
    }
}

/// Whether recipes are those that a text means.
pub open spec fn is_recipes_of(
    recipes: CraftAreaRecipes,
    text: Seq<char>,
    registry: LoadRegistry<RecipeData>,
) -> bool {
    match recipes {
        CraftAreaRecipes::CheatMenu => text == "cheat_menu"@,
        CraftAreaRecipes::Recipes(group) => text != "cheat_menu"@ && is_group_of(
            group,
            registry,
            text,
        ),
    }
}

/// The properties that an element shows, each once, behind those that are there before.
pub open spec fn display_of(nodes: Seq<NodeView>, at: int, before: Seq<Seq<char>>) -> Seq<Seq<char>>
    decreases nodes.len() - at, 0int,
{
    if at < 0 || at >= nodes.len() {
        before
    } else if nodes[at].tag == "box"@ {
        display_in(nodes, at, at + 1, before)
    } else if nodes[at].tag == "label"@ || nodes[at].tag == "buttton"@ {
        properties_in(nodes[at].text->0, before, (nodes[at].text->0).len() as int)
    } else {
        before
    }
}

/// The properties that the elements inside of another show, from `j` on.
pub open spec fn display_in(
    nodes: Seq<NodeView>,
    at: int,
    j: int,
    before: Seq<Seq<char>>,
) -> Seq<Seq<char>>
    decreases nodes.len() - j, 1int,
    when 0 <= at < j
{
    if !is_inside(nodes, at, j) {
        before
    } else if is_child(nodes, at, j) {
        display_in(nodes, at, j + 1, display_of(nodes, j, before))
    } else {
        display_in(nodes, at, j + 1, before)
    }
}

/// The properties that the buttons of an element change, each once, behind those that are there
/// before.
pub open spec fn buttons_of(nodes: Seq<NodeView>, at: int, before: Seq<Seq<char>>) -> Seq<Seq<char>>
    decreases nodes.len() - at, 0int,
{
    if at < 0 || at >= nodes.len() {
        before
    } else if nodes[at].tag == "box"@ {
        buttons_in(nodes, at, at + 1, before)
    } else if nodes[at].tag == "buttton"@ && !before.contains(
        nodes[at].attribute("property"@)->0,
    ) {
        before.push(nodes[at].attribute("property"@)->0)
    } else {
        before
    }
}

/// The properties that the buttons inside of an element change, from `j` on.
pub open spec fn buttons_in(
    nodes: Seq<NodeView>,
    at: int,
    j: int,
    before: Seq<Seq<char>>,
) -> Seq<Seq<char>>
    decreases nodes.len() - j, 1int,
    when 0 <= at < j
{
    if !is_inside(nodes, at, j) {
        before
    } else if is_child(nodes, at, j) {
        buttons_in(nodes, at, j + 1, buttons_of(nodes, j, before))
    } else {
        buttons_in(nodes, at, j + 1, before)
    }
}

/// The properties that have been met.
struct UIParseContext {
    display_properties: Vec<String>,
    button_properties: Vec<String>,
}

fn parse_slot(id: Option<&str>) -> (r: Option<SlotId>)
    ensures
        r == slot_of(optional_text(id)),
{
    match id {
        Some(id) => if text::equals(id, "trash") {
            Some(SlotId::Trash)
        } else {
            match text::parse_usize(id) {
                Some(id) => Some(SlotId::Id(id)),
                None => None,
            }
        },
        None => None,
    }
}

fn parse_value(value: Option<&str>) -> (r: Option<u16>)
    ensures
        r == value_number(optional_text(value)),
{
    match value {
        Some(value) => match text::parse_i32(value) {
            Some(number) => if number < -32768 || number > 32767 {
                None
            } else if number < 0 {
                Some((number + 65536) as u16)
            } else {
                Some(number as u16)
            },
            None => None,
        },
        None => None,
    }
}

fn parse_mode(mode: Option<&str>) -> (r: Option<PropertyModifyMode>)
    ensures
        r == mode_of(optional_text(mode)),
{
    match mode {
        Some(mode) => if text::equals(mode, "add") {
            Some(PropertyModifyMode::Add)
        } else if text::equals(mode, "set") {
            Some(PropertyModifyMode::Assign)
        } else {
            None
        },
        None => None,
    }
}

fn parse_group<T>(registry: &LoadRegistry<T>, id: &str) -> (r: Option<KeyGroup<T>>)
    requires
        registry.wf(),
    ensures
        r is Some <==> is_group_name(*registry, id@),
        r matches Some(group) ==> is_group_of(group, *registry, id@),
{
    KeyGroup::parse(registry, id)
}

fn parse_recipes(text: &str, registry: &LoadRegistry<RecipeData>) -> (r: Option<CraftAreaRecipes>)
    requires
        registry.wf(),
    ensures
        r is Some <==> text@ == "cheat_menu"@ || is_group_name(*registry, text@),
        r matches Some(recipes) ==> is_recipes_of(recipes, text@, *registry),
{
    if text::equals(text, "cheat_menu") {
        return Some(CraftAreaRecipes::CheatMenu);
    }
    match parse_group(registry, text) {
        Some(group) => Some(CraftAreaRecipes::Recipes(group)),
        None => None,
    }
}

fn parse_classes(node: &XmlNode, styles: &LoadRegistry<UIStyleList>) -> (r: Option<
    Vec<Key<UIStyleList>>,
>)
    requires
        styles.wf(),
    ensures
        r is Some <==> are_known(classes_of(node@), styles.ids()),
        r matches Some(keys) ==> are_keys_of(keys@, classes_of(node@), styles.ids()),
{
    let mut keys: Vec<Key<UIStyleList>> = Vec::new();
    let classes = match node.attribute("class") {
        Some(classes) => classes,
        None => {
            return Some(keys);
        },
    };
    let pieces = text::split(classes, ' ');
    let ghost all = split_spec(classes@, ' ');
    let mut i: usize = 0;
    while i < pieces.len()
        invariant
            i <= pieces@.len(),
            styles.wf(),
            text::views(pieces@) == all,
            all == split_spec(classes@, ' '),
            node@.attribute("class"@) == Some(classes@),
            are_known(class_names(all, i as int), styles.ids()),
            are_keys_of(keys@, class_names(all, i as int), styles.ids()),
        decreases pieces@.len() - i,
    {
        assert(all[i as int] == pieces@[i as int]@);
        let class = text::trim(pieces[i]);
        let ghost before = class_names(all, i as int);
        if !class.is_empty() {
            match styles.id(class) {
                Some(key) => {
                    keys.push(key);
                    assert(styles.ids().contains(class@));
                    assert(class_names(all, i + 1) == before.push(class@));
                },
                None => {
                    proof {
                        assert(class_names(all, i + 1) == before.push(class@));
                        lemma_class_names(all, i + 1, all.len() as int);
                        let whole = class_names(all, all.len() as int);
                        assert(whole[before.len() as int] == class@);
                    }
                    return None;
                },
            }
        }
        i += 1;
    }
    Some(keys)
}

proof fn lemma_class_names(pieces: Seq<Seq<char>>, n: int, m: int)
    requires
        0 <= n <= m,
    ensures
        class_names(pieces, n).len() <= class_names(pieces, m).len(),
        forall|i: int|
            0 <= i < class_names(pieces, n).len() ==> #[trigger] class_names(pieces, m)[i]
                == class_names(pieces, n)[i],
    decreases m,
{
    if n < m {
        lemma_class_names(pieces, n, m - 1);
    }
}

/// Reads an element that is no box.
fn parse_leaf(node: &XmlNode, registries: &UIRegistries, context: &mut UIParseContext) -> (r: Option<
    UIElementType,
>)
    requires
        registries.wf(),
        node@.tag != "box"@,
    ensures
        r is Some <==> is_well_tagged(node@, *registries),
        r matches Some(element) ==> {
            &&& is_leaf(element, node@, *registries)
            &&& names(final(context).display_properties@) == (if node@.tag == "label"@ || node@.tag
                == "buttton"@ {
                properties_in(
                    node@.text->0,
                    names(old(context).display_properties@),
                    (node@.text->0).len() as int,
                )
            } else {
                names(old(context).display_properties@)
            })
            &&& names(final(context).button_properties@) == (if node@.tag == "buttton"@ && !names(
                old(context).button_properties@,
            ).contains(node@.attribute("property"@)->0) {
                names(old(context).button_properties@).push(node@.attribute("property"@)->0)
            } else {
                names(old(context).button_properties@)
            })
        },
{
    proof {
        lemma_tags_differ();
    }
    let tag = node.tag.as_str();
    if text::equals(tag, "label") {
        match &node.text {
            Some(text) => if is_closed_text(text.as_str()) {
                extract_patched_properties_from_text(
                    text.as_str(),
                    &mut context.display_properties,
                );
                Some(UIElementType::Label(text.clone()))
            } else {
                None
            },
            None => None,
        }
    } else if text::equals(tag, "slot") {
        match parse_slot(node.attribute("id")) {
            Some(slot) => Some(UIElementType::ItemSlot { slot }),
            None => None,
        }
    } else if text::equals(tag, "craft") {
        match node.attribute("recipes") {
            Some(recipes) => match parse_recipes(recipes, registries.recipes) {
                Some(recipes) => Some(UIElementType::CraftArea { recipes }),
                None => None,
            },
            None => None,
        }
    } else if text::equals(tag, "research") {
        match node.attribute("research") {
            Some(research) => match parse_group(registries.research, research) {
                Some(research) => Some(UIElementType::ResearchTree { research }),
                None => None,
            },
            None => None,
        }
    } else if text::equals(tag, "buttton") {
        let text = match &node.text {
            Some(text) => text,
            None => {
                return None;
            },
        };
        if !is_closed_text(text.as_str()) {
            return None;
        }
        let property = match node.attribute("property") {
            Some(property) => property,
            None => {
                return None;
            },
        };
        match (parse_value(node.attribute("value")), parse_mode(node.attribute("mode"))) {
            (Some(value), Some(modify_mode)) => {
                extract_patched_properties_from_text(
                    text.as_str(),
                    &mut context.display_properties,
                );
                if !contains_name(&context.button_properties, property) {
                    let ghost before = names(context.button_properties@);
                    context.button_properties.push(property.to_owned());
                    assert(names(context.button_properties@) =~= before.push(property@));
                }
                Some(
                    UIElementType::Button {
                        text: text.clone(),
                        property: property.to_owned(),
                        value,
                        modify_mode,
                    },
                )
            },
            _ => None,
        }
    } else {
        None
    }
}

/// The tags of elements are different words.
proof fn lemma_tags_differ()
    ensures
        "label"@ != "buttton"@,
        "slot"@ != "buttton"@,
        "craft"@ != "buttton"@,
        "research"@ != "buttton"@,
        "slot"@ != "label"@,
        "craft"@ != "label"@,
        "research"@ != "label"@,
{
    reveal_strlit("label");
    reveal_strlit("slot");
    reveal_strlit("craft");
    reveal_strlit("research");
    reveal_strlit("buttton");
    assert("label"@.len() == 5 && "slot"@.len() == 4 && "craft"@.len() == 5 && "research"@.len() == 8
        && "buttton"@.len() == 7);
    assert("craft"@[0] != "label"@[0]);
}

/// Whether an element that is no box is the one that a node is written as.
spec fn is_leaf(element: UIElementType, node: NodeView, registries: UIRegistries) -> bool {
    if node.tag == "label"@ {
        element matches UIElementType::Label(text) && node.text == Some(text@)
    } else if node.tag == "slot"@ {
        element matches UIElementType::ItemSlot { slot } && slot_of(node.attribute("id"@)) == Some(
            slot,
        )
    } else if node.tag == "craft"@ {
        &&& element matches UIElementType::CraftArea { recipes }
        &&& is_recipes_of(recipes, node.attribute("recipes"@)->0, *registries.recipes)
    } else if node.tag == "research"@ {
        &&& element matches UIElementType::ResearchTree { research }
        &&& is_group_of(research, *registries.research, node.attribute("research"@)->0)
    } else {
        &&& element matches UIElementType::Button { text, property, value, modify_mode }
        &&& node.text == Some(text@)
        &&& node.attribute("property"@) == Some(property@)
        &&& value_number(node.attribute("value"@)) == Some(value)
        &&& mode_of(node.attribute("mode"@)) == Some(modify_mode)
    }
}

/// Whether every `}` of a text ends a property.
fn is_closed_text(text: &str) -> (r: bool)
    ensures
        r == is_closed(text@, true),
{
    let chars = text::chars(text);
    let mut is_open = false;
    let mut i: usize = 0;
    while i < chars.len()
        invariant
            i <= chars@.len(),
            chars@ == text@,
            is_open == (crate::property::open_property(text@, i as int, true) is Some),
            forall|j: int|
                0 <= j < i && #[trigger] text@[j] == '}' ==> crate::property::open_property(
                    text@,
                    j,
                    true,
                ) is Some,
        decreases chars@.len() - i,
    {
        let c = chars[i];
        if c == '}' && !is_open {
            assert(text@[i as int] == '}');
            return false;
        }
        is_open = c == '{' || is_open && c != '}';
        i += 1;
    }
    true
}

/// Reads the element that the node at `at` is written as.
fn parse_element(
    nodes: &Vec<XmlNode>,
    at: usize,
    registries: &UIRegistries,
    context: &mut UIParseContext,
) -> (r: Result<UIElement, UIError<StyleError<String>>>)
    requires
        registries.wf(),
        at < nodes@.len(),
    ensures
        match r {
            Ok(element) => {
                &&& error_of(node_views(nodes@), at as int, *registries) is None
                &&& is_element(element, node_views(nodes@), at as int, *registries)
                &&& names(final(context).display_properties@) == display_of(
                    node_views(nodes@),
                    at as int,
                    names(old(context).display_properties@),
                )
                &&& names(final(context).button_properties@) == buttons_of(
                    node_views(nodes@),
                    at as int,
                    names(old(context).button_properties@),
                )
            },
            Err(e) => error_of(node_views(nodes@), at as int, *registries) == Some(e@),
        },
    decreases nodes@.len() - at,
{
    let ghost views = node_views(nodes@);
    let node = &nodes[at];
    assert(views[at as int] == node@);
    let element_type = if text::equals(node.tag.as_str(), "box") {
        let mut children: Vec<UIElement> = Vec::new();
        let count: usize = nodes.len();
        let mut j: usize = at + 1;
        let ghost mut places: Seq<int> = Seq::empty();
        let ghost display = names(context.display_properties@);
        let ghost buttons = names(context.button_properties@);
        assert(children_from(views, at as int, at + 1) =~= places + children_from(
            views,
            at as int,
            at + 1,
        ));
        while j < count && nodes[j].depth > node.depth
            invariant
                count == nodes@.len(),
                at < j <= nodes@.len(),
                registries.wf(),
                views == node_views(nodes@),
                views[at as int] == node@,
                children@.len() == places.len(),
                children_from(views, at as int, at + 1) == places + children_from(
                    views,
                    at as int,
                    j as int,
                ),
                child_error(views, at as int, at + 1, *registries) == child_error(
                    views,
                    at as int,
                    j as int,
                    *registries,
                ),
                display_in(views, at as int, at + 1, display) == display_in(
                    views,
                    at as int,
                    j as int,
                    names(context.display_properties@),
                ),
                buttons_in(views, at as int, at + 1, buttons) == buttons_in(
                    views,
                    at as int,
                    j as int,
                    names(context.button_properties@),
                ),
                node@.tag == "box"@,
                forall|i: int|
                    0 <= i < children@.len() ==> is_element(
                        #[trigger] children@[i],
                        views,
                        places[i],
                        *registries,
                    ),
            decreases nodes@.len() - j,
        {
            assert(views[j as int] == nodes@[j as int]@);
            assert(is_inside(views, at as int, j as int));
            if nodes[j].depth - node.depth == 1 && !nodes[j].is_text {
                assert(is_child(views, at as int, j as int));
                match parse_element(nodes, j, registries, context) {
                    Ok(child) => {
                        children.push(child);
                        proof {
                            let rest = children_from(views, at as int, j + 1);
                            assert(places + (seq![j as int] + rest) =~= places.push(j as int) + rest);
                            places = places.push(j as int);
                        }
                    },
                    Err(e) => {
                        return Err(e);
                    },
                }
            }
            j += 1;
        }
        proof {
            if j < nodes@.len() {
                assert(views[j as int] == nodes@[j as int]@);
            }
            assert(!is_inside(views, at as int, j as int));
            assert(places + children_from(views, at as int, j as int) =~= places);
        }
        UIElementType::Box(children)
    } else {
        match parse_leaf(node, registries, context) {
            Some(element_type) => element_type,
            None => {
                return Err(UIError::Malformed);
            },
        }
    };
    let style: UIStyleList = match node.attribute("style") {
        Some(style) => match UIStyleList::try_parse(style, registries.textures) {
            Ok(style) => style,
            Err(StyleError::Malformed) => {
                return Err(UIError::Malformed);
            },
            Err(e) => {
                return Err(UIError::Style(e));
            },
        },
        None => Default::default(),
    };
    let style_classes = match parse_classes(node, registries.styles) {
        Some(keys) => keys,
        None => {
            return Err(UIError::Malformed);
        },
    };
    Ok(UIElement { element_type, style, style_classes, uuid: new_uuid() })
}

/// Whether reading the nodes of a document came to what it must.
pub open spec fn is_screen_result(
    r: Result<UIScreen, UIError<StyleError<String>>>,
    nodes: Seq<NodeView>,
    registries: UIRegistries,
) -> bool {
    match r {
        Ok(screen) => {
            &&& error_of(nodes, 0, registries) is None
            &&& is_element(screen.root, nodes, 0, registries)
            &&& names(screen.display_properties@) == display_of(nodes, 0, Seq::empty())
            &&& names(screen.button_properties@) == buttons_of(nodes, 0, Seq::empty())
        },
        Err(e) => error_of(nodes, 0, registries) == Some(e@),
    }
}

impl UIScreen {
    /// The screen that the nodes of a document are written as.
    pub fn from_nodes(nodes: &Vec<XmlNode>, registries: &UIRegistries) -> (r: Result<
        UIScreen,
        UIError<StyleError<String>>,
    >)
        requires
            registries.wf(),
        ensures
            is_screen_result(r, node_views(nodes@), *registries),
    {
        if nodes.len() == 0 {
            return Err(UIError::Malformed);
        }
        let mut context = UIParseContext {
            display_properties: Vec::new(),
            button_properties: Vec::new(),
        };
        assert(names(context.display_properties@) =~= Seq::empty());
        assert(names(context.button_properties@) =~= Seq::empty());
        match parse_element(nodes, 0, registries, &mut context) {
            Ok(root) => Ok(
                UIScreen {
                    root,
                    display_properties: context.display_properties,
                    button_properties: context.button_properties,
                },
            ),
            Err(e) => Err(e),
        }
    }

    /// The screen that a file is written as.
    pub fn parse(text: &str, registries: &UIRegistries) -> (r: Result<
        UIScreen,
        UIError<StyleError<String>>,
    >)
        requires
            registries.wf(),
        ensures
            match xml_nodes(text@) {
                Some(nodes) => is_screen_result(r, nodes, *registries),
                None => r matches Err(e) && e == UIError::<StyleError<String>>::Document,
            },
    {
        match read_xml(text) {
            Ok(nodes) => UIScreen::from_nodes(&nodes, registries),
            Err(_) => Err(UIError::Document),
        }
    }
}

/// The elements directly inside of another are inside of it, one level below it and no texts.
pub proof fn law_children_are_inside(nodes: Seq<NodeView>, at: int, j: int, i: int)
    requires
        0 <= at < j,
        0 <= i < children_from(nodes, at, j).len(),
    ensures
        ({
            let child = children_from(nodes, at, j)[i];
            &&& j <= child < nodes.len()
            &&& nodes[child].depth == nodes[at].depth + 1
            &&& !nodes[child].is_text
        }),
    decreases nodes.len() - j,
{
    if is_inside(nodes, at, j) {
        if is_child(nodes, at, j) {
            if i > 0 {
                law_children_are_inside(nodes, at, j + 1, i - 1);
            }
        } else {
            law_children_are_inside(nodes, at, j + 1, i);
        }
    }
}

/// An attribute has the value of the first one of its name; it is missing where there is none of that
/// name.
pub proof fn law_attributes(node: NodeView, name: Seq<char>)
    ensures
        match node.attribute(name) {
            Some(value) => exists|i: int|
                0 <= i < node.attributes.len() && (#[trigger] node.attributes[i]).0 == name
                    && node.attributes[i].1 == value && forall|j: int|
                    0 <= j < i ==> (#[trigger] node.attributes[j]).0 != name,
            None => forall|i: int|
                0 <= i < node.attributes.len() ==> (#[trigger] node.attributes[i]).0 != name,
        },
{
    lemma_attribute_from(node.attributes, name, 0);
}

proof fn lemma_attribute_from(
    attributes: Seq<(Seq<char>, Seq<char>)>,
    name: Seq<char>,
    from: int,
)
    requires
        0 <= from,
    ensures
        match attribute_from(attributes, name, from) {
            Some(value) => exists|i: int|
                from <= i < attributes.len() && (#[trigger] attributes[i]).0 == name
                    && attributes[i].1 == value && forall|j: int|
                    from <= j < i ==> (#[trigger] attributes[j]).0 != name,
            None => forall|i: int|
                from <= i < attributes.len() ==> (#[trigger] attributes[i]).0 != name,
        },
    decreases attributes.len() - from,
{
    if from < attributes.len() {
        if attributes[from].0 != name {
            lemma_attribute_from(attributes, name, from + 1);
            if let Some(value) = attribute_from(attributes, name, from + 1) {
                let i = choose|i: int|
                    from + 1 <= i < attributes.len() && (#[trigger] attributes[i]).0 == name
                        && attributes[i].1 == value && forall|j: int|
                        from + 1 <= j < i ==> (#[trigger] attributes[j]).0 != name;
                assert(attributes[i].0 == name);
            }
        } else {
            assert(attributes[from].0 == name);
        }
    }
}

/// An element is what its tag says, with what its attributes and its text say.
pub proof fn law_element_kinds(
    element: UIElement,
    nodes: Seq<NodeView>,
    at: int,
    registries: UIRegistries,
)
    requires
        is_element(element, nodes, at, registries),
    ensures
        nodes[at].tag == "box"@ ==> element.element_type is Box,
        nodes[at].tag == "label"@ ==> (element.element_type matches UIElementType::Label(text)
            && nodes[at].text == Some(text@)),
        nodes[at].tag == "slot"@ ==> (element.element_type matches UIElementType::ItemSlot { slot }
            && slot_of(nodes[at].attribute("id"@)) == Some(slot)),
        nodes[at].tag == "craft"@ ==> (element.element_type matches UIElementType::CraftArea {
            recipes,
        } && (recipes is CheatMenu <==> nodes[at].attribute("recipes"@)->0 == "cheat_menu"@)),
        nodes[at].tag == "research"@ ==> (element.element_type matches UIElementType::ResearchTree {
            research,
        } && is_group_of(research, *registries.research, nodes[at].attribute("research"@)->0)),
        nodes[at].tag == "buttton"@ ==> (element.element_type matches UIElementType::Button {
            text,
            property,
            value,
            modify_mode,
        } && nodes[at].text == Some(text@) && nodes[at].attribute("property"@) == Some(property@)
            && value_number(nodes[at].attribute("value"@)) == Some(value) && mode_of(
            nodes[at].attribute("mode"@),
        ) == Some(modify_mode)),
{
    reveal_strlit("box");
    reveal_strlit("label");
    reveal_strlit("slot");
    reveal_strlit("craft");
    reveal_strlit("research");
    reveal_strlit("buttton");
    let ends = |s: Seq<char>| (s.len(), s[0]);
    assert(ends("box"@) == (3nat, 'b'));
    assert(ends("label"@) == (5nat, 'l'));
    assert(ends("slot"@) == (4nat, 's'));
    assert(ends("craft"@) == (5nat, 'c'));
    assert(ends("research"@) == (8nat, 'r'));
    assert(ends("buttton"@) == (7nat, 'b'));
}

/// The bin is called `trash`; any other slot has a number.
pub proof fn law_slot_names(id: Seq<char>)
    ensures
        slot_of(Some("trash"@)) == Some(SlotId::Trash),
        id != "trash"@ ==> match parse_unsigned_spec(id, usize::MAX as int) {
            Some(n) => slot_of(Some(id)) matches Some(SlotId::Id(slot)) && slot == n,
            None => slot_of(Some(id)) is None,
        },
        slot_of(None) is None,
{
    text::law_unsigned_numbers(id, '0', usize::MAX as int);
}

/// The number of a button is the one that is written, and a negative one that much below the limit of
/// sixteen bits.
pub proof fn law_button_values(value: Seq<char>)
    ensures
        match parse_signed_spec(value, -32768, 32767) {
            Some(n) => value_number(Some(value)) matches Some(v) && (v == n || v == n + 65536) && (v
                == n <==> n >= 0),
            None => value_number(Some(value)) is None,
        },
        value_number(None) is None,
{
}

/// A button adds or sets, as the words say, and nothing else.
pub proof fn law_button_modes(mode: Seq<char>)
    ensures
        mode_of(Some("add"@)) == Some(PropertyModifyMode::Add),
        mode_of(Some("set"@)) == Some(PropertyModifyMode::Assign),
        mode != "add"@ && mode != "set"@ ==> mode_of(Some(mode)) is None,
        mode_of(None) is None,
{
    reveal_strlit("add");
    reveal_strlit("set");
    assert("add"@[0] == 'a' && "set"@[0] == 's');
}

/// Every element directly inside of another is one of its children, as long as the nodes between them are
/// inside too, and the children stand in the order of the document.
pub proof fn law_children_are_listed(nodes: Seq<NodeView>, at: int, j: int, child: int)
    requires
        0 <= at < j <= child < nodes.len(),
        forall|k: int| j <= k <= child ==> (#[trigger] nodes[k]).depth > nodes[at].depth,
        nodes[child].depth == nodes[at].depth + 1,
        !nodes[child].is_text,
    ensures
        children_from(nodes, at, j).contains(child),
        forall|a: int, b: int|
            0 <= a < b < children_from(nodes, at, j).len() ==> #[trigger] children_from(
                nodes,
                at,
                j,
            )[a] < #[trigger] children_from(nodes, at, j)[b],
    decreases nodes.len() - j,
{
    lemma_children_ordered(nodes, at, j);
    assert(nodes[j].depth > nodes[at].depth);
    let list = children_from(nodes, at, j);
    if j == child {
        assert(list[0] == child);
    } else {
        law_children_are_listed(nodes, at, j + 1, child);
        let rest = children_from(nodes, at, j + 1);
        let i = choose|i: int| 0 <= i < rest.len() && rest[i] == child;
        if is_child(nodes, at, j) {
            assert(list[i + 1] == child);
        } else {
            assert(list[i] == child);
        }
    }
}

proof fn lemma_children_ordered(nodes: Seq<NodeView>, at: int, j: int)
    requires
        0 <= at < j,
    ensures
        forall|a: int|
            0 <= a < children_from(nodes, at, j).len() ==> #[trigger] children_from(
                nodes,
                at,
                j,
            )[a] >= j,
        forall|a: int, b: int|
            0 <= a < b < children_from(nodes, at, j).len() ==> #[trigger] children_from(
                nodes,
                at,
                j,
            )[a] < #[trigger] children_from(nodes, at, j)[b],
    decreases nodes.len() - j,
{
    if is_inside(nodes, at, j) {
        lemma_children_ordered(nodes, at, j + 1);
        let rest = children_from(nodes, at, j + 1);
        let list = children_from(nodes, at, j);
        if is_child(nodes, at, j) {
            assert forall|a: int| 0 <= a < list.len() implies #[trigger] list[a] >= j by {
                if a > 0 {
                    assert(list[a] == rest[a - 1]);
                }
            }
            assert forall|a: int, b: int| 0 <= a < b < list.len() implies #[trigger] list[a]
                < #[trigger] list[b] by {
                assert(list[b] == rest[b - 1]);
                if a > 0 {
                    assert(list[a] == rest[a - 1]);
                }
            }
        }
    }
}

/// An element that stands alone is refused where its tag is unknown or lacks what it needs: a label a
/// text, a slot its number, an area for crafting its recipes, one for research its research, and a
/// button a text, a property, a value and a mode. One that is well written is refused for its style or
/// for an unknown class only.
pub proof fn law_refused_elements(nodes: Seq<NodeView>, at: int, registries: UIRegistries)
    requires
        0 <= at < nodes.len(),
    ensures
        ({
            let node = nodes[at];
            let refused = error_of(nodes, at, registries) == Some(UIError::<ErrorView>::Malformed);
            &&& !seq!["box"@, "label"@, "slot"@, "craft"@, "research"@, "buttton"@].contains(node.tag)
                ==> refused
            &&& node.tag == "label"@ && node.text is None ==> refused
            &&& node.tag == "slot"@ && slot_of(node.attribute("id"@)) is None ==> refused
            &&& node.tag == "craft"@ && node.attribute("recipes"@) is None ==> refused
            &&& node.tag == "research"@ && node.attribute("research"@) is None ==> refused
            &&& node.tag == "buttton"@ && (node.text is None || node.attribute("property"@) is None
                || value_number(node.attribute("value"@)) is None || mode_of(node.attribute("mode"@))
                is None) ==> refused
            &&& node.tag == "slot"@ && slot_of(node.attribute("id"@)) is Some && node.attribute(
                "style"@,
            ) is None && node.attribute("class"@) is None ==> error_of(nodes, at, registries) is None
            &&& error_of(nodes, at, registries) is None ==> are_known(
                classes_of(node),
                registries.styles.ids(),
            )
        }),
{
    lemma_tag_ends();
    let tags = seq!["box"@, "label"@, "slot"@, "craft"@, "research"@, "buttton"@];
    assert(tags[0] == "box"@ && tags[1] == "label"@ && tags[2] == "slot"@ && tags[3] == "craft"@
        && tags[4] == "research"@ && tags[5] == "buttton"@);
}

/// The classes of a node are the words of its attribute, none of them empty, in order.
pub proof fn law_classes(pieces: Seq<Seq<char>>, n: int, i: int)
    requires
        0 <= i < n <= pieces.len(),
    ensures
        trim_spec(pieces[i]).len() > 0 ==> class_names(pieces, n).contains(trim_spec(pieces[i])),
        forall|k: int|
            0 <= k < class_names(pieces, n).len() ==> (#[trigger] class_names(pieces, n)[k]).len() > 0,
        class_names(pieces, n).len() <= n,
        trim_spec(pieces[n - 1]).len() > 0 ==> class_names(pieces, n).last() == trim_spec(
            pieces[n - 1],
        ),
    decreases n,
{
    let before = class_names(pieces, n - 1);
    let all = class_names(pieces, n);
    let last = trim_spec(pieces[n - 1]);
    if n > 1 {
        law_classes(pieces, n - 1, if i < n - 1 {
            i
        } else {
            0
        });
    } else {
        assert(before.len() == 0);
    }
    if last.len() > 0 {
        assert(all[before.len() as int] == last);
    }
    if i < n - 1 && trim_spec(pieces[i]).len() > 0 {
        let k = before.index_of(trim_spec(pieces[i]));
        assert(all[k] == trim_spec(pieces[i]));
    }
}

/// A button brings its property, once; the other elements that hold none bring nothing. What was
/// there stays in front.
pub proof fn law_button_properties(nodes: Seq<NodeView>, at: int, before: Seq<Seq<char>>)
    requires
        0 <= at < nodes.len(),
    ensures
        nodes[at].tag == "buttton"@ ==> {
            let property = nodes[at].attribute("property"@)->0;
            &&& buttons_of(nodes, at, before).contains(property)
            &&& before.contains(property) ==> buttons_of(nodes, at, before) == before
            &&& !before.contains(property) ==> buttons_of(nodes, at, before) == before + seq![property]
        },
        nodes[at].tag == "label"@ || nodes[at].tag == "slot"@ || nodes[at].tag == "craft"@
            || nodes[at].tag == "research"@ ==> buttons_of(nodes, at, before) == before,
        nodes[at].tag == "slot"@ || nodes[at].tag == "craft"@ || nodes[at].tag == "research"@
            ==> display_of(nodes, at, before) == before,
        nodes[at].tag == "box"@ && (at + 1 == nodes.len() || nodes[at + 1].depth <= nodes[at].depth)
            ==> buttons_of(nodes, at, before) == before && display_of(nodes, at, before) == before,
{
    lemma_tag_ends();
    if nodes[at].tag == "buttton"@ {
        let property = nodes[at].attribute("property"@)->0;
        if !before.contains(property) {
            assert(before.push(property) =~= before + seq![property]);
            assert(before.push(property)[before.len() as int] == property);
        }
    }
}

/// The length of a tag and its first letter.
spec fn tag_ends(tag: Seq<char>) -> (nat, char) {
    (tag.len(), tag[0])
}

proof fn lemma_tag_ends()
    ensures
        tag_ends("box"@) == (3nat, 'b'),
        tag_ends("label"@) == (5nat, 'l'),
        tag_ends("slot"@) == (4nat, 's'),
        tag_ends("craft"@) == (5nat, 'c'),
        tag_ends("research"@) == (8nat, 'r'),
        tag_ends("buttton"@) == (7nat, 'b'),
{
    reveal_strlit("box");
    reveal_strlit("label");
    reveal_strlit("slot");
    reveal_strlit("craft");
    reveal_strlit("research");
    reveal_strlit("buttton");
}

} // verus!
