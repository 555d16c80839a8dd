//! What a frame shows of the elements of a screen, and what it does to them.

use crate::input::{InputContainer, InputModel, MouseButton};
use crate::net::{ClientItem, NetworkMessageC2S, PropertyModifyMode};
use crate::property::{is_closed, patched, text_views, PropertyMap};
use crate::registry::{
    law_key_index, law_key_of_index, ItemData, ItemKey, Key, LoadRegistry, RecipeData, RecipeKey,
    ResearchData, ResearchKey,
};
use crate::screen::{
    all_typed, can_drag, clicked, draw_item_slot, hover_button, hover_cheat_item, hover_recipe,
    hover_research, hover_slot, item_draws, move_mode, selected_after, slot_message,
    CraftAreaRecipes, ItemPlace, ScreenData, SelectedSlot, SlotId, SlotPrediction, TextField, TextKey,
};
use crate::scripts::{names, ScriptValue};
use crate::text::{self, lines_spec};
use crate::ui_element::UIElementType;
use vstd::prelude::*;

verus! {

/// The user's hand on an element: the buttons, and whether the cursor is over the element.
pub struct Touch<'a, F> {
    pub buttons: &'a InputContainer<F>,
    pub is_inside: bool,
}

/// The button by which the first prediction of a slot came about, from `i` on.
pub open spec fn predicted_from<F: Copy>(
    predictions: Seq<SlotPrediction<F>>,
    slot: usize,
    i: int,
) -> Option<MouseButton>
    decreases predictions.len() - i,
{
    if i >= predictions.len() {
        None
    } else if predictions[i].slot == slot {
        Some(predictions[i].button)
    } else {
        predicted_from(predictions, slot, i + 1)
    }
}

fn find_prediction<F: Copy>(predictions: &Vec<SlotPrediction<F>>, slot: usize) -> (r: Option<
    MouseButton,
>)
    ensures
        r == predicted_from(predictions@, slot, 0),
        r matches Some(button) ==> exists|i: int|
            0 <= i < predictions@.len() && (#[trigger] predictions@[i]).button == button,
{
    let mut i: usize = 0;
    while i < predictions.len()
        invariant
            i <= predictions@.len(),
            predicted_from(predictions@, slot, 0) == predicted_from(predictions@, slot, i as int),
        decreases predictions@.len() - i,
    {
        if predictions[i].slot == slot {
            return Some(predictions[i].button);
        }
        i += 1;
    }
    None
}

/// Whether slots are dragged only by the buttons that can drag.
pub open spec fn drags_are_valid<F: Copy>(screen: ScreenData<F>) -> bool {
    &&& screen.selected_slot matches Some((_, button)) ==> can_drag(button)
    &&& forall|i: int|
        0 <= i < screen.slot_action_prediction@.len() ==> can_drag(
            (#[trigger] screen.slot_action_prediction@[i]).button,
        )
}

/// The item of a slot.
pub open spec fn item_at(slots: Seq<Option<ClientItem>>, slot: SlotId) -> Option<ClientItem> {
    match slot {
        SlotId::Id(slot) => if slot < slots.len() {
            slots[slot as int]
        } else {
            None
        },
        SlotId::Trash => None,
    }
}

/// What a frame shows of a slot.
pub struct SlotFrame<F: Copy> {
    pub message: Option<NetworkMessageC2S<F>>,
    /// The lines at the cursor.
    pub tooltip: Option<Vec<String>>,
    /// How many of the slot's items are drawn where.
    pub draws: Vec<(ItemPlace, u16)>,
}

/// The slot that is dragged after a touch of a slot.
pub open spec fn dragged_after<F: Copy>(
    screen: ScreenData<F>,
    target: SlotId,
    touch: Option<Touch<F>>,
) -> Option<(usize, MouseButton)> {
    match touch {
        Some(touch) if touch.is_inside => selected_after(
            screen.selected_slot,
            target,
            touch.buttons@,
        ),
        _ => screen.selected_slot,
    }
}

/// The lines that are shown for an item: its title and its description.
pub open spec fn item_lines(title: Seq<char>, description: Seq<char>) -> Seq<Seq<char>> {
    seq![title] + lines_spec(description)
}

fn make_item_lines(title: &str, description: &str) -> (r: Vec<String>)
    ensures
        names(r@) == item_lines(title@, description@),
{
    let mut r: Vec<String> = Vec::new();
    r.push(title.to_owned());
    let lines = text::lines(description);
    let ghost all = lines_spec(description@);
    let mut i: usize = 0;
    assert(names(r@) =~= seq![title@] + all.take(0));
    while i < lines.len()
        invariant
            i <= lines@.len(),
            text::views(lines@) == all,
            names(r@) == seq![title@] + all.take(i as int),
        decreases lines@.len() - i,
    {
        let ghost before = names(r@);
        assert(all[i as int] == lines@[i as int]@);
        r.push(lines[i].to_owned());
        i += 1;
        assert(names(r@) =~= before.push(all[i - 1]));
        assert(seq![title@] + all.take(i as int) =~= before.push(all[i - 1]));
    }
    assert(all.take(all.len() as int) =~= all);
    r
}

/// Whether a frame shows a slot as it is to be shown: items are moved or a drag begins, the item's
/// title and description are shown while nothing is dragged, and its items are drawn in the slot or
/// at the cursor.
pub open spec fn is_slot_shown<F: Copy>(
    before: ScreenData<F>,
    after: ScreenData<F>,
    target: SlotId,
    touch: Option<Touch<F>>,
    titles: Seq<Seq<char>>,
    frame: SlotFrame<F>,
) -> bool {
    &&& after == (ScreenData {
        selected_slot: dragged_after(before, target, touch),
        ..before
    })
    &&& frame.message == match touch {
        Some(touch) if touch.is_inside => slot_message(
            before.selected_slot,
            target,
            touch.buttons@,
        ),
        _ => None,
    }
    &&& match item_at(before.slots@, target) {
        None => frame.tooltip is None && frame.draws@.len() == 0,
        Some(item) => {
            &&& frame.tooltip is Some <==> (touch matches Some(touch) && touch.is_inside)
                && after.selected_slot is None
            &&& frame.tooltip matches Some(lines) ==> names(lines@) == item_lines(
                titles[item.item.index()],
                item.description@,
            )
            &&& frame.draws@ == item_draws(
                item.count,
                predicted_from(before.slot_action_prediction@, target->Id_0, 0),
                touch is Some,
            )
        },
    }
}

/// Shows a slot and handles the touch of it. `titles` holds the titles of all items.
pub fn render_slot<F: Copy>(
    screen: &mut ScreenData<F>,
    target: SlotId,
    touch: Option<Touch<F>>,
    titles: &Vec<String>,
) -> (r: SlotFrame<F>)
    requires
        drags_are_valid(*old(screen)),
        item_at(old(screen).slots@, target) matches Some(item) ==> item.item.index()
            < titles@.len(),
    ensures
        drags_are_valid(*final(screen)),
        is_slot_shown(*old(screen), *final(screen), target, touch, names(titles@), r),
{
    let mut message: Option<NetworkMessageC2S<F>> = None;
    let mut is_inside = false;
    let mut has_cursor = false;
    match touch {
        Some(touch) => {
            has_cursor = true;
            if touch.is_inside {
                is_inside = true;
                let (selected, sent) = hover_slot(screen.selected_slot, target, touch.buttons);
                screen.selected_slot = selected;
                message = sent;
            }
        },
        None => {},
    }
    let mut tooltip: Option<Vec<String>> = None;
    let mut draws: Vec<(ItemPlace, u16)> = Vec::new();
    match target {
        SlotId::Id(slot) => {
            if slot < screen.slots.len() {
                if let Some(item) = &screen.slots[slot] {
                    if is_inside && screen.selected_slot.is_none() {
                        tooltip = Some(
                            make_item_lines(
                                titles[item.item.numeric_id()].as_str(),
                                item.description.as_str(),
                            ),
                        );
                    }
                    let dragged_by = find_prediction(&screen.slot_action_prediction, slot);
                    draws = draw_item_slot(item.count, dragged_by, has_cursor);
                }
            }
        },
        SlotId::Trash => {},
    }
    SlotFrame { message, tooltip, draws }
}

/// A slot that is dragged stays dragged, whatever slot is touched.
pub proof fn law_drag_goes_on<F: Copy>(
    screen: ScreenData<F>,
    target: SlotId,
    touch: Option<Touch<F>>,
)
    requires
        screen.selected_slot is Some,
    ensures
        dragged_after(screen, target, touch) == screen.selected_slot,
{
}

/// Shows a field and handles the touch of it: where the cursor is shown, if it is. Then a click
/// selects the field or not, and a selected field takes the keys.
pub fn render_field<F: Copy>(
    field: &mut TextField,
    blinks: bool,
    touch: Option<Touch<F>>,
    keys: &Vec<TextKey>,
) -> (r: Option<usize>)
    requires
        old(field).wf(),
    ensures
        final(field).wf(),
        r == if blinks && old(field).selected {
            Some(old(field).text_cursor)
        } else {
            None
        },
        final(field).selected == match touch {
            Some(touch) if touch.buttons@.just_down.contains(MouseButton::Left.code_spec()) => {
                touch.is_inside
            },
            _ => old(field).selected,
        },
        (final(field).text@, final(field).text_cursor as int) == if touch is Some
            && final(field).selected {
            all_typed(
                old(field).text@,
                old(field).text_cursor as int,
                keys@,
                keys@.len() as int,
            )
        } else {
            (old(field).text@, old(field).text_cursor as int)
        },
{
    let shown = if blinks && field.selected {
        Some(field.text_cursor)
    } else {
        None
    };
    match touch {
        Some(touch) => {
            field.click(touch.is_inside, touch.buttons);
            field.type_keys(keys);
        },
        None => {},
    }
    shown
}

/// An entry of a grid or of a tree.
#[derive(Clone, Copy)]
pub enum EntryKey {
    Item(ItemKey),
    Recipe(RecipeKey),
    Research(ResearchKey),
}

/// The entries that an element shows: all items, the recipes or the research of a group.
pub open spec fn entries_of(
    element: UIElementType,
    items: LoadRegistry<ItemData>,
    recipes: LoadRegistry<RecipeData>,
    research: LoadRegistry<ResearchData>,
) -> Seq<EntryKey> {
    match element {
        UIElementType::CraftArea { recipes: CraftAreaRecipes::CheatMenu } => Seq::new(
            items.ids().len(),
            |i: int| EntryKey::Item(Key::of_index(i as u32)),
        ),
        UIElementType::CraftArea { recipes: CraftAreaRecipes::Recipes(group) } => group.variants(
            recipes,
        ).map_values(|key: RecipeKey| EntryKey::Recipe(key)),
        UIElementType::ResearchTree { research: group } => group.variants(research).map_values(
            |key: ResearchKey| EntryKey::Research(key),
        ),
        _ => Seq::empty(),
    }
}

/// Whether the groups that an element shows are registered.
pub open spec fn has_entries(
    element: UIElementType,
    recipes: LoadRegistry<RecipeData>,
    research: LoadRegistry<ResearchData>,
) -> bool {
    match element {
        UIElementType::CraftArea { recipes: CraftAreaRecipes::Recipes(group) } => group.belongs_to(
            recipes,
        ),
        UIElementType::ResearchTree { research: group } => group.belongs_to(research),
        _ => true,
    }
}

/// The entries that an element shows, in order.
pub fn list_entries(
    element: &UIElementType,
    items: &LoadRegistry<ItemData>,
    recipes: &LoadRegistry<RecipeData>,
    research: &LoadRegistry<ResearchData>,
) -> (r: Vec<EntryKey>)
    requires
        items.wf(),
        recipes.wf(),
        research.wf(),
        has_entries(*element, *recipes, *research),
    ensures
        r@ == entries_of(*element, *items, *recipes, *research),
{
    let ghost all = entries_of(*element, *items, *recipes, *research);
    let mut r: Vec<EntryKey> = Vec::new();
    match element {
        UIElementType::CraftArea { recipes: CraftAreaRecipes::CheatMenu } => {
            let keys = items.entries();
            let mut i: usize = 0;
            proof {
                if keys@.len() > 0 {
                    keys@.last().lemma_index_fits();
                }
            }
            while i < keys.len()
                invariant
                    i <= keys@.len(),
                    keys@.len() == all.len(),
                    keys@.len() <= 0x1_0000_0000,
                    forall|j: int| 0 <= j < keys@.len() ==> (#[trigger] keys@[j]).index() == j,
                    forall|j: int|
                        0 <= j < all.len() ==> #[trigger] all[j] == EntryKey::Item(
                            Key::of_index(j as u32),
                        ),
                    r@ == all.take(i as int),
                decreases keys@.len() - i,
            {
                proof {
                    law_key_of_index::<ItemData>(i as u32);
                    law_key_index(keys@[i as int], Key::of_index(i as u32));
                }
                r.push(EntryKey::Item(keys[i]));
                i += 1;
                assert(r@ =~= all.take(i as int));
            }
            assert(all.take(i as int) =~= all);
        },
        UIElementType::CraftArea { recipes: CraftAreaRecipes::Recipes(group) } => {
            let keys = group.list(recipes);
            let mut i: usize = 0;
            while i < keys.len()
                invariant
                    i <= keys@.len(),
                    all == keys@.map_values(|key: RecipeKey| EntryKey::Recipe(key)),
                    r@ == all.take(i as int),
                decreases keys@.len() - i,
            {
                r.push(EntryKey::Recipe(keys[i]));
                i += 1;
                assert(r@ =~= all.take(i as int));
            }
            assert(all.take(i as int) =~= all);
        },
        UIElementType::ResearchTree { research: group } => {
            let keys = group.list(research);
            let mut i: usize = 0;
            while i < keys.len()
                invariant
                    i <= keys@.len(),
                    all == keys@.map_values(|key: ResearchKey| EntryKey::Research(key)),
                    r@ == all.take(i as int),
                decreases keys@.len() - i,
            {
                r.push(EntryKey::Research(keys[i]));
                i += 1;
                assert(r@ =~= all.take(i as int));
            }
            assert(all.take(i as int) =~= all);
        },
        _ => {},
    }
    r
}

impl EntryKey {
    /// What is sent when the cursor is over the entry.
    pub open spec fn messages<F: Copy>(
        self,
        selected: SelectedSlot,
        buttons: InputModel<F>,
    ) -> Seq<NetworkMessageC2S<F>> {
        match self {
            EntryKey::Item(item) => if selected is None {
                clicked(
                    buttons,
                    NetworkMessageC2S::<F>::GiveItem { item, stack: false },
                    NetworkMessageC2S::<F>::GiveItem { item, stack: true },
                )
            } else {
                Seq::empty()
            },
            EntryKey::Recipe(recipe) => clicked(
                buttons,
                NetworkMessageC2S::<F>::Craft { recipe, count: 1 },
                NetworkMessageC2S::<F>::Craft { recipe, count: 5 },
            ),
            EntryKey::Research(research) => match selected {
                None => Seq::empty(),
                Some((slot, button)) => match move_mode(button, buttons) {
                    None => Seq::empty(),
                    Some(mode) => seq![
                        NetworkMessageC2S::<F>::Research { research, slot, mode },
                    ],
                },
            },
        }
    }

    /// Whether the entry is named at the cursor: an item of the cheat menu only while nothing is
    /// dragged.
    pub open spec fn is_named(self, selected: SelectedSlot) -> bool {
        self is Item ==> selected is None
    }

    fn touch<F: Copy>(
        self,
        selected: SelectedSlot,
        buttons: &InputContainer<F>,
        messages: &mut Vec<NetworkMessageC2S<F>>,
    ) -> (r: bool)
        requires
            selected matches Some((_, button)) ==> can_drag(button),
        ensures
            r == self.is_named(selected),
            final(messages)@ == old(messages)@ + self.messages(selected, buttons@),
    {
        match self {
            EntryKey::Item(item) => {
                if selected.is_none() {
                    let mut sent = hover_cheat_item(item, buttons);
                    messages.append(&mut sent);
                    true
                } else {
                    false
                }
            },
            EntryKey::Recipe(recipe) => {
                let mut sent = hover_recipe(recipe, buttons);
                messages.append(&mut sent);
                true
            },
            EntryKey::Research(research) => {
                match hover_research(selected, research, buttons) {
                    Some(message) => {
                        messages.push(message);
                        assert(messages@ =~= old(messages)@ + seq![message]);
                    },
                    None => {},
                }
                true
            },
        }
    }
}

/// What the first `n` entries send.
pub open spec fn entry_messages<F: Copy>(
    entries: Seq<EntryKey>,
    over: Seq<bool>,
    selected: SelectedSlot,
    buttons: InputModel<F>,
    n: int,
) -> Seq<NetworkMessageC2S<F>>
    decreases n,
{
    if n <= 0 {
        Seq::empty()
    } else {
        entry_messages(entries, over, selected, buttons, n - 1) + if over[n - 1] {
            entries[n - 1].messages(selected, buttons)
        } else {
            Seq::empty()
        }
    }
}

/// Which of the first `n` entries are named at the cursor.
pub open spec fn named_entries(
    entries: Seq<EntryKey>,
    over: Seq<bool>,
    selected: SelectedSlot,
    n: int,
) -> Seq<usize>
    decreases n,
{
    if n <= 0 {
        Seq::empty()
    } else if over[n - 1] && entries[n - 1].is_named(selected) {
        named_entries(entries, over, selected, n - 1).push((n - 1) as usize)
    } else {
        named_entries(entries, over, selected, n - 1)
    }
}

/// Handles the touch of the entries of a grid or a tree: what is sent, and the entries that are
/// named at the cursor. `over` says of each entry whether the cursor is over it.
pub fn touch_entries<F: Copy>(
    entries: &Vec<EntryKey>,
    over: &Vec<bool>,
    selected: SelectedSlot,
    buttons: &InputContainer<F>,
) -> (r: (Vec<NetworkMessageC2S<F>>, Vec<usize>))
    requires
        entries@.len() == over@.len(),
        selected matches Some((_, button)) ==> can_drag(button),
    ensures
        r.0@ == entry_messages(entries@, over@, selected, buttons@, entries@.len() as int),
        r.1@ == named_entries(entries@, over@, selected, entries@.len() as int),
{
    let mut messages: Vec<NetworkMessageC2S<F>> = Vec::new();
    let mut named: Vec<usize> = Vec::new();
    let mut i: usize = 0;
    while i < entries.len()
        invariant
            i <= entries@.len(),
            entries@.len() == over@.len(),
            selected matches Some((_, button)) ==> can_drag(button),
            messages@ == entry_messages(entries@, over@, selected, buttons@, i as int),
            named@ == named_entries(entries@, over@, selected, i as int),
        decreases entries@.len() - i,
    {
        let ghost before = messages@;
        if over[i] {
            if entries[i].touch(selected, buttons, &mut messages) {
                named.push(i);
            }
        }
        assert(before =~= before + Seq::<NetworkMessageC2S<F>>::empty());
        i += 1;
    }
    (messages, named)
}

/// What is known of an element when it is shown.
pub struct Scene<'a, F> {
    pub touch: Option<Touch<'a, F>>,
    /// The properties of the screen as they are written.
    pub texts: &'a PropertyMap<String>,
    /// The titles of all items.
    pub titles: &'a Vec<String>,
    /// The entries of a grid or a tree, in the order in which they are shown.
    pub entries: &'a Vec<EntryKey>,
    /// Whether the cursor is over each entry.
    pub over: &'a Vec<bool>,
}

/// What a frame shows of an element.
pub enum ElementFrame<F: Copy> {
    /// The elements inside.
    Children,
    Text { text: String, message: Option<NetworkMessageC2S<F>> },
    Slot(SlotFrame<F>),
    /// The entries, those at `named` with their names at the cursor.
    Entries { messages: Vec<NetworkMessageC2S<F>>, named: Vec<usize> },
}

/// The message of a button that is touched.
pub open spec fn is_press<F: Copy>(
    message: Option<NetworkMessageC2S<F>>,
    property: Seq<char>,
    value: ScriptValue,
    mode: PropertyModifyMode,
    touch: Option<Touch<F>>,
) -> bool {
    match message {
        Some(message) => {
            &&& touch matches Some(touch) && touch.is_inside
                && touch.buttons@.just_down.contains(MouseButton::Left.code_spec())
            &&& message matches NetworkMessageC2S::UIButtonPress {
                property: p,
                value: v,
                modify_mode: m,
            } && p@ == property && v == value && m == mode
        },
        None => !(touch matches Some(touch) && touch.is_inside
            && touch.buttons@.just_down.contains(MouseButton::Left.code_spec())),
    }
}

/// Whether the element can be shown: its text can be filled in, the item in its slot has a title,
/// and of each entry it is known whether the cursor is over it.
pub open spec fn can_show<F: Copy>(
    element: UIElementType,
    screen: ScreenData<F>,
    scene: Scene<F>,
) -> bool {
    match element {
        UIElementType::Box(_) => true,
        UIElementType::Label(text) => is_closed(text@, false),
        UIElementType::Button { text, .. } => is_closed(text@, false),
        UIElementType::ItemSlot { slot } => item_at(screen.slots@, slot) matches Some(item)
            ==> item.item.index() < scene.titles@.len(),
        UIElementType::CraftArea { .. } => scene.entries@.len() == scene.over@.len(),
        UIElementType::ResearchTree { .. } => scene.entries@.len() == scene.over@.len(),
    }
}

/// Whether a frame shows an element as it is to be shown.
pub open spec fn is_shown<F: Copy>(
    element: UIElementType,
    before: ScreenData<F>,
    after: ScreenData<F>,
    scene: Scene<F>,
    frame: ElementFrame<F>,
) -> bool {
    match element {
        UIElementType::Box(_) => after == before && frame is Children,
        UIElementType::Label(text) => {
            &&& after == before
            &&& frame matches ElementFrame::Text { text: shown, message } && shown@ == patched(
                text@,
                text_views(scene.texts@),
                text@.len() as int,
            ) && message is None
        },
        UIElementType::Button { text, property, value, modify_mode } => {
            &&& after == before
            &&& frame matches ElementFrame::Text { text: shown, message } && shown@ == patched(
                text@,
                text_views(scene.texts@),
                text@.len() as int,
            ) && is_press(message, property@, value, modify_mode, scene.touch)
        },
        UIElementType::ItemSlot { slot } => frame matches ElementFrame::Slot(frame)
            && is_slot_shown(before, after, slot, scene.touch, names(scene.titles@), frame),
        UIElementType::CraftArea { .. } => after == before && are_entries_shown(
            before,
            scene,
            frame,
        ),
        UIElementType::ResearchTree { .. } => after == before && are_entries_shown(
            before,
            scene,
            frame,
        ),
    }
}

/// Whether a frame shows the entries of a grid or a tree as they are to be shown.
pub open spec fn are_entries_shown<F: Copy>(
    screen: ScreenData<F>,
    scene: Scene<F>,
    frame: ElementFrame<F>,
) -> bool {
    &&& frame matches ElementFrame::Entries { messages, named } && match scene.touch {
        Some(touch) if touch.is_inside => {
            &&& messages@ == entry_messages(
                scene.entries@,
                scene.over@,
                screen.selected_slot,
                touch.buttons@,
                scene.entries@.len() as int,
            )
            &&& named@ == named_entries(
                scene.entries@,
                scene.over@,
                screen.selected_slot,
                scene.entries@.len() as int,
            )
        },
        _ => messages@.len() == 0 && named@.len() == 0,
    }
}

fn render_entries<F: Copy>(screen: &ScreenData<F>, scene: &Scene<F>) -> (r: ElementFrame<F>)
    requires
        drags_are_valid(*screen),
        scene.entries@.len() == scene.over@.len(),
    ensures
        are_entries_shown(*screen, *scene, r),
{
    if let Some(touch) = &scene.touch {
        if touch.is_inside {
            let (messages, named) = touch_entries(
                scene.entries,
                scene.over,
                screen.selected_slot,
                touch.buttons,
            );
            return ElementFrame::Entries { messages, named };
        }
    }
    ElementFrame::Entries { messages: Vec::new(), named: Vec::new() }
}

/// Shows an element and handles the touch of it. The elements inside a box are shown after it, each
/// by a call of its own.
pub fn render_element<F: Copy>(
    element: &UIElementType,
    screen: &mut ScreenData<F>,
    scene: &Scene<F>,
) -> (r: ElementFrame<F>)
    requires
        drags_are_valid(*old(screen)),
        can_show(*element, *old(screen), *scene),
    ensures
        drags_are_valid(*final(screen)),
        is_shown(*element, *old(screen), *final(screen), *scene, r),
{
    match element {
        UIElementType::Box(_) => ElementFrame::Children,
        UIElementType::Label(text) => {
            ElementFrame::Text { text: scene.texts.patch_text(text.as_str()), message: None }
        },
        UIElementType::Button { text, property, value, modify_mode } => {
            let mut message: Option<NetworkMessageC2S<F>> = None;
            if let Some(touch) = &scene.touch {
                if touch.is_inside {
                    message = hover_button(property.as_str(), *value, *modify_mode, touch.buttons);
                }
            }
            ElementFrame::Text { text: scene.texts.patch_text(text.as_str()), message }
        },
        UIElementType::ItemSlot { slot } => {
            let touch = match &scene.touch {
                Some(touch) => Some(
                    Touch { buttons: touch.buttons, is_inside: touch.is_inside },
                ),
                None => None,
            };
            ElementFrame::Slot(render_slot(screen, *slot, touch, scene.titles))
        },
        UIElementType::CraftArea { .. } => render_entries(screen, scene),
        UIElementType::ResearchTree { .. } => render_entries(screen, scene),
    }
}

/// Whether an element sends anything.
pub open spec fn sent<F: Copy>(frame: ElementFrame<F>) -> bool {
    match frame {
        ElementFrame::Children => false,
        ElementFrame::Text { message, .. } => message is Some,
        ElementFrame::Slot(slot) => slot.message is Some,
        ElementFrame::Entries { messages, .. } => messages@.len() > 0,
    }
}

/// An element that is not touched sends nothing, and showing it leaves the screen as it is.
pub proof fn law_untouched_element_is_still<F: Copy>(
    element: UIElementType,
    before: ScreenData<F>,
    after: ScreenData<F>,
    scene: Scene<F>,
    frame: ElementFrame<F>,
)
    requires
        is_shown(element, before, after, scene, frame),
        scene.touch matches Some(touch) ==> !touch.is_inside,
    ensures
        after == before,
        !sent(frame),
{
}

/// An entry sends only while a button goes down or up.
pub proof fn law_entries_need_a_click<F: Copy>(
    entry: EntryKey,
    selected: SelectedSlot,
    buttons: InputModel<F>,
)
    requires
        buttons.just_down == Set::<u32>::empty(),
        buttons.just_up == Set::<u32>::empty(),
    ensures
        entry.messages(selected, buttons).len() == 0,
{
}

/// A click on a recipe makes it once, one with the right button five times.
pub proof fn law_recipes_are_made<F: Copy>(
    recipe: RecipeKey,
    selected: SelectedSlot,
    buttons: InputModel<F>,
)
    ensures
        ({
            let sent = EntryKey::Recipe(recipe).messages(selected, buttons);
            let is_left = buttons.just_down.contains(MouseButton::Left.code_spec());
            let is_right = buttons.just_down.contains(MouseButton::Right.code_spec());
            &&& is_left && !is_right ==> sent == seq![
                NetworkMessageC2S::<F>::Craft { recipe, count: 1 },
            ]
            &&& is_right && !is_left ==> sent == seq![
                NetworkMessageC2S::<F>::Craft { recipe, count: 5 },
            ]
            &&& !is_left && !is_right ==> sent.len() == 0
        }),
{
}

/// A click on an item of the cheat menu gives one, one with the right button a stack, and nothing while
/// something is dragged.
pub proof fn law_items_are_given<F: Copy>(
    item: ItemKey,
    selected: SelectedSlot,
    buttons: InputModel<F>,
)
    ensures
        ({
            let sent = EntryKey::Item(item).messages(selected, buttons);
            let is_left = buttons.just_down.contains(MouseButton::Left.code_spec());
            let is_right = buttons.just_down.contains(MouseButton::Right.code_spec());
            &&& selected is Some ==> sent.len() == 0
            &&& selected is None && is_left && !is_right ==> sent == seq![
                NetworkMessageC2S::<F>::GiveItem { item, stack: false },
            ]
            &&& selected is None && is_right && !is_left ==> sent == seq![
                NetworkMessageC2S::<F>::GiveItem { item, stack: true },
            ]
            &&& !is_left && !is_right ==> sent.len() == 0
        }),
{
}

/// Items that are dropped on a research are spent on it: those of the slot that is dragged, in the way
/// that they would move to another slot. Nothing is spent without dragging.
pub proof fn law_research_is_paid<F: Copy>(
    research: ResearchKey,
    selected: SelectedSlot,
    to: usize,
    buttons: InputModel<F>,
)
    ensures
        ({
            let sent = EntryKey::Research(research).messages(selected, buttons);
            match slot_message(selected, SlotId::Id(to), buttons) {
                Some(NetworkMessageC2S::MoveItem { from, mode, .. }) => sent == seq![
                    NetworkMessageC2S::<F>::Research { research, slot: from, mode },
                ],
                _ => sent.len() == 0,
            }
        }),
{
}

/// The cheat menu lists every item in order, and a crafting area or a research tree what its group holds,
/// in order.
pub proof fn law_entries_are_listed(
    element: UIElementType,
    items: LoadRegistry<ItemData>,
    recipes: LoadRegistry<RecipeData>,
    research: LoadRegistry<ResearchData>,
    i: int,
)
    requires
        0 <= i < entries_of(element, items, recipes, research).len(),
        i <= u32::MAX,
    ensures
        ({
            let entry = entries_of(element, items, recipes, research)[i];
            match element {
                UIElementType::CraftArea { recipes: CraftAreaRecipes::CheatMenu } => {
                    &&& entries_of(element, items, recipes, research).len() == items.ids().len()
                    &&& entry matches EntryKey::Item(key) && key.index() == i
                },
                UIElementType::CraftArea { recipes: CraftAreaRecipes::Recipes(group) } => {
                    entry == EntryKey::Recipe(group.variants(recipes)[i])
                },
                UIElementType::ResearchTree { research: group } => {
                    entry == EntryKey::Research(group.variants(research)[i])
                },
                _ => false,
            }
        }),
{
    law_key_of_index::<ItemData>(i as u32);
}

/// A slot that is shown has the item that the screen holds in it; the bin has none. What the items of a
/// slot are explained by begins with their title, and the lines of their description follow.
pub proof fn law_slots_show_items(
    slots: Seq<Option<ClientItem>>,
    slot: usize,
    title: Seq<char>,
    description: Seq<char>,
    i: int,
)
    requires
        0 <= i < lines_spec(description).len(),
    ensures
        item_at(slots, SlotId::Trash) is None,
        slot < slots.len() ==> item_at(slots, SlotId::Id(slot)) == slots[slot as int],
        slot >= slots.len() ==> item_at(slots, SlotId::Id(slot)) is None,
        item_lines(title, description)[0] == title,
        item_lines(title, description)[i + 1] == lines_spec(description)[i],
        item_lines(title, description).len() == lines_spec(description).len() + 1,
{
}

/// What is predicted of a slot is the button of the first prediction of it.
pub proof fn law_first_prediction<F: Copy>(
    predictions: Seq<SlotPrediction<F>>,
    slot: usize,
    from: int,
)
    requires
        0 <= from,
    ensures
        match predicted_from(predictions, slot, from) {
            Some(button) => exists|i: int|
                from <= i < predictions.len() && (#[trigger] predictions[i]).slot == slot
                    && predictions[i].button == button && forall|j: int|
                    from <= j < i ==> (#[trigger] predictions[j]).slot != slot,
            None => forall|i: int|
                from <= i < predictions.len() ==> (#[trigger] predictions[i]).slot != slot,
        },
    decreases predictions.len() - from,
{
    if from < predictions.len() && predictions[from].slot != slot {
        law_first_prediction(predictions, slot, from + 1);
        if let Some(button) = predicted_from(predictions, slot, from + 1) {
            let i = choose|i: int|
                from + 1 <= i < predictions.len() && (#[trigger] predictions[i]).slot == slot
                    && predictions[i].button == button && forall|j: int|
                    from + 1 <= j < i ==> (#[trigger] predictions[j]).slot != slot;
            assert(predictions[i].slot == slot);
        }
    } else if from < predictions.len() {
        assert(predictions[from].slot == slot);
    }
}

/// While a screen is touched, exactly the entries below the cursor are named there, in order; an item of
/// the cheat menu only while nothing is dragged.
pub proof fn law_named_entries(
    entries: Seq<EntryKey>,
    over: Seq<bool>,
    selected: SelectedSlot,
    n: int,
    i: int,
)
    requires
        0 <= i < n <= entries.len() <= usize::MAX,
        over.len() == entries.len(),
    ensures
        named_entries(entries, over, selected, n).contains(i as usize) <==> over[i] && (
        entries[i] is Item ==> selected is None),
        forall|k: int|
            0 <= k < named_entries(entries, over, selected, n).len() ==> #[trigger] named_entries(
                entries,
                over,
                selected,
                n,
            )[k] < n,
    decreases n,
{
    let list = named_entries(entries, over, selected, n);
    let before = named_entries(entries, over, selected, n - 1);
    if n > 1 {
        law_named_entries(entries, over, selected, n - 1, if i < n - 1 { i } else { 0 });
    } else {
        assert(before =~= Seq::<usize>::empty());
    }
    if over[n - 1] && entries[n - 1].is_named(selected) {
        assert(list[list.len() - 1] == (n - 1) as usize);
        if i < n - 1 {
            if list.contains(i as usize) {
                let k = choose|k: int| 0 <= k < list.len() && list[k] == i as usize;
                assert(before[k] == i as usize);
            }
            if before.contains(i as usize) {
                let k = choose|k: int| 0 <= k < before.len() && before[k] == i as usize;
                assert(list[k] == i as usize);
            }
        }
    } else if i == n - 1 {
        if list.contains(i as usize) {
            let k = choose|k: int| 0 <= k < list.len() && list[k] == i as usize;
            assert(before[k] < n - 1);
        }
    }
}

/// A button sends its property, its value and its mode when the left mouse button goes down inside of
/// it, and nothing else makes it send.
pub proof fn law_presses<F: Copy>(
    message: Option<NetworkMessageC2S<F>>,
    property: Seq<char>,
    value: ScriptValue,
    mode: PropertyModifyMode,
    touch: Touch<F>,
)
    requires
        is_press(message, property, value, mode, Some(touch)),
    ensures
        message is Some <==> touch.is_inside && touch.buttons@.just_down.contains(0),
        message matches Some(NetworkMessageC2S::UIButtonPress { property: p, value: v, modify_mode: m })
            ==> p@ == property && v == value && m == mode,
        message is Some ==> message->0 is UIButtonPress,
        is_press::<F>(None, property, value, mode, None),
{
}

} // verus!
