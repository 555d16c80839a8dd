//! What the user does with the elements of a screen.

use crate::input::{InputContainer, MouseButton};
use crate::inventory::ItemMoveMode;
use crate::keyed_store::KeyedStore;
use crate::net::{ClientItem, NetworkMessageC2S, PropertyModifyMode};
use crate::property::PropertyMap;
use crate::registry::{ItemKey, KeyGroup, RecipeData, RecipeKey, ResearchKey, UIScreenKey};
use crate::scripts::{names, ScriptValue};
use crate::text;
use vstd::prelude::*;

verus! {

/// A slot of a screen, or the bin.
#[derive(Copy, Clone, PartialEq, Eq, Structural, Debug)]
pub enum SlotId {
    Id(usize),
    Trash,
}

/// What a crafting area offers.
pub enum CraftAreaRecipes {
    Recipes(KeyGroup<RecipeData>),
    CheatMenu,
}

/// How many items move when the button that drags a slot, or another one, does something over a
/// target: letting go of the left one moves the stack and of the right one half of it, and a click
/// with the right one while the left one drags moves a single item.
pub open spec fn move_mode<F>(
    button: MouseButton,
    buttons: crate::input::InputModel<F>,
) -> Option<ItemMoveMode> {
    if button == MouseButton::Left {
        if buttons.just_up.contains(MouseButton::Left.code_spec()) {
            Some(ItemMoveMode::Stack)
        } else if buttons.just_down.contains(MouseButton::Right.code_spec()) {
            Some(ItemMoveMode::Single)
        } else {
            None
        }
    } else if buttons.just_up.contains(MouseButton::Right.code_spec()) {
        Some(ItemMoveMode::Half)
    } else {
        None
    }
}

/// Whether a button can drag a slot.
pub open spec fn can_drag(button: MouseButton) -> bool {
    button == MouseButton::Left || button == MouseButton::Right
}

fn find_move_mode<F: Copy>(button: MouseButton, buttons: &InputContainer<F>) -> (r: Option<
    ItemMoveMode,
>)
    requires
        can_drag(button),
    ensures
        r == move_mode(button, buttons@),
{
    if button == MouseButton::Left {
        if buttons.is_just_up(MouseButton::Left.code()) {
            Some(ItemMoveMode::Stack)
        } else if buttons.is_just_down(MouseButton::Right.code()) {
            Some(ItemMoveMode::Single)
        } else {
            None
        }
    } else if buttons.is_just_up(MouseButton::Right.code()) {
        Some(ItemMoveMode::Half)
    } else {
        None
    }
}

/// The slot that is being dragged, and the button that drags it.
pub type SelectedSlot = Option<(usize, MouseButton)>;

/// The slot that is dragged after the cursor was over `target`.
pub open spec fn selected_after<F>(
    selected: SelectedSlot,
    target: SlotId,
    buttons: crate::input::InputModel<F>,
) -> SelectedSlot {
    match (selected, target) {
        (None, SlotId::Id(slot)) => if buttons.just_down.contains(MouseButton::Left.code_spec()) {
            Some((slot, MouseButton::Left))
        } else if buttons.just_down.contains(MouseButton::Right.code_spec()) {
            Some((slot, MouseButton::Right))
        } else {
            None
        },
        _ => selected,
    }
}

/// The message that results when the cursor is over `target`.
pub open spec fn slot_message<F: Copy>(
    selected: SelectedSlot,
    target: SlotId,
    buttons: crate::input::InputModel<F>,
) -> Option<NetworkMessageC2S<F>> {
    match selected {
        None => None,
        Some((slot, button)) => match move_mode(button, buttons) {
            None => None,
            Some(mode) => match target {
                SlotId::Id(to) => Some(NetworkMessageC2S::MoveItem { from: slot, to, mode }),
                SlotId::Trash => Some(NetworkMessageC2S::TrashItem { slot, mode }),
            },
        },
    }
}

/// Handles the cursor over a slot: with a slot being dragged its items may move here, else this one
/// may begin to be dragged.
pub fn hover_slot<F: Copy>(
    selected: SelectedSlot,
    target: SlotId,
    buttons: &InputContainer<F>,
) -> (r: (SelectedSlot, Option<NetworkMessageC2S<F>>))
    requires
        selected matches Some((_, button)) ==> can_drag(button),
    ensures
        r.0 == selected_after(selected, target, buttons@),
        r.1 == slot_message(selected, target, buttons@),
        r.0 matches Some((_, button)) ==> can_drag(button),
{
    match selected {
        Some((slot, button)) => {
            let message = match find_move_mode(button, buttons) {
                Some(mode) => match target {
                    SlotId::Id(to) => Some(NetworkMessageC2S::MoveItem { from: slot, to, mode }),
                    SlotId::Trash => Some(NetworkMessageC2S::TrashItem { slot, mode }),
                },
                None => None,
            };
            (selected, message)
        },
        None => match target {
            SlotId::Id(slot) => {
                if buttons.is_just_down(MouseButton::Left.code()) {
                    (Some((slot, MouseButton::Left)), None)
                } else if buttons.is_just_down(MouseButton::Right.code()) {
                    (Some((slot, MouseButton::Right)), None)
                } else {
                    (None, None)
                }
            },
            SlotId::Trash => (None, None),
        },
    }
}

/// The slot that is dragged at the end of a frame: none if its button is not held any more.
pub fn release_slot<F: Copy>(selected: SelectedSlot, buttons: &InputContainer<F>) -> (r:
    SelectedSlot)
    ensures
        r == match selected {
            Some((slot, button)) => if buttons@.down.contains(button.code_spec()) {
                selected
            } else {
                None
            },
            None => None,
        },
{
    match selected {
        Some((_, button)) => if buttons.is_down(button.code()) {
            selected
        } else {
            None
        },
        None => None,
    }
}

/// Items do not move without being dragged, and a slot is not dragged before a button is pressed.
pub proof fn law_no_move_without_drag<F: Copy>(
    target: SlotId,
    buttons: crate::input::InputModel<F>,
)
    ensures
        slot_message(None, target, buttons) is None,
        buttons.just_down == Set::<u32>::empty() ==> selected_after(None, target, buttons) is None,
{
}

/// The message that results when the cursor is over a research: the dragged items are spent on it.
pub fn hover_research<F: Copy>(
    selected: SelectedSlot,
    research: ResearchKey,
    buttons: &InputContainer<F>,
) -> (r: Option<NetworkMessageC2S<F>>)
    requires
        selected matches Some((_, button)) ==> can_drag(button),
    ensures
        r == match selected {
            None => None,
            Some((slot, button)) => match move_mode(button, buttons@) {
                None => None,
                Some(mode) => Some(NetworkMessageC2S::<F>::Research { research, slot, mode }),
            },
        },
{
    match selected {
        None => None,
        Some((slot, button)) => match find_move_mode(button, buttons) {
            None => None,
            Some(mode) => Some(NetworkMessageC2S::Research { research, slot, mode }),
        },
    }
}

/// Where the items of a slot are drawn.
#[derive(Copy, Clone, PartialEq, Eq, Structural, Debug)]
pub enum ItemPlace {
    Slot,
    Cursor,
}

/// How many items of a slot are drawn where. `dragged_by` is the button that drags the slot, if one
/// does; without a cursor a dragged slot is not drawn.
pub open spec fn item_draws(
    count: u16,
    dragged_by: Option<MouseButton>,
    has_cursor: bool,
) -> Seq<(ItemPlace, u16)> {
    match dragged_by {
        None => seq![(ItemPlace::Slot, count)],
        Some(button) => if !has_cursor {
            Seq::empty()
        } else if button == MouseButton::Left {
            seq![(ItemPlace::Cursor, count)]
        } else {
            let moved = ItemMoveMode::Half.count_spec(count as int);
            seq![(ItemPlace::Slot, (count - moved) as u16), (ItemPlace::Cursor, moved as u16)]
        },
    }
}

/// How many items of a slot are drawn where.
pub fn draw_item_slot(count: u16, dragged_by: Option<MouseButton>, has_cursor: bool) -> (r: Vec<
    (ItemPlace, u16),
>)
    requires
        dragged_by matches Some(button) ==> can_drag(button),
    ensures
        r@ == item_draws(count, dragged_by, has_cursor),
{
    let mut r: Vec<(ItemPlace, u16)> = Vec::new();
    match dragged_by {
        None => {
            r.push((ItemPlace::Slot, count));
        },
        Some(button) => {
            if has_cursor {
                if button == MouseButton::Left {
                    r.push((ItemPlace::Cursor, count));
                } else {
                    let moved = ItemMoveMode::Half.get_count(count);
                    r.push((ItemPlace::Slot, count - moved));
                    r.push((ItemPlace::Cursor, moved));
                }
            }
        },
    }
    assert(r@ =~= item_draws(count, dragged_by, has_cursor));
    r
}

/// The number of drawn items.
pub open spec fn drawn_count(draws: Seq<(ItemPlace, u16)>) -> int
    decreases draws.len(),
{
    if draws.len() == 0 {
        0
    } else {
        drawn_count(draws.drop_last()) + draws.last().1
    }
}

/// While a slot is dragged, as many items are drawn as it holds.
pub proof fn law_items_are_kept(count: u16, dragged_by: Option<MouseButton>)
    requires
        dragged_by matches Some(button) ==> can_drag(button),
    ensures
        drawn_count(item_draws(count, dragged_by, true)) == count,
{
    let draws = item_draws(count, dragged_by, true);
    reveal_with_fuel(drawn_count, 3);
    if draws.len() == 2 {
        assert(draws.drop_last() =~= seq![draws[0]]);
        assert(draws.drop_last().drop_last() =~= Seq::<(ItemPlace, u16)>::empty());
    } else {
        assert(draws.drop_last() =~= Seq::<(ItemPlace, u16)>::empty());
    }
}

/// Whether every piece stands in a name.
pub open spec fn holds_pieces(name: Seq<char>, pieces: Seq<Seq<char>>) -> bool {
    forall|i: int| 0 <= i < pieces.len() ==> text::contains_spec(name, #[trigger] pieces[i])
}

/// Whether a name passes a filter: each of the filter's pieces stands in it.
pub open spec fn passes(filter: Option<Seq<char>>, name: Seq<char>) -> bool {
    match filter {
        None => true,
        Some(filter) => holds_pieces(name, text::split_spec(filter, ' ')),
    }
}

/// The text of an optional filter.
pub open spec fn filter_view(filter: Option<&str>) -> Option<Seq<char>> {
    match filter {
        Some(filter) => Some(filter@),
        None => None,
    }
}

/// Whether a name passes a filter.
pub fn filter_passes(filter: Option<&str>, name: &str) -> (r: bool)
    ensures
        r == passes(filter_view(filter), name@),
{
    let wanted = match filter {
        Some(wanted) => wanted,
        None => {
            return true;
        },
    };
    let pieces = text::split(wanted, ' ');
    let ghost all = text::split_spec(wanted@, ' ');
    let mut i: usize = 0;
    while i < pieces.len()
        invariant
            i <= pieces@.len(),
            text::views(pieces@) == all,
            all.len() == pieces@.len(),
            filter_view(filter) == Some(wanted@),
            all == text::split_spec(wanted@, ' '),
            forall|j: int| 0 <= j < i ==> text::contains_spec(name@, #[trigger] all[j]),
        decreases pieces@.len() - i,
    {
        assert(text::views(pieces@)[i as int] == pieces@[i as int]@);
        if !text::contains(name, pieces[i]) {
            assert(!text::contains_spec(name@, all[i as int]));
            return false;
        }
        i += 1;
    }
    true
}

/// The empty filter lets every name pass.
pub proof fn law_empty_filter_passes(name: Seq<char>)
    ensures
        passes(Some(Seq::empty()), name),
        passes(None, name),
{
    let empty = Seq::<char>::empty();
    reveal_with_fuel(text::split_from, 2);
    assert(text::find_from(empty, ' ', 0) == 0);
    assert(empty.subrange(0, 0) =~= empty);
    assert(text::split_spec(empty, ' ') =~= seq![empty]);
    assert(name.subrange(0, 0) =~= empty);
    assert(text::stands_at(name, empty, 0));
}

/// An entry of a grid.
#[derive(Copy, Clone, PartialEq, Eq, Structural, Debug)]
pub struct GridCell {
    pub entry: usize,
    pub column: usize,
    pub row: usize,
}

/// The cells of those of the first `n` entries whose names pass, row by row.
pub open spec fn grid_cells(
    entries: Seq<Seq<char>>,
    filter: Option<Seq<char>>,
    width: int,
    n: int,
) -> Seq<GridCell>
    decreases n,
{
    if n <= 0 {
        Seq::empty()
    } else {
        let before = grid_cells(entries, filter, width, n - 1);
        if passes(filter, entries[n - 1]) {
            before.push(
                GridCell {
                    entry: (n - 1) as usize,
                    column: (before.len() as int % width) as usize,
                    row: (before.len() as int / width) as usize,
                },
            )
        } else {
            before
        }
    }
}

/// Lays the entries whose names pass the filter out on a grid.
pub fn lay_out_grid(entries: &Vec<String>, filter: Option<&str>, width: usize) -> (r: Vec<GridCell>)
    requires
        width > 0,
    ensures
        r@ == grid_cells(
            names(entries@),
            filter_view(filter),
            width as int,
            entries@.len() as int,
        ),
{
    let mut r: Vec<GridCell> = Vec::new();
    let mut i: usize = 0;
    while i < entries.len()
        invariant
            i <= entries@.len(),
            width > 0,
            r@.len() <= i,
            r@ == grid_cells(names(entries@), filter_view(filter), width as int, i as int),
        decreases entries@.len() - i,
    {
        assert(names(entries@)[i as int] == entries@[i as int]@);
        if filter_passes(filter, entries[i].as_str()) {
            let place = r.len();
            r.push(GridCell { entry: i, column: place % width, row: place / width });
        }
        i += 1;
    }
    r
}

/// The rows that `count` entries take up.
pub fn grid_rows(count: usize, width: usize) -> (r: usize)
    requires
        width > 0,
    ensures
        (r - 1) * width < count <= r * width || (count == 0 && r == 0),
{
    let full = count / width;
    proof {
        vstd::arithmetic::div_mod::lemma_fundamental_div_mod(count as int, width as int);
        assert(width * (count as int / width as int) == (count as int / width as int) * width)
            by (nonlinear_arith);
    }
    if count % width == 0 {
        assert((full - 1) * width == full * width - width) by (nonlinear_arith);
        full
    } else {
        proof {
            assert((full + 1) * width == full * width + width) by (nonlinear_arith);
            assert(full < usize::MAX) by {
                if width == 1 {
                } else {
                    assert(full * 2 <= full * width) by (nonlinear_arith)
                        requires
                            width >= 2,
                            full >= 0,
                    ;
                }
            }
        }
        full + 1
    }
}

/// No two entries of a grid share a cell.
pub proof fn law_grid_cells_differ(
    entries: Seq<Seq<char>>,
    filter: Option<Seq<char>>,
    width: int,
    n: int,
    a: int,
    b: int,
)
    requires
        0 < width,
        0 <= n <= usize::MAX,
        0 <= a < b < grid_cells(entries, filter, width, n).len(),
    ensures
        grid_cells(entries, filter, width, n)[a].entry < grid_cells(
            entries,
            filter,
            width,
            n,
        )[b].entry,
        grid_cells(entries, filter, width, n)[a].column != grid_cells(
            entries,
            filter,
            width,
            n,
        )[b].column || grid_cells(entries, filter, width, n)[a].row != grid_cells(
            entries,
            filter,
            width,
            n,
        )[b].row,
{
    lemma_grid_cell(entries, filter, width, n, a);
    lemma_grid_cell(entries, filter, width, n, b);
    lemma_grid_order(entries, filter, width, n, a, b);
    vstd::arithmetic::div_mod::lemma_fundamental_div_mod(a, width);
    vstd::arithmetic::div_mod::lemma_fundamental_div_mod(b, width);
}

proof fn lemma_grid_cell(
    entries: Seq<Seq<char>>,
    filter: Option<Seq<char>>,
    width: int,
    n: int,
    a: int,
)
    requires
        0 < width,
        0 <= n <= usize::MAX,
        0 <= a < grid_cells(entries, filter, width, n).len(),
    ensures
        grid_cells(entries, filter, width, n).len() <= n,
        grid_cells(entries, filter, width, n)[a].column == a % width,
        grid_cells(entries, filter, width, n)[a].row == a / width,
        grid_cells(entries, filter, width, n)[a].entry < n,
    decreases n,
{
    if n > 0 {
        let before = grid_cells(entries, filter, width, n - 1);
        if before.len() > 0 {
            lemma_grid_cell(entries, filter, width, n - 1, 0);
        }
        if a < before.len() {
            lemma_grid_cell(entries, filter, width, n - 1, a);
        } else {
            vstd::arithmetic::div_mod::lemma_mod_bound(a, width);
            vstd::arithmetic::div_mod::lemma_div_is_ordered_by_denominator(a, 1, width);
            assert(0 <= a % width <= a) by {
                vstd::arithmetic::div_mod::lemma_mod_decreases(a as nat, width as nat);
            }
            assert(0 <= a / width <= a) by {
                vstd::arithmetic::div_mod::lemma_div_pos_is_pos(a, width);
            }
        }
    }
}

proof fn lemma_grid_order(
    entries: Seq<Seq<char>>,
    filter: Option<Seq<char>>,
    width: int,
    n: int,
    a: int,
    b: int,
)
    requires
        0 < width,
        0 <= n <= usize::MAX,
        0 <= a < b < grid_cells(entries, filter, width, n).len(),
    ensures
        grid_cells(entries, filter, width, n)[a].entry < grid_cells(
            entries,
            filter,
            width,
            n,
        )[b].entry,
    decreases n,
{
    let before = grid_cells(entries, filter, width, n - 1);
    if b < before.len() {
        lemma_grid_order(entries, filter, width, n - 1, a, b);
    } else {
        lemma_grid_cell(entries, filter, width, n - 1, a);
    }
}

/// The messages that result when the cursor is over an item of the cheat menu: a click with the left
/// button gives one, with the right button a stack.
pub fn hover_cheat_item<F: Copy>(item: ItemKey, buttons: &InputContainer<F>) -> (r: Vec<
    NetworkMessageC2S<F>,
>)
    ensures
        r@ == clicked(
            buttons@,
            NetworkMessageC2S::<F>::GiveItem { item, stack: false },
            NetworkMessageC2S::<F>::GiveItem { item, stack: true },
        ),
{
    let mut r: Vec<NetworkMessageC2S<F>> = Vec::new();
    if buttons.is_just_down(MouseButton::Left.code()) {
        r.push(NetworkMessageC2S::GiveItem { item, stack: false });
    }
    if buttons.is_just_down(MouseButton::Right.code()) {
        r.push(NetworkMessageC2S::GiveItem { item, stack: true });
    }
    assert(r@ =~= clicked(
        buttons@,
        NetworkMessageC2S::<F>::GiveItem { item, stack: false },
        NetworkMessageC2S::<F>::GiveItem { item, stack: true },
    ));
    r
}

/// One message for a click with the left button, another for one with the right.
pub open spec fn clicked<F: Copy>(
    buttons: crate::input::InputModel<F>,
    left: NetworkMessageC2S<F>,
    right: NetworkMessageC2S<F>,
) -> Seq<NetworkMessageC2S<F>> {
    (if buttons.just_down.contains(MouseButton::Left.code_spec()) {
        seq![left]
    } else {
        Seq::empty()
    }) + (if buttons.just_down.contains(MouseButton::Right.code_spec()) {
        seq![right]
    } else {
        Seq::empty()
    })
}

/// The messages that result when the cursor is over a recipe: a click with the left button makes it
/// once, with the right button five times.
pub fn hover_recipe<F: Copy>(recipe: RecipeKey, buttons: &InputContainer<F>) -> (r: Vec<
    NetworkMessageC2S<F>,
>)
    ensures
        r@ == clicked(
            buttons@,
            NetworkMessageC2S::<F>::Craft { recipe, count: 1 },
            NetworkMessageC2S::<F>::Craft { recipe, count: 5 },
        ),
{
    let mut r: Vec<NetworkMessageC2S<F>> = Vec::new();
    if buttons.is_just_down(MouseButton::Left.code()) {
        r.push(NetworkMessageC2S::Craft { recipe, count: 1 });
    }
    if buttons.is_just_down(MouseButton::Right.code()) {
        r.push(NetworkMessageC2S::Craft { recipe, count: 5 });
    }
    assert(r@ =~= clicked(
        buttons@,
        NetworkMessageC2S::<F>::Craft { recipe, count: 1 },
        NetworkMessageC2S::<F>::Craft { recipe, count: 5 },
    ));
    r
}

/// The lines of a recipe that follow its first `n` inputs.
pub open spec fn input_lines(inputs: Seq<(Seq<char>, Seq<char>)>, n: int) -> Seq<char>
    decreases n,
{
    if n <= 0 {
        Seq::empty()
    } else {
        input_lines(inputs, n - 1) + seq!['\n', '-'] + inputs[n - 1].0 + seq!['x'] + inputs[n - 1].1
    }
}

/// The lines of a recipe that follow its first `n` outputs.
pub open spec fn output_lines(outputs: Seq<Seq<char>>, n: int) -> Seq<char>
    decreases n,
{
    if n <= 0 {
        Seq::empty()
    } else {
        output_lines(outputs, n - 1) + seq!['\n', '+'] + outputs[n - 1]
    }
}

/// Pairs of texts.
pub open spec fn pair_views(pairs: Seq<(String, String)>) -> Seq<(Seq<char>, Seq<char>)> {
    pairs.map_values(|pair: (String, String)| (pair.0@, pair.1@))
}

fn push_text(list: &mut Vec<char>, s: &str)
    ensures
        final(list)@ == old(list)@ + s@,
{
    let mut more = text::chars(s);
    list.append(&mut more);
}

/// The text that explains a recipe: its name, then a line for each input with its count, then one
/// for each output.
pub fn recipe_text(name: &str, inputs: &Vec<(String, String)>, outputs: &Vec<String>) -> (r: String)
    ensures
        r@ == name@ + input_lines(pair_views(inputs@), inputs@.len() as int) + output_lines(
            names(outputs@),
            outputs@.len() as int,
        ),
{
    let mut list = text::chars(name);
    let mut i: usize = 0;
    assert(list@ =~= name@ + input_lines(pair_views(inputs@), 0));
    while i < inputs.len()
        invariant
            i <= inputs@.len(),
            list@ == name@ + input_lines(pair_views(inputs@), i as int),
        decreases inputs@.len() - i,
    {
        let ghost before = list@;
        list.push('\n');
        list.push('-');
        push_text(&mut list, inputs[i].0.as_str());
        list.push('x');
        push_text(&mut list, inputs[i].1.as_str());
        assert(pair_views(inputs@)[i as int] == (inputs@[i as int].0@, inputs@[i as int].1@));
        i += 1;
        assert(list@ =~= name@ + input_lines(pair_views(inputs@), i as int));
    }
    let ghost start = list@;
    let mut k: usize = 0;
    assert(list@ =~= start + output_lines(names(outputs@), 0));
    while k < outputs.len()
        invariant
            k <= outputs@.len(),
            list@ == start + output_lines(names(outputs@), k as int),
        decreases outputs@.len() - k,
    {
        list.push('\n');
        list.push('+');
        push_text(&mut list, outputs[k].as_str());
        assert(names(outputs@)[k as int] == outputs@[k as int]@);
        k += 1;
        assert(list@ =~= start + output_lines(names(outputs@), k as int));
    }
    text::from_chars(&list)
}

/// The message that results when the cursor is over a button.
pub fn hover_button<F: Copy>(
    property: &str,
    value: ScriptValue,
    modify_mode: PropertyModifyMode,
    buttons: &InputContainer<F>,
) -> (r: Option<NetworkMessageC2S<F>>)
    ensures
        match r {
            Some(message) => {
                &&& buttons@.just_down.contains(MouseButton::Left.code_spec())
                &&& message matches NetworkMessageC2S::UIButtonPress {
                    property: p,
                    value: v,
                    modify_mode: m,
                } && p@ == property@ && v == value && m == modify_mode
            },
            None => !buttons@.just_down.contains(MouseButton::Left.code_spec()),
        },
{
    if buttons.is_just_down(MouseButton::Left.code()) {
        Some(
            NetworkMessageC2S::UIButtonPress { property: property.to_owned(), value, modify_mode },
        )
    } else {
        None
    }
}

/// A key that a text field understands.
#[derive(Copy, Clone, PartialEq, Eq, Structural, Debug)]
pub enum TextKey {
    ArrowLeft,
    ArrowRight,
    Backspace,
    Space,
    Character(char),
    Other,
}

/// The state of a text field.
pub struct TextField {
    pub text: Vec<char>,
    pub text_cursor: usize,
    pub selected: bool,
}

/// Whether a character can be typed: a letter, a digit or a punctuation mark of ASCII.
pub open spec fn is_typed(c: char) -> bool {
    '!' <= c <= '~'
}

/// The text and the cursor after a key.
pub open spec fn typed(text: Seq<char>, cursor: int, key: TextKey) -> (Seq<char>, int) {
    match key {
        TextKey::ArrowLeft => (
            text,
            if cursor > 0 {
                cursor - 1
            } else {
                cursor
            },
        ),
        TextKey::ArrowRight => (
            text,
            if cursor < text.len() {
                cursor + 1
            } else {
                cursor
            },
        ),
        TextKey::Backspace => if cursor > 0 {
            (text.remove(cursor - 1), cursor - 1)
        } else {
            (text, cursor)
        },
        TextKey::Space => (text.insert(cursor, ' '), cursor + 1),
        TextKey::Character(c) => if is_typed(c) {
            (text.insert(cursor, c), cursor + 1)
        } else {
            (text, cursor)
        },
        TextKey::Other => (text, cursor),
    }
}

/// The text and the cursor after the first `n` keys.
pub open spec fn all_typed(text: Seq<char>, cursor: int, keys: Seq<TextKey>, n: int) -> (
    Seq<char>,
    int,
)
    decreases n,
{
    if n <= 0 {
        (text, cursor)
    } else {
        let (before, at) = all_typed(text, cursor, keys, n - 1);
        typed(before, at, keys[n - 1])
    }
}

impl TextField {
    /// Whether the cursor stands within the text.
    pub open spec fn wf(self) -> bool {
        self.text_cursor <= self.text@.len()
    }

    /// An empty field that is not selected.
    pub fn new() -> (r: TextField)
        ensures
            r.wf(),
            r.text@.len() == 0,
            r.text_cursor == 0,
            !r.selected,
    {
        TextField { text: Vec::new(), text_cursor: 0, selected: false }
    }

    /// A click selects the field it is on and no other.
    pub fn click<F: Copy>(&mut self, is_inside: bool, buttons: &InputContainer<F>)
        ensures
            final(self).text == old(self).text,
            final(self).text_cursor == old(self).text_cursor,
            final(self).selected == if buttons@.just_down.contains(MouseButton::Left.code_spec()) {
                is_inside
            } else {
                old(self).selected
            },
    {
        if buttons.is_just_down(MouseButton::Left.code()) {
            self.selected = is_inside;
        }
    }

    /// Handles a key.
    fn press(&mut self, key: TextKey)
        requires
            old(self).wf(),
        ensures
            final(self).wf(),
            final(self).selected == old(self).selected,
            (final(self).text@, final(self).text_cursor as int) == typed(
                old(self).text@,
                old(self).text_cursor as int,
                key,
            ),
    {
        match key {
            TextKey::ArrowLeft => {
                if self.text_cursor > 0 {
                    self.text_cursor -= 1;
                }
            },
            TextKey::ArrowRight => {
                if self.text_cursor < self.text.len() {
                    self.text_cursor += 1;
                }
            },
            TextKey::Backspace => {
                if self.text_cursor > 0 {
                    self.text_cursor -= 1;
                    let _ = self.text.remove(self.text_cursor);
                }
            },
            TextKey::Space => {
                self.text.insert(self.text_cursor, ' ');
                let length = self.text.len();
                assert(self.text_cursor < length);
                self.text_cursor += 1;
            },
            TextKey::Character(c) => {
                if c >= '!' && c <= '~' {
                    self.text.insert(self.text_cursor, c);
                    let length = self.text.len();
                    assert(self.text_cursor < length);
                    self.text_cursor += 1;
                }
            },
            TextKey::Other => {},
        }
    }

    /// Handles the keys of a frame, if the field is selected.
    pub fn type_keys(&mut self, keys: &Vec<TextKey>)
        requires
            old(self).wf(),
        ensures
            final(self).wf(),
            final(self).selected == old(self).selected,
            (final(self).text@, final(self).text_cursor as int) == if old(self).selected {
                all_typed(
                    old(self).text@,
                    old(self).text_cursor as int,
                    keys@,
                    keys@.len() as int,
                )
            } else {
                (old(self).text@, old(self).text_cursor as int)
            },
    {
        if !self.selected {
            return ;
        }
        let mut i: usize = 0;
        while i < keys.len()
            invariant
                i <= keys@.len(),
                self.wf(),
                self.selected == old(self).selected,
                (self.text@, self.text_cursor as int) == all_typed(
                    old(self).text@,
                    old(self).text_cursor as int,
                    keys@,
                    i as int,
                ),
            decreases keys@.len() - i,
        {
            self.press(keys[i]);
            i += 1;
        }
    }
}

/// Backspace takes back what was typed.
pub proof fn law_backspace_undoes(text: Seq<char>, cursor: int, key: TextKey)
    requires
        0 <= cursor <= text.len(),
        key == TextKey::Space || (key matches TextKey::Character(c) && is_typed(c)),
    ensures
        ({
            let (more, at) = typed(text, cursor, key);
            typed(more, at, TextKey::Backspace) == (text, cursor)
        }),
{
    let (more, at) = typed(text, cursor, key);
    assert(more.remove(at - 1) =~= text);
}

/// What the elements of a screen remember. `F` is the type of a coordinate.
pub struct InstantiatedElementData<F> {
    pub scroll_x: F,
    pub scroll_y: F,
    pub field: TextField,
}

/// A slot whose items are shown where they will soon be.
#[derive(Copy, Clone)]
pub struct SlotPrediction<F: Copy> {
    pub slot: usize,
    pub button: MouseButton,
    pub time: F,
}

/// A screen, what it shows and what the user has done to it.
#[verifier::reject_recursive_types(F)]
pub struct ScreenData<F: Copy> {
    pub screen: UIScreenKey,
    pub slots: Vec<Option<ClientItem>>,
    pub properties: PropertyMap<F>,
    pub selected_slot: SelectedSlot,
    pub slot_action_prediction: Vec<SlotPrediction<F>>,
    pub element_data: KeyedStore<InstantiatedElementData<F>>,
    pub time: F,
}

impl<F: Copy> ScreenData<F> {
    /// A screen that was just opened.
    pub fn open(
        screen: UIScreenKey,
        slots: Vec<Option<ClientItem>>,
        properties: PropertyMap<F>,
        no_time: F,
    ) -> (r: ScreenData<F>)
        ensures
            r.screen == screen,
            r.slots == slots,
            r.properties == properties,
            r.selected_slot is None,
            r.slot_action_prediction@.len() == 0,
            r.element_data.wf(),
            r.element_data@ == Map::<u128, InstantiatedElementData<F>>::empty(),
            r.time == no_time,
    {
        ScreenData {
            screen,
            slots,
            properties,
            selected_slot: None,
            slot_action_prediction: Vec::new(),
            element_data: KeyedStore::with_capacity(0),
            time: no_time,
        }
    }

    /// Whether `after` is `before` with another item in a slot, if there is such a slot.
    pub open spec fn is_slot_set(
        before: ScreenData<F>,
        after: ScreenData<F>,
        slot: usize,
        item: Option<ClientItem>,
    ) -> bool {
        if slot < before.slots@.len() {
            &&& after.slots@ == before.slots@.update(slot as int, item)
            &&& after.slot_action_prediction@ == without(before.slot_action_prediction@, slot)
            &&& after == (ScreenData {
                slots: after.slots,
                slot_action_prediction: after.slot_action_prediction,
                ..before
            })
        } else {
            after == before
        }
    }

    /// A slot gets another item, if it exists; nothing is predicted of it any more.
    pub fn set_slot(&mut self, slot: usize, item: Option<ClientItem>)
        ensures
            Self::is_slot_set(*old(self), *final(self), slot, item),
    {
        if slot < self.slots.len() {
            self.slots.set(slot, item);
            remove_prediction(&mut self.slot_action_prediction, slot);
        }
    }

    /// Begins a frame: the dragged slot is predicted for `time` more, and of every prediction the
    /// time goes on. `passed` gives what is left of a time, `None` if nothing is.
    pub fn predict(&mut self, time: F, passed: impl Fn(F) -> Option<F>)
        requires
            forall|time: F| call_requires(passed, (time,)),
        ensures
            *final(self) == (ScreenData {
                slot_action_prediction: final(self).slot_action_prediction,
                ..*old(self)
            }),
            are_left(
                match old(self).selected_slot {
                    Some((slot, button)) => without(
                        old(self).slot_action_prediction@,
                        slot,
                    ).push(SlotPrediction { slot, button, time }),
                    None => old(self).slot_action_prediction@,
                },
                passed,
                final(self).slot_action_prediction@,
            ),
    {
        if let Some((slot, button)) = self.selected_slot {
            remove_prediction(&mut self.slot_action_prediction, slot);
            self.slot_action_prediction.push(SlotPrediction { slot, button, time });
        }
        let ghost all = self.slot_action_prediction@;
        let mut left: Vec<SlotPrediction<F>> = Vec::new();
        let mut i: usize = 0;
        assert(all.take(0) =~= Seq::<SlotPrediction<F>>::empty());
        while i < self.slot_action_prediction.len()
            invariant
                i <= all.len(),
                self.slot_action_prediction@ == all,
                forall|time: F| call_requires(passed, (time,)),
                are_left(all.take(i as int), passed, left@),
                *self == (ScreenData {
                    slot_action_prediction: self.slot_action_prediction,
                    ..*old(self)
                }),
            decreases all.len() - i,
        {
            let prediction = self.slot_action_prediction[i];
            let rest = passed(prediction.time);
            let ghost before = left@;
            if let Some(time) = rest {
                left.push(SlotPrediction { time, ..prediction });
            }
            i += 1;
            assert(all.take(i as int).drop_last() =~= all.take(i - 1));
            proof {
                let now = left@;
                if rest is Some {
                    assert(now.drop_last() =~= before);
                }
            }
        }
        assert(all.take(i as int) =~= all);
        self.slot_action_prediction = left;
    }
}

/// Whether `left` is what is left of predictions after some time, `passed` giving what is left of
/// each.
pub open spec fn are_left<F: Copy, P: Fn(F) -> Option<F>>(
    predictions: Seq<SlotPrediction<F>>,
    passed: P,
    left: Seq<SlotPrediction<F>>,
) -> bool
    decreases predictions.len(),
{
    if predictions.len() == 0 {
        left.len() == 0
    } else {
        let last = predictions.last();
        ||| (call_ensures(passed, (last.time,), None) && are_left(
            predictions.drop_last(),
            passed,
            left,
        ))
        ||| (left.len() > 0 && left.last().slot == last.slot && left.last().button == last.button
            && call_ensures(passed, (last.time,), Some(left.last().time)) && are_left(
            predictions.drop_last(),
            passed,
            left.drop_last(),
        ))
    }
}

/// The predictions of all slots but one.
pub open spec fn without<F: Copy>(predictions: Seq<SlotPrediction<F>>, slot: usize) -> Seq<
    SlotPrediction<F>,
>
    decreases predictions.len(),
{
    if predictions.len() == 0 {
        Seq::empty()
    } else {
        let before = without(predictions.drop_last(), slot);
        if predictions.last().slot == slot {
            before
        } else {
            before.push(predictions.last())
        }
    }
}

/// Nothing is predicted any more of a slot whose predictions were taken out, and of every other slot
/// what was predicted.
pub proof fn law_without<F: Copy>(predictions: Seq<SlotPrediction<F>>, slot: usize)
    ensures
        forall|i: int|
            0 <= i < without(predictions, slot).len() ==> (#[trigger] without(
                predictions,
                slot,
            )[i]).slot != slot,
        forall|p: SlotPrediction<F>| #[trigger]
            without(predictions, slot).contains(p) <==> predictions.contains(p) && p.slot != slot,
    decreases predictions.len(),
{
    let r = without(predictions, slot);
    if predictions.len() > 0 {
        let rest = predictions.drop_last();
        let last = predictions.last();
        let before = without(rest, slot);
        law_without(rest, slot);
        assert forall|i: int| 0 <= i < r.len() implies (#[trigger] r[i]).slot != slot by {
            if i < before.len() {
                assert(r[i] == before[i]);
            }
        }
        assert forall|p: SlotPrediction<F>| #[trigger]
            r.contains(p) <==> predictions.contains(p) && p.slot != slot by {
            assert(predictions =~= rest.push(last));
            if r.contains(p) {
                let i = choose|i: int| 0 <= i < r.len() && r[i] == p;
                if i < before.len() {
                    assert(before[i] == p);
                    assert(before.contains(p));
                    let j = choose|j: int| 0 <= j < rest.len() && rest[j] == p;
                    assert(predictions[j] == p);
                } else {
                    assert(predictions[predictions.len() - 1] == p);
                }
            }
            if predictions.contains(p) && p.slot != slot {
                let j = choose|j: int| 0 <= j < predictions.len() && predictions[j] == p;
                if j < rest.len() {
                    assert(rest[j] == p);
                    assert(before.contains(p));
                    let i = choose|i: int| 0 <= i < before.len() && before[i] == p;
                    assert(r[i] == p);
                } else {
                    assert(r[r.len() - 1] == p);
                }
            }
        }
    }
}

fn remove_prediction<F: Copy>(predictions: &mut Vec<SlotPrediction<F>>, slot: usize)
    ensures
        final(predictions)@ == without(old(predictions)@, slot),
{
    let ghost all = predictions@;
    let mut r: Vec<SlotPrediction<F>> = Vec::new();
    let mut i: usize = 0;
    assert(all.take(0) =~= Seq::<SlotPrediction<F>>::empty());
    while i < predictions.len()
        invariant
            i <= all.len(),
            predictions@ == all,
            r@ == without(all.take(i as int), slot),
        decreases all.len() - i,
    {
        let prediction = predictions[i];
        if prediction.slot != slot {
            r.push(prediction);
        }
        i += 1;
        assert(all.take(i as int).drop_last() =~= all.take(i - 1));
    }
    assert(all.take(i as int) =~= all);
    *predictions = r;
}

/// A slot begins to be dragged by the button that is pressed on it, the left one before the right, and
/// what is dragged stays so while the cursor moves over other slots.
pub proof fn law_drag_begins<F: Copy>(
    selected: SelectedSlot,
    slot: usize,
    target: SlotId,
    buttons: crate::input::InputModel<F>,
)
    ensures
        selected is Some ==> selected_after(selected, target, buttons) == selected,
        selected_after(None, SlotId::Trash, buttons) is None,
        buttons.just_down.contains(MouseButton::Left.code_spec()) ==> selected_after(
            None,
            SlotId::Id(slot),
            buttons,
        ) == Some((slot, MouseButton::Left)),
        buttons.just_down.contains(MouseButton::Right.code_spec()) && !buttons.just_down.contains(
            MouseButton::Left.code_spec(),
        ) ==> selected_after(None, SlotId::Id(slot), buttons) == Some((slot, MouseButton::Right)),
{
}

/// Letting go of the left button moves the whole stack that it dragged, and of the right button half of
/// it; a click with the right button on the way moves one item. The items go from the slot that is
/// dragged to the one below the cursor, or are thrown away over the bin.
pub proof fn law_drag_moves<F: Copy>(
    from: usize,
    button: MouseButton,
    target: SlotId,
    buttons: crate::input::InputModel<F>,
)
    requires
        can_drag(button),
    ensures
        ({
            let message = slot_message(Some((from, button)), target, buttons);
            let left_up = buttons.just_up.contains(MouseButton::Left.code_spec());
            let right_up = buttons.just_up.contains(MouseButton::Right.code_spec());
            let right_down = buttons.just_down.contains(MouseButton::Right.code_spec());
            let fits = |mode: ItemMoveMode|
                {
                    &&& mode == ItemMoveMode::Stack <==> button == MouseButton::Left && left_up
                    &&& mode == ItemMoveMode::Single <==> button == MouseButton::Left && !left_up
                        && right_down
                    &&& mode == ItemMoveMode::Half <==> button == MouseButton::Right && right_up
                };
            &&& message is None <==> (button == MouseButton::Left && !left_up && !right_down) || (
            button == MouseButton::Right && !right_up)
            &&& target is Trash ==> (message matches Some(m) ==> m is TrashItem)
            &&& target is Id ==> (message matches Some(m) ==> m is MoveItem)
            &&& message matches Some(NetworkMessageC2S::MoveItem { from: f, to, mode }) ==> f == from
                && target == SlotId::Id(to)
            &&& message matches Some(NetworkMessageC2S::TrashItem { slot, mode }) ==> slot == from
            &&& message matches Some(NetworkMessageC2S::MoveItem { mode, .. }) ==> fits(mode)
            &&& message matches Some(NetworkMessageC2S::TrashItem { mode, .. }) ==> fits(mode)
        }),
{
}

/// The items of a slot that is not dragged are drawn in it, of one that the left button drags at the
/// cursor, and of one that the right button drags at both, of which the cursor has as many as the slot
/// or one more.
pub proof fn law_dragged_items(count: u16)
    ensures
        item_draws(count, None, true) == seq![(ItemPlace::Slot, count)],
        item_draws(count, Some(MouseButton::Left), true) == seq![(ItemPlace::Cursor, count)],
        ({
            let draws = item_draws(count, Some(MouseButton::Right), true);
            &&& draws.len() == 2
            &&& draws[0].0 == ItemPlace::Slot
            &&& draws[1].0 == ItemPlace::Cursor
            &&& draws[0].1 + draws[1].1 == count
            &&& 0 <= draws[1].1 - draws[0].1 <= 1
        }),
        item_draws(count, Some(MouseButton::Left), false).len() == 0,
        item_draws(count, Some(MouseButton::Right), false).len() == 0,
{
}

/// A grid shows the entries that pass the filter and no other, in their order, row by row: the cell of the
/// entry that comes as number `a` lies as many rows down as the width fits into `a`, and the rest of the
/// way to the right.
pub proof fn law_grid_shows_entries(
    entries: Seq<Seq<char>>,
    filter: Option<Seq<char>>,
    width: int,
    n: int,
    a: int,
    entry: int,
)
    requires
        0 < width,
        0 <= n <= entries.len() <= usize::MAX,
    ensures
        0 <= a < grid_cells(entries, filter, width, n).len() ==> {
            let cell = grid_cells(entries, filter, width, n)[a];
            &&& cell.entry < n
            &&& passes(filter, entries[cell.entry as int])
            &&& cell.column < width
            &&& width * cell.row + cell.column == a
        },
        0 <= entry < n && passes(filter, entries[entry]) ==> exists|k: int|
            0 <= k < grid_cells(entries, filter, width, n).len() && (#[trigger] grid_cells(
                entries,
                filter,
                width,
                n,
            )[k]).entry == entry,
    decreases n,
{
    if n > 0 {
        let before = grid_cells(entries, filter, width, n - 1);
        let cells = grid_cells(entries, filter, width, n);
        law_grid_shows_entries(entries, filter, width, n - 1, a, entry);
        if 0 <= a < cells.len() {
            lemma_grid_cell(entries, filter, width, n, a);
            vstd::arithmetic::div_mod::lemma_fundamental_div_mod(a, width);
            vstd::arithmetic::div_mod::lemma_mod_bound(a, width);
            if a < before.len() {
                assert(cells[a] == before[a]);
            }
        }
        if 0 <= entry < n && passes(filter, entries[entry]) {
            if entry < n - 1 {
                let k = choose|k: int|
                    0 <= k < before.len() && (#[trigger] before[k]).entry == entry;
                assert(cells[k] == before[k]);
            } else {
                assert(cells[cells.len() - 1].entry == entry);
            }
        }
    }
}

/// A character that is typed comes in at the cursor, which goes behind it; what stood before the cursor
/// and behind it stays. Every printable character of ASCII can be typed, and a space.
pub proof fn law_typing(text: Seq<char>, cursor: int, c: char)
    requires
        0 <= cursor <= text.len(),
    ensures
        33 <= c as u32 <= 126 ==> typed(text, cursor, TextKey::Character(c)) == (
            text.take(cursor) + seq![c] + text.skip(cursor),
            cursor + 1,
        ),
        !(33 <= c as u32 <= 126) ==> typed(text, cursor, TextKey::Character(c)) == (text, cursor),
        typed(text, cursor, TextKey::Space) == (
            text.take(cursor) + seq![' '] + text.skip(cursor),
            cursor + 1,
        ),
        cursor > 0 ==> typed(text, cursor, TextKey::Backspace) == (
            text.take(cursor - 1) + text.skip(cursor),
            cursor - 1,
        ),
        typed(text, 0, TextKey::Backspace) == (text, 0int),
        typed(text, cursor, TextKey::Other) == (text, cursor),
{
    assert(text.insert(cursor, c) =~= text.take(cursor) + seq![c] + text.skip(cursor));
    assert(text.insert(cursor, ' ') =~= text.take(cursor) + seq![' '] + text.skip(cursor));
    if cursor > 0 {
        assert(text.remove(cursor - 1) =~= text.take(cursor - 1) + text.skip(cursor));
    }
}

/// The arrows move the cursor by one, up to the ends of the text, and undo one another.
pub proof fn law_arrows(text: Seq<char>, cursor: int)
    requires
        0 <= cursor <= text.len(),
    ensures
        cursor > 0 ==> typed(text, cursor, TextKey::ArrowLeft) == (text, cursor - 1),
        typed(text, 0, TextKey::ArrowLeft) == (text, 0int),
        cursor < text.len() ==> typed(text, cursor, TextKey::ArrowRight) == (text, cursor + 1),
        typed(text, text.len() as int, TextKey::ArrowRight) == (text, text.len() as int),
{
}

/// A click with the left button sends the first message and one with the right button the second.
pub proof fn law_clicks<F: Copy>(
    buttons: crate::input::InputModel<F>,
    left: NetworkMessageC2S<F>,
    right: NetworkMessageC2S<F>,
)
    ensures
        ({
            let sent = clicked(buttons, left, right);
            let is_left = buttons.just_down.contains(MouseButton::Left.code_spec());
            let is_right = buttons.just_down.contains(MouseButton::Right.code_spec());
            &&& is_left && !is_right ==> sent == seq![left]
            &&& !is_left && is_right ==> sent == seq![right]
            &&& is_left && is_right ==> sent == seq![left, right]
            &&& !is_left && !is_right ==> sent.len() == 0
        }),
{
    assert(seq![left] + seq![right] =~= seq![left, right]);
}

/// The text of a recipe grows by a line for each input, which says how many of what it takes, and by a
/// line for each output.
pub proof fn law_recipe_lines(
    inputs: Seq<(Seq<char>, Seq<char>)>,
    count: Seq<char>,
    name: Seq<char>,
    outputs: Seq<Seq<char>>,
    output: Seq<char>,
)
    ensures
        input_lines(inputs.push((count, name)), inputs.len() as int + 1) == input_lines(
            inputs,
            inputs.len() as int,
        ) + "\n-"@ + count + "x"@ + name,
        output_lines(outputs.push(output), outputs.len() as int + 1) == output_lines(
            outputs,
            outputs.len() as int,
        ) + "\n+"@ + output,
{
    reveal_strlit("\n-");
    reveal_strlit("x");
    reveal_strlit("\n+");
    assert("\n-"@ =~= seq!['\n', '-']);
    assert("x"@ =~= seq!['x']);
    assert("\n+"@ =~= seq!['\n', '+']);
    lemma_input_lines(inputs, inputs.push((count, name)), inputs.len() as int);
    lemma_output_lines(outputs, outputs.push(output), outputs.len() as int);
}

proof fn lemma_input_lines(
    a: Seq<(Seq<char>, Seq<char>)>,
    b: Seq<(Seq<char>, Seq<char>)>,
    n: int,
)
    requires
        0 <= n <= a.len() <= b.len(),
        forall|i: int| 0 <= i < n ==> a[i] == b[i],
    ensures
        input_lines(a, n) == input_lines(b, n),
    decreases n,
{
    if n > 0 {
        lemma_input_lines(a, b, n - 1);
    }
}

proof fn lemma_output_lines(a: Seq<Seq<char>>, b: Seq<Seq<char>>, n: int)
    requires
        0 <= n <= a.len() <= b.len(),
        forall|i: int| 0 <= i < n ==> a[i] == b[i],
    ensures
        output_lines(a, n) == output_lines(b, n),
    decreases n,
{
    if n > 0 {
        lemma_output_lines(a, b, n - 1);
    }
}

/// A filter is passed by the names that hold each of its pieces; without a filter every name passes.
pub proof fn law_filters(piece: Seq<char>, rest: Seq<char>, name: Seq<char>)
    requires
        forall|i: int| 0 <= i < piece.len() ==> #[trigger] piece[i] != ' ',
    ensures
        passes(None, name),
        passes(Some(Seq::empty()), name),
        passes(Some(piece), name) <==> text::contains_spec(name, piece),
        passes(Some(piece + seq![' '] + rest), name) <==> text::contains_spec(name, piece) && passes(
            Some(rest),
            name,
        ),
{
    text::law_split(piece, ' ', rest);
    text::law_split(Seq::empty(), ' ', rest);
    let nothing = Seq::<char>::empty();
    assert(text::split_spec(nothing, ' ') == seq![nothing]);
    assert(name.subrange(0, 0) =~= nothing);
    assert(text::stands_at(name, nothing, 0));
    let one = seq![piece];
    assert(one[0] == piece);
    let others = text::split_spec(rest, ' ');
    let all = one + others;
    assert(all[0] == piece);
    assert(holds_pieces(name, all) ==> holds_pieces(name, others)) by {
        if holds_pieces(name, all) {
            assert forall|i: int| 0 <= i < others.len() implies text::contains_spec(
                name,
                #[trigger] others[i],
            ) by {
                assert(all[i + 1] == others[i]);
            }
        }
    }
    assert(text::contains_spec(name, piece) && holds_pieces(name, others) ==> holds_pieces(name, all)) by {
        if text::contains_spec(name, piece) && holds_pieces(name, others) {
            assert forall|i: int| 0 <= i < all.len() implies text::contains_spec(
                name,
                #[trigger] all[i],
            ) by {
                if i > 0 {
                    assert(all[i] == others[i - 1]);
                }
            }
        }
    }
}

} // verus!
