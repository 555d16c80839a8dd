//! Style rules of the user interface.

use crate::registry::{Key, LoadRegistry, TextureData};
use crate::text::{
    self, find, is_real_text, parse_unsigned_spec, split_once_spec, split_spec, trim_spec,
};
use vstd::prelude::*;

verus! {

#[derive(Copy, Clone, PartialEq, Eq, Structural, Debug)]
pub enum FlexDirection {
    Row,
    RowReverse,
    Column,
    ColumnReverse,
}

#[derive(Copy, Clone, PartialEq, Eq, Structural, Debug)]
pub enum AlignContent {
    Center,
    End,
    FlexEnd,
    FlexStart,
    SpaceAround,
    SpaceBetween,
    SpaceEvenly,
    Start,
    Stretch,
}

#[derive(Copy, Clone, PartialEq, Eq, Structural, Debug)]
pub enum AlignItems {
    Center,
    End,
    FlexEnd,
    FlexStart,
    Start,
    Stretch,
    Baseline,
}

#[derive(Copy, Clone, PartialEq, Eq, Structural, Debug)]
pub enum Position {
    Relative,
    Absolute,
}

#[derive(Copy, Clone, PartialEq, Eq, Structural, Debug)]
pub enum FlexWrap {
    NoWrap,
    Wrap,
    WrapReverse,
}

#[derive(Copy, Clone, PartialEq, Eq, Structural, Debug)]
pub enum Display {
    Block,
    Flex,
    Grid,
    Hidden,
}

/// How a property is compared.
#[derive(Copy, Clone, PartialEq, Eq, Structural, Debug)]
pub enum PropertyComparator {
    Less,
    Equal,
    Greater,
}

/// A number, or what a property holds. `S` is the type of texts; a number stands as it is written.
#[derive(Debug)]
pub enum StyleValue<S> {
    Constant(S),
    Property(S),
}

#[derive(Debug)]
pub enum StyleLength<S> {
    Length(StyleValue<S>),
    Percent(StyleValue<S>),
    Auto,
}

/// What a property is compared to.
#[derive(Debug)]
pub struct PropertyCondition<S> {
    pub property: S,
    pub comparator: PropertyComparator,
    pub value: S,
}

/// A texture that keeps its border when it is stretched.
#[derive(Copy, Clone)]
pub struct StretchTexture {
    pub texture: Key<TextureData>,
    pub border: u32,
}

/// One style rule. `S` is the type of texts and `T` that of stretched textures.
pub enum UIStyleRule<S, T> {
    FlexDirection(FlexDirection),
    AlignItems(AlignItems),
    AlignContent(AlignContent),
    AlignSelf(AlignItems),
    JustifyItems(AlignItems),
    JustifyContent(AlignContent),
    JustifySelf(AlignItems),
    Position(Position),
    InsetLeft(StyleLength<S>),
    InsetRight(StyleLength<S>),
    InsetTop(StyleLength<S>),
    InsetBottom(StyleLength<S>),
    Width(StyleLength<S>),
    Height(StyleLength<S>),
    PaddingLeft(StyleLength<S>),
    PaddingRight(StyleLength<S>),
    PaddingTop(StyleLength<S>),
    PaddingBottom(StyleLength<S>),
    MarginLeft(StyleLength<S>),
    MarginRight(StyleLength<S>),
    MarginTop(StyleLength<S>),
    MarginBottom(StyleLength<S>),
    BorderLeft(StyleLength<S>),
    BorderRight(StyleLength<S>),
    BorderTop(StyleLength<S>),
    BorderBottom(StyleLength<S>),
    FontSize(StyleValue<S>),
    Background(T),
    FlexWrap(FlexWrap),
    GapColumn(StyleLength<S>),
    GapRow(StyleLength<S>),
    Display(Display),
}

/// Why a text is no list of style rules.
#[derive(Debug)]
pub enum StyleError<S> {
    /// A rule, its condition or its value is not written as it must be.
    Malformed,
    UnknownRule(S),
    /// The width of a border is no number.
    BorderNumber,
    TextureNotFound(S),
}

pub type ValueView = StyleValue<Seq<char>>;

pub type LengthView = StyleLength<Seq<char>>;

pub type ConditionView = PropertyCondition<Seq<char>>;

/// A style rule as the contracts speak of it: a texture stands by its place and its border.
pub type RuleView = UIStyleRule<Seq<char>, (int, u32)>;

pub type ErrorView = StyleError<Seq<char>>;

impl View for StyleValue<String> {
    type V = ValueView;

    open spec fn view(&self) -> ValueView {
        match self {
            StyleValue::Constant(s) => StyleValue::Constant(s@),
            StyleValue::Property(s) => StyleValue::Property(s@),
        }
    }
}

impl View for StyleLength<String> {
    type V = LengthView;

    open spec fn view(&self) -> LengthView {
        match self {
            StyleLength::Length(v) => StyleLength::Length(v@),
            StyleLength::Percent(v) => StyleLength::Percent(v@),
            StyleLength::Auto => StyleLength::Auto,
        }
    }
}

impl View for PropertyCondition<String> {
    type V = ConditionView;

    open spec fn view(&self) -> ConditionView {
        PropertyCondition {
            property: self.property@,
            comparator: self.comparator,
            value: self.value@,
        }
    }
}

impl View for StretchTexture {
    type V = (int, u32);

    open spec fn view(&self) -> (int, u32) {
        (self.texture.index(), self.border)
    }
}

impl View for StyleError<String> {
    type V = ErrorView;

    open spec fn view(&self) -> ErrorView {
        match self {
            StyleError::Malformed => StyleError::Malformed,
            StyleError::UnknownRule(s) => StyleError::UnknownRule(s@),
            StyleError::BorderNumber => StyleError::BorderNumber,
            StyleError::TextureNotFound(s) => StyleError::TextureNotFound(s@),
        }
    }
}

impl View for UIStyleRule<String, StretchTexture> {
    type V = RuleView;

    open spec fn view(&self) -> RuleView {
        match self {
            UIStyleRule::FlexDirection(v) => UIStyleRule::FlexDirection(*v),
            UIStyleRule::AlignItems(v) => UIStyleRule::AlignItems(*v),
            UIStyleRule::AlignContent(v) => UIStyleRule::AlignContent(*v),
            UIStyleRule::AlignSelf(v) => UIStyleRule::AlignSelf(*v),
            UIStyleRule::JustifyItems(v) => UIStyleRule::JustifyItems(*v),
            UIStyleRule::JustifyContent(v) => UIStyleRule::JustifyContent(*v),
            UIStyleRule::JustifySelf(v) => UIStyleRule::JustifySelf(*v),
            UIStyleRule::Position(v) => UIStyleRule::Position(*v),
            UIStyleRule::FlexWrap(v) => UIStyleRule::FlexWrap(*v),
            UIStyleRule::Display(v) => UIStyleRule::Display(*v),
            UIStyleRule::InsetLeft(v) => UIStyleRule::InsetLeft(v@),
            UIStyleRule::InsetRight(v) => UIStyleRule::InsetRight(v@),
            UIStyleRule::InsetTop(v) => UIStyleRule::InsetTop(v@),
            UIStyleRule::InsetBottom(v) => UIStyleRule::InsetBottom(v@),
            UIStyleRule::Width(v) => UIStyleRule::Width(v@),
            UIStyleRule::Height(v) => UIStyleRule::Height(v@),
            UIStyleRule::PaddingLeft(v) => UIStyleRule::PaddingLeft(v@),
            UIStyleRule::PaddingRight(v) => UIStyleRule::PaddingRight(v@),
            UIStyleRule::PaddingTop(v) => UIStyleRule::PaddingTop(v@),
            UIStyleRule::PaddingBottom(v) => UIStyleRule::PaddingBottom(v@),
            UIStyleRule::MarginLeft(v) => UIStyleRule::MarginLeft(v@),
            UIStyleRule::MarginRight(v) => UIStyleRule::MarginRight(v@),
            UIStyleRule::MarginTop(v) => UIStyleRule::MarginTop(v@),
            UIStyleRule::MarginBottom(v) => UIStyleRule::MarginBottom(v@),
            UIStyleRule::BorderLeft(v) => UIStyleRule::BorderLeft(v@),
            UIStyleRule::BorderRight(v) => UIStyleRule::BorderRight(v@),
            UIStyleRule::BorderTop(v) => UIStyleRule::BorderTop(v@),
            UIStyleRule::BorderBottom(v) => UIStyleRule::BorderBottom(v@),
            UIStyleRule::GapColumn(v) => UIStyleRule::GapColumn(v@),
            UIStyleRule::GapRow(v) => UIStyleRule::GapRow(v@),
            UIStyleRule::FontSize(v) => UIStyleRule::FontSize(v@),
            UIStyleRule::Background(v) => UIStyleRule::Background(v@),
        }
    }
}

/// What a word means for the rule.
pub open spec fn flex_direction_of(input: Seq<char>) -> Option<FlexDirection> {
    if input == "row"@ {
        Some(FlexDirection::Row)
    } else if input == "row-reverse"@ {
        Some(FlexDirection::RowReverse)
    } else if input == "column"@ {
        Some(FlexDirection::Column)
    } else if input == "column-reverse"@ {
        Some(FlexDirection::ColumnReverse)
    } else {
        None
    }
}

fn parse_flex_direction(input: &str) -> (r: Option<FlexDirection>)
    ensures
        r == flex_direction_of(input@),
{
    if text::equals(input, "row") {
        Some(FlexDirection::Row)
    } else if text::equals(input, "row-reverse") {
        Some(FlexDirection::RowReverse)
    } else if text::equals(input, "column") {
        Some(FlexDirection::Column)
    } else if text::equals(input, "column-reverse") {
        Some(FlexDirection::ColumnReverse)
    } else {
        None
    }
}

/// What a word means for the rule.
pub open spec fn align_content_of(input: Seq<char>) -> Option<AlignContent> {
    if input == "center"@ {
        Some(AlignContent::Center)
    } else if input == "end"@ {
        Some(AlignContent::End)
    } else if input == "flex-end"@ {
        Some(AlignContent::FlexEnd)
    } else if input == "flex-start"@ {
        Some(AlignContent::FlexStart)
    } else if input == "space-around"@ {
        Some(AlignContent::SpaceAround)
    } else if input == "space-between"@ {
        Some(AlignContent::SpaceBetween)
    } else if input == "space-evenly"@ {
        Some(AlignContent::SpaceEvenly)
    } else if input == "start"@ {
        Some(AlignContent::Start)
    } else if input == "stretch"@ {
        Some(AlignContent::Stretch)
    } else {
        None
    }
}

fn parse_align_content(input: &str) -> (r: Option<AlignContent>)
    ensures
        r == align_content_of(input@),
{
    if text::equals(input, "center") {
        Some(AlignContent::Center)
    } else if text::equals(input, "end") {
        Some(AlignContent::End)
    } else if text::equals(input, "flex-end") {
        Some(AlignContent::FlexEnd)
    } else if text::equals(input, "flex-start") {
        Some(AlignContent::FlexStart)
    } else if text::equals(input, "space-around") {
        Some(AlignContent::SpaceAround)
    } else if text::equals(input, "space-between") {
        Some(AlignContent::SpaceBetween)
    } else if text::equals(input, "space-evenly") {
        Some(AlignContent::SpaceEvenly)
    } else if text::equals(input, "start") {
        Some(AlignContent::Start)
    } else if text::equals(input, "stretch") {
        Some(AlignContent::Stretch)
    } else {
        None
    }
}

/// What a word means for the rule.
pub open spec fn align_items_of(input: Seq<char>) -> Option<AlignItems> {
    if input == "center"@ {
        Some(AlignItems::Center)
    } else if input == "end"@ {
        Some(AlignItems::End)
    } else if input == "flex-end"@ {
        Some(AlignItems::FlexEnd)
    } else if input == "flex-start"@ {
        Some(AlignItems::FlexStart)
    } else if input == "start"@ {
        Some(AlignItems::Start)
    } else if input == "stretch"@ {
        Some(AlignItems::Stretch)
    } else if input == "baseline"@ {
        Some(AlignItems::Baseline)
    } else {
        None
    }
}

fn parse_align_items(input: &str) -> (r: Option<AlignItems>)
    ensures
        r == align_items_of(input@),
{
    if text::equals(input, "center") {
        Some(AlignItems::Center)
    } else if text::equals(input, "end") {
        Some(AlignItems::End)
    } else if text::equals(input, "flex-end") {
        Some(AlignItems::FlexEnd)
    } else if text::equals(input, "flex-start") {
        Some(AlignItems::FlexStart)
    } else if text::equals(input, "start") {
        Some(AlignItems::Start)
    } else if text::equals(input, "stretch") {
        Some(AlignItems::Stretch)
    } else if text::equals(input, "baseline") {
        Some(AlignItems::Baseline)
    } else {
        None
    }
}

/// What a word means for the rule.
pub open spec fn position_of(input: Seq<char>) -> Option<Position> {
    if input == "relative"@ {
        Some(Position::Relative)
    } else if input == "absolute"@ {
        Some(Position::Absolute)
    } else {
        None
    }
}

fn parse_position(input: &str) -> (r: Option<Position>)
    ensures
        r == position_of(input@),
{
    if text::equals(input, "relative") {
        Some(Position::Relative)
    } else if text::equals(input, "absolute") {
        Some(Position::Absolute)
    } else {
        None
    }
}

/// What a word means for the rule.
pub open spec fn flex_wrap_of(input: Seq<char>) -> Option<FlexWrap> {
    if input == "no-wrap"@ {
        Some(FlexWrap::NoWrap)
    } else if input == "wrap"@ {
        Some(FlexWrap::Wrap)
    } else if input == "wrap-reverse"@ {
        Some(FlexWrap::WrapReverse)
    } else {
        None
    }
}

fn parse_flex_wrap(input: &str) -> (r: Option<FlexWrap>)
    ensures
        r == flex_wrap_of(input@),
{
    if text::equals(input, "no-wrap") {
        Some(FlexWrap::NoWrap)
    } else if text::equals(input, "wrap") {
        Some(FlexWrap::Wrap)
    } else if text::equals(input, "wrap-reverse") {
        Some(FlexWrap::WrapReverse)
    } else {
        None
    }
}

/// What a word means for the rule.
pub open spec fn display_of(input: Seq<char>) -> Option<Display> {
    if input == "block"@ {
        Some(Display::Block)
    } else if input == "flex"@ {
        Some(Display::Flex)
    } else if input == "grid"@ {
        Some(Display::Grid)
    } else if input == "none"@ {
        Some(Display::Hidden)
    } else {
        None
    }
}

fn parse_display(input: &str) -> (r: Option<Display>)
    ensures
        r == display_of(input@),
{
    if text::equals(input, "block") {
        Some(Display::Block)
    } else if text::equals(input, "flex") {
        Some(Display::Flex)
    } else if text::equals(input, "grid") {
        Some(Display::Grid)
    } else if text::equals(input, "none") {
        Some(Display::Hidden)
    } else {
        None
    }
}

/// The value that a text stands for: a number, or else a property.
pub open spec fn value_of(input: Seq<char>) -> ValueView {
    if is_real_text(input) {
        StyleValue::Constant(input)
    } else {
        StyleValue::Property(input)
    }
}

fn parse_style_value(input: &str) -> (r: StyleValue<String>)
    ensures
        r@ == value_of(input@),
{
    if text::is_real(input) {
        StyleValue::Constant(input.to_owned())
    } else {
        StyleValue::Property(input.to_owned())
    }
}

/// The length that a text stands for.
pub open spec fn length_of(input: Seq<char>) -> LengthView {
    if input == "auto"@ {
        StyleLength::Auto
    } else if input.len() > 0 && input.last() == '%' {
        StyleLength::Percent(value_of(input.drop_last()))
    } else {
        StyleLength::Length(value_of(input))
    }
}

fn parse_style_length(input: &str) -> (r: StyleLength<String>)
    ensures
        r@ == length_of(input@),
{
    if text::equals(input, "auto") {
        StyleLength::Auto
    } else if text::ends_with(input, '%') {
        let number = input.substring_char(0, input.unicode_len() - 1);
        assert(number@ =~= input@.drop_last());
        StyleLength::Percent(parse_style_value(number))
    } else {
        StyleLength::Length(parse_style_value(input))
    }
}

/// The comparison that a text in brackets holds: by the first of `<`, `>` and `=` that is in it.
pub open spec fn comparator_of(input: Seq<char>) -> Option<(PropertyComparator, char)> {
    if input.contains('<') {
        Some((PropertyComparator::Less, '<'))
    } else if input.contains('>') {
        Some((PropertyComparator::Greater, '>'))
    } else if input.contains('=') {
        Some((PropertyComparator::Equal, '='))
    } else {
        None
    }
}

/// The condition that a text stands for. It starts with the opening bracket and stops before the
/// closing one.
pub open spec fn condition_of(input: Seq<char>) -> Option<ConditionView> {
    match comparator_of(input) {
        None => None,
        Some((comparator, sign)) => {
            let (left, right) = split_once_spec(input, sign)->0;
            if is_real_text(right) {
                Some(
                    PropertyCondition {
                        property: trim_spec(left.drop_first()),
                        comparator,
                        value: right,
                    },
                )
            } else {
                None
            }
        },
    }
}

fn contains_char(s: &str, c: char) -> (r: bool)
    ensures
        r == s@.contains(c),
        r == (split_once_spec(s@, c) is Some),
{
    proof {
        text::lemma_find_from(s@, c, 0);
        if s@.contains(c) {
            let i = s@.index_of(c);
            assert(s@[i] == c);
        }
    }
    text::split_once(s, c).is_some()
}

fn parse_condition(input: &str) -> (r: Option<PropertyCondition<String>>)
    requires
        input@.len() > 0,
        input@[0] == '[',
    ensures
        optional_condition(r) == condition_of(input@),
{
    let (comparator, sign) = if contains_char(input, '<') {
        (PropertyComparator::Less, '<')
    } else if contains_char(input, '>') {
        (PropertyComparator::Greater, '>')
    } else if contains_char(input, '=') {
        (PropertyComparator::Equal, '=')
    } else {
        return None;
    };
    let (left, right) = text::split_once(input, sign).unwrap();
    if !text::is_real(right) {
        return None;
    }
    proof {
        text::lemma_find_from(input@, sign, 0);
        assert(find(input@, sign) > 0);
    }
    let name = left.substring_char(1, left.unicode_len());
    assert(name@ =~= left@.drop_first());
    Some(
        PropertyCondition {
            property: text::trim(name).to_owned(),
            comparator,
            value: right.to_owned(),
        },
    )
}

/// The view of a condition, if there is one.
pub open spec fn optional_condition(r: Option<PropertyCondition<String>>) -> Option<ConditionView> {
    match r {
        Some(condition) => Some(condition@),
        None => None,
    }
}

/// The stretched texture that a text stands for: its name, and behind a comma its border.
pub open spec fn stretch_of(text: Seq<char>, textures: Seq<Seq<char>>) -> Result<
    (int, u32),
    ErrorView,
> {
    let (name, border) = match split_once_spec(text, ',') {
        Some((name, border)) => (name, parse_unsigned_spec(border, u32::MAX as int)),
        None => (text, Some(0)),
    };
    match border {
        None => Err(StyleError::BorderNumber),
        Some(border) => if textures.contains(name) {
            Ok((textures.index_of(name), border as u32))
        } else {
            Err(StyleError::TextureNotFound(name))
        },
    }
}

impl StretchTexture {
    /// Reads a stretched texture.
    pub fn parse(text: &str, textures: &LoadRegistry<TextureData>) -> (r: Result<
        StretchTexture,
        StyleError<String>,
    >)
        requires
            textures.wf(),
        ensures
            stretch_of(text@, textures.ids()) == (match r {
                Ok(texture) => Ok::<(int, u32), ErrorView>(texture@),
                Err(e) => Err(e@),
            }),
    {
        let (name, border): (&str, u32) = match text::split_once(text, ',') {
            Some((name, border)) => match text::parse_unsigned(border, u32::MAX as u64) {
                Some(border) => (name, border as u32),
                None => {
                    return Err(StyleError::BorderNumber);
                },
            },
            None => (text, 0),
        };
        match textures.id(name) {
            Some(texture) => {
                proof {
                    textures.law_ids_unique();
                    let i = textures.ids().index_of(name@);
                    assert(textures.ids()[i] == name@);
                }
                Ok(StretchTexture { texture, border })
            },
            None => Err(StyleError::TextureNotFound(name.to_owned())),
        }
    }
}

/// The rule that sets one length.
pub open spec fn length_rule(input: Seq<char>, length: LengthView) -> Option<RuleView> {
    if input == "width"@ {
        Some(UIStyleRule::Width(length))
    } else if input == "height"@ {
        Some(UIStyleRule::Height(length))
    } else if input == "padding-left"@ {
        Some(UIStyleRule::PaddingLeft(length))
    } else if input == "padding-right"@ {
        Some(UIStyleRule::PaddingRight(length))
    } else if input == "padding-top"@ {
        Some(UIStyleRule::PaddingTop(length))
    } else if input == "padding-bottom"@ {
        Some(UIStyleRule::PaddingBottom(length))
    } else if input == "margin-left"@ {
        Some(UIStyleRule::MarginLeft(length))
    } else if input == "margin-right"@ {
        Some(UIStyleRule::MarginRight(length))
    } else if input == "margin-top"@ {
        Some(UIStyleRule::MarginTop(length))
    } else if input == "margin-bottom"@ {
        Some(UIStyleRule::MarginBottom(length))
    } else if input == "inset-left"@ {
        Some(UIStyleRule::InsetLeft(length))
    } else if input == "inset-right"@ {
        Some(UIStyleRule::InsetRight(length))
    } else if input == "inset-top"@ {
        Some(UIStyleRule::InsetTop(length))
    } else if input == "inset-bottom"@ {
        Some(UIStyleRule::InsetBottom(length))
    } else if input == "gap-column"@ {
        Some(UIStyleRule::GapColumn(length))
    } else if input == "gap-row"@ {
        Some(UIStyleRule::GapRow(length))
    } else {
        None
    }
}

fn make_length_rule(input: &str, value: &str) -> (r: Option<UIStyleRule<String, StretchTexture>>)
    ensures
        length_rule(input@, length_of(value@)) == (match r {
            Some(rule) => Some(rule@),
            None => None,
        }),
{
    if text::equals(input, "width") {
        Some(UIStyleRule::Width(parse_style_length(value)))
    } else if text::equals(input, "height") {
        Some(UIStyleRule::Height(parse_style_length(value)))
    } else if text::equals(input, "padding-left") {
        Some(UIStyleRule::PaddingLeft(parse_style_length(value)))
    } else if text::equals(input, "padding-right") {
        Some(UIStyleRule::PaddingRight(parse_style_length(value)))
    } else if text::equals(input, "padding-top") {
        Some(UIStyleRule::PaddingTop(parse_style_length(value)))
    } else if text::equals(input, "padding-bottom") {
        Some(UIStyleRule::PaddingBottom(parse_style_length(value)))
    } else if text::equals(input, "margin-left") {
        Some(UIStyleRule::MarginLeft(parse_style_length(value)))
    } else if text::equals(input, "margin-right") {
        Some(UIStyleRule::MarginRight(parse_style_length(value)))
    } else if text::equals(input, "margin-top") {
        Some(UIStyleRule::MarginTop(parse_style_length(value)))
    } else if text::equals(input, "margin-bottom") {
        Some(UIStyleRule::MarginBottom(parse_style_length(value)))
    } else if text::equals(input, "inset-left") {
        Some(UIStyleRule::InsetLeft(parse_style_length(value)))
    } else if text::equals(input, "inset-right") {
        Some(UIStyleRule::InsetRight(parse_style_length(value)))
    } else if text::equals(input, "inset-top") {
        Some(UIStyleRule::InsetTop(parse_style_length(value)))
    } else if text::equals(input, "inset-bottom") {
        Some(UIStyleRule::InsetBottom(parse_style_length(value)))
    } else if text::equals(input, "gap-column") {
        Some(UIStyleRule::GapColumn(parse_style_length(value)))
    } else if text::equals(input, "gap-row") {
        Some(UIStyleRule::GapRow(parse_style_length(value)))
    } else {
        None
    }
}

/// The rules that set the same length at all four sides.
pub open spec fn side_rules(input: Seq<char>, length: LengthView) -> Option<Seq<RuleView>> {
    if input == "padding"@ {
        Some(
            seq![
                UIStyleRule::PaddingTop(length),
                UIStyleRule::PaddingBottom(length),
                UIStyleRule::PaddingLeft(length),
                UIStyleRule::PaddingRight(length),
            ],
        )
    } else if input == "margin"@ {
        Some(
            seq![
                UIStyleRule::MarginTop(length),
                UIStyleRule::MarginBottom(length),
                UIStyleRule::MarginLeft(length),
                UIStyleRule::MarginRight(length),
            ],
        )
    } else if input == "border"@ {
        Some(
            seq![
                UIStyleRule::BorderTop(length),
                UIStyleRule::BorderBottom(length),
                UIStyleRule::BorderLeft(length),
                UIStyleRule::BorderRight(length),
            ],
        )
    } else if input == "inset"@ {
        Some(
            seq![
                UIStyleRule::InsetTop(length),
                UIStyleRule::InsetBottom(length),
                UIStyleRule::InsetLeft(length),
                UIStyleRule::InsetRight(length),
            ],
        )
    } else {
        None
    }
}

fn make_side_rules(input: &str, value: &str) -> (r: Option<
    Vec<UIStyleRule<String, StretchTexture>>,
>)
    ensures
        side_rules(input@, length_of(value@)) == (match r {
            Some(rules) => Some(rule_views(rules@)),
            None => None,
        }),
{
    let mut rules: Vec<UIStyleRule<String, StretchTexture>> = Vec::new();
    let ghost l = length_of(value@);
    if text::equals(input, "padding") {
        rules.push(UIStyleRule::PaddingTop(parse_style_length(value)));
        rules.push(UIStyleRule::PaddingBottom(parse_style_length(value)));
        rules.push(UIStyleRule::PaddingLeft(parse_style_length(value)));
        rules.push(UIStyleRule::PaddingRight(parse_style_length(value)));
        assert(rule_views(rules@) =~= seq![
            UIStyleRule::PaddingTop(l),
            UIStyleRule::PaddingBottom(l),
            UIStyleRule::PaddingLeft(l),
            UIStyleRule::PaddingRight(l),
        ]);
        Some(rules)
    } else if text::equals(input, "margin") {
        rules.push(UIStyleRule::MarginTop(parse_style_length(value)));
        rules.push(UIStyleRule::MarginBottom(parse_style_length(value)));
        rules.push(UIStyleRule::MarginLeft(parse_style_length(value)));
        rules.push(UIStyleRule::MarginRight(parse_style_length(value)));
        assert(rule_views(rules@) =~= seq![
            UIStyleRule::MarginTop(l),
            UIStyleRule::MarginBottom(l),
            UIStyleRule::MarginLeft(l),
            UIStyleRule::MarginRight(l),
        ]);
        Some(rules)
    } else if text::equals(input, "border") {
        rules.push(UIStyleRule::BorderTop(parse_style_length(value)));
        rules.push(UIStyleRule::BorderBottom(parse_style_length(value)));
        rules.push(UIStyleRule::BorderLeft(parse_style_length(value)));
        rules.push(UIStyleRule::BorderRight(parse_style_length(value)));
        assert(rule_views(rules@) =~= seq![
            UIStyleRule::BorderTop(l),
            UIStyleRule::BorderBottom(l),
            UIStyleRule::BorderLeft(l),
            UIStyleRule::BorderRight(l),
        ]);
        Some(rules)
    } else if text::equals(input, "inset") {
        rules.push(UIStyleRule::InsetTop(parse_style_length(value)));
        rules.push(UIStyleRule::InsetBottom(parse_style_length(value)));
        rules.push(UIStyleRule::InsetLeft(parse_style_length(value)));
        rules.push(UIStyleRule::InsetRight(parse_style_length(value)));
        assert(rule_views(rules@) =~= seq![
            UIStyleRule::InsetTop(l),
            UIStyleRule::InsetBottom(l),
            UIStyleRule::InsetLeft(l),
            UIStyleRule::InsetRight(l),
        ]);
        Some(rules)
    } else {
        None
    }
}

/// The views of a list of rules.
pub open spec fn rule_views(v: Seq<UIStyleRule<String, StretchTexture>>) -> Seq<RuleView> {
    v.map_values(|rule: UIStyleRule<String, StretchTexture>| rule@)
}

/// One rule, if its value could be read.
pub open spec fn one_rule(rule: Option<RuleView>) -> Result<Seq<RuleView>, ErrorView> {
    match rule {
        Some(rule) => Ok(seq![rule]),
        None => Err(StyleError::Malformed),
    }
}

/// The rule that sets one of a few words: `None` for a rule that does not, and inside it for a word
/// that the rule does not know.
pub open spec fn word_rule(input: Seq<char>, value: Seq<char>) -> Option<Option<RuleView>> {
    if input == "flex-direction"@ {
        Some(
            match flex_direction_of(value) {
                Some(v) => Some(UIStyleRule::FlexDirection(v)),
                None => None,
            },
        )
    } else if input == "justify-content"@ {
        Some(
            match align_content_of(value) {
                Some(v) => Some(UIStyleRule::JustifyContent(v)),
                None => None,
            },
        )
    } else if input == "justify-items"@ {
        Some(
            match align_items_of(value) {
                Some(v) => Some(UIStyleRule::JustifyItems(v)),
                None => None,
            },
        )
    } else if input == "justify-self"@ {
        Some(
            match align_items_of(value) {
                Some(v) => Some(UIStyleRule::JustifySelf(v)),
                None => None,
            },
        )
    } else if input == "align-content"@ {
        Some(
            match align_content_of(value) {
                Some(v) => Some(UIStyleRule::AlignContent(v)),
                None => None,
            },
        )
    } else if input == "align-items"@ {
        Some(
            match align_items_of(value) {
                Some(v) => Some(UIStyleRule::AlignItems(v)),
                None => None,
            },
        )
    } else if input == "align-self"@ {
        Some(
            match align_items_of(value) {
                Some(v) => Some(UIStyleRule::AlignSelf(v)),
                None => None,
            },
        )
    } else if input == "position"@ {
        Some(
            match position_of(value) {
                Some(v) => Some(UIStyleRule::Position(v)),
                None => None,
            },
        )
    } else if input == "flex-wrap"@ {
        Some(
            match flex_wrap_of(value) {
                Some(v) => Some(UIStyleRule::FlexWrap(v)),
                None => None,
            },
        )
    } else if input == "display"@ {
        Some(
            match display_of(value) {
                Some(v) => Some(UIStyleRule::Display(v)),
                None => None,
            },
        )
    } else {
        None
    }
}

fn make_word_rule(input: &str, value: &str) -> (r: Option<
    Option<UIStyleRule<String, StretchTexture>>,
>)
    ensures
        word_rule(input@, value@) == (match r {
            Some(Some(rule)) => Some(Some(rule@)),
            Some(None) => Some(None),
            None => None,
        }),
{
    if text::equals(input, "flex-direction") {
        Some(
            match parse_flex_direction(value) {
                Some(v) => Some(UIStyleRule::FlexDirection(v)),
                None => None,
            },
        )
    } else if text::equals(input, "justify-content") {
        Some(
            match parse_align_content(value) {
                Some(v) => Some(UIStyleRule::JustifyContent(v)),
                None => None,
            },
        )
    } else if text::equals(input, "justify-items") {
        Some(
            match parse_align_items(value) {
                Some(v) => Some(UIStyleRule::JustifyItems(v)),
                None => None,
            },
        )
    } else if text::equals(input, "justify-self") {
        Some(
            match parse_align_items(value) {
                Some(v) => Some(UIStyleRule::JustifySelf(v)),
                None => None,
            },
        )
    } else if text::equals(input, "align-content") {
        Some(
            match parse_align_content(value) {
                Some(v) => Some(UIStyleRule::AlignContent(v)),
                None => None,
            },
        )
    } else if text::equals(input, "align-items") {
        Some(
            match parse_align_items(value) {
                Some(v) => Some(UIStyleRule::AlignItems(v)),
                None => None,
            },
        )
    } else if text::equals(input, "align-self") {
        Some(
            match parse_align_items(value) {
                Some(v) => Some(UIStyleRule::AlignSelf(v)),
                None => None,
            },
        )
    } else if text::equals(input, "position") {
        Some(
            match parse_position(value) {
                Some(v) => Some(UIStyleRule::Position(v)),
                None => None,
            },
        )
    } else if text::equals(input, "flex-wrap") {
        Some(
            match parse_flex_wrap(value) {
                Some(v) => Some(UIStyleRule::FlexWrap(v)),
                None => None,
            },
        )
    } else if text::equals(input, "display") {
        Some(
            match parse_display(value) {
                Some(v) => Some(UIStyleRule::Display(v)),
                None => None,
            },
        )
    } else {
        None
    }
}

/// The rules that a name and a value stand for.
pub open spec fn rules_of(
    input: Seq<char>,
    value: Seq<char>,
    textures: Seq<Seq<char>>,
) -> Result<Seq<RuleView>, ErrorView> {
    if let Some(rule) = word_rule(input, value) {
        one_rule(rule)
    } else if input == "size"@ {
        match split_once_spec(value, ' ') {
            Some((width, height)) => Ok(
                seq![
                    UIStyleRule::Width(length_of(width)),
                    UIStyleRule::Height(length_of(height)),
                ],
            ),
            None => Err(StyleError::Malformed),
        }
    } else if let Some(rule) = length_rule(input, length_of(value)) {
        Ok(seq![rule])
    } else if let Some(rules) = side_rules(input, length_of(value)) {
        Ok(rules)
    } else if input == "font-size"@ {
        Ok(seq![UIStyleRule::FontSize(value_of(value))])
    } else if input == "background"@ {
        match stretch_of(value, textures) {
            Ok(texture) => Ok(seq![UIStyleRule::Background(texture)]),
            Err(e) => Err(e),
        }
    } else {
        Err(StyleError::UnknownRule(input))
    }
}

fn make_rules(input: &str, value: &str, textures: &LoadRegistry<TextureData>) -> (r: Result<
    Vec<UIStyleRule<String, StretchTexture>>,
    StyleError<String>,
>)
    requires
        textures.wf(),
    ensures
        rules_of(input@, value@, textures.ids()) == (match r {
            Ok(rules) => Ok::<Seq<RuleView>, ErrorView>(rule_views(rules@)),
            Err(e) => Err(e@),
        }),
{
    let mut rules: Vec<UIStyleRule<String, StretchTexture>> = Vec::new();
    if let Some(rule) = make_word_rule(input, value) {
        match rule {
            Some(rule) => {
                rules.push(rule);
                assert(rule_views(rules@) =~= seq![rule@]);
                Ok(rules)
            },
            None => Err(StyleError::Malformed),
        }
    } else if text::equals(input, "size") {
        match text::split_once(value, ' ') {
            Some((width, height)) => {
                rules.push(UIStyleRule::Width(parse_style_length(width)));
                rules.push(UIStyleRule::Height(parse_style_length(height)));
                assert(rule_views(rules@) =~= seq![
                    UIStyleRule::Width(length_of(width@)),
                    UIStyleRule::Height(length_of(height@)),
                ]);
                Ok(rules)
            },
            None => Err(StyleError::Malformed),
        }
    } else if let Some(rule) = make_length_rule(input, value) {
        rules.push(rule);
        assert(rule_views(rules@) =~= seq![rule@]);
        Ok(rules)
    } else if let Some(rules) = make_side_rules(input, value) {
        Ok(rules)
    } else if text::equals(input, "font-size") {
        rules.push(UIStyleRule::FontSize(parse_style_value(value)));
        assert(rule_views(rules@) =~= seq![UIStyleRule::FontSize(value_of(value@))]);
        Ok(rules)
    } else if text::equals(input, "background") {
        match StretchTexture::parse(value, textures) {
            Ok(texture) => {
                rules.push(UIStyleRule::Background(texture));
                assert(rule_views(rules@) =~= seq![UIStyleRule::Background(texture@)]);
                Ok(rules)
            },
            Err(e) => Err(e),
        }
    } else {
        Err(StyleError::UnknownRule(input.to_owned()))
    }
}

/// A rule with the condition under which it holds.
pub type ConditionalView = (RuleView, Option<ConditionView>);

/// A list of rules, each under the same condition.
pub open spec fn under(rules: Seq<RuleView>, condition: Option<ConditionView>) -> Seq<
    ConditionalView,
> {
    rules.map_values(|rule: RuleView| (rule, condition))
}

/// The rules that one statement stands for.
pub open spec fn statement_of(statement: Seq<char>, textures: Seq<Seq<char>>) -> Result<
    Seq<ConditionalView>,
    ErrorView,
> {
    match split_once_spec(statement, ':') {
        None => Err(StyleError::Malformed),
        Some((name, value)) => {
            let name = trim_spec(name);
            if name.len() > 0 && name[0] == '[' {
                match split_once_spec(name, ']') {
                    None => Err(StyleError::Malformed),
                    Some((condition, name)) => match condition_of(condition) {
                        None => Err(StyleError::Malformed),
                        Some(condition) => match rules_of(
                            trim_spec(name),
                            trim_spec(value),
                            textures,
                        ) {
                            Ok(rules) => Ok(under(rules, Some(condition))),
                            Err(e) => Err(e),
                        },
                    },
                }
            } else {
                match rules_of(name, trim_spec(value), textures) {
                    Ok(rules) => Ok(under(rules, None)),
                    Err(e) => Err(e),
                }
            }
        },
    }
}

/// The rules that the statements from `i` on stand for, behind those that are done.
pub open spec fn statements_from(
    statements: Seq<Seq<char>>,
    i: int,
    done: Seq<ConditionalView>,
    textures: Seq<Seq<char>>,
) -> Result<Seq<ConditionalView>, ErrorView>
    decreases statements.len() - i,
{
    if i >= statements.len() {
        Ok(done)
    } else {
        let statement = trim_spec(statements[i]);
        if statement.len() == 0 {
            statements_from(statements, i + 1, done, textures)
        } else {
            match statement_of(statement, textures) {
                Ok(rules) => statements_from(statements, i + 1, done + rules, textures),
                Err(e) => Err(e),
            }
        }
    }
}

/// The list of rules that a text stands for: statements with semicolons between them.
pub open spec fn style_of(input: Seq<char>, textures: Seq<Seq<char>>) -> Result<
    Seq<ConditionalView>,
    ErrorView,
> {
    statements_from(split_spec(input, ';'), 0, Seq::empty(), textures)
}

pub type ConditionalRule = (
    UIStyleRule<String, StretchTexture>,
    Option<PropertyCondition<String>>,
);

/// The views of a list of rules with conditions.
pub open spec fn conditional_views(v: Seq<ConditionalRule>) -> Seq<ConditionalView> {
    v.map_values(|rule: ConditionalRule| (rule.0@, optional_condition(rule.1)))
}

/// A list of style rules.
pub struct UIStyleList {
    pub rules: Vec<ConditionalRule>,
    pub properties: Vec<String>,
}

/// What reading a list of rules came to.
pub open spec fn style_result(r: Result<UIStyleList, StyleError<String>>) -> Result<
    Seq<ConditionalView>,
    ErrorView,
> {
    match r {
        Ok(list) => Ok(conditional_views(list.rules@)),
        Err(e) => Err(e@),
    }
}

fn copy_condition(condition: &Option<PropertyCondition<String>>) -> (r: Option<
    PropertyCondition<String>,
>)
    ensures
        optional_condition(r) == optional_condition(*condition),
{
    match condition {
        Some(condition) => Some(
            PropertyCondition {
                property: condition.property.clone(),
                comparator: condition.comparator,
                value: condition.value.clone(),
            },
        ),
        None => None,
    }
}

/// Adds rules to a list, each under the same condition.
fn push_under(
    list: &mut Vec<ConditionalRule>,
    rules: Vec<UIStyleRule<String, StretchTexture>>,
    condition: &Option<PropertyCondition<String>>,
)
    ensures
        conditional_views(final(list)@) == conditional_views(old(list)@) + under(
            rule_views(rules@),
            optional_condition(*condition),
        ),
{
    let ghost start = conditional_views(list@);
    let ghost all = under(rule_views(rules@), optional_condition(*condition));
    let ghost given = rules@;
    let mut rules = rules;
    let mut reversed: Vec<UIStyleRule<String, StretchTexture>> = Vec::new();
    while rules.len() > 0
        invariant
            rules@ + reversed@.reverse() =~= given,
        decreases rules@.len(),
    {
        let ghost before = rules@;
        let ghost reversed_before = reversed@;
        if let Some(rule) = rules.pop() {
            reversed.push(rule);
            proof {
                assert(before =~= rules@.push(rule));
                assert(reversed@.reverse() =~= seq![rule] + reversed_before.reverse());
            }
        }
    }
    assert(reversed@.reverse() =~= given);
    let ghost total = reversed@;
    assert(start + all.take(0) =~= start);
    while reversed.len() > 0
        invariant
            total.reverse() =~= given,
            reversed@ =~= total.take(reversed@.len() as int),
            reversed@.len() <= total.len(),
            all == under(rule_views(given), optional_condition(*condition)),
            conditional_views(list@) == start + all.take(total.len() - reversed@.len()),
        decreases reversed@.len(),
    {
        let ghost n = reversed@.len();
        let ghost list_before = list@;
        if let Some(rule) = reversed.pop() {
            list.push((rule, copy_condition(condition)));
            proof {
                let at = total.len() - n;
                assert(rule == total[n - 1]);
                assert(total.reverse()[at] == total[n - 1]);
                assert(given[at] == rule);
                assert(all[at] == (rule@, optional_condition(*condition)));
                assert(conditional_views(list@) =~= conditional_views(list_before).push(all[at]));
                assert(start + all.take(at + 1) =~= (start + all.take(at)).push(all[at]));
            }
        }
    }
    assert(all.take(all.len() as int) =~= all);
}

impl UIStyleList {
    /// Reads a list of style rules, whatever is written.
    pub fn try_parse(input: &str, textures: &LoadRegistry<TextureData>) -> (r: Result<
        UIStyleList,
        StyleError<String>,
    >)
        requires
            textures.wf(),
        ensures
            style_result(r) == style_of(input@, textures.ids()),
            r matches Ok(list) ==> list.properties@ == Seq::<String>::empty(),
    {
        let statements = text::split(input, ';');
        let ghost all = split_spec(input@, ';');
        let ghost ids = textures.ids();
        let mut rules: Vec<ConditionalRule> = Vec::new();
        let mut i: usize = 0;
        assert(conditional_views(rules@) =~= Seq::empty());
        while i < statements.len()
            invariant
                i <= statements@.len(),
                textures.wf(),
                ids == textures.ids(),
                text::views(statements@) == all,
                style_of(input@, ids) == statements_from(
                    all,
                    i as int,
                    conditional_views(rules@),
                    ids,
                ),
            decreases statements@.len() - i,
        {
            assert(all[i as int] == statements@[i as int]@);
            let statement = text::trim(statements[i]);
            if !statement.is_empty() {
                let (name, value) = match text::split_once(statement, ':') {
                    Some(pair) => pair,
                    None => {
                        return Err(StyleError::Malformed);
                    },
                };
                let mut name = text::trim(name);
                let mut condition: Option<PropertyCondition<String>> = None;
                if !name.is_empty() && name.get_char(0) == '[' {
                    let (inside, behind) = match text::split_once(name, ']') {
                        Some(pair) => pair,
                        None => {
                            return Err(StyleError::Malformed);
                        },
                    };
                    proof {
                        text::lemma_find_from(name@, ']', 0);
                        assert(find(name@, ']') > 0);
                        assert(inside@[0] == name@[0]);
                    }
                    condition = match parse_condition(inside) {
                        Some(condition) => Some(condition),
                        None => {
                            return Err(StyleError::Malformed);
                        },
                    };
                    name = text::trim(behind);
                }
                match make_rules(name, text::trim(value), textures) {
                    Ok(made) => push_under(&mut rules, made, &condition),
                    Err(e) => {
                        return Err(e);
                    },
                }
            }
            i += 1;
        }
        Ok(UIStyleList { rules, properties: Vec::new() })
    }

    /// Reads a list of style rules that is well written.
    pub fn parse(input: &str, textures: &LoadRegistry<TextureData>) -> (r: Result<
        UIStyleList,
        StyleError<String>,
    >)
        requires
            textures.wf(),
            !(style_of(input@, textures.ids()) matches Err(StyleError::Malformed)),
        ensures
            style_result(r) == style_of(input@, textures.ids()),
            r matches Ok(list) ==> list.properties@ == Seq::<String>::empty(),
    {
        UIStyleList::try_parse(input, textures)
    }
}

impl Default for UIStyleList {
    fn default() -> (r: UIStyleList)
        ensures
            r.rules@ == Seq::<ConditionalRule>::empty(),
            r.properties@ == Seq::<String>::empty(),
    {
        UIStyleList { rules: Vec::new(), properties: Vec::new() }
    }
}

/// Two lists of statements with a semicolon between them, the first one well written, stand for the
/// rules of the first and then those of the second.
pub proof fn law_statements_append(
    a: Seq<Seq<char>>,
    b: Seq<Seq<char>>,
    i: int,
    done: Seq<ConditionalView>,
    textures: Seq<Seq<char>>,
)
    requires
        0 <= i <= a.len(),
        statements_from(a, i, done, textures) is Ok,
    ensures
        statements_from(a + b, i, done, textures) == statements_from(
            a + b,
            a.len() as int,
            statements_from(a, i, done, textures)->Ok_0,
            textures,
        ),
    decreases a.len() - i,
{
    if i < a.len() {
        assert((a + b)[i] == a[i]);
        let statement = trim_spec(a[i]);
        if statement.len() == 0 {
            law_statements_append(a, b, i + 1, done, textures);
        } else {
            let rules = statement_of(statement, textures)->Ok_0;
            law_statements_append(a, b, i + 1, done + rules, textures);
        }
    }
}

/// What tells the names of rules apart: their length, their first two characters and their last one.
spec fn ends_of(s: Seq<char>) -> (nat, char, char, char) {
    (s.len(), s[0], s[1], s.last())
}

/// The names of the rules differ.
proof fn lemma_rule_names()
    ensures
        ends_of("flex-direction"@) == (14nat, 'f', 'l', 'n'),
        ends_of("justify-content"@) == (15nat, 'j', 'u', 't'),
        ends_of("justify-items"@) == (13nat, 'j', 'u', 's'),
        ends_of("justify-self"@) == (12nat, 'j', 'u', 'f'),
        ends_of("align-content"@) == (13nat, 'a', 'l', 't'),
        ends_of("align-items"@) == (11nat, 'a', 'l', 's'),
        ends_of("align-self"@) == (10nat, 'a', 'l', 'f'),
        ends_of("position"@) == (8nat, 'p', 'o', 'n'),
        ends_of("flex-wrap"@) == (9nat, 'f', 'l', 'p'),
        ends_of("display"@) == (7nat, 'd', 'i', 'y'),
        ends_of("size"@) == (4nat, 's', 'i', 'e'),
        ends_of("width"@) == (5nat, 'w', 'i', 'h'),
        ends_of("height"@) == (6nat, 'h', 'e', 't'),
        ends_of("padding-left"@) == (12nat, 'p', 'a', 't'),
        ends_of("padding-right"@) == (13nat, 'p', 'a', 't'),
        ends_of("padding-top"@) == (11nat, 'p', 'a', 'p'),
        ends_of("padding-bottom"@) == (14nat, 'p', 'a', 'm'),
        ends_of("margin-left"@) == (11nat, 'm', 'a', 't'),
        ends_of("margin-right"@) == (12nat, 'm', 'a', 't'),
        ends_of("margin-top"@) == (10nat, 'm', 'a', 'p'),
        ends_of("margin-bottom"@) == (13nat, 'm', 'a', 'm'),
        ends_of("inset-left"@) == (10nat, 'i', 'n', 't'),
        ends_of("inset-right"@) == (11nat, 'i', 'n', 't'),
        ends_of("inset-top"@) == (9nat, 'i', 'n', 'p'),
        ends_of("inset-bottom"@) == (12nat, 'i', 'n', 'm'),
        ends_of("gap-column"@) == (10nat, 'g', 'a', 'n'),
        ends_of("gap-row"@) == (7nat, 'g', 'a', 'w'),
        ends_of("padding"@) == (7nat, 'p', 'a', 'g'),
        ends_of("margin"@) == (6nat, 'm', 'a', 'n'),
        ends_of("border"@) == (6nat, 'b', 'o', 'r'),
        ends_of("inset"@) == (5nat, 'i', 'n', 't'),
        ends_of("font-size"@) == (9nat, 'f', 'o', 'e'),
        ends_of("background"@) == (10nat, 'b', 'a', 'd'),
{
    reveal_strlit("flex-direction");
    reveal_strlit("justify-content");
    reveal_strlit("justify-items");
    reveal_strlit("justify-self");
    reveal_strlit("align-content");
    reveal_strlit("align-items");
    reveal_strlit("align-self");
    reveal_strlit("position");
    reveal_strlit("flex-wrap");
    reveal_strlit("display");
    reveal_strlit("size");
    reveal_strlit("width");
    reveal_strlit("height");
    reveal_strlit("padding-left");
    reveal_strlit("padding-right");
    reveal_strlit("padding-top");
    reveal_strlit("padding-bottom");
    reveal_strlit("margin-left");
    reveal_strlit("margin-right");
    reveal_strlit("margin-top");
    reveal_strlit("margin-bottom");
    reveal_strlit("inset-left");
    reveal_strlit("inset-right");
    reveal_strlit("inset-top");
    reveal_strlit("inset-bottom");
    reveal_strlit("gap-column");
    reveal_strlit("gap-row");
    reveal_strlit("padding");
    reveal_strlit("margin");
    reveal_strlit("border");
    reveal_strlit("inset");
    reveal_strlit("font-size");
    reveal_strlit("background");
}

/// The words that rules are set to differ.
proof fn lemma_word_names()
    ensures
        ends_of("row"@) == (3nat, 'r', 'o', 'w'),
        ends_of("row-reverse"@) == (11nat, 'r', 'o', 'e'),
        ends_of("column"@) == (6nat, 'c', 'o', 'n'),
        ends_of("column-reverse"@) == (14nat, 'c', 'o', 'e'),
        ends_of("center"@) == (6nat, 'c', 'e', 'r'),
        ends_of("end"@) == (3nat, 'e', 'n', 'd'),
        ends_of("flex-end"@) == (8nat, 'f', 'l', 'd'),
        ends_of("flex-start"@) == (10nat, 'f', 'l', 't'),
        ends_of("space-around"@) == (12nat, 's', 'p', 'd'),
        ends_of("space-between"@) == (13nat, 's', 'p', 'n'),
        ends_of("space-evenly"@) == (12nat, 's', 'p', 'y'),
        ends_of("start"@) == (5nat, 's', 't', 't'),
        ends_of("stretch"@) == (7nat, 's', 't', 'h'),
        ends_of("baseline"@) == (8nat, 'b', 'a', 'e'),
        ends_of("relative"@) == (8nat, 'r', 'e', 'e'),
        ends_of("absolute"@) == (8nat, 'a', 'b', 'e'),
        ends_of("no-wrap"@) == (7nat, 'n', 'o', 'p'),
        ends_of("wrap"@) == (4nat, 'w', 'r', 'p'),
        ends_of("wrap-reverse"@) == (12nat, 'w', 'r', 'e'),
        ends_of("block"@) == (5nat, 'b', 'l', 'k'),
        ends_of("flex"@) == (4nat, 'f', 'l', 'x'),
        ends_of("grid"@) == (4nat, 'g', 'r', 'd'),
        ends_of("none"@) == (4nat, 'n', 'o', 'e'),
{
    reveal_strlit("row");
    reveal_strlit("row-reverse");
    reveal_strlit("column");
    reveal_strlit("column-reverse");
    reveal_strlit("center");
    reveal_strlit("end");
    reveal_strlit("flex-end");
    reveal_strlit("flex-start");
    reveal_strlit("space-around");
    reveal_strlit("space-between");
    reveal_strlit("space-evenly");
    reveal_strlit("start");
    reveal_strlit("stretch");
    reveal_strlit("baseline");
    reveal_strlit("relative");
    reveal_strlit("absolute");
    reveal_strlit("no-wrap");
    reveal_strlit("wrap");
    reveal_strlit("wrap-reverse");
    reveal_strlit("block");
    reveal_strlit("flex");
    reveal_strlit("grid");
    reveal_strlit("none");
}

/// The rules that set a length by its name set that length.
#[verifier::spinoff_prover]
#[verifier::rlimit(60)]
pub proof fn law_length_rules(value: Seq<char>, textures: Seq<Seq<char>>)
    ensures
        rules_of("width"@, value, textures) == Ok::<Seq<RuleView>, ErrorView>(
            seq![UIStyleRule::Width(length_of(value))],
        ),
        rules_of("height"@, value, textures) == Ok::<Seq<RuleView>, ErrorView>(
            seq![UIStyleRule::Height(length_of(value))],
        ),
        rules_of("padding-left"@, value, textures) == Ok::<Seq<RuleView>, ErrorView>(
            seq![UIStyleRule::PaddingLeft(length_of(value))],
        ),
        rules_of("padding-right"@, value, textures) == Ok::<Seq<RuleView>, ErrorView>(
            seq![UIStyleRule::PaddingRight(length_of(value))],
        ),
        rules_of("padding-top"@, value, textures) == Ok::<Seq<RuleView>, ErrorView>(
            seq![UIStyleRule::PaddingTop(length_of(value))],
        ),
        rules_of("padding-bottom"@, value, textures) == Ok::<Seq<RuleView>, ErrorView>(
            seq![UIStyleRule::PaddingBottom(length_of(value))],
        ),
        rules_of("margin-left"@, value, textures) == Ok::<Seq<RuleView>, ErrorView>(
            seq![UIStyleRule::MarginLeft(length_of(value))],
        ),
        rules_of("margin-right"@, value, textures) == Ok::<Seq<RuleView>, ErrorView>(
            seq![UIStyleRule::MarginRight(length_of(value))],
        ),
        rules_of("margin-top"@, value, textures) == Ok::<Seq<RuleView>, ErrorView>(
            seq![UIStyleRule::MarginTop(length_of(value))],
        ),
        rules_of("margin-bottom"@, value, textures) == Ok::<Seq<RuleView>, ErrorView>(
            seq![UIStyleRule::MarginBottom(length_of(value))],
        ),
        rules_of("inset-left"@, value, textures) == Ok::<Seq<RuleView>, ErrorView>(
            seq![UIStyleRule::InsetLeft(length_of(value))],
        ),
        rules_of("inset-right"@, value, textures) == Ok::<Seq<RuleView>, ErrorView>(
            seq![UIStyleRule::InsetRight(length_of(value))],
        ),
        rules_of("inset-top"@, value, textures) == Ok::<Seq<RuleView>, ErrorView>(
            seq![UIStyleRule::InsetTop(length_of(value))],
        ),
        rules_of("inset-bottom"@, value, textures) == Ok::<Seq<RuleView>, ErrorView>(
            seq![UIStyleRule::InsetBottom(length_of(value))],
        ),
        rules_of("gap-column"@, value, textures) == Ok::<Seq<RuleView>, ErrorView>(
            seq![UIStyleRule::GapColumn(length_of(value))],
        ),
        rules_of("gap-row"@, value, textures) == Ok::<Seq<RuleView>, ErrorView>(
            seq![UIStyleRule::GapRow(length_of(value))],
        ),
{
    lemma_rule_names();
}

/// The rules that set all four sides set each of them to the same length.
#[verifier::spinoff_prover]
#[verifier::rlimit(60)]
pub proof fn law_side_rules(value: Seq<char>, textures: Seq<Seq<char>>)
    ensures
        rules_of("padding"@, value, textures) matches Ok(rules) && rules.len() == 4 && rules.contains(
            UIStyleRule::PaddingLeft(length_of(value)),
        ) && rules.contains(UIStyleRule::PaddingRight(length_of(value))) && rules.contains(
            UIStyleRule::PaddingTop(length_of(value)),
        ) && rules.contains(UIStyleRule::PaddingBottom(length_of(value))),
        rules_of("margin"@, value, textures) matches Ok(rules) && rules.len() == 4 && rules.contains(
            UIStyleRule::MarginLeft(length_of(value)),
        ) && rules.contains(UIStyleRule::MarginRight(length_of(value))) && rules.contains(
            UIStyleRule::MarginTop(length_of(value)),
        ) && rules.contains(UIStyleRule::MarginBottom(length_of(value))),
        rules_of("border"@, value, textures) matches Ok(rules) && rules.len() == 4 && rules.contains(
            UIStyleRule::BorderLeft(length_of(value)),
        ) && rules.contains(UIStyleRule::BorderRight(length_of(value))) && rules.contains(
            UIStyleRule::BorderTop(length_of(value)),
        ) && rules.contains(UIStyleRule::BorderBottom(length_of(value))),
        rules_of("inset"@, value, textures) matches Ok(rules) && rules.len() == 4 && rules.contains(
            UIStyleRule::InsetLeft(length_of(value)),
        ) && rules.contains(UIStyleRule::InsetRight(length_of(value))) && rules.contains(
            UIStyleRule::InsetTop(length_of(value)),
        ) && rules.contains(UIStyleRule::InsetBottom(length_of(value))),
{
    lemma_rule_names();
    let padding = side_rules("padding"@, length_of(value))->0;
    assert(rules_of("padding"@, value, textures) == Ok::<Seq<RuleView>, ErrorView>(padding));
    assert(padding.contains(padding[0]) && padding.contains(padding[1]) && padding.contains(padding[2])
        && padding.contains(padding[3]));
    let margin = side_rules("margin"@, length_of(value))->0;
    assert(rules_of("margin"@, value, textures) == Ok::<Seq<RuleView>, ErrorView>(margin));
    assert(margin.contains(margin[0]) && margin.contains(margin[1]) && margin.contains(margin[2])
        && margin.contains(margin[3]));
    let border = side_rules("border"@, length_of(value))->0;
    assert(rules_of("border"@, value, textures) == Ok::<Seq<RuleView>, ErrorView>(border));
    assert(border.contains(border[0]) && border.contains(border[1]) && border.contains(border[2])
        && border.contains(border[3]));
    let inset = side_rules("inset"@, length_of(value))->0;
    assert(rules_of("inset"@, value, textures) == Ok::<Seq<RuleView>, ErrorView>(inset));
    assert(inset.contains(inset[0]) && inset.contains(inset[1]) && inset.contains(inset[2])
        && inset.contains(inset[3]));
}

/// The rules that set one of a few words set what they are named after, and refuse any other word.
#[verifier::spinoff_prover]
#[verifier::rlimit(60)]
pub proof fn law_word_rules(value: Seq<char>, textures: Seq<Seq<char>>)
    ensures
        match flex_direction_of(value) {
            Some(v) => rules_of("flex-direction"@, value, textures) == Ok::<Seq<RuleView>, ErrorView>(
                seq![UIStyleRule::FlexDirection(v)],
            ),
            None => rules_of("flex-direction"@, value, textures) == Err::<Seq<RuleView>, ErrorView>(
                StyleError::Malformed,
            ),
        },
        match align_content_of(value) {
            Some(v) => rules_of("justify-content"@, value, textures) == Ok::<Seq<RuleView>, ErrorView>(
                seq![UIStyleRule::JustifyContent(v)],
            ),
            None => rules_of("justify-content"@, value, textures) == Err::<Seq<RuleView>, ErrorView>(
                StyleError::Malformed,
            ),
        },
        match align_items_of(value) {
            Some(v) => rules_of("justify-items"@, value, textures) == Ok::<Seq<RuleView>, ErrorView>(
                seq![UIStyleRule::JustifyItems(v)],
            ),
            None => rules_of("justify-items"@, value, textures) == Err::<Seq<RuleView>, ErrorView>(
                StyleError::Malformed,
            ),
        },
        match align_items_of(value) {
            Some(v) => rules_of("justify-self"@, value, textures) == Ok::<Seq<RuleView>, ErrorView>(
                seq![UIStyleRule::JustifySelf(v)],
            ),
            None => rules_of("justify-self"@, value, textures) == Err::<Seq<RuleView>, ErrorView>(
                StyleError::Malformed,
            ),
        },
        match align_content_of(value) {
            Some(v) => rules_of("align-content"@, value, textures) == Ok::<Seq<RuleView>, ErrorView>(
                seq![UIStyleRule::AlignContent(v)],
            ),
            None => rules_of("align-content"@, value, textures) == Err::<Seq<RuleView>, ErrorView>(
                StyleError::Malformed,
            ),
        },
        match align_items_of(value) {
            Some(v) => rules_of("align-items"@, value, textures) == Ok::<Seq<RuleView>, ErrorView>(
                seq![UIStyleRule::AlignItems(v)],
            ),
            None => rules_of("align-items"@, value, textures) == Err::<Seq<RuleView>, ErrorView>(
                StyleError::Malformed,
            ),
        },
        match align_items_of(value) {
            Some(v) => rules_of("align-self"@, value, textures) == Ok::<Seq<RuleView>, ErrorView>(
                seq![UIStyleRule::AlignSelf(v)],
            ),
            None => rules_of("align-self"@, value, textures) == Err::<Seq<RuleView>, ErrorView>(
                StyleError::Malformed,
            ),
        },
        match position_of(value) {
            Some(v) => rules_of("position"@, value, textures) == Ok::<Seq<RuleView>, ErrorView>(
                seq![UIStyleRule::Position(v)],
            ),
            None => rules_of("position"@, value, textures) == Err::<Seq<RuleView>, ErrorView>(
                StyleError::Malformed,
            ),
        },
        match flex_wrap_of(value) {
            Some(v) => rules_of("flex-wrap"@, value, textures) == Ok::<Seq<RuleView>, ErrorView>(
                seq![UIStyleRule::FlexWrap(v)],
            ),
            None => rules_of("flex-wrap"@, value, textures) == Err::<Seq<RuleView>, ErrorView>(
                StyleError::Malformed,
            ),
        },
        match display_of(value) {
            Some(v) => rules_of("display"@, value, textures) == Ok::<Seq<RuleView>, ErrorView>(
                seq![UIStyleRule::Display(v)],
            ),
            None => rules_of("display"@, value, textures) == Err::<Seq<RuleView>, ErrorView>(
                StyleError::Malformed,
            ),
        },
{
    lemma_rule_names();
}

/// The size sets width and height, with a space between them; the size of the font and the background
/// are set by their names.
#[verifier::spinoff_prover]
#[verifier::rlimit(60)]
pub proof fn law_other_rules(
    width: Seq<char>,
    height: Seq<char>,
    value: Seq<char>,
    textures: Seq<Seq<char>>,
)
    requires
        forall|i: int| 0 <= i < width.len() ==> #[trigger] width[i] != ' ',
    ensures
        rules_of("size"@, width + seq![' '] + height, textures) == Ok::<Seq<RuleView>, ErrorView>(
            seq![UIStyleRule::Width(length_of(width)), UIStyleRule::Height(length_of(height))],
        ),
        rules_of("font-size"@, value, textures) == Ok::<Seq<RuleView>, ErrorView>(
            seq![UIStyleRule::FontSize(value_of(value))],
        ),
        stretch_of(value, textures) matches Ok(texture) ==> rules_of("background"@, value, textures)
            == Ok::<Seq<RuleView>, ErrorView>(seq![UIStyleRule::Background(texture)]),
        stretch_of(value, textures) matches Err(e) ==> rules_of("background"@, value, textures)
            == Err::<Seq<RuleView>, ErrorView>(e),
{
    lemma_rule_names();
    text::law_split_once(width, ' ', height);
}

/// Each word means what it is named after; `none` hides.
#[verifier::spinoff_prover]
#[verifier::rlimit(60)]
pub proof fn law_words()
    ensures
        flex_direction_of("row"@) == Some(FlexDirection::Row),
        flex_direction_of("row-reverse"@) == Some(FlexDirection::RowReverse),
        flex_direction_of("column"@) == Some(FlexDirection::Column),
        flex_direction_of("column-reverse"@) == Some(FlexDirection::ColumnReverse),
        align_content_of("center"@) == Some(AlignContent::Center),
        align_content_of("end"@) == Some(AlignContent::End),
        align_content_of("flex-end"@) == Some(AlignContent::FlexEnd),
        align_content_of("flex-start"@) == Some(AlignContent::FlexStart),
        align_content_of("space-around"@) == Some(AlignContent::SpaceAround),
        align_content_of("space-between"@) == Some(AlignContent::SpaceBetween),
        align_content_of("space-evenly"@) == Some(AlignContent::SpaceEvenly),
        align_content_of("start"@) == Some(AlignContent::Start),
        align_content_of("stretch"@) == Some(AlignContent::Stretch),
        align_items_of("center"@) == Some(AlignItems::Center),
        align_items_of("end"@) == Some(AlignItems::End),
        align_items_of("flex-end"@) == Some(AlignItems::FlexEnd),
        align_items_of("flex-start"@) == Some(AlignItems::FlexStart),
        align_items_of("start"@) == Some(AlignItems::Start),
        align_items_of("stretch"@) == Some(AlignItems::Stretch),
        align_items_of("baseline"@) == Some(AlignItems::Baseline),
        position_of("relative"@) == Some(Position::Relative),
        position_of("absolute"@) == Some(Position::Absolute),
        flex_wrap_of("no-wrap"@) == Some(FlexWrap::NoWrap),
        flex_wrap_of("wrap"@) == Some(FlexWrap::Wrap),
        flex_wrap_of("wrap-reverse"@) == Some(FlexWrap::WrapReverse),
        display_of("block"@) == Some(Display::Block),
        display_of("flex"@) == Some(Display::Flex),
        display_of("grid"@) == Some(Display::Grid),
        display_of("none"@) == Some(Display::Hidden),
{
    lemma_word_names();
}

/// A length is `auto`, a percentage where it ends in a percent sign, or else a plain length. What it
/// amounts to is a number where it reads as one, and a property of that name where it does not.
pub proof fn law_lengths(input: Seq<char>)
    ensures
        length_of("auto"@) == StyleLength::<Seq<char>>::Auto,
        length_of(input.push('%')) == StyleLength::Percent(value_of(input)),
        input != "auto"@ && (input.len() == 0 || input.last() != '%') ==> length_of(input)
            == StyleLength::Length(value_of(input)),
        is_real_text(input) ==> value_of(input) == StyleValue::Constant(input),
        !is_real_text(input) ==> value_of(input) == StyleValue::Property(input),
{
    reveal_strlit("auto");
    assert(input.push('%').drop_last() =~= input);
    assert(input.push('%').last() == '%');
    assert("auto"@.last() == 'o');
}

/// A condition compares the property before its sign with the number behind it.
pub proof fn law_conditions(property: Seq<char>, sign: char, value: Seq<char>)
    requires
        sign == '<' || sign == '>' || sign == '=',
        forall|i: int|
            0 <= i < property.len() ==> #[trigger] property[i] != '<' && property[i] != '>'
                && property[i] != '=',
        forall|i: int|
            0 <= i < value.len() ==> #[trigger] value[i] != '<' && value[i] != '>' && value[i]
                != '=',
    ensures
        condition_of(seq!['['] + property + seq![sign] + value) is Some <==> is_real_text(value),
        condition_of(seq!['['] + property + seq![sign] + value) matches Some(condition) ==> {
            &&& condition.property == trim_spec(property)
            &&& condition.value == value
            &&& sign == '<' <==> condition.comparator == PropertyComparator::Less
            &&& sign == '>' <==> condition.comparator == PropertyComparator::Greater
            &&& sign == '=' <==> condition.comparator == PropertyComparator::Equal
        },
{
    let left = seq!['['] + property;
    let input = seq!['['] + property + seq![sign] + value;
    assert(input =~= left + seq![sign] + value);
    assert(input[left.len() as int] == sign);
    assert(input.contains(sign));
    assert forall|c: char| (c == '<' || c == '>' || c == '=') && c != sign implies !#[trigger] input.contains(
        c,
    ) by {
        assert forall|i: int| 0 <= i < input.len() implies input[i] != c by {
            if 1 <= i < left.len() {
                assert(input[i] == property[i - 1]);
            } else if i > left.len() {
                assert(input[i] == value[i - left.len() - 1]);
            }
        }
    }
    assert forall|i: int| 0 <= i < left.len() implies #[trigger] left[i] != sign by {
        if i > 0 {
            assert(left[i] == property[i - 1]);
        }
    }
    text::law_split_once(left, sign, value);
    assert(left.drop_first() =~= property);
}

/// A background is named before its comma, and behind it stands the border; without a comma there is
/// none.
pub proof fn law_backgrounds(name: Seq<char>, border: Seq<char>, textures: Seq<Seq<char>>)
    requires
        forall|i: int| 0 <= i < name.len() ==> #[trigger] name[i] != ',',
        textures.contains(name),
    ensures
        stretch_of(name, textures) matches Ok((texture, width)) && 0 <= texture < textures.len()
            && textures[texture] == name && width == 0,
        match parse_unsigned_spec(border, u32::MAX as int) {
            Some(wanted) => stretch_of(name + seq![','] + border, textures) matches Ok((
                texture,
                width,
            )) && 0 <= texture < textures.len() && textures[texture] == name && width == wanted,
            None => stretch_of(name + seq![','] + border, textures) == Err::<(int, u32), ErrorView>(
                StyleError::BorderNumber,
            ),
        },
{
    text::law_split_once(name, ',', border);
    text::law_unsigned_numbers(border, '0', u32::MAX as int);
    let i = textures.index_of(name);
    assert(textures[i] == name);
}

/// A statement without brackets gives the rules of the name before its first colon and of the value
/// behind it, without the white space around them and under no condition.
pub proof fn law_statements(
    name: Seq<char>,
    value: Seq<char>,
    textures: Seq<Seq<char>>,
)
    requires
        forall|i: int| 0 <= i < name.len() ==> #[trigger] name[i] != ':',
        trim_spec(name).len() == 0 || trim_spec(name)[0] != '[',
    ensures
        match rules_of(trim_spec(name), trim_spec(value), textures) {
            Ok(rules) => statement_of(name + seq![':'] + value, textures) matches Ok(r) && r.len()
                == rules.len() && forall|i: int|
                0 <= i < rules.len() ==> (#[trigger] r[i]).0 == rules[i] && r[i].1 is None,
            Err(e) => statement_of(name + seq![':'] + value, textures) == Err::<
                Seq<ConditionalView>,
                ErrorView,
            >(e),
        },
{
    text::law_split_once(name, ':', value);
}

/// A statement that begins with brackets gives the same rules as one without them, each under the
/// condition that the brackets hold.
pub proof fn law_conditional_statements(
    condition: Seq<char>,
    name: Seq<char>,
    value: Seq<char>,
    textures: Seq<Seq<char>>,
)
    requires
        forall|i: int|
            0 <= i < condition.len() ==> #[trigger] condition[i] != ']' && condition[i] != ':',
        forall|i: int| 0 <= i < name.len() ==> #[trigger] name[i] != ':',
        name.len() > 0,
        !text::is_white(name.last()),
        condition_of(seq!['['] + condition) is Some,
        rules_of(trim_spec(name), trim_spec(value), textures) is Ok,
    ensures
        ({
            let rules = rules_of(trim_spec(name), trim_spec(value), textures)->Ok_0;
            statement_of(
                seq!['['] + condition + seq![']'] + name + seq![':'] + value,
                textures,
            ) matches Ok(r) && r.len() == rules.len() && forall|i: int|
                0 <= i < rules.len() ==> (#[trigger] r[i]).0 == rules[i] && r[i].1 == condition_of(
                    seq!['['] + condition,
                )
        }),
{
    let opened = seq!['['] + condition;
    let head = seq!['['] + condition + seq![']'] + name;
    assert(head =~= opened + seq![']'] + name);
    assert forall|i: int| 0 <= i < head.len() implies #[trigger] head[i] != ':' by {
        if 1 <= i <= condition.len() {
            assert(head[i] == condition[i - 1]);
        } else if i > condition.len() + 1 {
            assert(head[i] == name[i - condition.len() - 2]);
        }
    }
    text::law_split_once(head, ':', value);
    text::law_trim(Seq::empty(), head, Seq::empty());
    assert(Seq::<char>::empty() + head + Seq::<char>::empty() =~= head);
    assert forall|i: int| 0 <= i < opened.len() implies #[trigger] opened[i] != ']' by {
        if i > 0 {
            assert(opened[i] == condition[i - 1]);
        }
    }
    text::law_split_once(opened, ']', name);
}

} // verus!
