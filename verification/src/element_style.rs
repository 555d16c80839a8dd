//! The style that an element is laid out in.

use crate::property::PropertyMap;
use crate::ui_style::{
    conditional_views, AlignContent, AlignItems, ConditionView, ConditionalView, Display,
    FlexDirection, FlexWrap, LengthView, Position, PropertyComparator, PropertyCondition, RuleView, StretchTexture,
    StyleLength, StyleValue, UIStyleList, UIStyleRule, ValueView,
};
use vstd::prelude::*;

verus! {

/// A number: one that stands in a style, as it is written, or one that a property holds. `S` is the
/// type of texts.
#[derive(Debug)]
pub enum Amount<S> {
    Written(S),
    Held(i64),
}

impl View for Amount<String> {
    type V = Amount<Seq<char>>;

    open spec fn view(&self) -> Amount<Seq<char>> {
        match self {
            Amount::Written(s) => Amount::Written(s@),
            Amount::Held(v) => Amount::Held(*v),
        }
    }
}

/// A length; a percentage stands as it is written.
#[derive(Debug)]
pub enum Length<S> {
    Length(Amount<S>),
    Percent(Amount<S>),
    Auto,
}

impl View for Length<String> {
    type V = Length<Seq<char>>;

    open spec fn view(&self) -> Length<Seq<char>> {
        match self {
            Length::Length(v) => Length::Length(v@),
            Length::Percent(v) => Length::Percent(v@),
            Length::Auto => Length::Auto,
        }
    }
}

/// The view of a length that may be missing.
pub open spec fn optional_length(length: Option<Length<String>>) -> Option<Length<Seq<char>>> {
    match length {
        Some(length) => Some(length@),
        None => None,
    }
}

/// What a property holds: one that is not there holds zero. Zero stands for the number zero.
pub open spec fn property_value(properties: Map<Seq<char>, i64>, property: Seq<char>) -> i64 {
    if properties.contains_key(property) {
        properties[property]
    } else {
        0
    }
}

fn get_property(properties: &PropertyMap<i64>, property: &str) -> (r: i64)
    ensures
        r == property_value(properties@, property@),
{
    match properties.get(property) {
        Some(value) => *value,
        None => 0,
    }
}

/// The number that a value comes to.
pub open spec fn calc_spec(value: ValueView, properties: Map<Seq<char>, i64>) -> Amount<Seq<char>> {
    match value {
        StyleValue::Constant(text) => Amount::Written(text),
        StyleValue::Property(property) => Amount::Held(property_value(properties, property)),
    }
}

impl StyleValue<String> {
    /// The number that the value comes to.
    pub fn calc(&self, properties: &PropertyMap<i64>) -> (r: Amount<String>)
        ensures
            r@ == calc_spec(self@, properties@),
    {
        match self {
            StyleValue::Constant(text) => Amount::Written(text.clone()),
            StyleValue::Property(property) => Amount::Held(
                get_property(properties, property.as_str()),
            ),
        }
    }
}

/// The length that a rule means where a length need not be known.
pub open spec fn dimension(length: LengthView, properties: Map<Seq<char>, i64>) -> Length<Seq<char>> {
    match length {
        StyleLength::Length(value) => Length::Length(calc_spec(value, properties)),
        StyleLength::Percent(value) => Length::Percent(calc_spec(value, properties)),
        StyleLength::Auto => Length::Auto,
    }
}

/// The length that a rule means where there has to be one: `auto` is zero there.
pub open spec fn length_percentage(length: LengthView, properties: Map<Seq<char>, i64>) -> Length<
    Seq<char>,
> {
    match length {
        StyleLength::Auto => Length::Length(Amount::Held(0)),
        _ => dimension(length, properties),
    }
}

impl StyleLength<String> {
    /// The length where a length need not be known.
    pub fn as_dimension(&self, properties: &PropertyMap<i64>) -> (r: Length<String>)
        ensures
            r@ == dimension(self@, properties@),
    {
        match self {
            StyleLength::Length(value) => Length::Length(value.calc(properties)),
            StyleLength::Percent(value) => Length::Percent(value.calc(properties)),
            StyleLength::Auto => Length::Auto,
        }
    }

    /// The length where a length need not be known.
    pub fn as_length_percentage_auto(&self, properties: &PropertyMap<i64>) -> (r: Length<String>)
        ensures
            r@ == dimension(self@, properties@),
    {
        self.as_dimension(properties)
    }

    /// The length where there has to be one.
    pub fn as_length_percentage(&self, properties: &PropertyMap<i64>) -> (r: Length<String>)
        ensures
            r@ == length_percentage(self@, properties@),
    {
        match self {
            StyleLength::Length(value) => Length::Length(value.calc(properties)),
            StyleLength::Percent(value) => Length::Percent(value.calc(properties)),
            StyleLength::Auto => Length::Length(Amount::Held(0)),
        }
    }
}

/// The style of an element. What no rule has set is left to the layout. `L` is the type of lengths,
/// `A` that of numbers and `T` that of stretched textures.
pub struct BBStyle<L, A, T> {
    pub flex_direction: Option<FlexDirection>,
    pub align_items: Option<AlignItems>,
    pub align_content: Option<AlignContent>,
    pub align_self: Option<AlignItems>,
    pub justify_items: Option<AlignItems>,
    pub justify_content: Option<AlignContent>,
    pub justify_self: Option<AlignItems>,
    pub position: Option<Position>,
    pub flex_wrap: Option<FlexWrap>,
    pub display: Option<Display>,
    pub inset_left: Option<L>,
    pub inset_right: Option<L>,
    pub inset_top: Option<L>,
    pub inset_bottom: Option<L>,
    pub padding_left: Option<L>,
    pub padding_right: Option<L>,
    pub padding_top: Option<L>,
    pub padding_bottom: Option<L>,
    pub margin_left: Option<L>,
    pub margin_right: Option<L>,
    pub margin_top: Option<L>,
    pub margin_bottom: Option<L>,
    pub border_left: Option<L>,
    pub border_right: Option<L>,
    pub border_top: Option<L>,
    pub border_bottom: Option<L>,
    pub width: Option<L>,
    pub height: Option<L>,
    pub gap_column: Option<L>,
    pub gap_row: Option<L>,
    pub background: Option<T>,
    pub font_size: A,
}

pub type Style = BBStyle<Length<String>, Amount<String>, StretchTexture>;

/// A style as the contracts speak of it.
pub type StyleView = BBStyle<Length<Seq<char>>, Amount<Seq<char>>, (int, u32)>;

impl View for Style {
    type V = StyleView;

    open spec fn view(&self) -> StyleView {
        BBStyle {
            flex_direction: self.flex_direction,
            align_items: self.align_items,
            align_content: self.align_content,
            align_self: self.align_self,
            justify_items: self.justify_items,
            justify_content: self.justify_content,
            justify_self: self.justify_self,
            position: self.position,
            flex_wrap: self.flex_wrap,
            display: self.display,
            inset_left: optional_length(self.inset_left),
            inset_right: optional_length(self.inset_right),
            inset_top: optional_length(self.inset_top),
            inset_bottom: optional_length(self.inset_bottom),
            padding_left: optional_length(self.padding_left),
            padding_right: optional_length(self.padding_right),
            padding_top: optional_length(self.padding_top),
            padding_bottom: optional_length(self.padding_bottom),
            margin_left: optional_length(self.margin_left),
            margin_right: optional_length(self.margin_right),
            margin_top: optional_length(self.margin_top),
            margin_bottom: optional_length(self.margin_bottom),
            border_left: optional_length(self.border_left),
            border_right: optional_length(self.border_right),
            border_top: optional_length(self.border_top),
            border_bottom: optional_length(self.border_bottom),
            width: optional_length(self.width),
            height: optional_length(self.height),
            gap_column: optional_length(self.gap_column),
            gap_row: optional_length(self.gap_row),
            background: match self.background {
                Some(texture) => Some(texture@),
                None => None,
            },
            font_size: self.font_size@,
        }
    }
}

impl Default for Style {
    fn default() -> (r: Style)
        ensures
            r@ == default_style(),
    {
        let font_size = "60";
        BBStyle {
            flex_direction: None,
            align_items: None,
            align_content: None,
            align_self: None,
            justify_items: None,
            justify_content: None,
            justify_self: None,
            position: None,
            flex_wrap: None,
            display: None,
            inset_left: None,
            inset_right: None,
            inset_top: None,
            inset_bottom: None,
            padding_left: None,
            padding_right: None,
            padding_top: None,
            padding_bottom: None,
            margin_left: None,
            margin_right: None,
            margin_top: None,
            margin_bottom: None,
            border_left: None,
            border_right: None,
            border_top: None,
            border_bottom: None,
            width: None,
            height: None,
            gap_column: None,
            gap_row: None,
            background: None,
            font_size: Amount::Written(font_size.to_owned()),
        }
    }
}

/// A style that no rule has set.
pub open spec fn default_style() -> StyleView {
    BBStyle {
        flex_direction: None,
        align_items: None,
        align_content: None,
        align_self: None,
        justify_items: None,
        justify_content: None,
        justify_self: None,
        position: None,
        flex_wrap: None,
        display: None,
        inset_left: None,
        inset_right: None,
        inset_top: None,
        inset_bottom: None,
        padding_left: None,
        padding_right: None,
        padding_top: None,
        padding_bottom: None,
        margin_left: None,
        margin_right: None,
        margin_top: None,
        margin_bottom: None,
        border_left: None,
        border_right: None,
        border_top: None,
        border_bottom: None,
        width: None,
        height: None,
        gap_column: None,
        gap_row: None,
        background: None,
        font_size: Amount::Written("60"@),
    }
}

/// A style to which a rule was applied: the rule sets what it is about and nothing else.
pub open spec fn patched_style(
    style: StyleView,
    rule: RuleView,
    properties: Map<Seq<char>, i64>,
) -> StyleView {
    match rule {
        UIStyleRule::FlexDirection(v) => BBStyle { flex_direction: Some(v), ..style },
        UIStyleRule::AlignItems(v) => BBStyle { align_items: Some(v), ..style },
        UIStyleRule::AlignContent(v) => BBStyle { align_content: Some(v), ..style },
        UIStyleRule::AlignSelf(v) => BBStyle { align_self: Some(v), ..style },
        UIStyleRule::JustifyItems(v) => BBStyle { justify_items: Some(v), ..style },
        UIStyleRule::JustifyContent(v) => BBStyle { justify_content: Some(v), ..style },
        UIStyleRule::JustifySelf(v) => BBStyle { justify_self: Some(v), ..style },
        UIStyleRule::Position(v) => BBStyle { position: Some(v), ..style },
        UIStyleRule::FlexWrap(v) => BBStyle { flex_wrap: Some(v), ..style },
        UIStyleRule::Display(v) => BBStyle { display: Some(v), ..style },
        UIStyleRule::InsetLeft(v) => BBStyle { inset_left: Some(dimension(v, properties)), ..style },
        UIStyleRule::InsetRight(v) => BBStyle { inset_right: Some(dimension(v, properties)), ..style },
        UIStyleRule::InsetTop(v) => BBStyle { inset_top: Some(dimension(v, properties)), ..style },
        UIStyleRule::InsetBottom(v) => BBStyle { inset_bottom: Some(dimension(v, properties)), ..style },
        UIStyleRule::PaddingLeft(v) => BBStyle { padding_left: Some(length_percentage(v, properties)), ..style },
        UIStyleRule::PaddingRight(v) => BBStyle { padding_right: Some(length_percentage(v, properties)), ..style },
        UIStyleRule::PaddingTop(v) => BBStyle { padding_top: Some(length_percentage(v, properties)), ..style },
        UIStyleRule::PaddingBottom(v) => BBStyle { padding_bottom: Some(length_percentage(v, properties)), ..style },
        UIStyleRule::MarginLeft(v) => BBStyle { margin_left: Some(dimension(v, properties)), ..style },
        UIStyleRule::MarginRight(v) => BBStyle { margin_right: Some(dimension(v, properties)), ..style },
        UIStyleRule::MarginTop(v) => BBStyle { margin_top: Some(dimension(v, properties)), ..style },
        UIStyleRule::MarginBottom(v) => BBStyle { margin_bottom: Some(dimension(v, properties)), ..style },
        UIStyleRule::BorderLeft(v) => BBStyle { border_left: Some(length_percentage(v, properties)), ..style },
        UIStyleRule::BorderRight(v) => BBStyle { border_right: Some(length_percentage(v, properties)), ..style },
        UIStyleRule::BorderTop(v) => BBStyle { border_top: Some(length_percentage(v, properties)), ..style },
        UIStyleRule::BorderBottom(v) => BBStyle { border_bottom: Some(length_percentage(v, properties)), ..style },
        UIStyleRule::Width(v) => BBStyle { width: Some(dimension(v, properties)), ..style },
        UIStyleRule::Height(v) => BBStyle { height: Some(dimension(v, properties)), ..style },
        UIStyleRule::GapColumn(v) => BBStyle { gap_column: Some(length_percentage(v, properties)), ..style },
        UIStyleRule::GapRow(v) => BBStyle { gap_row: Some(length_percentage(v, properties)), ..style },
        UIStyleRule::FontSize(v) => BBStyle { font_size: calc_spec(v, properties), ..style },
        UIStyleRule::Background(v) => BBStyle { background: Some(v), ..style },
    }
}

impl BBStyle<Length<String>, Amount<String>, StretchTexture> {
    /// Applies a rule.
    pub fn patch(
        &mut self,
        rule: &UIStyleRule<String, StretchTexture>,
        properties: &PropertyMap<i64>,
    )
        ensures
            final(self)@ == patched_style(old(self)@, rule@, properties@),
    {
        match rule {
            UIStyleRule::FlexDirection(v) => {
                self.flex_direction = Some(*v);
            },
            UIStyleRule::AlignItems(v) => {
                self.align_items = Some(*v);
            },
            UIStyleRule::AlignContent(v) => {
                self.align_content = Some(*v);
            },
            UIStyleRule::AlignSelf(v) => {
                self.align_self = Some(*v);
            },
            UIStyleRule::JustifyItems(v) => {
                self.justify_items = Some(*v);
            },
            UIStyleRule::JustifyContent(v) => {
                self.justify_content = Some(*v);
            },
            UIStyleRule::JustifySelf(v) => {
                self.justify_self = Some(*v);
            },
            UIStyleRule::Position(v) => {
                self.position = Some(*v);
            },
            UIStyleRule::FlexWrap(v) => {
                self.flex_wrap = Some(*v);
            },
            UIStyleRule::Display(v) => {
                self.display = Some(*v);
            },
            UIStyleRule::InsetLeft(v) => {
                self.inset_left = Some(v.as_length_percentage_auto(properties));
            },
            UIStyleRule::InsetRight(v) => {
                self.inset_right = Some(v.as_length_percentage_auto(properties));
            },
            UIStyleRule::InsetTop(v) => {
                self.inset_top = Some(v.as_length_percentage_auto(properties));
            },
            UIStyleRule::InsetBottom(v) => {
                self.inset_bottom = Some(v.as_length_percentage_auto(properties));
            },
            UIStyleRule::PaddingLeft(v) => {
                self.padding_left = Some(v.as_length_percentage(properties));
            },
            UIStyleRule::PaddingRight(v) => {
                self.padding_right = Some(v.as_length_percentage(properties));
            },
            UIStyleRule::PaddingTop(v) => {
                self.padding_top = Some(v.as_length_percentage(properties));
            },
            UIStyleRule::PaddingBottom(v) => {
                self.padding_bottom = Some(v.as_length_percentage(properties));
            },
            UIStyleRule::MarginLeft(v) => {
                self.margin_left = Some(v.as_length_percentage_auto(properties));
            },
            UIStyleRule::MarginRight(v) => {
                self.margin_right = Some(v.as_length_percentage_auto(properties));
            },
            UIStyleRule::MarginTop(v) => {
                self.margin_top = Some(v.as_length_percentage_auto(properties));
            },
            UIStyleRule::MarginBottom(v) => {
                self.margin_bottom = Some(v.as_length_percentage_auto(properties));
            },
            UIStyleRule::BorderLeft(v) => {
                self.border_left = Some(v.as_length_percentage(properties));
            },
            UIStyleRule::BorderRight(v) => {
                self.border_right = Some(v.as_length_percentage(properties));
            },
            UIStyleRule::BorderTop(v) => {
                self.border_top = Some(v.as_length_percentage(properties));
            },
            UIStyleRule::BorderBottom(v) => {
                self.border_bottom = Some(v.as_length_percentage(properties));
            },
            UIStyleRule::Width(v) => {
                self.width = Some(v.as_dimension(properties));
            },
            UIStyleRule::Height(v) => {
                self.height = Some(v.as_dimension(properties));
            },
            UIStyleRule::GapColumn(v) => {
                self.gap_column = Some(v.as_length_percentage(properties));
            },
            UIStyleRule::GapRow(v) => {
                self.gap_row = Some(v.as_length_percentage(properties));
            },
            UIStyleRule::FontSize(v) => {
                self.font_size = v.calc(properties);
            },
            UIStyleRule::Background(v) => {
                self.background = Some(*v);
            },
        }
    }
}

/// A rule that is applied twice does no more than a rule that is applied once.
pub proof fn law_rule_applies_once(
    style: StyleView,
    rule: RuleView,
    properties: Map<Seq<char>, i64>,
)
    ensures
        patched_style(patched_style(style, rule, properties), rule, properties) == patched_style(
            style,
            rule,
            properties,
        ),
{
}

/// Whether a rule's condition holds; `value` is what the property is compared to.
pub open spec fn applies(
    condition: Option<ConditionView>,
    value: i64,
    properties: Map<Seq<char>, i64>,
) -> bool {
    match condition {
        Some(condition) => condition.comparator.holds_spec(
            property_value(properties, condition.property) as int,
            value as int,
        ),
        None => true,
    }
}

impl PropertyCondition<String> {
    /// Whether the condition holds; `value` is the number that it is written with.
    pub fn satisfies(&self, value: i64, properties: &PropertyMap<i64>) -> (r: bool)
        ensures
            r == self.comparator.holds_spec(
                property_value(properties@, self.property@) as int,
                value as int,
            ),
    {
        self.comparator.satisfies(get_property(properties, self.property.as_str()), value)
    }
}

/// A list of rules, and for each rule the number that its condition is written with, if it has a
/// condition. The numbers are ordered as those that are written.
pub struct StyleSource<'a> {
    pub list: &'a UIStyleList,
    pub values: Vec<i64>,
}

impl<'a> StyleSource<'a> {
    pub open spec fn wf(self) -> bool {
        self.values@.len() == self.list.rules@.len()
    }

    pub open spec fn rules(self) -> Seq<ConditionalView> {
        conditional_views(self.list.rules@)
    }
}

/// A style to which the first `n` rules of a list were applied, as far as their conditions hold.
pub open spec fn styled(
    style: StyleView,
    rules: Seq<ConditionalView>,
    values: Seq<i64>,
    properties: Map<Seq<char>, i64>,
    n: int,
) -> StyleView
    decreases n,
{
    if n <= 0 {
        style
    } else {
        let before = styled(style, rules, values, properties, n - 1);
        if applies(rules[n - 1].1, values[n - 1], properties) {
            patched_style(before, rules[n - 1].0, properties)
        } else {
            before
        }
    }
}

fn apply_list(style: &mut Style, source: &StyleSource, properties: &PropertyMap<i64>)
    requires
        source.wf(),
    ensures
        final(style)@ == styled(
            old(style)@,
            source.rules(),
            source.values@,
            properties@,
            source.values@.len() as int,
        ),
{
    let ghost start = style@;
    let mut i: usize = 0;
    while i < source.list.rules.len()
        invariant
            i <= source.list.rules@.len(),
            source.wf(),
            style@ == styled(start, source.rules(), source.values@, properties@, i as int),
        decreases source.list.rules@.len() - i,
    {
        let rule = &source.list.rules[i];
        assert(source.rules()[i as int].0 == rule.0@);
        let holds = match &rule.1 {
            Some(condition) => condition.satisfies(source.values[i], properties),
            None => true,
        };
        assert(holds == applies(
            source.rules()[i as int].1,
            source.values@[i as int],
            properties@,
        ));
        if holds {
            style.patch(&rule.0, properties);
        }
        i += 1;
    }
}

/// A style to which the first `n` lists were applied.
pub open spec fn styled_by(
    sources: Seq<StyleSource>,
    properties: Map<Seq<char>, i64>,
    n: int,
) -> StyleView
    decreases n,
{
    if n <= 0 {
        default_style()
    } else {
        styled(
            styled_by(sources, properties, n - 1),
            sources[n - 1].rules(),
            sources[n - 1].values@,
            properties,
            sources[n - 1].values@.len() as int,
        )
    }
}

/// The style of an element: the rules of its classes are applied in order, and its own rules after
/// them.
pub fn get_element_style(
    classes: &Vec<StyleSource>,
    own: &StyleSource,
    properties: &PropertyMap<i64>,
) -> (r: Style)
    requires
        own.wf(),
        forall|i: int| 0 <= i < classes@.len() ==> (#[trigger] classes@[i]).wf(),
    ensures
        r@ == styled(
            styled_by(classes@, properties@, classes@.len() as int),
            own.rules(),
            own.values@,
            properties@,
            own.values@.len() as int,
        ),
{
    let mut style: Style = Default::default();
    let mut i: usize = 0;
    while i < classes.len()
        invariant
            i <= classes@.len(),
            forall|j: int| 0 <= j < classes@.len() ==> (#[trigger] classes@[j]).wf(),
            style@ == styled_by(classes@, properties@, i as int),
        decreases classes@.len() - i,
    {
        apply_list(&mut style, &classes[i], properties);
        i += 1;
    }
    apply_list(&mut style, own, properties);
    style
}

/// Rules whose conditions do not hold change nothing.
pub proof fn law_conditions_guard_rules(
    style: StyleView,
    rules: Seq<ConditionalView>,
    values: Seq<i64>,
    properties: Map<Seq<char>, i64>,
    n: int,
)
    requires
        0 <= n <= rules.len(),
        forall|i: int|
            0 <= i < n ==> !applies((#[trigger] rules[i]).1, values[i], properties),
    ensures
        styled(style, rules, values, properties, n) == style,
    decreases n,
{
    if n > 0 {
        law_conditions_guard_rules(style, rules, values, properties, n - 1);
        assert(!applies(rules[n - 1].1, values[n - 1], properties));
    }
}

/// A rule sets what it is named after.
#[verifier::spinoff_prover]
pub proof fn law_rules_set_their_own(
    style: StyleView,
    rule: RuleView,
    properties: Map<Seq<char>, i64>,
)
    ensures
        rule matches UIStyleRule::FlexDirection(v) ==> patched_style(style, rule, properties).flex_direction == Some(v),
        rule matches UIStyleRule::AlignItems(v) ==> patched_style(style, rule, properties).align_items == Some(v),
        rule matches UIStyleRule::AlignContent(v) ==> patched_style(style, rule, properties).align_content == Some(v),
        rule matches UIStyleRule::AlignSelf(v) ==> patched_style(style, rule, properties).align_self == Some(v),
        rule matches UIStyleRule::JustifyItems(v) ==> patched_style(style, rule, properties).justify_items == Some(v),
        rule matches UIStyleRule::JustifyContent(v) ==> patched_style(style, rule, properties).justify_content == Some(v),
        rule matches UIStyleRule::JustifySelf(v) ==> patched_style(style, rule, properties).justify_self == Some(v),
        rule matches UIStyleRule::Position(v) ==> patched_style(style, rule, properties).position == Some(v),
        rule matches UIStyleRule::FlexWrap(v) ==> patched_style(style, rule, properties).flex_wrap == Some(v),
        rule matches UIStyleRule::Display(v) ==> patched_style(style, rule, properties).display == Some(v),
        rule matches UIStyleRule::InsetLeft(v) ==> patched_style(style, rule, properties).inset_left == Some(dimension(v, properties)),
        rule matches UIStyleRule::InsetRight(v) ==> patched_style(style, rule, properties).inset_right == Some(dimension(v, properties)),
        rule matches UIStyleRule::InsetTop(v) ==> patched_style(style, rule, properties).inset_top == Some(dimension(v, properties)),
        rule matches UIStyleRule::InsetBottom(v) ==> patched_style(style, rule, properties).inset_bottom == Some(dimension(v, properties)),
        rule matches UIStyleRule::PaddingLeft(v) ==> patched_style(style, rule, properties).padding_left == Some(length_percentage(v, properties)),
        rule matches UIStyleRule::PaddingRight(v) ==> patched_style(style, rule, properties).padding_right == Some(length_percentage(v, properties)),
        rule matches UIStyleRule::PaddingTop(v) ==> patched_style(style, rule, properties).padding_top == Some(length_percentage(v, properties)),
        rule matches UIStyleRule::PaddingBottom(v) ==> patched_style(style, rule, properties).padding_bottom == Some(length_percentage(v, properties)),
        rule matches UIStyleRule::MarginLeft(v) ==> patched_style(style, rule, properties).margin_left == Some(dimension(v, properties)),
        rule matches UIStyleRule::MarginRight(v) ==> patched_style(style, rule, properties).margin_right == Some(dimension(v, properties)),
        rule matches UIStyleRule::MarginTop(v) ==> patched_style(style, rule, properties).margin_top == Some(dimension(v, properties)),
        rule matches UIStyleRule::MarginBottom(v) ==> patched_style(style, rule, properties).margin_bottom == Some(dimension(v, properties)),
        rule matches UIStyleRule::BorderLeft(v) ==> patched_style(style, rule, properties).border_left == Some(length_percentage(v, properties)),
        rule matches UIStyleRule::BorderRight(v) ==> patched_style(style, rule, properties).border_right == Some(length_percentage(v, properties)),
        rule matches UIStyleRule::BorderTop(v) ==> patched_style(style, rule, properties).border_top == Some(length_percentage(v, properties)),
        rule matches UIStyleRule::BorderBottom(v) ==> patched_style(style, rule, properties).border_bottom == Some(length_percentage(v, properties)),
        rule matches UIStyleRule::Width(v) ==> patched_style(style, rule, properties).width == Some(dimension(v, properties)),
        rule matches UIStyleRule::Height(v) ==> patched_style(style, rule, properties).height == Some(dimension(v, properties)),
        rule matches UIStyleRule::GapColumn(v) ==> patched_style(style, rule, properties).gap_column == Some(length_percentage(v, properties)),
        rule matches UIStyleRule::GapRow(v) ==> patched_style(style, rule, properties).gap_row == Some(length_percentage(v, properties)),
        rule matches UIStyleRule::FontSize(v) ==> patched_style(style, rule, properties).font_size == calc_spec(v, properties),
        rule matches UIStyleRule::Background(v) ==> patched_style(style, rule, properties).background == Some(v),
{
}

/// A rule sets nothing that it is not named after.
#[verifier::spinoff_prover]
pub proof fn law_rules_set_nothing_else(
    style: StyleView,
    rule: RuleView,
    properties: Map<Seq<char>, i64>,
)
    ensures
        !(rule is FlexDirection) ==> patched_style(style, rule, properties).flex_direction == style.flex_direction,
        !(rule is AlignItems) ==> patched_style(style, rule, properties).align_items == style.align_items,
        !(rule is AlignContent) ==> patched_style(style, rule, properties).align_content == style.align_content,
        !(rule is AlignSelf) ==> patched_style(style, rule, properties).align_self == style.align_self,
        !(rule is JustifyItems) ==> patched_style(style, rule, properties).justify_items == style.justify_items,
        !(rule is JustifyContent) ==> patched_style(style, rule, properties).justify_content == style.justify_content,
        !(rule is JustifySelf) ==> patched_style(style, rule, properties).justify_self == style.justify_self,
        !(rule is Position) ==> patched_style(style, rule, properties).position == style.position,
        !(rule is FlexWrap) ==> patched_style(style, rule, properties).flex_wrap == style.flex_wrap,
        !(rule is Display) ==> patched_style(style, rule, properties).display == style.display,
        !(rule is InsetLeft) ==> patched_style(style, rule, properties).inset_left == style.inset_left,
        !(rule is InsetRight) ==> patched_style(style, rule, properties).inset_right == style.inset_right,
        !(rule is InsetTop) ==> patched_style(style, rule, properties).inset_top == style.inset_top,
        !(rule is InsetBottom) ==> patched_style(style, rule, properties).inset_bottom == style.inset_bottom,
        !(rule is PaddingLeft) ==> patched_style(style, rule, properties).padding_left == style.padding_left,
        !(rule is PaddingRight) ==> patched_style(style, rule, properties).padding_right == style.padding_right,
        !(rule is PaddingTop) ==> patched_style(style, rule, properties).padding_top == style.padding_top,
        !(rule is PaddingBottom) ==> patched_style(style, rule, properties).padding_bottom == style.padding_bottom,
        !(rule is MarginLeft) ==> patched_style(style, rule, properties).margin_left == style.margin_left,
        !(rule is MarginRight) ==> patched_style(style, rule, properties).margin_right == style.margin_right,
        !(rule is MarginTop) ==> patched_style(style, rule, properties).margin_top == style.margin_top,
        !(rule is MarginBottom) ==> patched_style(style, rule, properties).margin_bottom == style.margin_bottom,
        !(rule is BorderLeft) ==> patched_style(style, rule, properties).border_left == style.border_left,
        !(rule is BorderRight) ==> patched_style(style, rule, properties).border_right == style.border_right,
        !(rule is BorderTop) ==> patched_style(style, rule, properties).border_top == style.border_top,
        !(rule is BorderBottom) ==> patched_style(style, rule, properties).border_bottom == style.border_bottom,
        !(rule is Width) ==> patched_style(style, rule, properties).width == style.width,
        !(rule is Height) ==> patched_style(style, rule, properties).height == style.height,
        !(rule is GapColumn) ==> patched_style(style, rule, properties).gap_column == style.gap_column,
        !(rule is GapRow) ==> patched_style(style, rule, properties).gap_row == style.gap_row,
        !(rule is FontSize) ==> patched_style(style, rule, properties).font_size == style.font_size,
        !(rule is Background) ==> patched_style(style, rule, properties).background == style.background,
{
}

/// A length stays a length and a percentage a percentage. What need not be known may be `auto`; what has
/// to be known is nothing then. A number that is written stays as it is written, and a property has the
/// value that it holds, or zero if there is no such property.
pub proof fn law_lengths_in_styles(
    text: Seq<char>,
    properties: Map<Seq<char>, i64>,
)
    ensures
        dimension(StyleLength::Auto, properties) == Length::<Seq<char>>::Auto,
        length_percentage(StyleLength::Auto, properties) == Length::<Seq<char>>::Length(
            Amount::Held(0),
        ),
        dimension(StyleLength::Percent(StyleValue::Constant(text)), properties) == Length::Percent(
            Amount::Written(text),
        ),
        dimension(StyleLength::Length(StyleValue::Constant(text)), properties) == Length::Length(
            Amount::Written(text),
        ),
        length_percentage(StyleLength::Percent(StyleValue::Constant(text)), properties)
            == Length::Percent(Amount::Written(text)),
        length_percentage(StyleLength::Length(StyleValue::Constant(text)), properties)
            == Length::Length(Amount::Written(text)),
        properties.contains_key(text) ==> calc_spec(StyleValue::Property(text), properties)
            == Amount::<Seq<char>>::Held(properties[text]),
        !properties.contains_key(text) ==> calc_spec(StyleValue::Property(text), properties)
            == Amount::<Seq<char>>::Held(0),
{
}

/// A rule without a condition always applies; one with a condition where the property is less than,
/// equal to or greater than the value, as the condition says.
pub proof fn law_rule_applies(
    condition: ConditionView,
    value: i64,
    properties: Map<Seq<char>, i64>,
)
    requires
        properties.contains_key(condition.property),
    ensures
        applies(None, value, properties),
        condition.comparator == PropertyComparator::Less ==> (applies(
            Some(condition),
            value,
            properties,
        ) <==> value - properties[condition.property] > 0),
        condition.comparator == PropertyComparator::Equal ==> (applies(
            Some(condition),
            value,
            properties,
        ) <==> value - properties[condition.property] == 0),
        condition.comparator == PropertyComparator::Greater ==> (applies(
            Some(condition),
            value,
            properties,
        ) <==> properties[condition.property] - value > 0),
{
}

/// Rules are applied in their order, so that the last one that applies counts, and those of a later
/// source after those of an earlier one.
pub proof fn law_last_rule_counts(
    style: StyleView,
    rules: Seq<ConditionalView>,
    values: Seq<i64>,
    properties: Map<Seq<char>, i64>,
    n: int,
    i: int,
    width: LengthView,
)
    requires
        0 <= i < n <= rules.len(),
        rules[i].0 == UIStyleRule::<Seq<char>, (int, u32)>::Width(width),
        applies(rules[i].1, values[i], properties),
        forall|j: int|
            i < j < n ==> !((#[trigger] rules[j]).0 is Width) || !applies(
                rules[j].1,
                values[j],
                properties,
            ),
    ensures
        styled(style, rules, values, properties, n).width == Some(dimension(width, properties)),
    decreases n,
{
    if i < n - 1 {
        law_last_rule_counts(style, rules, values, properties, n - 1, i, width);
        assert(!(rules[n - 1].0 is Width) || !applies(rules[n - 1].1, values[n - 1], properties));
    }
}

/// A style that no rule has set leaves everything to the layout, but for the size of its font.
pub proof fn law_default_style()
    ensures
        default_style().font_size == Amount::<Seq<char>>::Written("60"@),
        default_style().width is None,
        default_style().height is None,
        default_style().display is None,
        default_style().position is None,
        default_style().flex_direction is None,
        default_style().background is None,
{
}

} // verus!
