//! The property resolver: applies an untyped property bag to a node.
//!
//! It runs in two passes. The first applies the shorthands (`padding`,
//! `margin` and their horizontal and vertical forms) in a fixed order; the
//! second applies every entry of the bag in order, so that a property named
//! for one edge overrides a shorthand given in the same bag. An unknown
//! name or a value that does not read as the property's type fails the
//! whole update.

use vstd::prelude::*;
use crate::error::StoreError;
use crate::node::{BarNode, NodeStyle};
use crate::props::{Properties, Property, first_with_key, lookup};
use crate::text::{parse_i32, parse_i32_spec, text_eq};

verus! {

/// A property whose value is kept as text; an empty value unsets it.
#[derive(Debug, Clone, Copy, PartialEq, Eq)]
pub enum TextField {
    Label,
    LabelColor,
    Icon,
    IconColor,
    FontWeight,
    FontFamily,
    Parent,
    BackgroundColor,
    BorderColor,
    ShadowColor,
    NotchAlign,
    AlignItems,
    JustifyContent,
    HoverBackgroundColor,
    HoverLabelColor,
    HoverIconColor,
    OnClick,
    Image,
}

/// A property whose value is a 32-bit float.
#[derive(Debug, Clone, Copy, PartialEq, Eq)]
pub enum MetricField {
    ImageScale,
    BorderWidth,
    CornerRadius,
    PaddingLeft,
    PaddingRight,
    PaddingTop,
    PaddingBottom,
    ShadowRadius,
    Width,
    Height,
    Gap,
    MarginLeft,
    MarginRight,
    MarginTop,
    MarginBottom,
    FontSize,
}

/// A property that stands for several edges of the padding or the margin.
#[derive(Debug, Clone, Copy, PartialEq, Eq)]
pub enum Shorthand {
    Padding,
    PaddingHorizontal,
    PaddingVertical,
    Margin,
    MarginHorizontal,
    MarginVertical,
}

/// What a property name designates.
#[derive(Debug, Clone, Copy, PartialEq, Eq)]
pub enum Field {
    Text(TextField),
    Metric(MetricField),
    /// The sibling order, a signed integer.
    Position,
    /// Handled by the store, which moves the node between displays.
    Display,
    /// Applied by the first pass.
    Shorthand(Shorthand),
}

impl MetricField {
    /// Whether an empty value unsets the property; for the other metrics
    /// an empty value fails to read.
    pub open spec fn clearable_spec(self) -> bool {
        self is ImageScale || self is Width || self is Gap
    }

    /// Whether an empty value unsets the property.
    pub fn clearable(self) -> (r: bool)
        ensures
            r == self.clearable_spec(),
    {
        match self {
            MetricField::ImageScale | MetricField::Width | MetricField::Gap => true,
            _ => false,
        }
    }
}

/// The field that a property name designates.
pub open spec fn key_field(k: Seq<char>) -> Option<Field> {
    if k == "label"@ {
        Some(Field::Text(TextField::Label))
    } else if k == "label_color"@ {
        Some(Field::Text(TextField::LabelColor))
    } else if k == "icon"@ {
        Some(Field::Text(TextField::Icon))
    } else if k == "icon_color"@ {
        Some(Field::Text(TextField::IconColor))
    } else if k == "font_weight"@ {
        Some(Field::Text(TextField::FontWeight))
    } else if k == "font_family"@ {
        Some(Field::Text(TextField::FontFamily))
    } else if k == "parent"@ {
        Some(Field::Text(TextField::Parent))
    } else if k == "background_color"@ {
        Some(Field::Text(TextField::BackgroundColor))
    } else if k == "border_color"@ {
        Some(Field::Text(TextField::BorderColor))
    } else if k == "shadow_color"@ {
        Some(Field::Text(TextField::ShadowColor))
    } else if k == "notch_align"@ {
        Some(Field::Text(TextField::NotchAlign))
    } else if k == "align_items"@ {
        Some(Field::Text(TextField::AlignItems))
    } else if k == "justify_content"@ {
        Some(Field::Text(TextField::JustifyContent))
    } else if k == "hover_background_color"@ {
        Some(Field::Text(TextField::HoverBackgroundColor))
    } else if k == "hover_label_color"@ {
        Some(Field::Text(TextField::HoverLabelColor))
    } else if k == "hover_icon_color"@ {
        Some(Field::Text(TextField::HoverIconColor))
    } else if k == "on_click"@ {
        Some(Field::Text(TextField::OnClick))
    } else if k == "image"@ {
        Some(Field::Text(TextField::Image))
    } else if k == "image_scale"@ {
        Some(Field::Metric(MetricField::ImageScale))
    } else if k == "border_width"@ {
        Some(Field::Metric(MetricField::BorderWidth))
    } else if k == "corner_radius"@ {
        Some(Field::Metric(MetricField::CornerRadius))
    } else if k == "padding_left"@ {
        Some(Field::Metric(MetricField::PaddingLeft))
    } else if k == "padding_right"@ {
        Some(Field::Metric(MetricField::PaddingRight))
    } else if k == "padding_top"@ {
        Some(Field::Metric(MetricField::PaddingTop))
    } else if k == "padding_bottom"@ {
        Some(Field::Metric(MetricField::PaddingBottom))
    } else if k == "shadow_radius"@ {
        Some(Field::Metric(MetricField::ShadowRadius))
    } else if k == "width"@ {
        Some(Field::Metric(MetricField::Width))
    } else if k == "height"@ {
        Some(Field::Metric(MetricField::Height))
    } else if k == "gap"@ {
        Some(Field::Metric(MetricField::Gap))
    } else if k == "margin_left"@ {
        Some(Field::Metric(MetricField::MarginLeft))
    } else if k == "margin_right"@ {
        Some(Field::Metric(MetricField::MarginRight))
    } else if k == "margin_top"@ {
        Some(Field::Metric(MetricField::MarginTop))
    } else if k == "margin_bottom"@ {
        Some(Field::Metric(MetricField::MarginBottom))
    } else if k == "font_size"@ {
        Some(Field::Metric(MetricField::FontSize))
    } else if k == "position"@ {
        Some(Field::Position)
    } else if k == "display"@ {
        Some(Field::Display)
    } else if k == "padding"@ {
        Some(Field::Shorthand(Shorthand::Padding))
    } else if k == "padding_horizontal"@ {
        Some(Field::Shorthand(Shorthand::PaddingHorizontal))
    } else if k == "padding_vertical"@ {
        Some(Field::Shorthand(Shorthand::PaddingVertical))
    } else if k == "margin"@ {
        Some(Field::Shorthand(Shorthand::Margin))
    } else if k == "margin_horizontal"@ {
        Some(Field::Shorthand(Shorthand::MarginHorizontal))
    } else if k == "margin_vertical"@ {
        Some(Field::Shorthand(Shorthand::MarginVertical))
    } else {
        None
    }
}

/// The field that a property name designates.
pub fn field_of_key(k: &str) -> (r: Option<Field>)
    ensures
        r == key_field(k@),
{
    if text_eq(k, "label") {
        return Some(Field::Text(TextField::Label));
    }
    if text_eq(k, "label_color") {
        return Some(Field::Text(TextField::LabelColor));
    }
    if text_eq(k, "icon") {
        return Some(Field::Text(TextField::Icon));
    }
    if text_eq(k, "icon_color") {
        return Some(Field::Text(TextField::IconColor));
    }
    if text_eq(k, "font_weight") {
        return Some(Field::Text(TextField::FontWeight));
    }
    if text_eq(k, "font_family") {
        return Some(Field::Text(TextField::FontFamily));
    }
    if text_eq(k, "parent") {
        return Some(Field::Text(TextField::Parent));
    }
    if text_eq(k, "background_color") {
        return Some(Field::Text(TextField::BackgroundColor));
    }
    if text_eq(k, "border_color") {
        return Some(Field::Text(TextField::BorderColor));
    }
    if text_eq(k, "shadow_color") {
        return Some(Field::Text(TextField::ShadowColor));
    }
    if text_eq(k, "notch_align") {
        return Some(Field::Text(TextField::NotchAlign));
    }
    if text_eq(k, "align_items") {
        return Some(Field::Text(TextField::AlignItems));
    }
    if text_eq(k, "justify_content") {
        return Some(Field::Text(TextField::JustifyContent));
    }
    if text_eq(k, "hover_background_color") {
        return Some(Field::Text(TextField::HoverBackgroundColor));
    }
    if text_eq(k, "hover_label_color") {
        return Some(Field::Text(TextField::HoverLabelColor));
    }
    if text_eq(k, "hover_icon_color") {
        return Some(Field::Text(TextField::HoverIconColor));
    }
    if text_eq(k, "on_click") {
        return Some(Field::Text(TextField::OnClick));
    }
    if text_eq(k, "image") {
        return Some(Field::Text(TextField::Image));
    }
    if text_eq(k, "image_scale") {
        return Some(Field::Metric(MetricField::ImageScale));
    }
    if text_eq(k, "border_width") {
        return Some(Field::Metric(MetricField::BorderWidth));
    }
    if text_eq(k, "corner_radius") {
        return Some(Field::Metric(MetricField::CornerRadius));
    }
    if text_eq(k, "padding_left") {
        return Some(Field::Metric(MetricField::PaddingLeft));
    }
    if text_eq(k, "padding_right") {
        return Some(Field::Metric(MetricField::PaddingRight));
    }
    if text_eq(k, "padding_top") {
        return Some(Field::Metric(MetricField::PaddingTop));
    }
    if text_eq(k, "padding_bottom") {
        return Some(Field::Metric(MetricField::PaddingBottom));
    }
    if text_eq(k, "shadow_radius") {
        return Some(Field::Metric(MetricField::ShadowRadius));
    }
    if text_eq(k, "width") {
        return Some(Field::Metric(MetricField::Width));
    }
    if text_eq(k, "height") {
        return Some(Field::Metric(MetricField::Height));
    }
    if text_eq(k, "gap") {
        return Some(Field::Metric(MetricField::Gap));
    }
    if text_eq(k, "margin_left") {
        return Some(Field::Metric(MetricField::MarginLeft));
    }
    if text_eq(k, "margin_right") {
        return Some(Field::Metric(MetricField::MarginRight));
    }
    if text_eq(k, "margin_top") {
        return Some(Field::Metric(MetricField::MarginTop));
    }
    if text_eq(k, "margin_bottom") {
        return Some(Field::Metric(MetricField::MarginBottom));
    }
    if text_eq(k, "font_size") {
        return Some(Field::Metric(MetricField::FontSize));
    }
    if text_eq(k, "position") {
        return Some(Field::Position);
    }
    if text_eq(k, "display") {
        return Some(Field::Display);
    }
    if text_eq(k, "padding") {
        return Some(Field::Shorthand(Shorthand::Padding));
    }
    if text_eq(k, "padding_horizontal") {
        return Some(Field::Shorthand(Shorthand::PaddingHorizontal));
    }
    if text_eq(k, "padding_vertical") {
        return Some(Field::Shorthand(Shorthand::PaddingVertical));
    }
    if text_eq(k, "margin") {
        return Some(Field::Shorthand(Shorthand::Margin));
    }
    if text_eq(k, "margin_horizontal") {
        return Some(Field::Shorthand(Shorthand::MarginHorizontal));
    }
    if text_eq(k, "margin_vertical") {
        return Some(Field::Shorthand(Shorthand::MarginVertical));
    }
    None
}

/// `n` with the text property `f` set to `v`.
pub open spec fn with_text(n: BarNode, f: TextField, v: Option<String>) -> BarNode {
    match f {
        TextField::Label => BarNode { label: v, ..n },
        TextField::LabelColor => BarNode { label_color: v, ..n },
        TextField::Icon => BarNode { icon: v, ..n },
        TextField::IconColor => BarNode { icon_color: v, ..n },
        TextField::FontWeight => BarNode { font_weight: v, ..n },
        TextField::FontFamily => BarNode { font_family: v, ..n },
        TextField::Parent => BarNode { parent: v, ..n },
        TextField::BackgroundColor => BarNode { style: NodeStyle { background_color: v, ..n.style }, ..n },
        TextField::BorderColor => BarNode { style: NodeStyle { border_color: v, ..n.style }, ..n },
        TextField::ShadowColor => BarNode { style: NodeStyle { shadow_color: v, ..n.style }, ..n },
        TextField::NotchAlign => BarNode { style: NodeStyle { notch_align: v, ..n.style }, ..n },
        TextField::AlignItems => BarNode { style: NodeStyle { align_items: v, ..n.style }, ..n },
        TextField::JustifyContent => BarNode { style: NodeStyle { justify_content: v, ..n.style }, ..n },
        TextField::HoverBackgroundColor => BarNode { style: NodeStyle { hover_background_color: v, ..n.style }, ..n },
        TextField::HoverLabelColor => BarNode { style: NodeStyle { hover_label_color: v, ..n.style }, ..n },
        TextField::HoverIconColor => BarNode { style: NodeStyle { hover_icon_color: v, ..n.style }, ..n },
        TextField::OnClick => BarNode { on_click: v, ..n },
        TextField::Image => BarNode { image: v, ..n },
    }
}

/// `n` with the metric `f` set to `v`.
pub open spec fn with_metric(n: BarNode, f: MetricField, v: Option<u32>) -> BarNode {
    match f {
        MetricField::ImageScale => BarNode { image_scale: v, ..n },
        MetricField::BorderWidth => BarNode { style: NodeStyle { border_width: v, ..n.style }, ..n },
        MetricField::CornerRadius => BarNode { style: NodeStyle { corner_radius: v, ..n.style }, ..n },
        MetricField::PaddingLeft => BarNode { style: NodeStyle { padding_left: v, ..n.style }, ..n },
        MetricField::PaddingRight => BarNode { style: NodeStyle { padding_right: v, ..n.style }, ..n },
        MetricField::PaddingTop => BarNode { style: NodeStyle { padding_top: v, ..n.style }, ..n },
        MetricField::PaddingBottom => BarNode { style: NodeStyle { padding_bottom: v, ..n.style }, ..n },
        MetricField::ShadowRadius => BarNode { style: NodeStyle { shadow_radius: v, ..n.style }, ..n },
        MetricField::Width => BarNode { style: NodeStyle { width: v, ..n.style }, ..n },
        MetricField::Height => BarNode { style: NodeStyle { height: v, ..n.style }, ..n },
        MetricField::Gap => BarNode { style: NodeStyle { gap: v, ..n.style }, ..n },
        MetricField::MarginLeft => BarNode { style: NodeStyle { margin_left: v, ..n.style }, ..n },
        MetricField::MarginRight => BarNode { style: NodeStyle { margin_right: v, ..n.style }, ..n },
        MetricField::MarginTop => BarNode { style: NodeStyle { margin_top: v, ..n.style }, ..n },
        MetricField::MarginBottom => BarNode { style: NodeStyle { margin_bottom: v, ..n.style }, ..n },
        MetricField::FontSize => BarNode { font_size: v, ..n },
    }
}

/// Sets the text property `f` of `n` to `v`.
pub fn write_text(n: &mut BarNode, f: TextField, v: Option<String>)
    ensures
        *final(n) == with_text(*old(n), f, v),
{
    match f {
        TextField::Label => n.label = v,
        TextField::LabelColor => n.label_color = v,
        TextField::Icon => n.icon = v,
        TextField::IconColor => n.icon_color = v,
        TextField::FontWeight => n.font_weight = v,
        TextField::FontFamily => n.font_family = v,
        TextField::Parent => n.parent = v,
        TextField::BackgroundColor => n.style.background_color = v,
        TextField::BorderColor => n.style.border_color = v,
        TextField::ShadowColor => n.style.shadow_color = v,
        TextField::NotchAlign => n.style.notch_align = v,
        TextField::AlignItems => n.style.align_items = v,
        TextField::JustifyContent => n.style.justify_content = v,
        TextField::HoverBackgroundColor => n.style.hover_background_color = v,
        TextField::HoverLabelColor => n.style.hover_label_color = v,
        TextField::HoverIconColor => n.style.hover_icon_color = v,
        TextField::OnClick => n.on_click = v,
        TextField::Image => n.image = v,
    }
}

/// Sets the metric `f` of `n` to `v`.
pub fn write_metric(n: &mut BarNode, f: MetricField, v: Option<u32>)
    ensures
        *final(n) == with_metric(*old(n), f, v),
{
    match f {
        MetricField::ImageScale => n.image_scale = v,
        MetricField::BorderWidth => n.style.border_width = v,
        MetricField::CornerRadius => n.style.corner_radius = v,
        MetricField::PaddingLeft => n.style.padding_left = v,
        MetricField::PaddingRight => n.style.padding_right = v,
        MetricField::PaddingTop => n.style.padding_top = v,
        MetricField::PaddingBottom => n.style.padding_bottom = v,
        MetricField::ShadowRadius => n.style.shadow_radius = v,
        MetricField::Width => n.style.width = v,
        MetricField::Height => n.style.height = v,
        MetricField::Gap => n.style.gap = v,
        MetricField::MarginLeft => n.style.margin_left = v,
        MetricField::MarginRight => n.style.margin_right = v,
        MetricField::MarginTop => n.style.margin_top = v,
        MetricField::MarginBottom => n.style.margin_bottom = v,
        MetricField::FontSize => n.font_size = v,
    }
}

impl Shorthand {
    /// The property name of the shorthand.
    pub open spec fn key_spec(self) -> Seq<char> {
        match self {
            Shorthand::Padding => "padding"@,
            Shorthand::PaddingHorizontal => "padding_horizontal"@,
            Shorthand::PaddingVertical => "padding_vertical"@,
            Shorthand::Margin => "margin"@,
            Shorthand::MarginHorizontal => "margin_horizontal"@,
            Shorthand::MarginVertical => "margin_vertical"@,
        }
    }

    /// The property name of the shorthand.
    pub fn key(self) -> (r: &'static str)
        ensures
            r@ == self.key_spec(),
    {
        match self {
            Shorthand::Padding => "padding",
            Shorthand::PaddingHorizontal => "padding_horizontal",
            Shorthand::PaddingVertical => "padding_vertical",
            Shorthand::Margin => "margin",
            Shorthand::MarginHorizontal => "margin_horizontal",
            Shorthand::MarginVertical => "margin_vertical",
        }
    }
}

/// `n` with every edge that `sh` stands for set to `v`.
pub open spec fn with_shorthand(n: BarNode, sh: Shorthand, v: u32) -> BarNode {
    let b = Some(v);
    match sh {
        Shorthand::Padding => with_metric(
            with_metric(
                with_metric(with_metric(n, MetricField::PaddingLeft, b), MetricField::PaddingRight, b),
                MetricField::PaddingTop,
                b,
            ),
            MetricField::PaddingBottom,
            b,
        ),
        Shorthand::PaddingHorizontal => with_metric(
            with_metric(n, MetricField::PaddingLeft, b),
            MetricField::PaddingRight,
            b,
        ),
        Shorthand::PaddingVertical => with_metric(
            with_metric(n, MetricField::PaddingTop, b),
            MetricField::PaddingBottom,
            b,
        ),
        Shorthand::Margin => with_metric(
            with_metric(
                with_metric(with_metric(n, MetricField::MarginLeft, b), MetricField::MarginRight, b),
                MetricField::MarginTop,
                b,
            ),
            MetricField::MarginBottom,
            b,
        ),
        Shorthand::MarginHorizontal => with_metric(
            with_metric(n, MetricField::MarginLeft, b),
            MetricField::MarginRight,
            b,
        ),
        Shorthand::MarginVertical => with_metric(
            with_metric(n, MetricField::MarginTop, b),
            MetricField::MarginBottom,
            b,
        ),
    }
}

/// One step of the first pass: applies the shorthand `sh` where the bag
/// names it.
pub open spec fn shorthand_step(
    r: Result<BarNode, StoreError>,
    props: Seq<Property>,
    sh: Shorthand,
) -> Result<BarNode, StoreError> {
    match r {
        Err(e) => Err(e),
        Ok(n) => match lookup(props, sh.key_spec()) {
            None => Ok(n),
            Some(p) => match p.metric {
                Some(v) => Ok(with_shorthand(n, sh, v)),
                None => Err(StoreError::InvalidValue { key: p.key, value: p.value }),
            },
        },
    }
}

/// The first pass: the shorthands, in a fixed order.
pub open spec fn shorthand_pass(n: BarNode, props: Seq<Property>) -> Result<BarNode, StoreError> {
    let r = shorthand_step(Ok(n), props, Shorthand::Padding);
    let r = shorthand_step(r, props, Shorthand::PaddingHorizontal);
    let r = shorthand_step(r, props, Shorthand::PaddingVertical);
    let r = shorthand_step(r, props, Shorthand::Margin);
    let r = shorthand_step(r, props, Shorthand::MarginHorizontal);
    shorthand_step(r, props, Shorthand::MarginVertical)
}

/// A text value: the empty string unsets the property.
pub open spec fn text_value(v: String) -> Option<String> {
    if v@.len() == 0 {
        None
    } else {
        Some(v)
    }
}

/// Applies one entry of the bag in the second pass.
pub open spec fn entry_step(n: BarNode, p: Property) -> Result<BarNode, StoreError> {
    match key_field(p.key@) {
        None => Err(StoreError::UnknownProperty { key: p.key }),
        Some(Field::Text(f)) => Ok(with_text(n, f, text_value(p.value))),
        Some(Field::Metric(f)) => if f.clearable_spec() && p.value@.len() == 0 {
            Ok(with_metric(n, f, None))
        } else {
            match p.metric {
                Some(v) => Ok(with_metric(n, f, Some(v))),
                None => Err(StoreError::InvalidValue { key: p.key, value: p.value }),
            }
        },
        Some(Field::Position) => match parse_i32_spec(p.value@) {
            Some(x) => Ok(BarNode { position: x, ..n }),
            None => Err(StoreError::InvalidValue { key: p.key, value: p.value }),
        },
        Some(Field::Display) => Ok(n),
        Some(Field::Shorthand(_)) => Ok(n),
    }
}

/// The second pass over the entries `s`, in order; the first failure ends it.
pub open spec fn entries_pass(n: BarNode, s: Seq<Property>) -> Result<BarNode, StoreError>
    decreases s.len(),
{
    if s.len() == 0 {
        Ok(n)
    } else {
        match entries_pass(n, s.drop_last()) {
            Ok(m) => entry_step(m, s.last()),
            Err(e) => Err(e),
        }
    }
}

/// What applying the bag `props` to `n` gives: the updated node, or the
/// failure that rejects the whole update.
pub open spec fn resolve(n: BarNode, props: Seq<Property>) -> Result<BarNode, StoreError> {
    match shorthand_pass(n, props) {
        Ok(m) => entries_pass(m, props),
        Err(e) => Err(e),
    }
}

fn apply_shorthand(r: Result<BarNode, StoreError>, props: &Properties, sh: Shorthand) -> (out:
    Result<BarNode, StoreError>)
    ensures
        out == shorthand_step(r, props@, sh),
{
    let n = match r {
        Ok(n) => n,
        Err(e) => return Err(e),
    };
    match props.get(sh.key()) {
        None => Ok(n),
        Some(p) => match p.metric {
            Some(v) => {
                let mut m = n;
                let b = Some(v);
                match sh {
                    Shorthand::Padding => {
                        write_metric(&mut m, MetricField::PaddingLeft, b);
                        write_metric(&mut m, MetricField::PaddingRight, b);
                        write_metric(&mut m, MetricField::PaddingTop, b);
                        write_metric(&mut m, MetricField::PaddingBottom, b);
                    },
                    Shorthand::PaddingHorizontal => {
                        write_metric(&mut m, MetricField::PaddingLeft, b);
                        write_metric(&mut m, MetricField::PaddingRight, b);
                    },
                    Shorthand::PaddingVertical => {
                        write_metric(&mut m, MetricField::PaddingTop, b);
                        write_metric(&mut m, MetricField::PaddingBottom, b);
                    },
                    Shorthand::Margin => {
                        write_metric(&mut m, MetricField::MarginLeft, b);
                        write_metric(&mut m, MetricField::MarginRight, b);
                        write_metric(&mut m, MetricField::MarginTop, b);
                        write_metric(&mut m, MetricField::MarginBottom, b);
                    },
                    Shorthand::MarginHorizontal => {
                        write_metric(&mut m, MetricField::MarginLeft, b);
                        write_metric(&mut m, MetricField::MarginRight, b);
                    },
                    Shorthand::MarginVertical => {
                        write_metric(&mut m, MetricField::MarginTop, b);
                        write_metric(&mut m, MetricField::MarginBottom, b);
                    },
                }
                Ok(m)
            },
            None => Err(StoreError::InvalidValue { key: p.key.clone(), value: p.value.clone() }),
        },
    }
}

fn apply_entry(n: BarNode, p: &Property) -> (r: Result<BarNode, StoreError>)
    ensures
        r == entry_step(n, *p),
{
    let mut m = n;
    match field_of_key(p.key.as_str()) {
        None => Err(StoreError::UnknownProperty { key: p.key.clone() }),
        Some(Field::Text(f)) => {
            let v = if p.value.as_str().is_empty() {
                None
            } else {
                Some(p.value.clone())
            };
            write_text(&mut m, f, v);
            Ok(m)
        },
        Some(Field::Metric(f)) => {
            if f.clearable() && p.value.as_str().is_empty() {
                write_metric(&mut m, f, None);
                Ok(m)
            } else {
                match p.metric {
                    Some(v) => {
                        write_metric(&mut m, f, Some(v));
                        Ok(m)
                    },
                    None => Err(
                        StoreError::InvalidValue { key: p.key.clone(), value: p.value.clone() },
                    ),
                }
            }
        },
        Some(Field::Position) => match parse_i32(p.value.as_str()) {
            Some(x) => {
                m.position = x;
                Ok(m)
            },
            None => Err(StoreError::InvalidValue { key: p.key.clone(), value: p.value.clone() }),
        },
        Some(Field::Display) => Ok(m),
        Some(Field::Shorthand(_)) => Ok(m),
    }
}

/// Applies the bag `properties` to a copy of `node`: the shorthands
/// first, then every entry in order. On failure nothing is applied.
pub fn apply_properties(node: &BarNode, properties: &Properties) -> (r: Result<
    BarNode,
    StoreError,
>)
    ensures
        r == resolve(*node, properties@),
{
    let mut r = Ok(node.clone());
    r = apply_shorthand(r, properties, Shorthand::Padding);
    r = apply_shorthand(r, properties, Shorthand::PaddingHorizontal);
    r = apply_shorthand(r, properties, Shorthand::PaddingVertical);
    r = apply_shorthand(r, properties, Shorthand::Margin);
    r = apply_shorthand(r, properties, Shorthand::MarginHorizontal);
    r = apply_shorthand(r, properties, Shorthand::MarginVertical);
    let mut cur = match r {
        Ok(m) => m,
        Err(e) => return Err(e),
    };
    let ghost start = cur;
    let n = properties.len();
    let mut i: usize = 0;
    while i < n
        invariant
            n == properties@.len(),
            i <= n,
            shorthand_pass(*node, properties@) == Ok::<BarNode, StoreError>(start),
            entries_pass(start, properties@.take(i as int)) == Ok::<BarNode, StoreError>(cur),
        decreases n - i,
    {
        assert(properties@.take(i + 1).drop_last() =~= properties@.take(i as int));
        let p = properties.entry(i);
        match apply_entry(cur, p) {
            Ok(m) => {
                cur = m;
            },
            Err(e) => {
                proof {
                    lemma_entries_pass_failed(start, properties@, i as int + 1);
                }
                return Err(e);
            },
        }
        i = i + 1;
    }
    assert(properties@.take(n as int) =~= properties@);
    Ok(cur)
}

proof fn lemma_entries_pass_failed(n: BarNode, s: Seq<Property>, i: int)
    requires
        0 <= i <= s.len(),
        entries_pass(n, s.take(i)) is Err,
    ensures
        entries_pass(n, s) == entries_pass(n, s.take(i)),
    decreases s.len() - i,
{
    if i < s.len() {
        assert(s.take(i + 1).drop_last() =~= s.take(i));
        lemma_entries_pass_failed(n, s, i + 1);
    } else {
        assert(s.take(i) =~= s);
    }
}

/// What `key_field` gives on the two padding names, and that neither is the
/// name of another shorthand.
proof fn lemma_padding_keys()
    ensures
        key_field("padding"@) == Some(Field::Shorthand(Shorthand::Padding)),
        key_field("padding_left"@) == Some(Field::Metric(MetricField::PaddingLeft)),
        forall|sh: Shorthand|
            sh != Shorthand::Padding ==> #[trigger] sh.key_spec() != "padding"@
                && sh.key_spec() != "padding_left"@,
        "padding"@ != "padding_left"@,
{
    reveal_strlit("label");
    reveal_strlit("label_color");
    reveal_strlit("icon");
    reveal_strlit("icon_color");
    reveal_strlit("font_weight");
    reveal_strlit("font_family");
    reveal_strlit("parent");
    reveal_strlit("background_color");
    reveal_strlit("border_color");
    reveal_strlit("shadow_color");
    reveal_strlit("notch_align");
    reveal_strlit("align_items");
    reveal_strlit("justify_content");
    reveal_strlit("hover_background_color");
    reveal_strlit("hover_label_color");
    reveal_strlit("hover_icon_color");
    reveal_strlit("on_click");
    reveal_strlit("image");
    reveal_strlit("image_scale");
    reveal_strlit("border_width");
    reveal_strlit("corner_radius");
    reveal_strlit("padding_left");
    reveal_strlit("padding_right");
    reveal_strlit("padding_top");
    reveal_strlit("padding_bottom");
    reveal_strlit("shadow_radius");
    reveal_strlit("width");
    reveal_strlit("height");
    reveal_strlit("gap");
    reveal_strlit("margin_left");
    reveal_strlit("margin_right");
    reveal_strlit("margin_top");
    reveal_strlit("margin_bottom");
    reveal_strlit("font_size");
    reveal_strlit("position");
    reveal_strlit("display");
    reveal_strlit("padding");
    reveal_strlit("padding_horizontal");
    reveal_strlit("padding_vertical");
    reveal_strlit("margin");
    reveal_strlit("margin_horizontal");
    reveal_strlit("margin_vertical");
    assert("padding"@.len() != "label"@.len());
    assert("padding"@.len() != "label_color"@.len());
    assert("padding"@.len() != "icon"@.len());
    assert("padding"@.len() != "icon_color"@.len());
    assert("padding"@.len() != "font_weight"@.len());
    assert("padding"@.len() != "font_family"@.len());
    assert("padding"@.len() != "parent"@.len());
    assert("padding"@.len() != "background_color"@.len());
    assert("padding"@.len() != "border_color"@.len());
    assert("padding"@.len() != "shadow_color"@.len());
    assert("padding"@.len() != "notch_align"@.len());
    assert("padding"@.len() != "align_items"@.len());
    assert("padding"@.len() != "justify_content"@.len());
    assert("padding"@.len() != "hover_background_color"@.len());
    assert("padding"@.len() != "hover_label_color"@.len());
    assert("padding"@.len() != "hover_icon_color"@.len());
    assert("padding"@.len() != "on_click"@.len());
    assert("padding"@.len() != "image"@.len());
    assert("padding"@.len() != "image_scale"@.len());
    assert("padding"@.len() != "border_width"@.len());
    assert("padding"@.len() != "corner_radius"@.len());
    assert("padding"@.len() != "padding_left"@.len());
    assert("padding"@.len() != "padding_right"@.len());
    assert("padding"@.len() != "padding_top"@.len());
    assert("padding"@.len() != "padding_bottom"@.len());
    assert("padding"@.len() != "shadow_radius"@.len());
    assert("padding"@.len() != "width"@.len());
    assert("padding"@.len() != "height"@.len());
    assert("padding"@.len() != "gap"@.len());
    assert("padding"@.len() != "margin_left"@.len());
    assert("padding"@.len() != "margin_right"@.len());
    assert("padding"@.len() != "margin_top"@.len());
    assert("padding"@.len() != "margin_bottom"@.len());
    assert("padding"@.len() != "font_size"@.len());
    assert("padding"@.len() != "position"@.len());
    assert("padding"@ != "display"@) by {
        assert("padding"@[0] != "display"@[0]);
    }
    assert("padding_left"@.len() != "label"@.len());
    assert("padding_left"@.len() != "label_color"@.len());
    assert("padding_left"@.len() != "icon"@.len());
    assert("padding_left"@.len() != "icon_color"@.len());
    assert("padding_left"@.len() != "font_weight"@.len());
    assert("padding_left"@.len() != "font_family"@.len());
    assert("padding_left"@.len() != "parent"@.len());
    assert("padding_left"@.len() != "background_color"@.len());
    assert("padding_left"@ != "border_color"@) by {
        assert("padding_left"@[0] != "border_color"@[0]);
    }
    assert("padding_left"@ != "shadow_color"@) by {
        assert("padding_left"@[0] != "shadow_color"@[0]);
    }
    assert("padding_left"@.len() != "notch_align"@.len());
    assert("padding_left"@.len() != "align_items"@.len());
    assert("padding_left"@.len() != "justify_content"@.len());
    assert("padding_left"@.len() != "hover_background_color"@.len());
    assert("padding_left"@.len() != "hover_label_color"@.len());
    assert("padding_left"@.len() != "hover_icon_color"@.len());
    assert("padding_left"@.len() != "on_click"@.len());
    assert("padding_left"@.len() != "image"@.len());
    assert("padding_left"@.len() != "image_scale"@.len());
    assert("padding_left"@ != "border_width"@) by {
        assert("padding_left"@[0] != "border_width"@[0]);
    }
    assert("padding_left"@.len() != "corner_radius"@.len());
    assert(key_field("padding"@) == Some(Field::Shorthand(Shorthand::Padding)));
    assert(key_field("padding_left"@) == Some(Field::Metric(MetricField::PaddingLeft)));
    assert("padding"@.len() != "padding_horizontal"@.len());
    assert("padding"@.len() != "padding_vertical"@.len());
    assert("padding"@.len() != "margin"@.len());
    assert("padding"@.len() != "margin_horizontal"@.len());
    assert("padding"@.len() != "margin_vertical"@.len());
    assert("padding_left"@.len() != "padding"@.len());
    assert("padding_left"@.len() != "padding_horizontal"@.len());
    assert("padding_left"@.len() != "padding_vertical"@.len());
    assert("padding_left"@.len() != "margin"@.len());
    assert("padding_left"@.len() != "margin_horizontal"@.len());
    assert("padding_left"@.len() != "margin_vertical"@.len());
    assert("padding"@.len() != "padding_left"@.len());
}

/// Within one bag, a padding edge given by name overrides the `padding`
/// shorthand, whichever entry comes first: the named edge takes its own
/// value and the three other edges take the shorthand's.
pub proof fn lemma_edge_overrides_shorthand(n: BarNode, a: Property, b: Property)
    requires
        a.key@ == "padding"@,
        b.key@ == "padding_left"@,
        a.metric is Some,
        b.metric is Some,
    ensures
        resolve(n, seq![a, b]) matches Ok(m) && m.style.padding_left == b.metric
            && m.style.padding_right == a.metric && m.style.padding_top == a.metric
            && m.style.padding_bottom == a.metric,
        resolve(n, seq![b, a]) matches Ok(m) && m.style.padding_left == b.metric
            && m.style.padding_right == a.metric && m.style.padding_top == a.metric
            && m.style.padding_bottom == a.metric,
{
    lemma_padding_keys();
    let s1 = seq![a, b];
    let s2 = seq![b, a];
    lemma_two_entry_lookup(s1, a, b);
    lemma_two_entry_lookup(s2, b, a);
    assert(s1.drop_last() =~= seq![a]);
    assert(s1.drop_last().drop_last() =~= Seq::<Property>::empty());
    assert(s2.drop_last() =~= seq![b]);
    assert(s2.drop_last().drop_last() =~= Seq::<Property>::empty());
    assert(key_field(a.key@) == Some(Field::Shorthand(Shorthand::Padding)));
    assert(key_field(b.key@) == Some(Field::Metric(MetricField::PaddingLeft)));
    let m1 = with_shorthand(n, Shorthand::Padding, a.metric->0);
    assert(shorthand_pass(n, s1) == Ok::<BarNode, StoreError>(m1));
    assert(shorthand_pass(n, s2) == Ok::<BarNode, StoreError>(m1));
    assert(seq![a].drop_last() =~= Seq::<Property>::empty());
    assert(seq![b].drop_last() =~= Seq::<Property>::empty());
    assert(entries_pass(m1, Seq::<Property>::empty()) == Ok::<BarNode, StoreError>(m1));
    assert(entry_step(m1, a) == Ok::<BarNode, StoreError>(m1));
    assert(entries_pass(m1, seq![a]) == Ok::<BarNode, StoreError>(m1));
    assert(entries_pass(m1, s1) == entry_step(m1, b));
    assert(entries_pass(m1, seq![b]) == entry_step(m1, b));
}

proof fn lemma_two_entry_lookup(s: Seq<Property>, a: Property, b: Property)
    requires
        s == seq![a, b],
    ensures
        forall|k: Seq<char>|
            #[trigger] lookup(s, k) == if a.key@ == k {
                Some(a)
            } else if b.key@ == k {
                Some(b)
            } else {
                None
            },
{
    assert forall|k: Seq<char>|
        #[trigger] lookup(s, k) == if a.key@ == k {
            Some(a)
        } else if b.key@ == k {
            Some(b)
        } else {
            None
        } by {
        if a.key@ == k {
            assert(first_with_key(s, k, 0));
            crate::props::lemma_first_unique(s, k, 0);
        } else if b.key@ == k {
            assert(first_with_key(s, k, 1));
            crate::props::lemma_first_unique(s, k, 1);
        } else {
            assert(!exists|i: int| first_with_key(s, k, i));
        }
    }
}

/// Applying a bag never renames a node nor changes its display.
pub proof fn lemma_resolve_keeps_identity(n: BarNode, props: Seq<Property>)
    ensures
        resolve(n, props) matches Ok(m) ==> m.name == n.name && m.display == n.display,
{
    let r1 = shorthand_step(Ok(n), props, Shorthand::Padding);
    let r2 = shorthand_step(r1, props, Shorthand::PaddingHorizontal);
    let r3 = shorthand_step(r2, props, Shorthand::PaddingVertical);
    let r4 = shorthand_step(r3, props, Shorthand::Margin);
    let r5 = shorthand_step(r4, props, Shorthand::MarginHorizontal);
    let r6 = shorthand_step(r5, props, Shorthand::MarginVertical);
    assert(r1 matches Ok(m) ==> m.name == n.name && m.display == n.display);
    assert(r2 matches Ok(m) ==> m.name == n.name && m.display == n.display);
    assert(r3 matches Ok(m) ==> m.name == n.name && m.display == n.display);
    assert(r4 matches Ok(m) ==> m.name == n.name && m.display == n.display);
    assert(r5 matches Ok(m) ==> m.name == n.name && m.display == n.display);
    assert(r6 matches Ok(m) ==> m.name == n.name && m.display == n.display);
    if let Ok(m) = r6 {
        lemma_entries_keep_identity(m, props);
    }
}

proof fn lemma_entries_keep_identity(n: BarNode, s: Seq<Property>)
    ensures
        entries_pass(n, s) matches Ok(m) ==> m.name == n.name && m.display == n.display,
    decreases s.len(),
{
    if s.len() > 0 {
        lemma_entries_keep_identity(n, s.drop_last());
        if let Ok(m) = entries_pass(n, s.drop_last()) {
            let p = s.last();
            match key_field(p.key@) {
                Some(Field::Text(f)) => {
                    assert(with_text(m, f, text_value(p.value)).name == m.name);
                    assert(with_text(m, f, text_value(p.value)).display == m.display);
                },
                Some(Field::Metric(f)) => {
                    assert(with_metric(m, f, None).name == m.name);
                    assert(with_metric(m, f, p.metric).display == m.display);
                    assert(with_metric(m, f, None).display == m.display);
                    assert(with_metric(m, f, p.metric).name == m.name);
                },
                _ => {},
            }
        }
    }
}

} // verus!
