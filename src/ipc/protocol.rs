//! The control protocol: requests, responses and the record of a node
//! that a query returns.
//!
//! Metrics are IEEE-754 bit patterns of 32-bit floats, as in the store.

use vstd::prelude::*;
use crate::node::{BarNode, NodeType};
use crate::props::Properties;
use crate::text::text_eq;

verus! {

/// The body of an `add` request: the new node's name and any attributes.
/// A shorthand (`padding`, `padding_horizontal`, ...) fills the edges that
/// are not given one by one; an axis wins over the all-edges form.
pub struct AddCommand {
    pub name: String,
    pub node_type: Option<String>,
    pub parent: Option<String>,
    pub label: Option<String>,
    pub label_color: Option<String>,
    pub icon: Option<String>,
    pub icon_color: Option<String>,
    pub background_color: Option<String>,
    pub border_color: Option<String>,
    pub border_width: Option<u32>,
    pub corner_radius: Option<u32>,
    pub padding_left: Option<u32>,
    pub padding_right: Option<u32>,
    pub padding_top: Option<u32>,
    pub padding_bottom: Option<u32>,
    pub shadow_color: Option<String>,
    pub shadow_radius: Option<u32>,
    pub width: Option<u32>,
    pub height: Option<u32>,
    pub gap: Option<u32>,
    pub margin_left: Option<u32>,
    pub margin_right: Option<u32>,
    pub margin_top: Option<u32>,
    pub margin_bottom: Option<u32>,
    pub padding: Option<u32>,
    pub padding_horizontal: Option<u32>,
    pub padding_vertical: Option<u32>,
    pub margin: Option<u32>,
    pub margin_horizontal: Option<u32>,
    pub margin_vertical: Option<u32>,
    pub font_size: Option<u32>,
    pub font_weight: Option<String>,
    pub font_family: Option<String>,
    pub notch_align: Option<String>,
    pub align_items: Option<String>,
    pub justify_content: Option<String>,
    pub hover_background_color: Option<String>,
    pub hover_label_color: Option<String>,
    pub hover_icon_color: Option<String>,
    pub on_click: Option<String>,
    pub position: Option<i32>,
    pub display: Option<u32>,
}

/// A request of the control protocol.
pub enum Command {
    Add(AddCommand),
    SetProperties { name: String, properties: Properties },
    Remove { name: String },
    Query { name: Option<String>, display: Option<u32> },
    Displays,
}

/// The record of a node that a query returns.
#[derive(Debug)]
pub struct NodeDto {
    pub name: String,
    pub node_type: String,
    pub parent: Option<String>,
    pub position: i32,
    pub display: u32,
    pub label: Option<String>,
    pub label_color: Option<String>,
    pub icon: Option<String>,
    pub icon_color: Option<String>,
    pub background_color: Option<String>,
    pub border_color: Option<String>,
    pub border_width: Option<u32>,
    pub corner_radius: Option<u32>,
    pub padding_left: Option<u32>,
    pub padding_right: Option<u32>,
    pub padding_top: Option<u32>,
    pub padding_bottom: Option<u32>,
    pub shadow_color: Option<String>,
    pub shadow_radius: Option<u32>,
    pub width: Option<u32>,
    pub height: Option<u32>,
    pub gap: Option<u32>,
    pub margin_left: Option<u32>,
    pub margin_right: Option<u32>,
    pub margin_top: Option<u32>,
    pub margin_bottom: Option<u32>,
    pub notch_align: Option<String>,
    pub align_items: Option<String>,
    pub justify_content: Option<String>,
    pub hover_background_color: Option<String>,
    pub hover_label_color: Option<String>,
    pub hover_icon_color: Option<String>,
    pub on_click: Option<String>,
    pub font_size: Option<u32>,
    pub font_weight: Option<String>,
    pub font_family: Option<String>,
    pub image: Option<String>,
    pub image_scale: Option<u32>,
    pub display_explicit: bool,
}

/// A display as the `displays` request lists it.
#[derive(Debug)]
pub struct DisplayDto {
    pub id: u32,
    pub name: String,
    pub is_main: bool,
}

/// A response of the control protocol.
pub enum Response {
    Success,
    Error { message: String },
    QueryResult { nodes: Vec<NodeDto> },
    DisplayList { displays: Vec<DisplayDto> },
}

/// The name of a node kind on the wire.
pub open spec fn kind_name(t: NodeType) -> Seq<char> {
    match t {
        NodeType::Item => "item"@,
        NodeType::Row => "row"@,
        NodeType::Column => "column"@,
        NodeType::Box => "box"@,
    }
}

impl NodeType {
    /// The name of the kind on the wire.
    pub fn name(&self) -> (r: String)
        ensures
            r@ == kind_name(*self),
    {
        match self {
            NodeType::Item => "item".to_owned(),
            NodeType::Row => "row".to_owned(),
            NodeType::Column => "column".to_owned(),
            NodeType::Box => "box".to_owned(),
        }
    }
}

/// The kind that a request names: `row`, `column` or `box`; anything
/// else, or nothing, is an item.
pub open spec fn type_of_name(t: Option<String>) -> NodeType {
    match t {
        Some(s) => if s@ == "row"@ {
            NodeType::Row
        } else if s@ == "column"@ {
            NodeType::Column
        } else if s@ == "box"@ {
            NodeType::Box
        } else {
            NodeType::Item
        },
        None => NodeType::Item,
    }
}

/// The kind that a request names.
pub fn node_type_of(t: &Option<String>) -> (r: NodeType)
    ensures
        r == type_of_name(*t),
{
    match t {
        Some(s) => if text_eq(s.as_str(), "row") {
            NodeType::Row
        } else if text_eq(s.as_str(), "column") {
            NodeType::Column
        } else if text_eq(s.as_str(), "box") {
            NodeType::Box
        } else {
            NodeType::Item
        },
        None => NodeType::Item,
    }
}

/// The first of `a`, `b`, `c` that is set.
pub open spec fn first_set(a: Option<u32>, b: Option<u32>, c: Option<u32>) -> Option<u32> {
    if a is Some {
        a
    } else if b is Some {
        b
    } else {
        c
    }
}

fn pick(a: Option<u32>, b: Option<u32>, c: Option<u32>) -> (r: Option<u32>)
    ensures
        r == first_set(a, b, c),
{
    if a.is_some() {
        a
    } else if b.is_some() {
        b
    } else {
        c
    }
}

/// The node that an `add` request describes, placed on display `display`;
/// it is pinned there when the request names a display.
pub open spec fn node_of_add(c: AddCommand, display: u32) -> BarNode {
    BarNode {
        name: c.name,
        node_type: type_of_name(c.node_type),
        parent: c.parent,
        position: match c.position {
            Some(p) => p,
            None => 0,
        },
        display,
        display_explicit: c.display is Some,
        style: crate::node::NodeStyle {
            background_color: c.background_color,
            border_color: c.border_color,
            border_width: c.border_width,
            corner_radius: c.corner_radius,
            padding_left: first_set(c.padding_left, c.padding_horizontal, c.padding),
            padding_right: first_set(c.padding_right, c.padding_horizontal, c.padding),
            padding_top: first_set(c.padding_top, c.padding_vertical, c.padding),
            padding_bottom: first_set(c.padding_bottom, c.padding_vertical, c.padding),
            shadow_color: c.shadow_color,
            shadow_radius: c.shadow_radius,
            width: c.width,
            height: c.height,
            gap: c.gap,
            margin_left: first_set(c.margin_left, c.margin_horizontal, c.margin),
            margin_right: first_set(c.margin_right, c.margin_horizontal, c.margin),
            margin_top: first_set(c.margin_top, c.margin_vertical, c.margin),
            margin_bottom: first_set(c.margin_bottom, c.margin_vertical, c.margin),
            notch_align: c.notch_align,
            align_items: c.align_items,
            justify_content: c.justify_content,
            hover_background_color: c.hover_background_color,
            hover_label_color: c.hover_label_color,
            hover_icon_color: c.hover_icon_color,
        },
        label: c.label,
        label_color: c.label_color,
        icon: c.icon,
        icon_color: c.icon_color,
        font_size: c.font_size,
        font_weight: c.font_weight,
        font_family: c.font_family,
        on_click: c.on_click,
        image: None,
        image_scale: None,
    }
}

impl AddCommand {
    /// The node that the request describes, placed on display `display`.
    pub fn into_node(self, display: u32) -> (r: BarNode)
        ensures
            r == node_of_add(self, display),
    {
        let node_type = node_type_of(&self.node_type);
        let explicit = self.display.is_some();
        BarNode {
            name: self.name,
            node_type,
            parent: self.parent,
            position: match self.position {
                Some(p) => p,
                None => 0,
            },
            display,
            display_explicit: explicit,
            style: crate::node::NodeStyle {
                background_color: self.background_color,
                border_color: self.border_color,
                border_width: self.border_width,
                corner_radius: self.corner_radius,
                padding_left: pick(self.padding_left, self.padding_horizontal, self.padding),
                padding_right: pick(self.padding_right, self.padding_horizontal, self.padding),
                padding_top: pick(self.padding_top, self.padding_vertical, self.padding),
                padding_bottom: pick(self.padding_bottom, self.padding_vertical, self.padding),
                shadow_color: self.shadow_color,
                shadow_radius: self.shadow_radius,
                width: self.width,
                height: self.height,
                gap: self.gap,
                margin_left: pick(self.margin_left, self.margin_horizontal, self.margin),
                margin_right: pick(self.margin_right, self.margin_horizontal, self.margin),
                margin_top: pick(self.margin_top, self.margin_vertical, self.margin),
                margin_bottom: pick(self.margin_bottom, self.margin_vertical, self.margin),
                notch_align: self.notch_align,
                align_items: self.align_items,
                justify_content: self.justify_content,
                hover_background_color: self.hover_background_color,
                hover_label_color: self.hover_label_color,
                hover_icon_color: self.hover_icon_color,
            },
            label: self.label,
            label_color: self.label_color,
            icon: self.icon,
            icon_color: self.icon_color,
            font_size: self.font_size,
            font_weight: self.font_weight,
            font_family: self.font_family,
            on_click: self.on_click,
            image: None,
            image_scale: None,
        }
    }
}

/// Whether `d` is the record of node `n`: every attribute, the style's
/// included, with the kind by its wire name.
pub open spec fn is_dto_of(d: NodeDto, n: BarNode) -> bool {
    &&& d.name == n.name
    &&& d.node_type@ == kind_name(n.node_type)
    &&& d.parent == n.parent
    &&& d.position == n.position
    &&& d.display == n.display
    &&& d.label == n.label
    &&& d.label_color == n.label_color
    &&& d.icon == n.icon
    &&& d.icon_color == n.icon_color
    &&& d.background_color == n.style.background_color
    &&& d.border_color == n.style.border_color
    &&& d.border_width == n.style.border_width
    &&& d.corner_radius == n.style.corner_radius
    &&& d.padding_left == n.style.padding_left
    &&& d.padding_right == n.style.padding_right
    &&& d.padding_top == n.style.padding_top
    &&& d.padding_bottom == n.style.padding_bottom
    &&& d.shadow_color == n.style.shadow_color
    &&& d.shadow_radius == n.style.shadow_radius
    &&& d.width == n.style.width
    &&& d.height == n.style.height
    &&& d.gap == n.style.gap
    &&& d.margin_left == n.style.margin_left
    &&& d.margin_right == n.style.margin_right
    &&& d.margin_top == n.style.margin_top
    &&& d.margin_bottom == n.style.margin_bottom
    &&& d.notch_align == n.style.notch_align
    &&& d.align_items == n.style.align_items
    &&& d.justify_content == n.style.justify_content
    &&& d.hover_background_color == n.style.hover_background_color
    &&& d.hover_label_color == n.style.hover_label_color
    &&& d.hover_icon_color == n.style.hover_icon_color
    &&& d.on_click == n.on_click
    &&& d.font_size == n.font_size
    &&& d.font_weight == n.font_weight
    &&& d.font_family == n.font_family
    &&& d.image == n.image
    &&& d.image_scale == n.image_scale
    &&& d.display_explicit == n.display_explicit
}

impl NodeDto {
    /// The record of `node`.
    pub fn from_node(node: BarNode) -> (r: NodeDto)
        ensures
            is_dto_of(r, node),
    {
        let node_type = node.node_type.name();
        NodeDto {
            name: node.name,
            node_type,
            parent: node.parent,
            position: node.position,
            display: node.display,
            label: node.label,
            label_color: node.label_color,
            icon: node.icon,
            icon_color: node.icon_color,
            background_color: node.style.background_color,
            border_color: node.style.border_color,
            border_width: node.style.border_width,
            corner_radius: node.style.corner_radius,
            padding_left: node.style.padding_left,
            padding_right: node.style.padding_right,
            padding_top: node.style.padding_top,
            padding_bottom: node.style.padding_bottom,
            shadow_color: node.style.shadow_color,
            shadow_radius: node.style.shadow_radius,
            width: node.style.width,
            height: node.style.height,
            gap: node.style.gap,
            margin_left: node.style.margin_left,
            margin_right: node.style.margin_right,
            margin_top: node.style.margin_top,
            margin_bottom: node.style.margin_bottom,
            notch_align: node.style.notch_align,
            align_items: node.style.align_items,
            justify_content: node.style.justify_content,
            hover_background_color: node.style.hover_background_color,
            hover_label_color: node.style.hover_label_color,
            hover_icon_color: node.style.hover_icon_color,
            on_click: node.on_click,
            font_size: node.font_size,
            font_weight: node.font_weight,
            font_family: node.font_family,
            image: node.image,
            image_scale: node.image_scale,
            display_explicit: node.display_explicit,
        }
    }
}

} // verus!
