//! The node data model: node kinds, visual style and the node itself.
//!
//! Style metrics are kept as the IEEE-754 bit patterns of 32-bit floats:
//! the store moves them around and never computes with them.

use vstd::prelude::*;

verus! {

/// The kind of a node; every kind but `Item` may hold children.
#[derive(Debug, Clone, Copy, PartialEq, Eq)]
pub enum NodeType {
    Item,
    Row,
    Column,
    Box,
}

impl NodeType {
    /// Whether a node of this kind may be the parent of other nodes.
    pub open spec fn holds_children(self) -> bool {
        !(self is Item)
    }
}

/// Optional visual attributes of a node; `None` means unset.
#[derive(Debug)]
pub struct NodeStyle {
    pub background_color: Option<String>,
    pub border_color: Option<String>,
    pub border_width: Option<u32>,
    pub corner_radius: Option<u32>,
    pub padding_left: Option<u32>,
    pub padding_right: Option<u32>,
    pub padding_top: Option<u32>,
    pub padding_bottom: Option<u32>,
    pub shadow_color: Option<String>,
    pub shadow_radius: Option<u32>,
    pub width: Option<u32>,
    pub height: Option<u32>,
    pub gap: Option<u32>,
    pub margin_left: Option<u32>,
    pub margin_right: Option<u32>,
    pub margin_top: Option<u32>,
    pub margin_bottom: Option<u32>,
    pub notch_align: Option<String>,
    pub align_items: Option<String>,
    pub justify_content: Option<String>,
    pub hover_background_color: Option<String>,
    pub hover_label_color: Option<String>,
    pub hover_icon_color: Option<String>,
}

/// One layout element. Nodes refer to each other by name only.
#[derive(Debug)]
pub struct BarNode {
    pub name: String,
    pub node_type: NodeType,
    pub parent: Option<String>,
    pub position: i32,
    pub display: u32,
    pub display_explicit: bool,
    pub style: NodeStyle,
    pub label: Option<String>,
    pub label_color: Option<String>,
    pub icon: Option<String>,
    pub icon_color: Option<String>,
    pub font_size: Option<u32>,
    pub font_weight: Option<String>,
    pub font_family: Option<String>,
    pub on_click: Option<String>,
    pub image: Option<String>,
    pub image_scale: Option<u32>,
}

/// A copy of an optional string.
pub fn copy_text(t: &Option<String>) -> (r: Option<String>)
    ensures
        r == *t,
{
    match t {
        Some(s) => Some(s.clone()),
        None => None,
    }
}

impl NodeStyle {
    /// A style with every attribute unset.
    pub open spec fn unset() -> NodeStyle {
        NodeStyle {
            background_color: None,
            border_color: None,
            border_width: None,
            corner_radius: None,
            padding_left: None,
            padding_right: None,
            padding_top: None,
            padding_bottom: None,
            shadow_color: None,
            shadow_radius: None,
            width: None,
            height: None,
            gap: None,
            margin_left: None,
            margin_right: None,
            margin_top: None,
            margin_bottom: None,
            notch_align: None,
            align_items: None,
            justify_content: None,
            hover_background_color: None,
            hover_label_color: None,
            hover_icon_color: None,
        }
    }
}

impl Default for NodeStyle {
    fn default() -> (r: NodeStyle)
        ensures
            r == NodeStyle::unset(),
    {
        NodeStyle {
            background_color: None,
            border_color: None,
            border_width: None,
            corner_radius: None,
            padding_left: None,
            padding_right: None,
            padding_top: None,
            padding_bottom: None,
            shadow_color: None,
            shadow_radius: None,
            width: None,
            height: None,
            gap: None,
            margin_left: None,
            margin_right: None,
            margin_top: None,
            margin_bottom: None,
            notch_align: None,
            align_items: None,
            justify_content: None,
            hover_background_color: None,
            hover_label_color: None,
            hover_icon_color: None,
        }
    }
}

impl Clone for NodeStyle {
    fn clone(&self) -> (r: NodeStyle)
        ensures
            r == *self,
    {
        NodeStyle {
            background_color: copy_text(&self.background_color),
            border_color: copy_text(&self.border_color),
            border_width: self.border_width,
            corner_radius: self.corner_radius,
            padding_left: self.padding_left,
            padding_right: self.padding_right,
            padding_top: self.padding_top,
            padding_bottom: self.padding_bottom,
            shadow_color: copy_text(&self.shadow_color),
            shadow_radius: self.shadow_radius,
            width: self.width,
            height: self.height,
            gap: self.gap,
            margin_left: self.margin_left,
            margin_right: self.margin_right,
            margin_top: self.margin_top,
            margin_bottom: self.margin_bottom,
            notch_align: copy_text(&self.notch_align),
            align_items: copy_text(&self.align_items),
            justify_content: copy_text(&self.justify_content),
            hover_background_color: copy_text(&self.hover_background_color),
            hover_label_color: copy_text(&self.hover_label_color),
            hover_icon_color: copy_text(&self.hover_icon_color),
        }
    }
}

impl Clone for BarNode {
    fn clone(&self) -> (r: BarNode)
        ensures
            r == *self,
    {
        BarNode {
            name: self.name.clone(),
            node_type: self.node_type,
            parent: copy_text(&self.parent),
            position: self.position,
            display: self.display,
            display_explicit: self.display_explicit,
            style: self.style.clone(),
            label: copy_text(&self.label),
            label_color: copy_text(&self.label_color),
            icon: copy_text(&self.icon),
            icon_color: copy_text(&self.icon_color),
            font_size: self.font_size,
            font_weight: copy_text(&self.font_weight),
            font_family: copy_text(&self.font_family),
            on_click: copy_text(&self.on_click),
            image: copy_text(&self.image),
            image_scale: self.image_scale,
        }
    }
}

impl BarNode {
    /// A node with the given identity and placement and every optional
    /// attribute unset.
    pub open spec fn bare_spec(
        name: String,
        node_type: NodeType,
        parent: Option<String>,
        position: i32,
        display: u32,
    ) -> BarNode {
        BarNode {
            name,
            node_type,
            parent,
            position,
            display,
            display_explicit: false,
            style: NodeStyle::unset(),
            label: None,
            label_color: None,
            icon: None,
            icon_color: None,
            font_size: None,
            font_weight: None,
            font_family: None,
            on_click: None,
            image: None,
            image_scale: None,
        }
    }

    /// A node with the given identity and placement and every optional
    /// attribute unset.
    pub fn bare(
        name: String,
        node_type: NodeType,
        parent: Option<String>,
        position: i32,
        display: u32,
    ) -> (r: BarNode)
        ensures
            r == BarNode::bare_spec(name, node_type, parent, position, display),
    {
        BarNode {
            name,
            node_type,
            parent,
            position,
            display,
            display_explicit: false,
            style: NodeStyle::default(),
            label: None,
            label_color: None,
            icon: None,
            icon_color: None,
            font_size: None,
            font_weight: None,
            font_family: None,
            on_click: None,
            image: None,
            image_scale: None,
        }
    }
}

} // verus!
