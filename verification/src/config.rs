//! The user-interface components a window layout can place.

use vstd::prelude::*;

verus! {

/// A component with a fixed place in the window.
#[derive(PartialEq, Eq, Structural, Debug, Clone)]
pub enum FixedComponent {
    ItemList,
}

/// A component that lives in one of the movable panels.
#[derive(PartialEq, Eq, Structural, Debug, Clone)]
pub enum PanelComponent {
    FolderTree,
    ItemProperties,
}

/// Any placeable component.
#[derive(PartialEq, Eq, Structural, Debug, Clone)]
pub enum Component {
    Fixed(FixedComponent),
    Panel(PanelComponent),
}

} // verus!
