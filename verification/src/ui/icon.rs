use vstd::prelude::*;

verus! {

/// The size of an icon.
#[derive(Debug, Clone, Copy, PartialEq, Eq, Structural)]
pub enum IconSize {
    Small,
    Medium,
    Large,
}

/// The style classes of an icon size.
pub open spec fn size_classes(size: IconSize) -> Seq<char> {
    match size {
        IconSize::Small => "w-9 h-9"@,
        IconSize::Medium => "w-12 h-12"@,
        IconSize::Large => "w-16 h-16"@,
    }
}

impl IconSize {
    /// The style classes of this size.
    pub fn to_class(&self) -> (c: String)
        ensures
            c@ == size_classes(*self),
    {
        match self {
            IconSize::Small => String::from_str("w-9 h-9"),
            IconSize::Medium => String::from_str("w-12 h-12"),
            IconSize::Large => String::from_str("w-16 h-16"),
        }
    }
}

/// An icon of a tool, with its size.
#[derive(Debug, Clone, Copy, PartialEq, Eq, Structural)]
pub enum IconType {
    Axis(IconSize),
    BooleanIntersect(IconSize),
    BooleanSubtract(IconSize),
    BooleanUnion(IconSize),
    Chamfer(IconSize),
    Cube(IconSize),
    Delete(IconSize),
    Dimension(IconSize),
    Duplicate(IconSize),
    Export(IconSize),
    Extrude(IconSize),
    Fillet(IconSize),
    GridSnap(IconSize),
    Group(IconSize),
    Import(IconSize),
    Layers(IconSize),
    Mirror(IconSize),
    Move(IconSize),
    Orbit(IconSize),
    Redo(IconSize),
    Rotate(IconSize),
    Scale(IconSize),
    SectionCut(IconSize),
    Select(IconSize),
    Sketch(IconSize),
    SolidView(IconSize),
    Undo(IconSize),
    Wireframe(IconSize),
    ZoomFit(IconSize),
}

/// The address of an icon's image.
pub open spec fn icon_url(icon: IconType) -> Seq<char> {
    match icon {
        IconType::Axis(_) => "/assets/icons/axis.svg"@,
        IconType::BooleanIntersect(_) => "/assets/icons/boolean-intersect.svg"@,
        IconType::BooleanSubtract(_) => "/assets/icons/boolean-subtract.svg"@,
        IconType::BooleanUnion(_) => "/assets/icons/boolean-union.svg"@,
        IconType::Chamfer(_) => "/assets/icons/chamfer.svg"@,
        IconType::Cube(_) => "/assets/icons/cube.svg"@,
        IconType::Delete(_) => "/assets/icons/delete.svg"@,
        IconType::Dimension(_) => "/assets/icons/dimension.svg"@,
        IconType::Duplicate(_) => "/assets/icons/duplicate.svg"@,
        IconType::Export(_) => "/assets/icons/export.svg"@,
        IconType::Extrude(_) => "/assets/icons/extrude.svg"@,
        IconType::Fillet(_) => "/assets/icons/fillet.svg"@,
        IconType::GridSnap(_) => "/assets/icons/grid-snap.svg"@,
        IconType::Group(_) => "/assets/icons/group.svg"@,
        IconType::Import(_) => "/assets/icons/import.svg"@,
        IconType::Layers(_) => "/assets/icons/layers.svg"@,
        IconType::Mirror(_) => "/assets/icons/mirror.svg"@,
        IconType::Move(_) => "/assets/icons/move.svg"@,
        IconType::Orbit(_) => "/assets/icons/orbit.svg"@,
        IconType::Redo(_) => "/assets/icons/redo.svg"@,
        IconType::Rotate(_) => "/assets/icons/rotate.svg"@,
        IconType::Scale(_) => "/assets/icons/scale.svg"@,
        IconType::SectionCut(_) => "/assets/icons/section-cut.svg"@,
        IconType::Select(_) => "/assets/icons/select.svg"@,
        IconType::Sketch(_) => "/assets/icons/sketch.svg"@,
        IconType::SolidView(_) => "/assets/icons/solid-view.svg"@,
        IconType::Undo(_) => "/assets/icons/undo.svg"@,
        IconType::Wireframe(_) => "/assets/icons/wireframe.svg"@,
        IconType::ZoomFit(_) => "/assets/icons/zoom-fit.svg"@,
    }
}

/// The size of an icon.
pub open spec fn icon_size(icon: IconType) -> IconSize {
    match icon {
        IconType::Axis(s) | IconType::BooleanIntersect(s) | IconType::BooleanSubtract(s)
        | IconType::BooleanUnion(s) | IconType::Chamfer(s) | IconType::Cube(s) | IconType::Delete(
            s,
        ) | IconType::Dimension(s) | IconType::Duplicate(s) | IconType::Export(s)
        | IconType::Extrude(s) | IconType::Fillet(s) | IconType::GridSnap(s) | IconType::Group(s)
        | IconType::Import(s) | IconType::Layers(s) | IconType::Mirror(s) | IconType::Move(s)
        | IconType::Orbit(s) | IconType::Redo(s) | IconType::Rotate(s) | IconType::Scale(s)
        | IconType::SectionCut(s) | IconType::Select(s) | IconType::Sketch(s)
        | IconType::SolidView(s) | IconType::Undo(s) | IconType::Wireframe(s)
        | IconType::ZoomFit(s) => s,
    }
}

impl IconType {
    /// The address of this icon's image.
    pub fn to_url(&self) -> (u: &'static str)
        ensures
            u@ == icon_url(*self),
    {
        match self {
            IconType::Axis(_) => "/assets/icons/axis.svg",
            IconType::BooleanIntersect(_) => "/assets/icons/boolean-intersect.svg",
            IconType::BooleanSubtract(_) => "/assets/icons/boolean-subtract.svg",
            IconType::BooleanUnion(_) => "/assets/icons/boolean-union.svg",
            IconType::Chamfer(_) => "/assets/icons/chamfer.svg",
            IconType::Cube(_) => "/assets/icons/cube.svg",
            IconType::Delete(_) => "/assets/icons/delete.svg",
            IconType::Dimension(_) => "/assets/icons/dimension.svg",
            IconType::Duplicate(_) => "/assets/icons/duplicate.svg",
            IconType::Export(_) => "/assets/icons/export.svg",
            IconType::Extrude(_) => "/assets/icons/extrude.svg",
            IconType::Fillet(_) => "/assets/icons/fillet.svg",
            IconType::GridSnap(_) => "/assets/icons/grid-snap.svg",
            IconType::Group(_) => "/assets/icons/group.svg",
            IconType::Import(_) => "/assets/icons/import.svg",
            IconType::Layers(_) => "/assets/icons/layers.svg",
            IconType::Mirror(_) => "/assets/icons/mirror.svg",
            IconType::Move(_) => "/assets/icons/move.svg",
            IconType::Orbit(_) => "/assets/icons/orbit.svg",
            IconType::Redo(_) => "/assets/icons/redo.svg",
            IconType::Rotate(_) => "/assets/icons/rotate.svg",
            IconType::Scale(_) => "/assets/icons/scale.svg",
            IconType::SectionCut(_) => "/assets/icons/section-cut.svg",
            IconType::Select(_) => "/assets/icons/select.svg",
            IconType::Sketch(_) => "/assets/icons/sketch.svg",
            IconType::SolidView(_) => "/assets/icons/solid-view.svg",
            IconType::Undo(_) => "/assets/icons/undo.svg",
            IconType::Wireframe(_) => "/assets/icons/wireframe.svg",
            IconType::ZoomFit(_) => "/assets/icons/zoom-fit.svg",
        }
    }

    /// The size of this icon.
    pub fn size(&self) -> (s: IconSize)
        ensures
            s == icon_size(*self),
    {
        match self {
            IconType::Axis(s) | IconType::BooleanIntersect(s) | IconType::BooleanSubtract(s)
            | IconType::BooleanUnion(s) | IconType::Chamfer(s) | IconType::Cube(s)
            | IconType::Delete(s) | IconType::Dimension(s) | IconType::Duplicate(s)
            | IconType::Export(s) | IconType::Extrude(s) | IconType::Fillet(s)
            | IconType::GridSnap(s) | IconType::Group(s) | IconType::Import(s)
            | IconType::Layers(s) | IconType::Mirror(s) | IconType::Move(s) | IconType::Orbit(s)
            | IconType::Redo(s) | IconType::Rotate(s) | IconType::Scale(s)
            | IconType::SectionCut(s) | IconType::Select(s) | IconType::Sketch(s)
            | IconType::SolidView(s) | IconType::Undo(s) | IconType::Wireframe(s)
            | IconType::ZoomFit(s) => *s,
        }
    }

    /// The style classes of this icon: `inline-block shrink-0` and those of
    /// its size.
    pub fn size_class(&self) -> (c: String)
        ensures
            c@ == "inline-block shrink-0 "@ + size_classes(icon_size(*self)),
    {
        let size = self.size();
        let prefix = String::from_str("inline-block shrink-0 ");
        let classes = size.to_class();
        prefix.concat(classes.as_str())
    }

    /// The style that masks a tool button with this icon's image.
    pub fn mask_style(&self) -> (s: String)
        ensures
            s@ == "mask-image: url("@ + icon_url(*self)
                + "); mask-size: contain; mask-repeat: no-repeat; mask-position: center;"@,
    {
        let start = String::from_str("mask-image: url(");
        let with_url = start.concat(self.to_url());
        with_url.concat("); mask-size: contain; mask-repeat: no-repeat; mask-position: center;")
    }
}

} // verus!
