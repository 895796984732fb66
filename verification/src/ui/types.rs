use vstd::prelude::*;

verus! {

/// The identifier of a command.
#[derive(Debug, Clone, Copy, Hash, PartialEq, Eq, Structural)]
pub struct CommandId(u64);

impl CommandId {
    /// The number that the identifier wraps.
    pub closed spec fn number(&self) -> u64 {
        self.0
    }

    /// The identifier of number `n`.
    pub fn new(n: u64) -> (id: Self)
        ensures
            id.number() == n,
    {
        CommandId(n)
    }

    /// The number that the identifier wraps.
    pub fn value(&self) -> (n: u64)
        ensures
            n == self.number(),
    {
        self.0
    }
}

/// A tool that creates a feature.
#[derive(Debug, Clone, Copy, PartialEq, Eq, Hash, Structural)]
pub enum FeatureTool {
    Body,
    Sketch,
}

/// A tool that draws in a sketch.
#[derive(Debug, Clone, Copy, PartialEq, Eq, Hash, Structural)]
pub enum SketchTool {
    Line,
    Circle,
    Rectangle,
}

/// What the user works on: features (the default) or a sketch.
#[derive(Debug, Clone, Copy, PartialEq, Eq, Hash, Structural)]
pub enum PerspectiveKind {
    Feature,
    Sketch,
}

/// Why a text names no perspective.
#[derive(Debug, Clone, PartialEq, Eq)]
pub enum PerspectiveError {
    /// The text, which is neither `Feature` nor `Sketch`.
    Invalid(String),
}

/// The name of a perspective.
pub open spec fn perspective_name(kind: PerspectiveKind) -> Seq<char> {
    match kind {
        PerspectiveKind::Feature => "Feature"@,
        PerspectiveKind::Sketch => "Sketch"@,
    }
}

/// The perspective that a text names exactly, if any.
pub open spec fn perspective_named(text: Seq<char>) -> Option<PerspectiveKind> {
    if text == "Feature"@ {
        Some(PerspectiveKind::Feature)
    } else if text == "Sketch"@ {
        Some(PerspectiveKind::Sketch)
    } else {
        None
    }
}

/// Reading back the name of a perspective gives the perspective, and the two
/// perspectives have different names.
pub proof fn law_perspective_name_reads_back(kind: PerspectiveKind, other: PerspectiveKind)
    ensures
        perspective_named(perspective_name(kind)) == Some(kind),
        kind != other ==> perspective_name(kind) != perspective_name(other),
{
    reveal_strlit("Feature");
    reveal_strlit("Sketch");
    assert("Feature"@.len() != "Sketch"@.len());
}

impl Default for PerspectiveKind {
    fn default() -> (k: Self)
        ensures
            k == PerspectiveKind::Feature,
    {
        PerspectiveKind::Feature
    }
}

impl PerspectiveKind {
    /// The perspective that `text` names exactly (`Feature` or `Sketch`); an
    /// error that holds the text otherwise.
    pub fn from_string(text: &str) -> (r: Result<PerspectiveKind, PerspectiveError>)
        ensures
            match perspective_named(text@) {
                Some(kind) => r == Ok::<PerspectiveKind, PerspectiveError>(kind),
                None => r matches Err(PerspectiveError::Invalid(t)) && t@ == text@,
            },
    {
        proof {
            reveal_strlit("Feature");
            reveal_strlit("Sketch");
            assert("Feature"@.len() != "Sketch"@.len());
        }
        let owned = text.to_owned();
        if owned == String::from_str("Feature") {
            Ok(PerspectiveKind::Feature)
        } else if owned == String::from_str("Sketch") {
            Ok(PerspectiveKind::Sketch)
        } else {
            Err(PerspectiveError::Invalid(owned))
        }
    }

    /// The name of the perspective, which [`PerspectiveKind::from_string`]
    /// reads back.
    pub fn as_str(&self) -> (s: &'static str)
        ensures
            s@ == perspective_name(*self),
    {
        match self {
            PerspectiveKind::Feature => "Feature",
            PerspectiveKind::Sketch => "Sketch",
        }
    }
}

impl std::str::FromStr for PerspectiveKind {
    type Err = PerspectiveError;

    fn from_str(s: &str) -> (r: Result<Self, Self::Err>)
        ensures
            match perspective_named(s@) {
                Some(kind) => r == Ok::<PerspectiveKind, PerspectiveError>(kind),
                None => r matches Err(PerspectiveError::Invalid(t)) && t@ == s@,
            },
    {
        Self::from_string(s)
    }
}

} // verus!
