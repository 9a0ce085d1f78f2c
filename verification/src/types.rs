//! The Howick frameset model: a frameset names a unit, a steel profile and the
//! components (members) to roll, each with the machine operations along it.
use vstd::prelude::*;

verus! {

/// Unit of measurement. Howick machines work in millimetres.
#[derive(Debug, Clone, Copy, PartialEq, Eq, Structural)]
pub enum Unit {
    Millimetre,
}

/// The keyword that names a unit in a CSV file.
pub open spec fn unit_name(u: Unit) -> Seq<char> {
    match u {
        Unit::Millimetre => "MILLIMETRE"@,
    }
}

impl Unit {
    pub fn as_str(&self) -> (s: &'static str)
        ensures
            s@ == unit_name(*self),
    {
        match self {
            Unit::Millimetre => "MILLIMETRE",
        }
    }
}

/// Steel profile specification.
/// e.g. S8908 = Standard C-section, 89mm web, 0.8mm gauge (approximate).
#[derive(Debug, Clone, PartialEq)]
pub struct Profile {
    pub code: String,
    pub description: String,
}

#[verifier::ext_equal]
pub struct ProfileView {
    pub code: Seq<char>,
    pub description: Seq<char>,
}

impl View for Profile {
    type V = ProfileView;

    open spec fn view(&self) -> ProfileView {
        ProfileView { code: self.code@, description: self.description@ }
    }
}

/// Label orientation on the printed inkjet label.
/// LABEL_INV = inverted (C-section facing one direction).
/// LABEL_NRM = normal (C-section facing the other direction).
/// Pairs of INV/NRM members are mirror images — both required for each position in a truss or wall.
#[derive(Debug, Clone, Copy, PartialEq, Eq, Structural)]
pub enum LabelOrientation {
    Normal,
    Inverted,
}

/// The keyword that names a label orientation in a CSV file.
pub open spec fn label_name(l: LabelOrientation) -> Seq<char> {
    match l {
        LabelOrientation::Normal => "LABEL_NRM"@,
        LabelOrientation::Inverted => "LABEL_INV"@,
    }
}

impl LabelOrientation {
    pub fn as_str(&self) -> (s: &'static str)
        ensures
            s@ == label_name(*self),
    {
        match self {
            LabelOrientation::Normal => "LABEL_NRM",
            LabelOrientation::Inverted => "LABEL_INV",
        }
    }
}

/// A length or position in millimetres, measured from the start (feed end) of
/// a member, held as the decimal literal that writes it (e.g. `3945.0`,
/// `20.65`). The parser only ever builds one from a floating-point literal
/// of the grammar that std documents for `f64::from_str`.
#[derive(Debug, Clone, PartialEq)]
pub struct Millimetres {
    pub literal: String,
}

impl View for Millimetres {
    type V = Seq<char>;

    open spec fn view(&self) -> Seq<char> {
        self.literal@
    }
}

impl Millimetres {
    pub fn as_str(&self) -> (s: &str)
        ensures
            s@ == self@,
    {
        self.literal.as_str()
    }
}

/// The kinds of machine operation.
#[derive(Debug, Clone, Copy, PartialEq, Eq, Structural)]
pub enum OperationKind {
    Dimple,
    LipCut,
    Swage,
    Web,
    EndTruss,
    Notch,
    ServiceHole,
}

/// The keyword that names an operation in a CSV file.
pub open spec fn operation_name(k: OperationKind) -> Seq<char> {
    match k {
        OperationKind::Dimple => "DIMPLE"@,
        OperationKind::LipCut => "LIP_CUT"@,
        OperationKind::Swage => "SWAGE"@,
        OperationKind::Web => "WEB"@,
        OperationKind::EndTruss => "END_TRUSS"@,
        OperationKind::Notch => "NOTCH"@,
        OperationKind::ServiceHole => "SERVICE_HOLE"@,
    }
}

/// A machine operation with its position along the member in mm.
/// All positions are measured from the start (feed end) of the member.
#[derive(Debug, Clone, PartialEq)]
pub enum Operation {
    /// Dimple punch — raised bump for screw location.
    /// Dimples come in pairs ~50mm apart at each stud connection point.
    Dimple(Millimetres),
    /// Lip cut — cuts the lip of the C-section at a connection notch.
    /// Comes in pairs ~0.16mm apart defining the slot width.
    LipCut(Millimetres),
    /// Swage — crimp/deformation of the steel at chord-to-web joints in trusses.
    Swage(Millimetres),
    /// Web punch — hole through the web for services (pipes, cables, bolts).
    Web(Millimetres),
    /// End truss cut — marks the truss end cut angle position.
    /// Always comes in pairs: (length, 0.0) for the two ends.
    EndTruss(Millimetres),
    /// Notch — a rectangular cutout in the flange, used where members intersect.
    /// Comes in pairs: (position_far, position_near) defining the notch extents.
    Notch(Millimetres),
    /// Service hole — larger punched hole for building services (electrical conduit,
    /// plumbing, HVAC). Distinct from WEB holes: SERVICE_HOLE is for services,
    /// WEB is for structural bolts/connections.
    ServiceHole(Millimetres),
}

/// An operation as its kind and the literal of its position.
#[verifier::ext_equal]
pub struct OperationView {
    pub kind: OperationKind,
    pub position: Seq<char>,
}

impl View for Operation {
    type V = OperationView;

    open spec fn view(&self) -> OperationView {
        match self {
            Operation::Dimple(p) => OperationView { kind: OperationKind::Dimple, position: p@ },
            Operation::LipCut(p) => OperationView { kind: OperationKind::LipCut, position: p@ },
            Operation::Swage(p) => OperationView { kind: OperationKind::Swage, position: p@ },
            Operation::Web(p) => OperationView { kind: OperationKind::Web, position: p@ },
            Operation::EndTruss(p) => OperationView { kind: OperationKind::EndTruss, position: p@ },
            Operation::Notch(p) => OperationView { kind: OperationKind::Notch, position: p@ },
            Operation::ServiceHole(p) => OperationView {
                kind: OperationKind::ServiceHole,
                position: p@,
            },
        }
    }
}

impl Operation {
    /// Builds the operation of the given kind at `position`.
    pub fn new(kind: OperationKind, position: Millimetres) -> (op: Operation)
        ensures
            op@ == (OperationView { kind, position: position@ }),
    {
        match kind {
            OperationKind::Dimple => Operation::Dimple(position),
            OperationKind::LipCut => Operation::LipCut(position),
            OperationKind::Swage => Operation::Swage(position),
            OperationKind::Web => Operation::Web(position),
            OperationKind::EndTruss => Operation::EndTruss(position),
            OperationKind::Notch => Operation::Notch(position),
            OperationKind::ServiceHole => Operation::ServiceHole(position),
        }
    }

    pub fn name(&self) -> (s: &'static str)
        ensures
            s@ == operation_name(self@.kind),
    {
        match self {
            Operation::Dimple(_) => "DIMPLE",
            Operation::LipCut(_) => "LIP_CUT",
            Operation::Swage(_) => "SWAGE",
            Operation::Web(_) => "WEB",
            Operation::EndTruss(_) => "END_TRUSS",
            Operation::Notch(_) => "NOTCH",
            Operation::ServiceHole(_) => "SERVICE_HOLE",
        }
    }

    pub fn position(&self) -> (p: &Millimetres)
        ensures
            p@ == self@.position,
    {
        match self {
            Operation::Dimple(p) => p,
            Operation::LipCut(p) => p,
            Operation::Swage(p) => p,
            Operation::Web(p) => p,
            Operation::EndTruss(p) => p,
            Operation::Notch(p) => p,
            Operation::ServiceHole(p) => p,
        }
    }
}

/// A single steel member to be produced by the machine.
#[derive(Debug, Clone, PartialEq)]
pub struct Component {
    /// Unique identifier within the frameset. e.g. "T1-1"
    pub id: String,
    /// Label orientation printed on the member.
    pub label: LabelOrientation,
    /// Number of identical pieces required.
    pub quantity: u32,
    /// Cut length in mm.
    pub length_mm: Millimetres,
    /// Ordered list of machine operations along the member.
    /// Operations are interleaved in the CSV as: OP_NAME,position,OP_NAME,position,...
    pub operations: Vec<Operation>,
}

#[verifier::ext_equal]
pub struct ComponentView {
    pub id: Seq<char>,
    pub label: LabelOrientation,
    pub quantity: u32,
    pub length_mm: Seq<char>,
    pub operations: Seq<OperationView>,
}

/// The views of a sequence of operations.
pub open spec fn operation_views(ops: Seq<Operation>) -> Seq<OperationView> {
    Seq::new(ops.len(), |i: int| ops[i]@)
}

impl View for Component {
    type V = ComponentView;

    open spec fn view(&self) -> ComponentView {
        ComponentView {
            id: self.id@,
            label: self.label,
            quantity: self.quantity,
            length_mm: self.length_mm@,
            operations: operation_views(self.operations@),
        }
    }
}

/// A complete frameset — all components for one truss, wall panel, or floor panel.
#[derive(Debug, Clone, PartialEq)]
pub struct Frameset {
    /// Name of this frameset. e.g. "T1" (Truss 1), "W1" (Wall 1).
    pub name: String,
    /// Unit of measurement.
    pub unit: Unit,
    /// Steel profile specification.
    pub profile: Profile,
    /// All components in this frameset.
    pub components: Vec<Component>,
}

#[verifier::ext_equal]
pub struct FramesetView {
    pub name: Seq<char>,
    pub unit: Unit,
    pub profile: ProfileView,
    pub components: Seq<ComponentView>,
}

/// The views of a sequence of components.
pub open spec fn component_views(cs: Seq<Component>) -> Seq<ComponentView> {
    Seq::new(cs.len(), |i: int| cs[i]@)
}

impl View for Frameset {
    type V = FramesetView;

    open spec fn view(&self) -> FramesetView {
        FramesetView {
            name: self.name@,
            unit: self.unit,
            profile: self.profile@,
            components: component_views(self.components@),
        }
    }
}

} // verus!
