//! The architectural data model: kinds of walls, openings and dimensions,
//! and the checks that compare two floorplans.

use vstd::prelude::*;

verus! {

#[derive(Debug, Clone, Copy, PartialEq, Eq, Hash, Structural)]
pub enum WallKind {
    Exterior,
    Interior,
    Partition,
    Unknown,
}

#[derive(Debug, Clone, Copy, PartialEq, Eq, Structural)]
pub enum OpeningKind {
    Door,
    Window,
    Pass,
}

#[derive(Debug, Clone, Copy, PartialEq, Eq, Structural)]
pub enum Side {
    Left,
    Right,
}

#[derive(Debug, Clone, Copy)]
pub struct DoorSwing {
    pub hinge_side: Side,
    pub opens_inward: bool,
}

#[derive(Debug, Clone, Copy, PartialEq, Eq, Structural)]
pub enum DimensionKind {
    Linear,
    Aligned,
    Angular,
    Diameter,
    Radius,
}

#[derive(Debug, Clone, Copy, PartialEq, Eq, Structural)]
pub enum Axis {
    X,
    Y,
    Diagonal,
}

/// How labels are compared when two floorplans are checked.
#[derive(Debug, Clone, Copy, PartialEq, Eq, Structural)]
pub enum LabelMatch {
    Strict,
    Normalized,
    Ignore,
}

#[derive(Debug, Clone)]
pub enum Difference {
    WallCountMismatch { a: usize, b: usize },
    OpeningCountMismatch { a: usize, b: usize },
    RoomCountMismatch { a: usize, b: usize },
    DimensionCountMismatch { a: usize, b: usize },
    Other(String),
}

#[derive(Debug, Clone)]
pub enum EquivalenceResult {
    Equivalent,
    Different { differences: Vec<Difference> },
}

/// How many walls, openings, rooms and dimensions a floorplan has.
#[derive(Debug, Clone, Copy, PartialEq, Eq, Structural)]
pub struct ElementCounts {
    pub walls: usize,
    pub openings: usize,
    pub rooms: usize,
    pub dimensions: usize,
}

/// The count mismatches between `a` and `b`, in the order walls,
/// openings, rooms, dimensions.
pub open spec fn count_differences(a: ElementCounts, b: ElementCounts) -> Seq<Difference> {
    (if a.walls != b.walls {
        seq![Difference::WallCountMismatch { a: a.walls, b: b.walls }]
    } else {
        seq![]
    }) + (if a.openings != b.openings {
        seq![Difference::OpeningCountMismatch { a: a.openings, b: b.openings }]
    } else {
        seq![]
    }) + (if a.rooms != b.rooms {
        seq![Difference::RoomCountMismatch { a: a.rooms, b: b.rooms }]
    } else {
        seq![]
    }) + (if a.dimensions != b.dimensions {
        seq![Difference::DimensionCountMismatch { a: a.dimensions, b: b.dimensions }]
    } else {
        seq![]
    })
}

/// Compares the element counts of two floorplans: equivalent when no count
/// differs, otherwise each count that differs.
pub fn check_equivalence(a: &ElementCounts, b: &ElementCounts) -> (r: EquivalenceResult)
    ensures
        match r {
            EquivalenceResult::Equivalent => count_differences(*a, *b).len() == 0,
            EquivalenceResult::Different { differences } => differences@ == count_differences(
                *a,
                *b,
            ) && differences@.len() > 0,
        },
        (r is Equivalent) == (a.walls == b.walls && a.openings == b.openings && a.rooms == b.rooms
            && a.dimensions == b.dimensions),
{
    let mut diffs: Vec<Difference> = Vec::new();
    if a.walls != b.walls {
        diffs.push(Difference::WallCountMismatch { a: a.walls, b: b.walls });
    }
    if a.openings != b.openings {
        diffs.push(Difference::OpeningCountMismatch { a: a.openings, b: b.openings });
    }
    if a.rooms != b.rooms {
        diffs.push(Difference::RoomCountMismatch { a: a.rooms, b: b.rooms });
    }
    if a.dimensions != b.dimensions {
        diffs.push(Difference::DimensionCountMismatch { a: a.dimensions, b: b.dimensions });
    }
    assert(diffs@ =~= count_differences(*a, *b));
    proof {
        lemma_differences_name_each_mismatch(*a, *b);
    }
    if diffs.len() == 0 {
        EquivalenceResult::Equivalent
    } else {
        EquivalenceResult::Different { differences: diffs }
    }
}

/// The mismatches of two floorplans name exactly the counts that differ:
/// there is none when all four counts agree; the walls, openings, rooms
/// and dimensions each give a mismatch, with both counts, just when their
/// counts differ; and nothing else is listed.
pub proof fn lemma_differences_name_each_mismatch(a: ElementCounts, b: ElementCounts)
    ensures
        (count_differences(a, b).len() == 0) == (a.walls == b.walls && a.openings == b.openings
            && a.rooms == b.rooms && a.dimensions == b.dimensions),
        count_differences(a, b).contains(Difference::WallCountMismatch { a: a.walls, b: b.walls })
            == (a.walls != b.walls),
        count_differences(a, b).contains(
            Difference::OpeningCountMismatch { a: a.openings, b: b.openings },
        ) == (a.openings != b.openings),
        count_differences(a, b).contains(Difference::RoomCountMismatch { a: a.rooms, b: b.rooms })
            == (a.rooms != b.rooms),
        count_differences(a, b).contains(
            Difference::DimensionCountMismatch { a: a.dimensions, b: b.dimensions },
        ) == (a.dimensions != b.dimensions),
        count_differences(a, b).len() == (if a.walls != b.walls { 1int } else { 0 }) + (
        if a.openings != b.openings {
            1int
        } else {
            0
        }) + (if a.rooms != b.rooms { 1int } else { 0 }) + (if a.dimensions != b.dimensions {
            1int
        } else {
            0
        }),
        forall|k: int|
            0 <= k < count_differences(a, b).len() ==> !(#[trigger] count_differences(a, b)[k] is Other),
{
    let w = if a.walls != b.walls {
        seq![Difference::WallCountMismatch { a: a.walls, b: b.walls }]
    } else {
        seq![]
    };
    let o = if a.openings != b.openings {
        seq![Difference::OpeningCountMismatch { a: a.openings, b: b.openings }]
    } else {
        seq![]
    };
    let r = if a.rooms != b.rooms {
        seq![Difference::RoomCountMismatch { a: a.rooms, b: b.rooms }]
    } else {
        seq![]
    };
    let d = if a.dimensions != b.dimensions {
        seq![Difference::DimensionCountMismatch { a: a.dimensions, b: b.dimensions }]
    } else {
        seq![]
    };
    let all = count_differences(a, b);
    assert(all == w + o + r + d);
    let (nw, no, nr) = (w.len() as int, o.len() as int, r.len() as int);
    assert forall|k: int| 0 <= k < all.len() implies {
        &&& (k < nw ==> all[k] == w[k])
        &&& (nw <= k < nw + no ==> all[k] == o[k - nw])
        &&& (nw + no <= k < nw + no + nr ==> all[k] == r[k - nw - no])
        &&& (nw + no + nr <= k ==> all[k] == d[k - nw - no - nr])
    } by {}
    if a.walls != b.walls {
        assert(all[0] == Difference::WallCountMismatch { a: a.walls, b: b.walls });
    }
    if a.openings != b.openings {
        assert(all[nw] == Difference::OpeningCountMismatch { a: a.openings, b: b.openings });
    }
    if a.rooms != b.rooms {
        assert(all[nw + no] == Difference::RoomCountMismatch { a: a.rooms, b: b.rooms });
    }
    if a.dimensions != b.dimensions {
        assert(all[nw + no + nr] == Difference::DimensionCountMismatch {
            a: a.dimensions,
            b: b.dimensions,
        });
    }
}

/// A floorplan is equivalent to itself.
pub proof fn lemma_equivalence_reflexive(a: ElementCounts)
    ensures
        count_differences(a, a).len() == 0,
{
    assert(count_differences(a, a) =~= Seq::<Difference>::empty());
}

/// Equivalence does not depend on the order of the two floorplans.
pub proof fn lemma_equivalence_symmetric(a: ElementCounts, b: ElementCounts)
    ensures
        (count_differences(a, b).len() == 0) == (count_differences(b, a).len() == 0),
{
}

/// The number of manual cleanup operations a user had to perform after
/// a round trip: the proxy for "opens without redraw".
#[derive(Debug, Clone, Copy, Default, PartialEq, Eq, Structural)]
pub struct CleanupMetric {
    pub layer_renames: u32,
    pub dimension_text_fixes: u32,
    pub label_position_fixes: u32,
    pub block_replacements: u32,
    pub gap_closures: u32,
    pub other: u32,
}

pub open spec fn metric_total(m: CleanupMetric) -> int {
    m.layer_renames + m.dimension_text_fixes + m.label_position_fixes + m.block_replacements
        + m.gap_closures + m.other
}

impl CleanupMetric {
    /// All cleanup operations together.
    pub fn total(&self) -> (t: u32)
        requires
            metric_total(*self) <= u32::MAX,
        ensures
            t == metric_total(*self),
    {
        self.layer_renames + self.dimension_text_fixes + self.label_position_fixes
            + self.block_replacements + self.gap_closures + self.other
    }

    /// Whether the cleanup stays within `threshold` operations.
    pub fn passes_threshold(&self, threshold: u32) -> (b: bool)
        requires
            metric_total(*self) <= u32::MAX,
        ensures
            b == (metric_total(*self) <= threshold),
    {
        self.total() <= threshold
    }
}

/// The name of a wall kind, as reports spell it.
pub fn wall_kind_name(k: WallKind) -> (r: &'static str)
    ensures
        r@ == (match k {
            WallKind::Exterior => "Exterior"@,
            WallKind::Interior => "Interior"@,
            WallKind::Partition => "Partition"@,
            WallKind::Unknown => "Unknown"@,
        }),
{
    match k {
        WallKind::Exterior => "Exterior",
        WallKind::Interior => "Interior",
        WallKind::Partition => "Partition",
        WallKind::Unknown => "Unknown",
    }
}

/// The name of an opening kind, as reports spell it.
pub fn opening_kind_name(k: OpeningKind) -> (r: &'static str)
    ensures
        r@ == (match k {
            OpeningKind::Door => "Door"@,
            OpeningKind::Window => "Window"@,
            OpeningKind::Pass => "Pass"@,
        }),
{
    match k {
        OpeningKind::Door => "Door",
        OpeningKind::Window => "Window",
        OpeningKind::Pass => "Pass",
    }
}

} // verus!
