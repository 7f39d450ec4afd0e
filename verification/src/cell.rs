use vstd::prelude::*;
use vstd::std_specs::cmp::PartialEqSpec;
use vstd::std_specs::cmp::PartialEqSpecImpl;

verus! {

/// A value that one pixel of a grid can hold.
pub trait Cell: Copy + PartialEq {
    /// The RGBA colour in which the cell is drawn.
    spec fn spec_colour(&self) -> Seq<u8>;

    fn colour(&self) -> (rgba: [u8; 4])
        ensures
            rgba@ == self.spec_colour(),
    ;
}

/// A cell of a cellular Potts model: it names the biological cell that owns the pixel.
pub trait CPMCell: Cell {
    /// The largest value that `id` returns.
    spec fn spec_max_id() -> usize;

    spec fn spec_is_bg(&self) -> bool;

    spec fn spec_id(&self) -> usize;

    spec fn spec_is_obstacle(&self) -> bool;

    fn max_id() -> (m: usize)
        ensures
            m == Self::spec_max_id(),
            m < usize::MAX,
    ;

    /// Whether the pixel belongs to the medium, that is to no cell.
    fn is_bg(&self) -> (bg: bool)
        ensures
            bg == self.spec_is_bg(),
    ;

    /// Whether the pixel belongs to an obstacle rather than to a motile cell.
    fn is_obstacle(&self) -> (obstacle: bool)
        ensures
            obstacle == self.spec_is_obstacle(),
    ;

    /// The index under which the trackers count this cell.
    fn id(&self) -> (id: usize)
        ensures
            id == self.spec_id(),
            id <= Self::spec_max_id(),
    ;

    /// Two cells are equal exactly when they have the same `id`, and equal cells agree on
    /// being background and on being an obstacle.
    proof fn lemma_identity(a: Self, b: Self)
        ensures
            Self::obeys_eq_spec(),
            a.eq_spec(&b) <==> (a.spec_id() == b.spec_id()),
            a.spec_id() == b.spec_id() ==> a.spec_is_bg() == b.spec_is_bg(),
            a.spec_id() == b.spec_id() ==> a.spec_is_obstacle() == b.spec_is_obstacle(),
            a.spec_id() <= Self::spec_max_id(),
    ;
}

/// A cell that remembers how recently its pixel was taken.
pub trait ActCell: CPMCell {
    spec fn spec_activity(&self) -> u8;

    /// The activity of the pixel: it is set when the pixel is taken and fades step by step.
    fn get_activity(&self) -> (activity: u8)
        ensures
            activity == self.spec_activity(),
    ;

    /// The same cell with another activity.
    fn with_activity(&self, activity: u8) -> (cell: Self)
        ensures
            cell.spec_activity() == activity,
            cell.spec_id() == self.spec_id(),
            cell.spec_is_bg() == self.spec_is_bg(),
            cell.spec_is_obstacle() == self.spec_is_obstacle(),
    ;
}

impl Cell for bool {
    open spec fn spec_colour(&self) -> Seq<u8> {
        if *self {
            seq![0xffu8, 0xffu8, 0xffu8, 0xffu8]
        } else {
            seq![0x00u8, 0x00u8, 0x00u8, 0xffu8]
        }
    }

    /// White where the cell is set, black where it is not.
    fn colour(&self) -> (rgba: [u8; 4]) {
        let rgba: [u8; 4] = if *self {
            [0xff, 0xff, 0xff, 0xff]
        } else {
            [0x00, 0x00, 0x00, 0xff]
        };
        assert(rgba@ =~= self.spec_colour());
        rgba
    }
}

/// The colour of a pixel of the medium.
pub open spec fn background_colour() -> Seq<u8> {
    seq![0xffu8, 0xffu8, 0xffu8, 0xffu8]
}

/// The colour of a pixel of an obstacle.
pub open spec fn obstacle_colour() -> Seq<u8> {
    seq![0x88u8, 0x88u8, 0x88u8, 0xffu8]
}

/// The colour of a pixel of a motile cell: red, three times as bright as the pixel is active,
/// and at its brightest from an activity of 85 on.
pub open spec fn activity_colour(activity: u8) -> Seq<u8> {
    let red: u8 = if activity >= 85 {
        0xff
    } else {
        (3 * activity) as u8
    };
    seq![red, 0x00u8, 0x00u8, 0xffu8]
}

/// A pixel of a cellular Potts model: the number of the cell instance (0 for the medium), the
/// activity, and whether the instance is an obstacle. Two pixels are equal when they belong
/// to the same instance, whatever their activities.
#[derive(Clone, Copy, Eq, Debug)]
pub struct ExampleCell(pub u8, pub u8, pub bool);

impl Default for ExampleCell {
    /// A pixel of the medium, without activity.
    fn default() -> (cell: Self)
        ensures
            cell == ExampleCell(0, 0, false),
    {
        ExampleCell(0, 0, false)
    }
}

impl PartialEq for ExampleCell {
    fn eq(&self, other: &Self) -> (r: bool) {
        self.0 == other.0 && self.2 == other.2
    }
}

impl PartialEqSpecImpl for ExampleCell {
    open spec fn obeys_eq_spec() -> bool {
        true
    }

    open spec fn eq_spec(&self, other: &Self) -> bool {
        self.0 == other.0 && self.2 == other.2
    }
}

impl ExampleCell {
    pub fn is_obstacle(&self) -> (r: bool)
        ensures
            r == self.2,
    {
        self.2
    }
}

impl Cell for ExampleCell {
    open spec fn spec_colour(&self) -> Seq<u8> {
        if self.0 == 0 {
            background_colour()
        } else if self.2 {
            obstacle_colour()
        } else {
            activity_colour(self.1)
        }
    }

    /// White for the medium, grey for an obstacle, and for a motile cell a red that is
    /// brighter in proportion to the activity of the pixel, up to the brightest red.
    fn colour(&self) -> (rgba: [u8; 4]) {
        let rgba: [u8; 4] = if self.is_bg() {
            [0xff, 0xff, 0xff, 0xff]
        } else if self.is_obstacle() {
            [0x88, 0x88, 0x88, 0xff]
        } else if self.1 >= 85 {
            [0xff, 0x00, 0x00, 0xff]
        } else {
            [3 * self.1, 0x00, 0x00, 0xff]
        };
        assert(rgba@ =~= self.spec_colour());
        rgba
    }
}

impl CPMCell for ExampleCell {
    open spec fn spec_max_id() -> usize {
        511
    }

    open spec fn spec_is_bg(&self) -> bool {
        self.0 == 0
    }

    open spec fn spec_id(&self) -> usize {
        (self.0 as int + if self.2 { 256int } else { 0int }) as usize
    }

    open spec fn spec_is_obstacle(&self) -> bool {
        self.2
    }

    fn max_id() -> (m: usize) {
        511
    }

    fn is_bg(&self) -> (bg: bool) {
        self.0 == 0
    }

    fn is_obstacle(&self) -> (obstacle: bool) {
        self.2
    }

    fn id(&self) -> (id: usize) {
        let high: usize = if self.2 { 256 } else { 0 };
        self.0 as usize + high
    }

    proof fn lemma_identity(a: Self, b: Self) {
    }
}

impl ActCell for ExampleCell {
    open spec fn spec_activity(&self) -> u8 {
        self.1
    }

    fn get_activity(&self) -> (activity: u8) {
        self.1
    }

    fn with_activity(&self, activity: u8) -> (cell: Self) {
        ExampleCell(self.0, activity, self.2)
    }
}

/// A pixel of a cellular Potts model: the number of the cell instance (0 for the medium), the
/// activity, and whether the instance is an obstacle. Two pixels are equal when they belong
/// to the same instance, whatever their activities.
#[derive(Clone, Copy, Eq, Debug)]
pub struct ActCPMCell(pub u8, pub u8, pub bool);

impl Default for ActCPMCell {
    /// A pixel of the medium, without activity.
    fn default() -> (cell: Self)
        ensures
            cell == ActCPMCell(0, 0, false),
    {
        ActCPMCell(0, 0, false)
    }
}

impl PartialEq for ActCPMCell {
    fn eq(&self, other: &Self) -> (r: bool) {
        self.0 == other.0 && self.2 == other.2
    }
}

impl PartialEqSpecImpl for ActCPMCell {
    open spec fn obeys_eq_spec() -> bool {
        true
    }

    open spec fn eq_spec(&self, other: &Self) -> bool {
        self.0 == other.0 && self.2 == other.2
    }
}

impl ActCPMCell {
    pub fn is_obstacle(self) -> (r: bool)
        ensures
            r == self.2,
    {
        self.2
    }
}

impl Cell for ActCPMCell {
    open spec fn spec_colour(&self) -> Seq<u8> {
        if self.0 == 0 {
            background_colour()
        } else if self.2 {
            obstacle_colour()
        } else {
            activity_colour(self.1)
        }
    }

    /// White for the medium, grey for an obstacle, and for a motile cell a red that is
    /// brighter in proportion to the activity of the pixel, up to the brightest red.
    fn colour(&self) -> (rgba: [u8; 4]) {
        let rgba: [u8; 4] = if self.is_bg() {
            [0xff, 0xff, 0xff, 0xff]
        } else if self.is_obstacle() {
            [0x88, 0x88, 0x88, 0xff]
        } else if self.1 >= 85 {
            [0xff, 0x00, 0x00, 0xff]
        } else {
            [3 * self.1, 0x00, 0x00, 0xff]
        };
        assert(rgba@ =~= self.spec_colour());
        rgba
    }
}

impl CPMCell for ActCPMCell {
    open spec fn spec_max_id() -> usize {
        511
    }

    open spec fn spec_is_bg(&self) -> bool {
        self.0 == 0
    }

    open spec fn spec_id(&self) -> usize {
        (self.0 as int + if self.2 { 256int } else { 0int }) as usize
    }

    open spec fn spec_is_obstacle(&self) -> bool {
        self.2
    }

    fn max_id() -> (m: usize) {
        511
    }

    fn is_bg(&self) -> (bg: bool) {
        self.0 == 0
    }

    fn is_obstacle(&self) -> (obstacle: bool) {
        self.2
    }

    fn id(&self) -> (id: usize) {
        let high: usize = if self.2 { 256 } else { 0 };
        self.0 as usize + high
    }

    proof fn lemma_identity(a: Self, b: Self) {
    }
}

impl ActCell for ActCPMCell {
    open spec fn spec_activity(&self) -> u8 {
        self.1
    }

    fn get_activity(&self) -> (activity: u8) {
        self.1
    }

    fn with_activity(&self, activity: u8) -> (cell: Self) {
        ActCPMCell(self.0, activity, self.2)
    }
}

} // verus!
