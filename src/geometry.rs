use vstd::prelude::*;

verus! {

/// An axis-aligned rectangle in virtual-desktop pixel coordinates.
#[derive(Debug, Clone, Copy, Default, PartialEq, Eq, Structural)]
pub struct Rectangle {
    pub min_x: i32,
    pub max_x: i32,
    pub min_y: i32,
    pub max_y: i32,
}

/// Whether an integer fits in an `i32`.
pub open spec fn fits_i32(v: int) -> bool {
    i32::MIN <= v <= i32::MAX
}

impl Rectangle {
    /// The bounds are ordered on both axes.
    pub open spec fn wf(&self) -> bool {
        self.min_x <= self.max_x && self.min_y <= self.max_y
    }

    pub open spec fn width_spec(&self) -> int {
        self.max_x - self.min_x
    }

    pub open spec fn height_spec(&self) -> int {
        self.max_y - self.min_y
    }

    /// Translating all four bounds stays within `i32`.
    pub open spec fn can_move_by(&self, x: int, y: int) -> bool {
        fits_i32(self.min_x + x) && fits_i32(self.max_x + x) && fits_i32(self.min_y + y)
            && fits_i32(self.max_y + y)
    }

    /// The rectangle translated by `(x, y)`.
    pub open spec fn moved_by_spec(&self, x: int, y: int) -> Rectangle {
        Rectangle {
            min_x: (self.min_x + x) as i32,
            max_x: (self.max_x + x) as i32,
            min_y: (self.min_y + y) as i32,
            max_y: (self.max_y + y) as i32,
        }
    }

    /// Shifting the rectangle to the origin stays within `i32`.
    pub open spec fn can_normalize(&self) -> bool {
        fits_i32(self.max_x - self.min_x) && fits_i32(self.max_y - self.min_y)
    }

    /// The rectangle with the same size whose minimum corner is the origin.
    pub open spec fn normalized_spec(&self) -> Rectangle {
        Rectangle {
            min_x: 0,
            max_x: (self.max_x - self.min_x) as i32,
            min_y: 0,
            max_y: (self.max_y - self.min_y) as i32,
        }
    }

    /// Width and height of the rectangle.
    pub fn resolution(&self) -> (r: (u32, u32))
        requires
            self.wf(),
        ensures
            r.0 == self.width_spec(),
            r.1 == self.height_spec(),
    {
        let w = self.max_x as i64 - self.min_x as i64;
        let h = self.max_y as i64 - self.min_y as i64;
        (w as u32, h as u32)
    }

    /// Moves the rectangle so that its minimum corner is the origin.
    pub fn normalize(&mut self) -> (r: &mut Self)
        requires
            old(self).can_normalize(),
        ensures
            *r == old(self).normalized_spec(),
            *final(self) == *final(r),
    {
        self.max_x = self.max_x - self.min_x;
        self.max_y = self.max_y - self.min_y;
        self.min_x = 0;
        self.min_y = 0;
        self
    }

    /// A copy of the rectangle moved to the origin.
    pub fn normalized(&self) -> (r: Rectangle)
        requires
            self.can_normalize(),
        ensures
            r == self.normalized_spec(),
    {
        let mut clone = *self;
        clone.normalize();
        clone
    }

    /// Translates all four bounds by `(x, y)`.
    pub fn move_by(&mut self, x: i32, y: i32) -> (r: &mut Self)
        requires
            old(self).can_move_by(x as int, y as int),
        ensures
            *r == old(self).moved_by_spec(x as int, y as int),
            *final(self) == *final(r),
    {
        self.min_x = self.min_x + x;
        self.max_x = self.max_x + x;
        self.min_y = self.min_y + y;
        self.max_y = self.max_y + y;
        self
    }

    /// A copy of the rectangle translated by `(x, y)`.
    pub fn moved_by(&self, x: i32, y: i32) -> (r: Rectangle)
        requires
            self.can_move_by(x as int, y as int),
        ensures
            r == self.moved_by_spec(x as int, y as int),
    {
        let mut clone = *self;
        clone.move_by(x, y);
        clone
    }
}

/// A physical display: a human-readable label and its bounds.
#[derive(Debug, Clone, Default)]
pub struct Display {
    pub name: String,
    pub bounds: Rectangle,
}

impl View for Display {
    type V = (Seq<char>, Rectangle);

    open spec fn view(&self) -> (Seq<char>, Rectangle) {
        (self.name@, self.bounds)
    }
}

/// The displays of a virtual desktop, in the order they are matched with sources,
/// and the rectangle that spans them.
#[derive(Debug, Clone, Default)]
pub struct DisplayConfiguration {
    pub bounds: Rectangle,
    pub displays: Vec<Display>,
}

/// The smallest rectangle that holds every rectangle of `rs`.
pub open spec fn union_of(rs: Seq<Rectangle>) -> Rectangle
    decreases rs.len(),
{
    if rs.len() <= 1 {
        rs[0]
    } else {
        let u = union_of(rs.drop_last());
        let r = rs.last();
        Rectangle {
            min_x: if r.min_x < u.min_x { r.min_x } else { u.min_x },
            max_x: if r.max_x > u.max_x { r.max_x } else { u.max_x },
            min_y: if r.min_y < u.min_y { r.min_y } else { u.min_y },
            max_y: if r.max_y > u.max_y { r.max_y } else { u.max_y },
        }
    }
}

/// The bounds of each display of `ds`.
pub open spec fn bounds_of(ds: Seq<(Seq<char>, Rectangle)>) -> Seq<Rectangle> {
    ds.map_values(|d: (Seq<char>, Rectangle)| d.1)
}

/// The views of a sequence of displays.
pub open spec fn views_of(ds: Seq<Display>) -> Seq<(Seq<char>, Rectangle)> {
    ds.map_values(|d: Display| d@)
}

/// Translating every rectangle of `c` to the origin of its bounds stays within `i32`.
pub open spec fn config_normalizable(c: (Rectangle, Seq<(Seq<char>, Rectangle)>)) -> bool {
    let (b, ds) = c;
    &&& b.can_normalize()
    &&& fits_i32(-b.min_x)
    &&& fits_i32(-b.min_y)
    &&& forall|i: int| 0 <= i < ds.len() ==> #[trigger] ds[i].1.can_move_by(-b.min_x, -b.min_y)
}

/// The configuration translated so that its bounds start at the origin.
pub open spec fn normalized_config(
    c: (Rectangle, Seq<(Seq<char>, Rectangle)>),
) -> (Rectangle, Seq<(Seq<char>, Rectangle)>) {
    let (b, ds) = c;
    (
        b.normalized_spec(),
        ds.map_values(
            |d: (Seq<char>, Rectangle)| (d.0, d.1.moved_by_spec(-b.min_x, -b.min_y)),
        ),
    )
}

impl View for DisplayConfiguration {
    type V = (Rectangle, Seq<(Seq<char>, Rectangle)>);

    open spec fn view(&self) -> (Rectangle, Seq<(Seq<char>, Rectangle)>) {
        (self.bounds, views_of(self.displays@))
    }
}

impl DisplayConfiguration {
    /// There is at least one display, and `bounds` is the union of their bounds.
    pub open spec fn wf(&self) -> bool {
        &&& self.displays.len() > 0
        &&& self.bounds == union_of(bounds_of(self@.1))
    }

    /// Translating every rectangle to the origin of `bounds` stays within `i32`.
    pub open spec fn can_normalize(&self) -> bool {
        config_normalizable(self@)
    }

    /// Builds the configuration of `displays`, whose bounds span all of them.
    pub fn from_displays(displays: Vec<Display>) -> (r: DisplayConfiguration)
        requires
            displays.len() > 0,
        ensures
            r.displays@ == displays@,
            r.wf(),
    {
        let mut bounds = displays[0].bounds;
        let mut i: usize = 1;
        while i < displays.len()
            invariant
                1 <= i <= displays.len(),
                bounds == union_of(bounds_of(views_of(displays@).take(i as int))),
            decreases displays.len() - i,
        {
            let r = displays[i].bounds;
            if r.min_x < bounds.min_x {
                bounds.min_x = r.min_x;
            }
            if r.max_x > bounds.max_x {
                bounds.max_x = r.max_x;
            }
            if r.min_y < bounds.min_y {
                bounds.min_y = r.min_y;
            }
            if r.max_y > bounds.max_y {
                bounds.max_y = r.max_y;
            }
            proof {
                let s = bounds_of(views_of(displays@).take(i + 1));
                assert(s.drop_last() =~= bounds_of(views_of(displays@).take(i as int)));
            }
            i = i + 1;
        }
        proof {
            assert(views_of(displays@).take(displays.len() as int)
                =~= views_of(displays@));
        }
        DisplayConfiguration { bounds, displays }
    }

    /// Translates every display so that the bounds start at the origin.
    pub fn normalize(&mut self) -> (r: &mut Self)
        requires
            old(self).can_normalize(),
        ensures
            r@ == normalized_config(old(self)@),
            *final(self) == *final(r),
    {
        let dx = -self.bounds.min_x;
        let dy = -self.bounds.min_y;
        let mut moved: Vec<Display> = Vec::new();
        let mut i: usize = 0;
        while i < self.displays.len()
            invariant
                self == old(self),
                dx == -self.bounds.min_x,
                dy == -self.bounds.min_y,
                self.can_normalize(),
                0 <= i <= self.displays.len(),
                moved.len() == i,
                views_of(moved@) =~= normalized_config(self@).1.take(i as int),
            decreases self.displays.len() - i,
        {
            let d = &self.displays[i];
            assert(self@.1[i as int] == d@);
            assert(self@.1[i as int].1.can_move_by(-self.bounds.min_x, -self.bounds.min_y));
            let bounds = d.bounds.moved_by(dx, dy);
            moved.push(Display { name: d.name.clone(), bounds });
            assert(views_of(moved@)[i as int] == normalized_config(self@).1[i as int]);
            i = i + 1;
        }
        self.displays = moved;
        self.bounds.normalize();
        proof {
            assert(normalized_config(old(self)@).1.take(old(self).displays.len() as int)
                =~= normalized_config(old(self)@).1);
        }
        self
    }

    /// A copy of the configuration translated to the origin.
    pub fn normalized(&self) -> (r: DisplayConfiguration)
        requires
            self.can_normalize(),
        ensures
            r@ == normalized_config(self@),
    {
        let mut clone = DisplayConfiguration { bounds: self.bounds, displays: Vec::new() };
        let mut i: usize = 0;
        while i < self.displays.len()
            invariant
                clone.bounds == self.bounds,
                0 <= i <= self.displays.len(),
                clone.displays.len() == i,
                views_of(clone.displays@) =~= self@.1.take(i as int),
            decreases self.displays.len() - i,
        {
            let d = &self.displays[i];
            clone.displays.push(Display { name: d.name.clone(), bounds: d.bounds });
            assert(views_of(clone.displays@)[i as int] == self@.1[i as int]);
            i = i + 1;
        }
        assert(self@.1.take(self.displays.len() as int) =~= self@.1);
        clone.normalize();
        clone
    }
}

} // verus!

verus! {

/// Every rectangle of a non-empty sequence lies within the sequence's union.
pub proof fn lemma_union_contains(rs: Seq<Rectangle>, i: int)
    requires
        0 <= i < rs.len(),
    ensures
        union_of(rs).min_x <= rs[i].min_x,
        union_of(rs).max_x >= rs[i].max_x,
        union_of(rs).min_y <= rs[i].min_y,
        union_of(rs).max_y >= rs[i].max_y,
    decreases rs.len(),
{
    if rs.len() > 1 && i < rs.len() - 1 {
        lemma_union_contains(rs.drop_last(), i);
    }
}

} // verus!

verus! {

/// Normalizing is idempotent: a normalized configuration can be normalized again, and
/// that changes nothing.
pub proof fn lemma_normalize_idempotent(c: DisplayConfiguration)
    requires
        c.can_normalize(),
    ensures
        config_normalizable(normalized_config(c@)),
        normalized_config(normalized_config(c@)) == normalized_config(c@),
{
    let n = normalized_config(c@);
    assert forall|i: int| 0 <= i < n.1.len() implies #[trigger] n.1[i].1.can_move_by(
        -n.0.min_x,
        -n.0.min_y,
    ) by {}
    assert(normalized_config(n).1 =~= n.1);
}

/// Translating a rectangle keeps its width and height, and keeps it well-formed.
pub proof fn lemma_move_keeps_resolution(r: Rectangle, dx: i32, dy: i32)
    requires
        r.can_move_by(dx as int, dy as int),
    ensures
        r.moved_by_spec(dx as int, dy as int).width_spec() == r.width_spec(),
        r.moved_by_spec(dx as int, dy as int).height_spec() == r.height_spec(),
        r.wf() ==> r.moved_by_spec(dx as int, dy as int).wf(),
{
}

/// Normalizing moves the bounds to the origin and every display by the same offset,
/// so the displays keep their positions relative to each other and their sizes.
pub proof fn lemma_normalize_keeps_layout(c: DisplayConfiguration, i: int, j: int)
    requires
        c.can_normalize(),
        0 <= i < c.displays.len(),
        0 <= j < c.displays.len(),
    ensures
        ({
            let n = normalized_config(c@);
            let (a, b) = (n.1[i].1, n.1[j].1);
            let (a0, b0) = (c.displays[i].bounds, c.displays[j].bounds);
            &&& n.0.min_x == 0 && n.0.min_y == 0
            &&& n.0.width_spec() == c.bounds.width_spec()
            &&& n.0.height_spec() == c.bounds.height_spec()
            &&& a.min_x - a0.min_x == -c.bounds.min_x
            &&& a.min_y - a0.min_y == -c.bounds.min_y
            &&& a.min_x - b.min_x == a0.min_x - b0.min_x
            &&& a.min_y - b.min_y == a0.min_y - b0.min_y
            &&& a.width_spec() == a0.width_spec()
            &&& a.height_spec() == a0.height_spec()
            &&& n.1[i].0 == c.displays[i].name@
        }),
{
    assert(c@.1[i] == c.displays[i]@);
    assert(c@.1[j] == c.displays[j]@);
    assert(c@.1[i].1.can_move_by(-c.bounds.min_x, -c.bounds.min_y));
    assert(c@.1[j].1.can_move_by(-c.bounds.min_x, -c.bounds.min_y));
}

} // verus!

verus! {

/// Normalizing a well-formed configuration gives bounds from the origin to the size of
/// the union of the displays, and every display lies inside them: a canvas of that size
/// holds every display region.
pub proof fn lemma_normalized_bounds_hold_displays(c: DisplayConfiguration)
    requires
        c.wf(),
        c.can_normalize(),
        forall|i: int| 0 <= i < c.displays.len() ==> (#[trigger] c.displays[i].bounds).wf(),
    ensures
        ({
            let n = normalized_config(c@);
            &&& n.0.min_x == 0 && n.0.min_y == 0
            &&& n.0.max_x == union_of(bounds_of(c@.1)).width_spec()
            &&& n.0.max_y == union_of(bounds_of(c@.1)).height_spec()
            &&& n.1.len() == c.displays.len()
            &&& forall|i: int|
                0 <= i < n.1.len() ==> {
                    &&& (#[trigger] n.1[i]).1.wf()
                    &&& 0 <= n.1[i].1.min_x && n.1[i].1.max_x <= n.0.max_x
                    &&& 0 <= n.1[i].1.min_y && n.1[i].1.max_y <= n.0.max_y
                }
        }),
{
    let n = normalized_config(c@);
    let rs = bounds_of(c@.1);
    assert forall|i: int| 0 <= i < n.1.len() implies {
        &&& (#[trigger] n.1[i]).1.wf()
        &&& 0 <= n.1[i].1.min_x && n.1[i].1.max_x <= n.0.max_x
        &&& 0 <= n.1[i].1.min_y && n.1[i].1.max_y <= n.0.max_y
    } by {
        assert(c@.1[i] == c.displays[i]@);
        assert(rs[i] == c.displays[i].bounds);
        lemma_union_contains(rs, i);
        assert(c@.1[i].1.can_move_by(-c.bounds.min_x, -c.bounds.min_y));
    }
}

} // verus!
