use vstd::prelude::*;

verus! {

/// The size of a rectangular board.
pub trait BoardGeometry {
    spec fn spec_width(&self) -> i16;

    spec fn spec_height(&self) -> i16;

    fn width(&self) -> (r: i16)
        ensures
            r == self.spec_width(),
    ;

    fn height(&self) -> (r: i16)
        ensures
            r == self.spec_height(),
    ;
}

/// A size fixed by the type, which stores nothing.
pub struct StaticGeometry<const WIDTH: u8, const HEIGHT: u8>;

impl<const WIDTH: u8, const HEIGHT: u8> BoardGeometry for StaticGeometry<WIDTH, HEIGHT> {
    open spec fn spec_width(&self) -> i16 {
        WIDTH as i16
    }

    open spec fn spec_height(&self) -> i16 {
        HEIGHT as i16
    }

    fn width(&self) -> (r: i16) {
        WIDTH as i16
    }

    fn height(&self) -> (r: i16) {
        HEIGHT as i16
    }
}

/// A size chosen at run time.
pub struct DynGeometry {
    pub width: i16,
    pub height: i16,
}

impl DynGeometry {
    /// A size of `width` columns and `height` rows; neither may be negative.
    pub fn new(width: i16, height: i16) -> (r: DynGeometry)
        requires
            width >= 0,
            height >= 0,
        ensures
            r.width == width,
            r.height == height,
    {
        DynGeometry { width, height }
    }
}

impl BoardGeometry for DynGeometry {
    open spec fn spec_width(&self) -> i16 {
        self.width
    }

    open spec fn spec_height(&self) -> i16 {
        self.height
    }

    fn width(&self) -> (r: i16) {
        self.width
    }

    fn height(&self) -> (r: i16) {
        self.height
    }
}

} // verus!
