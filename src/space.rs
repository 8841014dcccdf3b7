//! The two-dimensional space: its named bases and the collider that works in it.
use vstd::prelude::*;

verus! {

/// A degree of freedom: the name that stands for its unit direction in
/// equations, and the short axis name used in variable suffixes.
#[derive(Clone, Copy, Debug)]
pub struct Basis {
    pub name: &'static str,
    pub axis: &'static str,
}

/// The plane: two linear degrees of freedom and one angular one.
#[derive(Clone, Copy, Debug)]
pub struct Space2D {}

/// The unit of each linear degree of freedom of the plane and its axis.
pub open spec fn linear_bases_spec() -> Seq<(Seq<char>, Seq<char>)> {
    seq![("hati"@, "x"@), ("hatj"@, "y"@)]
}

/// The unit of the angular degree of freedom of the plane and its axis.
pub open spec fn angular_bases_spec() -> Seq<(Seq<char>, Seq<char>)> {
    seq![("hatk"@, "theta"@)]
}

pub open spec fn bases_view(v: Seq<Basis>) -> Seq<(Seq<char>, Seq<char>)> {
    v.map_values(|b: Basis| (b.name@, b.axis@))
}

impl Space2D {
    pub const LINEAR_DOF: usize = 2;
    pub const ANGULAR_DOF: usize = 1;

    /// `hati` along `x`, then `hatj` along `y`.
    pub fn linear_bases() -> (r: Vec<Basis>)
        ensures
            bases_view(r@) == linear_bases_spec(),
    {
        let mut v: Vec<Basis> = Vec::new();
        v.push(Basis { name: "hati", axis: "x" });
        v.push(Basis { name: "hatj", axis: "y" });
        proof { assert(bases_view(v@) =~= linear_bases_spec()); }
        v
    }

    /// `hatk` about `theta`.
    pub fn angular_bases() -> (r: Vec<Basis>)
        ensures
            bases_view(r@) == angular_bases_spec(),
    {
        let mut v: Vec<Basis> = Vec::new();
        v.push(Basis { name: "hatk", axis: "theta" });
        proof { assert(bases_view(v@) =~= angular_bases_spec()); }
        v
    }
}

/// Finds contacts between convex polygons in the plane.
#[derive(Clone, Copy, Debug)]
pub struct Collide2D {}

impl Collide2D {
    pub fn new() -> (r: Collide2D) {
        Collide2D {}
    }
}

} // verus!
