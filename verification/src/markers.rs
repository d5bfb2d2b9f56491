//! Markers attached to a test by `@pytest.mark.<name>` decorators.
use vstd::prelude::*;
use crate::text::{strs, copy_strings};

verus! {

#[derive(Debug)]
pub struct Marker {
    pub name: String,
    pub args: Vec<String>,
}

pub struct MarkerView {
    pub name: Seq<char>,
    pub args: Seq<Seq<char>>,
}

impl View for Marker {
    type V = MarkerView;

    open spec fn view(&self) -> MarkerView {
        MarkerView { name: self.name@, args: strs(self.args@) }
    }
}

/// The views of a sequence of markers.
pub open spec fn marker_views(v: Seq<Marker>) -> Seq<MarkerView> {
    v.map_values(|m: Marker| m@)
}

impl Clone for Marker {
    fn clone(&self) -> (r: Self)
        ensures
            r@ == self@,
    {
        Marker { name: self.name.clone(), args: copy_strings(&self.args) }
    }
}

/// A copy of `v` holding equal markers.
pub fn copy_markers(v: &Vec<Marker>) -> (r: Vec<Marker>)
    ensures
        marker_views(r@) == marker_views(v@),
{
    let mut r: Vec<Marker> = Vec::new();
    let mut i: usize = 0;
    while i < v.len()
        invariant
            i <= v@.len(),
            r@.len() == i,
            forall|j: int| 0 <= j < i ==> r@[j]@ == v@[j]@,
        decreases v@.len() - i,
    {
        let c = v[i].clone();
        r.push(c);
        i += 1;
    }
    assert(marker_views(r@) =~= marker_views(v@));
    r
}

} // verus!
