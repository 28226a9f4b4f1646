use vstd::prelude::*;

verus! {

/// Define transformation between pixel coordinates and world coordinates for
/// an axis.
pub struct AxisTransform<'a, F> {
    label: &'a str,
    unit: &'a str,
    transform: F,
}

/// The name of an axis made of its label and unit: "label (unit)", or
/// whichever of the two is not empty.
pub open spec fn axis_name(label: Seq<char>, unit: Seq<char>) -> Seq<char> {
    if unit.len() == 0 {
        label
    } else if label.len() == 0 {
        unit
    } else {
        label + " ("@ + unit + ")"@
    }
}

impl<'a, F> AxisTransform<'a, F> {
    pub closed spec fn label_view(&self) -> Seq<char> {
        self.label@
    }

    pub closed spec fn unit_view(&self) -> Seq<char> {
        self.unit@
    }

    pub closed spec fn transform_view(&self) -> F {
        self.transform
    }

    /// Make a new axis transform with the given `label`, `unit` and `transform`
    /// function.
    pub fn new(label: &'a str, unit: &'a str, transform: F) -> (t: Self)
        ensures
            t.label_view() == label@,
            t.unit_view() == unit@,
            t.transform_view() == transform,
    {
        Self { label, unit, transform }
    }

    /// Get axis label.
    pub fn label(&self) -> (s: &str)
        ensures
            s@ == self.label_view(),
    {
        self.label
    }

    /// Get axis unit.
    pub fn unit(&self) -> (s: &str)
        ensures
            s@ == self.unit_view(),
    {
        self.unit
    }

    /// The function from pixel to world coordinates.
    pub fn transform(&self) -> (f: &F)
        ensures
            *f == self.transform_view(),
    {
        &self.transform
    }

    /// Get axis name (label and unit).
    pub fn name(&self) -> (s: String)
        ensures
            s@ == axis_name(self.label_view(), self.unit_view()),
    {
        proof {
            reveal_strlit(" (");
            reveal_strlit(")");
        }
        let label_empty = self.label.unicode_len() == 0;
        let unit_empty = self.unit.unicode_len() == 0;
        if unit_empty {
            String::from_str(self.label)
        } else if label_empty {
            String::from_str(self.unit)
        } else {
            let mut s = String::from_str(self.label);
            s.append(" (");
            s.append(self.unit);
            s.append(")");
            s
        }
    }

    /// Convenience function to get a None value.
    pub fn none() -> (r: Option<&'static Self>)
        ensures
            r is None,
    {
        None
    }
}

/// The transformation that keeps pixel coordinates.
#[derive(Copy, Clone, Debug)]
pub struct Identity;

impl Identity {
    /// Keep the coordinate as it is.
    pub fn apply<T>(&self, x: T) -> (y: T)
        ensures
            y == x,
    {
        x
    }
}

impl<'a> AxisTransform<'a, Identity> {
    /// Get the identity transformation. Keep pixel coordinates.
    pub fn id(label: &'a str, unit: &'a str) -> (t: Self)
        ensures
            t.label_view() == label@,
            t.unit_view() == unit@,
            t.transform_view() == Identity,
    {
        AxisTransform { label, unit, transform: Identity }
    }
}

} // verus!
