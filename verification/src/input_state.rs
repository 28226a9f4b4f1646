use vstd::prelude::*;

use crate::text::{decimal, push_decimal};

verus! {

/// The regions of interest drawn on an image: how many were made, their
/// names, and which one is selected.
pub struct RoiInputState {
    pub roi_id_cnt: usize,
    pub roi_names: Vec<String>,
    pub selected: usize,
}

impl RoiInputState {
    pub fn new() -> (s: Self)
        ensures
            s.roi_id_cnt == 0,
            s.roi_names@.len() == 0,
            s.selected == 0,
    {
        RoiInputState { roi_id_cnt: 0, roi_names: Vec::new(), selected: 0 }
    }

    /// Make a new region: its ID is one above the last, it is named
    /// "Roi " and its ID, and it becomes the selected one.
    pub fn gen_id(&mut self) -> (id: usize)
        requires
            old(self).roi_id_cnt < usize::MAX,
        ensures
            id == old(self).roi_id_cnt + 1,
            final(self).roi_id_cnt == id,
            final(self).selected == id,
            final(self).roi_names@.len() == old(self).roi_names@.len() + 1,
            final(self).roi_names@.drop_last() == old(self).roi_names@,
            final(self).roi_names@.last()@ == "Roi "@ + decimal(id as nat),
    {
        self.roi_id_cnt = self.roi_id_cnt + 1;
        let mut name = String::from_str("Roi ");
        push_decimal(&mut name, self.roi_id_cnt);
        self.roi_names.push(name);
        self.selected = self.roi_id_cnt;
        proof {
            assert(self.roi_names@.drop_last() =~= old(self).roi_names@);
        }
        self.roi_id_cnt
    }

    pub fn is_selected(&self, id: usize) -> (b: bool)
        ensures
            b == (id == self.selected),
    {
        id == self.selected
    }
}

/// The circles drawn on an image: how many were made, their names, and which
/// one is selected.
pub struct CircleInputState {
    pub circle_id_cnt: usize,
    pub circle_names: Vec<String>,
    pub selected: i32,
}

impl CircleInputState {
    pub fn new() -> (s: Self)
        ensures
            s.circle_id_cnt == 0,
            s.circle_names@.len() == 0,
            s.selected == 0,
    {
        CircleInputState { circle_id_cnt: 0, circle_names: Vec::new(), selected: 0 }
    }

    /// Make a new circle: its ID is one above the last, it is named
    /// "Circle: " and its ID, and it becomes the selected one (its ID taken
    /// as a 32-bit signed integer, wrapping).
    pub fn gen_id(&mut self) -> (id: usize)
        requires
            old(self).circle_id_cnt < usize::MAX,
        ensures
            id == old(self).circle_id_cnt + 1,
            final(self).circle_id_cnt == id,
            final(self).selected == id as i32,
            final(self).circle_names@.len() == old(self).circle_names@.len() + 1,
            final(self).circle_names@.drop_last() == old(self).circle_names@,
            final(self).circle_names@.last()@ == "Circle: "@ + decimal(id as nat),
    {
        self.circle_id_cnt = self.circle_id_cnt + 1;
        let mut name = String::from_str("Circle: ");
        push_decimal(&mut name, self.circle_id_cnt);
        self.circle_names.push(name);
        self.selected = self.circle_id_cnt as i32;
        proof {
            assert(self.circle_names@.drop_last() =~= old(self).circle_names@);
        }
        self.circle_id_cnt
    }

    /// Whether the circle `id` (taken as a 32-bit signed integer, wrapping)
    /// is the selected one.
    pub fn is_selected(&self, id: usize) -> (b: bool)
        ensures
            b == (id as i32 == self.selected),
    {
        id as i32 == self.selected
    }
}

} // verus!
