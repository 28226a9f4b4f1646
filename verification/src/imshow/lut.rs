use vstd::prelude::*;

verus! {

/// The color maps offered for images.
#[derive(Copy, Clone, Hash, Debug, PartialEq, Eq, Structural)]
pub enum BuiltinLUT {
    Grey,
    GreyClip,
    Thermal,
    Flame,
    Yellowy,
    HeatMap,
    HeatMapInv,
}

/// Every color map, in the order in which they are offered.
pub open spec fn all_luts() -> Seq<BuiltinLUT> {
    seq![
        BuiltinLUT::Grey,
        BuiltinLUT::GreyClip,
        BuiltinLUT::Thermal,
        BuiltinLUT::Flame,
        BuiltinLUT::Yellowy,
        BuiltinLUT::HeatMap,
        BuiltinLUT::HeatMapInv,
    ]
}

impl BuiltinLUT {
    /// The name shown for the color map.
    pub open spec fn spec_name(self) -> Seq<char> {
        match self {
            BuiltinLUT::Grey => "Grey"@,
            BuiltinLUT::GreyClip => "GreyClip"@,
            BuiltinLUT::Yellowy => "Yellowy"@,
            BuiltinLUT::Thermal => "Thermal"@,
            BuiltinLUT::Flame => "Flame"@,
            BuiltinLUT::HeatMap => "HeatMap"@,
            BuiltinLUT::HeatMapInv => "HeatMap_Inv"@,
        }
    }

    /// Every color map, in the order in which they are offered.
    pub fn values() -> (v: Vec<BuiltinLUT>)
        ensures
            v@ == all_luts(),
    {
        let v = vec![
            BuiltinLUT::Grey,
            BuiltinLUT::GreyClip,
            BuiltinLUT::Thermal,
            BuiltinLUT::Flame,
            BuiltinLUT::Yellowy,
            BuiltinLUT::HeatMap,
            BuiltinLUT::HeatMapInv,
        ];
        assert(v@ =~= all_luts());
        v
    }

    /// The name shown for the color map.
    pub fn name(self) -> (s: &'static str)
        ensures
            s@ == self.spec_name(),
    {
        match self {
            BuiltinLUT::Grey => "Grey",
            BuiltinLUT::GreyClip => "GreyClip",
            BuiltinLUT::Yellowy => "Yellowy",
            BuiltinLUT::Thermal => "Thermal",
            BuiltinLUT::Flame => "Flame",
            BuiltinLUT::HeatMap => "HeatMap",
            BuiltinLUT::HeatMapInv => "HeatMap_Inv",
        }
    }
}

/// Every color map is offered, once.
pub proof fn lemma_values_complete(l: BuiltinLUT)
    ensures
        all_luts().contains(l),
        all_luts().no_duplicates(),
{
    assert(all_luts()[0] == BuiltinLUT::Grey);
    assert(all_luts()[1] == BuiltinLUT::GreyClip);
    assert(all_luts()[2] == BuiltinLUT::Thermal);
    assert(all_luts()[3] == BuiltinLUT::Flame);
    assert(all_luts()[4] == BuiltinLUT::Yellowy);
    assert(all_luts()[5] == BuiltinLUT::HeatMap);
    assert(all_luts()[6] == BuiltinLUT::HeatMapInv);
}

/// Two color maps have the same name only when they are the same map.
pub proof fn lemma_names_distinct(a: BuiltinLUT, b: BuiltinLUT)
    ensures
        a.spec_name() == b.spec_name() ==> a == b,
{
    reveal_strlit("Grey");
    reveal_strlit("GreyClip");
    reveal_strlit("Yellowy");
    reveal_strlit("Thermal");
    reveal_strlit("Flame");
    reveal_strlit("HeatMap");
    reveal_strlit("HeatMap_Inv");
    if a != b {
        assert(a.spec_name().len() != b.spec_name().len() || a.spec_name()[0] != b.spec_name()[0]
            || a.spec_name()[4] != b.spec_name()[4] || a.spec_name()[7] != b.spec_name()[7]);
    }
}

} // verus!
