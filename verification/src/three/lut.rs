use vstd::prelude::*;

verus! {

/// The color maps offered for volumes.
#[derive(Copy, Clone, Hash, Debug, PartialEq, Eq, Structural)]
pub enum BuiltinLUT {
    Grey,
    GreyClip,
    Thermal,
    Flame,
    Yellowy,
    HeatMap,
    HeatMapInv,
    Red,
    Blue,
    Green,
    JetColor,
    TurboColor,
}

/// The color space in which a gradient is read.
#[derive(Copy, Clone, Hash, Debug, PartialEq, Eq, Structural)]
pub enum ReadMode {
    RGB,
    HSV,
    LAB,
}

/// Every color map, in the order in which they are offered.
pub open spec fn all_luts() -> Seq<BuiltinLUT> {
    seq![
        BuiltinLUT::Grey,
        BuiltinLUT::GreyClip,
        BuiltinLUT::Thermal,
        BuiltinLUT::Flame,
        BuiltinLUT::Yellowy,
        BuiltinLUT::HeatMap,
        BuiltinLUT::HeatMapInv,
        BuiltinLUT::Red,
        BuiltinLUT::Blue,
        BuiltinLUT::Green,
        BuiltinLUT::JetColor,
        BuiltinLUT::TurboColor,
    ]
}

impl BuiltinLUT {
    /// The name shown for the color map.
    pub open spec fn spec_name(self) -> Seq<char> {
        match self {
            BuiltinLUT::Grey => "Grey"@,
            BuiltinLUT::GreyClip => "GreyClip"@,
            BuiltinLUT::Yellowy => "Yellowy"@,
            BuiltinLUT::Thermal => "Thermal"@,
            BuiltinLUT::Flame => "Flame"@,
            BuiltinLUT::HeatMap => "HeatMap"@,
            BuiltinLUT::HeatMapInv => "HeatMap_Inv"@,
            BuiltinLUT::Red => "Red"@,
            BuiltinLUT::Green => "Green"@,
            BuiltinLUT::Blue => "Blue"@,
            BuiltinLUT::JetColor => "JetColor"@,
            BuiltinLUT::TurboColor => "TurboColor"@,
        }
    }

    /// The name by which the color map is looked up.
    pub open spec fn spec_key(self) -> Seq<char> {
        match self {
            BuiltinLUT::HeatMapInv => "HeatMapInv"@,
            _ => self.spec_name(),
        }
    }

    /// Every color map, in the order in which they are offered.
    pub fn values() -> (v: Vec<BuiltinLUT>)
        ensures
            v@ == all_luts(),
    {
        let v = vec![
            BuiltinLUT::Grey,
            BuiltinLUT::GreyClip,
            BuiltinLUT::Thermal,
            BuiltinLUT::Flame,
            BuiltinLUT::Yellowy,
            BuiltinLUT::HeatMap,
            BuiltinLUT::HeatMapInv,
            BuiltinLUT::Red,
            BuiltinLUT::Blue,
            BuiltinLUT::Green,
            BuiltinLUT::JetColor,
            BuiltinLUT::TurboColor,
        ];
        assert(v@ =~= all_luts());
        v
    }

    /// The name shown for the color map.
    pub fn name(self) -> (s: &'static str)
        ensures
            s@ == self.spec_name(),
    {
        match self {
            BuiltinLUT::Grey => "Grey",
            BuiltinLUT::GreyClip => "GreyClip",
            BuiltinLUT::Yellowy => "Yellowy",
            BuiltinLUT::Thermal => "Thermal",
            BuiltinLUT::Flame => "Flame",
            BuiltinLUT::HeatMap => "HeatMap",
            BuiltinLUT::HeatMapInv => "HeatMap_Inv",
            BuiltinLUT::Red => "Red",
            BuiltinLUT::Green => "Green",
            BuiltinLUT::Blue => "Blue",
            BuiltinLUT::JetColor => "JetColor",
            BuiltinLUT::TurboColor => "TurboColor",
        }
    }

    /// The color map looked up by `name`: the one whose key it is, none when
    /// no color map has that key.
    pub fn from_name(name: &String) -> (r: Option<BuiltinLUT>)
        ensures
            match r {
                Some(l) => l.spec_key() == name@,
                None => forall|l: BuiltinLUT| #[trigger] l.spec_key() != name@,
            },
    {
        if *name == String::from_str("Grey") {
            Some(BuiltinLUT::Grey)
        } else if *name == String::from_str("GreyClip") {
            Some(BuiltinLUT::GreyClip)
        } else if *name == String::from_str("Thermal") {
            Some(BuiltinLUT::Thermal)
        } else if *name == String::from_str("Flame") {
            Some(BuiltinLUT::Flame)
        } else if *name == String::from_str("Yellowy") {
            Some(BuiltinLUT::Yellowy)
        } else if *name == String::from_str("HeatMap") {
            Some(BuiltinLUT::HeatMap)
        } else if *name == String::from_str("HeatMapInv") {
            Some(BuiltinLUT::HeatMapInv)
        } else if *name == String::from_str("Red") {
            Some(BuiltinLUT::Red)
        } else if *name == String::from_str("Blue") {
            Some(BuiltinLUT::Blue)
        } else if *name == String::from_str("Green") {
            Some(BuiltinLUT::Green)
        } else if *name == String::from_str("JetColor") {
            Some(BuiltinLUT::JetColor)
        } else if *name == String::from_str("TurboColor") {
            Some(BuiltinLUT::TurboColor)
        } else {
            None
        }
    }
}

/// Every color map is offered, once.
pub proof fn lemma_values_complete(l: BuiltinLUT)
    ensures
        all_luts().contains(l),
        all_luts().no_duplicates(),
{
    assert(all_luts()[0] == BuiltinLUT::Grey);
    assert(all_luts()[1] == BuiltinLUT::GreyClip);
    assert(all_luts()[2] == BuiltinLUT::Thermal);
    assert(all_luts()[3] == BuiltinLUT::Flame);
    assert(all_luts()[4] == BuiltinLUT::Yellowy);
    assert(all_luts()[5] == BuiltinLUT::HeatMap);
    assert(all_luts()[6] == BuiltinLUT::HeatMapInv);
    assert(all_luts()[7] == BuiltinLUT::Red);
    assert(all_luts()[8] == BuiltinLUT::Blue);
    assert(all_luts()[9] == BuiltinLUT::Green);
    assert(all_luts()[10] == BuiltinLUT::JetColor);
    assert(all_luts()[11] == BuiltinLUT::TurboColor);
}

/// Two color maps have the same name only when they are the same map.
pub proof fn lemma_names_distinct(a: BuiltinLUT, b: BuiltinLUT)
    ensures
        a.spec_name() == b.spec_name() ==> a == b,
{
    reveal_strlit("Grey");
    reveal_strlit("GreyClip");
    reveal_strlit("Yellowy");
    reveal_strlit("Thermal");
    reveal_strlit("Flame");
    reveal_strlit("HeatMap");
    reveal_strlit("HeatMap_Inv");
    reveal_strlit("Red");
    reveal_strlit("Green");
    reveal_strlit("Blue");
    reveal_strlit("JetColor");
    reveal_strlit("TurboColor");
    if a != b {
        assert(a.spec_name().len() != b.spec_name().len() || a.spec_name()[0] != b.spec_name()[0]);
    }
}

/// Looking a color map up by the name it shows gives it back, for every
/// color map but the inverted heat map, whose shown name is no key.
pub proof fn lemma_lookup_by_name(l: BuiltinLUT)
    ensures
        l != BuiltinLUT::HeatMapInv ==> l.spec_key() == l.spec_name(),
        l == BuiltinLUT::HeatMapInv ==> forall|m: BuiltinLUT| #[trigger] m.spec_key() != l.spec_name(),
{
    reveal_strlit("HeatMap_Inv");
    reveal_strlit("HeatMapInv");
    reveal_strlit("Grey");
    reveal_strlit("GreyClip");
    reveal_strlit("Yellowy");
    reveal_strlit("Thermal");
    reveal_strlit("Flame");
    reveal_strlit("HeatMap");
    reveal_strlit("Red");
    reveal_strlit("Green");
    reveal_strlit("Blue");
    reveal_strlit("JetColor");
    reveal_strlit("TurboColor");
    if l == BuiltinLUT::HeatMapInv {
        assert forall|m: BuiltinLUT| #[trigger] m.spec_key() != l.spec_name() by {
            assert(l.spec_name().len() == 11);
            assert(m.spec_key().len() <= 10) by {
                match m {
                    BuiltinLUT::Grey => {},
                    BuiltinLUT::GreyClip => {},
                    BuiltinLUT::Thermal => {},
                    BuiltinLUT::Flame => {},
                    BuiltinLUT::Yellowy => {},
                    BuiltinLUT::HeatMap => {},
                    BuiltinLUT::HeatMapInv => {},
                    BuiltinLUT::Red => {},
                    BuiltinLUT::Blue => {},
                    BuiltinLUT::Green => {},
                    BuiltinLUT::JetColor => {},
                    BuiltinLUT::TurboColor => {},
                }
            }
        }
    }
}

} // verus!
