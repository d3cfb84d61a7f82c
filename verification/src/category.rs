//! The fixed, ordered list of cosmetic categories, with their display names
//! and the identifiers used by the interactive category menu.

use vstd::prelude::*;
use crate::strcmp::str_eq;

verus! {

pub const NUM_CATEGORIES: usize = 6;

#[derive(Clone, Copy, PartialEq, Eq, Structural, Debug)]
pub enum CosmeticCategory {
    Hat,
    Top,
    Bottom,
    Accessory,
    Vest,
    Belt,
}

impl CosmeticCategory {
    /// The category's position in the fixed order.
    pub open spec fn position(self) -> int {
        match self {
            CosmeticCategory::Hat => 0,
            CosmeticCategory::Top => 1,
            CosmeticCategory::Bottom => 2,
            CosmeticCategory::Accessory => 3,
            CosmeticCategory::Vest => 4,
            CosmeticCategory::Belt => 5,
        }
    }

    pub open spec fn id_text(self) -> Seq<char> {
        match self {
            CosmeticCategory::Hat => "0"@,
            CosmeticCategory::Top => "1"@,
            CosmeticCategory::Bottom => "2"@,
            CosmeticCategory::Accessory => "3"@,
            CosmeticCategory::Vest => "4"@,
            CosmeticCategory::Belt => "5"@,
        }
    }

    pub open spec fn name_text(self) -> Seq<char> {
        match self {
            CosmeticCategory::Hat => "Hat"@,
            CosmeticCategory::Top => "Top"@,
            CosmeticCategory::Bottom => "Bottom"@,
            CosmeticCategory::Accessory => "Accessory"@,
            CosmeticCategory::Vest => "Vest"@,
            CosmeticCategory::Belt => "Belt"@,
        }
    }

    /// The menu identifier sent for this category.
    pub fn to_id(&self) -> (r: &'static str)
        ensures
            r@ == self.id_text(),
    {
        match self {
            CosmeticCategory::Hat => "0",
            CosmeticCategory::Top => "1",
            CosmeticCategory::Bottom => "2",
            CosmeticCategory::Accessory => "3",
            CosmeticCategory::Vest => "4",
            CosmeticCategory::Belt => "5",
        }
    }

    /// The display name of the category.
    pub fn name(&self) -> (r: &'static str)
        ensures
            r@ == self.name_text(),
    {
        match self {
            CosmeticCategory::Hat => "Hat",
            CosmeticCategory::Top => "Top",
            CosmeticCategory::Bottom => "Bottom",
            CosmeticCategory::Accessory => "Accessory",
            CosmeticCategory::Vest => "Vest",
            CosmeticCategory::Belt => "Belt",
        }
    }

    /// Which category a menu identifier denotes, if any.
    pub open spec fn of_id(id: Seq<char>) -> Option<CosmeticCategory> {
        if id == "0"@ {
            Some(CosmeticCategory::Hat)
        } else if id == "1"@ {
            Some(CosmeticCategory::Top)
        } else if id == "2"@ {
            Some(CosmeticCategory::Bottom)
        } else if id == "3"@ {
            Some(CosmeticCategory::Accessory)
        } else if id == "4"@ {
            Some(CosmeticCategory::Vest)
        } else if id == "5"@ {
            Some(CosmeticCategory::Belt)
        } else {
            None
        }
    }

    /// Decodes a menu identifier; unknown identifiers denote no category.
    pub fn from_id(id: &str) -> (r: Option<CosmeticCategory>)
        ensures
            r == Self::of_id(id@),
    {
        if str_eq(id, "0") {
            Some(CosmeticCategory::Hat)
        } else if str_eq(id, "1") {
            Some(CosmeticCategory::Top)
        } else if str_eq(id, "2") {
            Some(CosmeticCategory::Bottom)
        } else if str_eq(id, "3") {
            Some(CosmeticCategory::Accessory)
        } else if str_eq(id, "4") {
            Some(CosmeticCategory::Vest)
        } else if str_eq(id, "5") {
            Some(CosmeticCategory::Belt)
        } else {
            None
        }
    }

    /// Every category once, in the fixed order.
    pub fn all() -> (r: Vec<CosmeticCategory>)
        ensures
            r@.len() == NUM_CATEGORIES,
            forall|i: int| 0 <= i < r@.len() ==> (#[trigger] r@[i]).position() == i,
    {
        let mut r: Vec<CosmeticCategory> = Vec::new();
        r.push(CosmeticCategory::Hat);
        r.push(CosmeticCategory::Top);
        r.push(CosmeticCategory::Bottom);
        r.push(CosmeticCategory::Accessory);
        r.push(CosmeticCategory::Vest);
        r.push(CosmeticCategory::Belt);
        r
    }
}

/// Decoding an identifier undoes encoding: each category is named by exactly
/// its own identifier.
pub proof fn lemma_id_round_trip(c: CosmeticCategory)
    ensures
        CosmeticCategory::of_id(c.id_text()) == Some(c),
{
    reveal_strlit("0");
    reveal_strlit("1");
    reveal_strlit("2");
    reveal_strlit("3");
    reveal_strlit("4");
    reveal_strlit("5");
    assert("0"@[0] == '0' && "1"@[0] == '1' && "2"@[0] == '2' && "3"@[0] == '3' && "4"@[0] == '4'
        && "5"@[0] == '5');
    assert("1"@ != "0"@);
    assert("2"@ != "0"@ && "2"@ != "1"@);
    assert("3"@ != "0"@ && "3"@ != "1"@ && "3"@ != "2"@);
    assert("4"@ != "0"@ && "4"@ != "1"@ && "4"@ != "2"@ && "4"@ != "3"@);
    assert("5"@ != "0"@ && "5"@ != "1"@ && "5"@ != "2"@ && "5"@ != "3"@ && "5"@ != "4"@);
}

} // verus!
