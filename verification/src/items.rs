//! Item definitions, generation and enchantments.
//! Power level drives stats, rarity gives enchant slots, uniques carry names.

use vstd::prelude::*;
use crate::rng::roll_below;
use crate::text::{decimal, push_decimal};

verus! {

#[derive(Clone, Copy, PartialEq, Eq, Debug, Structural)]
pub enum Slot {
    Melee,
    Ranged,
    Armor,
    Artifact,
}

#[derive(Clone, Copy, PartialEq, Eq, Debug, Structural)]
pub enum MeleeClass {
    Sword,
    Axe,
    Hammer,
    Dagger,
    Gauntlet,
}

#[derive(Clone, Copy, PartialEq, Eq, Debug, Structural)]
pub enum RangedClass {
    Bow,
    Crossbow,
    HeavyCrossbow,
}

#[derive(Clone, Copy, PartialEq, Eq, Debug, Structural)]
pub enum ArmorClass {
    Light,
    Medium,
    Heavy,
}

#[derive(Clone, Copy, PartialEq, Eq, Debug, Structural)]
pub enum ArtifactKind {
    Lightning,
    Totem,
    WindHorn,
    Harvester,
    Fireworks,
    Seeds,
}

#[derive(Clone, Copy, PartialEq, Eq, Debug, Structural)]
pub enum ItemClass {
    M(MeleeClass),
    R(RangedClass),
    A(ArmorClass),
    Art(ArtifactKind),
}

#[derive(Clone, Copy, PartialEq, Eq, Debug, Structural)]
pub enum Rarity {
    Common,
    Rare,
    Unique,
}

/// Number of enchantment slots of a rarity.
pub open spec fn spec_slots(r: Rarity) -> nat {
    match r {
        Rarity::Common => 1,
        Rarity::Rare => 2,
        Rarity::Unique => 3,
    }
}

/// Blacksmith / price base of a rarity, in emeralds.
pub open spec fn spec_rarity_base(r: Rarity) -> nat {
    match r {
        Rarity::Common => 60,
        Rarity::Rare => 110,
        Rarity::Unique => 190,
    }
}

/// Blacksmith base cost per rarity (60 / 110 / 190 emeralds).
pub fn forge_cost_rarity(r: Rarity) -> (c: u32)
    ensures
        c == spec_rarity_base(r),
{
    match r {
        Rarity::Common => 60,
        Rarity::Rare => 110,
        Rarity::Unique => 190,
    }
}

impl Rarity {
    pub fn slots(&self) -> (n: usize)
        ensures
            n == spec_slots(*self),
    {
        match self {
            Rarity::Common => 1,
            Rarity::Rare => 2,
            Rarity::Unique => 3,
        }
    }

    pub fn fr(&self) -> (s: &'static str)
        ensures
            s@ == (match *self {
                Rarity::Common => "Commun"@,
                Rarity::Rare => "Rare"@,
                Rarity::Unique => "Unique"@,
            }),
    {
        match self {
            Rarity::Common => "Commun",
            Rarity::Rare => "Rare",
            Rarity::Unique => "Unique",
        }
    }
}

#[derive(Clone, Copy, PartialEq, Eq, Debug, Structural)]
pub enum Enchant {
    Sharpness,
    CriticalHit,
    Swirling,
    Thundering,
    Radiance,
    FireAspect,
    PoisonCloud,
    Gravity,
}

/// Which equipment slot an enchantment can go on.
pub open spec fn spec_applies_to(e: Enchant, slot: Slot) -> bool {
    match e {
        Enchant::PoisonCloud | Enchant::Gravity => slot == Slot::Ranged,
        _ => slot == Slot::Melee,
    }
}

/// The number that `desc_fr` shows for an enchantment at a tier.
pub open spec fn spec_desc_number(e: Enchant, tier: u8) -> nat {
    match e {
        Enchant::Sharpness => (tier * 10) as nat,
        Enchant::CriticalHit => (tier * 5) as nat,
        Enchant::Swirling => (20 * tier) as nat,
        Enchant::Thundering => (25 * tier) as nat,
        Enchant::Radiance => (tier * 5) as nat,
        Enchant::FireAspect => (6 * tier) as nat,
        Enchant::PoisonCloud => (tier * 10) as nat,
        Enchant::Gravity => (tier * 10) as nat,
    }
}

/// The text before and after the number in `desc_fr`.
pub open spec fn spec_desc_parts(e: Enchant) -> (Seq<char>, Seq<char>) {
    match e {
        Enchant::Sharpness => ("+"@, "% dégâts de mêlée"@),
        Enchant::CriticalHit => ("+"@, "% chance critique"@),
        Enchant::Swirling => ("Combo 3 : rafale de zone ("@, " dégâts)"@),
        Enchant::Thundering => ("Critique mêlée : foudre ("@, " dégâts)"@),
        Enchant::Radiance => (""@, "% de chances de soigner 4 PV par coup"@),
        Enchant::FireAspect => ("Chance d'enflammer ("@, "/s pendant 2s)"@),
        Enchant::PoisonCloud => (""@, "% de chances de nuage poison au tir"@),
        Enchant::Gravity => (""@, "% de chances d'aspirer les ennemis à l'impact"@),
    }
}

/// The tiers for which `desc_fr` stays within `u8` arithmetic.
pub open spec fn desc_tier_ok(e: Enchant, tier: u8) -> bool {
    match e {
        Enchant::Sharpness | Enchant::PoisonCloud | Enchant::Gravity => tier * 10 <= 255,
        Enchant::CriticalHit | Enchant::Radiance => tier * 5 <= 255,
        _ => true,
    }
}

impl Enchant {
    pub fn name_fr(&self) -> (s: &'static str)
        ensures
            s@ == (match *self {
                Enchant::Sharpness => "Affûtage"@,
                Enchant::CriticalHit => "Coup critique"@,
                Enchant::Swirling => "Tourbillon"@,
                Enchant::Thundering => "Fulguration"@,
                Enchant::Radiance => "Éclat"@,
                Enchant::FireAspect => "Aspect ardent"@,
                Enchant::PoisonCloud => "Nuage poison"@,
                Enchant::Gravity => "Gravité"@,
            }),
    {
        match self {
            Enchant::Sharpness => "Affûtage",
            Enchant::CriticalHit => "Coup critique",
            Enchant::Swirling => "Tourbillon",
            Enchant::Thundering => "Fulguration",
            Enchant::Radiance => "Éclat",
            Enchant::FireAspect => "Aspect ardent",
            Enchant::PoisonCloud => "Nuage poison",
            Enchant::Gravity => "Gravité",
        }
    }

    /// French description of the enchantment at `tier`.
    pub fn desc_fr(&self, tier: u8) -> (s: String)
        requires
            desc_tier_ok(*self, tier),
        ensures
            s@ == spec_desc_parts(*self).0 + decimal(spec_desc_number(*self, tier)) + spec_desc_parts(
                *self,
            ).1,
    {
        let (pre, n, post): (&str, u32, &str) = match self {
            Enchant::Sharpness => ("+", (tier * 10) as u32, "% dégâts de mêlée"),
            Enchant::CriticalHit => ("+", (tier * 5) as u32, "% chance critique"),
            Enchant::Swirling => ("Combo 3 : rafale de zone (", 20 * tier as u32, " dégâts)"),
            Enchant::Thundering => ("Critique mêlée : foudre (", 25 * tier as u32, " dégâts)"),
            Enchant::Radiance => ("", (tier * 5) as u32, "% de chances de soigner 4 PV par coup"),
            Enchant::FireAspect => ("Chance d'enflammer (", 6 * tier as u32, "/s pendant 2s)"),
            Enchant::PoisonCloud => ("", (tier * 10) as u32, "% de chances de nuage poison au tir"),
            Enchant::Gravity => ("", (tier * 10) as u32, "% de chances d'aspirer les ennemis à l'impact"),
        };
        let mut s = String::from_str(pre);
        push_decimal(&mut s, n);
        s.append(post);
        s
    }

    /// Enchantment point cost of a tier (1/2/3).
    pub fn cost(tier: u8) -> (c: u32)
        ensures
            c == tier,
    {
        tier as u32
    }

    pub fn applies_to(&self, slot: Slot) -> (b: bool)
        ensures
            b == spec_applies_to(*self, slot),
    {
        match self {
            Enchant::Sharpness | Enchant::CriticalHit | Enchant::Swirling | Enchant::Thundering
            | Enchant::Radiance | Enchant::FireAspect => slot == Slot::Melee,
            Enchant::PoisonCloud | Enchant::Gravity => slot == Slot::Ranged,
        }
    }
}

#[derive(Clone, Debug)]
pub struct Item {
    pub name: String,
    pub class: ItemClass,
    pub power: u32,
    pub rarity: Rarity,
    /// (enchant, tier 1..=3)
    pub enchants: Vec<(Enchant, u8)>,
}

/// Name carried by a unique item of a class.
pub open spec fn spec_unique_name(class: ItemClass) -> Seq<char> {
    match class {
        ItemClass::M(MeleeClass::Sword) => "Faucon de marque"@,
        ItemClass::M(MeleeClass::Axe) => "Veuve joyeuse"@,
        ItemClass::M(MeleeClass::Hammer) => "Masse des templiers"@,
        ItemClass::M(MeleeClass::Dagger) => "Crocs de l'ombre"@,
        ItemClass::M(MeleeClass::Gauntlet) => "Poings du sphinx"@,
        ItemClass::R(RangedClass::Bow) => "Arc du gardien"@,
        ItemClass::R(RangedClass::Crossbow) => "Arbalète du foudre"@,
        ItemClass::R(RangedClass::HeavyCrossbow) => "Broyeuse d'os"@,
        ItemClass::A(ArmorClass::Light) => "Écaille du Mercure"@,
        ItemClass::A(ArmorClass::Medium) => "Cuirasse d'Adamant"@,
        ItemClass::A(ArmorClass::Heavy) => "Carapace du Tyran"@,
        ItemClass::Art(ArtifactKind::Lightning) => "Sceptre des tempêtes"@,
        ItemClass::Art(ArtifactKind::Totem) => "Totem d'éternité"@,
        ItemClass::Art(ArtifactKind::WindHorn) => "Souffle des cieux"@,
        ItemClass::Art(ArtifactKind::Harvester) => "Gibecière sans fin"@,
        ItemClass::Art(ArtifactKind::Fireworks) => "Fusée du solstice"@,
        ItemClass::Art(ArtifactKind::Seeds) => "Poche du verdoyant"@,
    }
}

/// The unique name of a class (every class has one).
pub fn unique_name(class: &ItemClass) -> (r: Option<&'static str>)
    ensures
        r is Some,
        r.unwrap()@ == spec_unique_name(*class),
{
    Some(
        match class {
            ItemClass::M(MeleeClass::Sword) => "Faucon de marque",
            ItemClass::M(MeleeClass::Axe) => "Veuve joyeuse",
            ItemClass::M(MeleeClass::Hammer) => "Masse des templiers",
            ItemClass::M(MeleeClass::Dagger) => "Crocs de l'ombre",
            ItemClass::M(MeleeClass::Gauntlet) => "Poings du sphinx",
            ItemClass::R(RangedClass::Bow) => "Arc du gardien",
            ItemClass::R(RangedClass::Crossbow) => "Arbalète du foudre",
            ItemClass::R(RangedClass::HeavyCrossbow) => "Broyeuse d'os",
            ItemClass::A(ArmorClass::Light) => "Écaille du Mercure",
            ItemClass::A(ArmorClass::Medium) => "Cuirasse d'Adamant",
            ItemClass::A(ArmorClass::Heavy) => "Carapace du Tyran",
            ItemClass::Art(ArtifactKind::Lightning) => "Sceptre des tempêtes",
            ItemClass::Art(ArtifactKind::Totem) => "Totem d'éternité",
            ItemClass::Art(ArtifactKind::WindHorn) => "Souffle des cieux",
            ItemClass::Art(ArtifactKind::Harvester) => "Gibecière sans fin",
            ItemClass::Art(ArtifactKind::Fireworks) => "Fusée du solstice",
            ItemClass::Art(ArtifactKind::Seeds) => "Poche du verdoyant",
        },
    )
}

/// Equipment slot of a class.
pub open spec fn spec_slot_of(class: ItemClass) -> Slot {
    match class {
        ItemClass::M(_) => Slot::Melee,
        ItemClass::R(_) => Slot::Ranged,
        ItemClass::A(_) => Slot::Armor,
        ItemClass::Art(_) => Slot::Artifact,
    }
}

/// Atlas icon key of a class.
pub open spec fn spec_icon(class: ItemClass) -> Seq<char> {
    match class {
        ItemClass::M(MeleeClass::Sword) => "icon_sword"@,
        ItemClass::M(MeleeClass::Axe) => "icon_axe"@,
        ItemClass::M(MeleeClass::Hammer) => "icon_hammer"@,
        ItemClass::M(MeleeClass::Dagger) => "icon_dagger"@,
        ItemClass::M(MeleeClass::Gauntlet) => "icon_gauntlet"@,
        ItemClass::R(RangedClass::Bow) => "icon_bow"@,
        ItemClass::R(RangedClass::Crossbow) => "icon_crossbow"@,
        ItemClass::R(RangedClass::HeavyCrossbow) => "icon_crossbow"@,
        ItemClass::A(ArmorClass::Light) => "icon_armor_light"@,
        ItemClass::A(ArmorClass::Medium) => "icon_armor_medium"@,
        ItemClass::A(ArmorClass::Heavy) => "icon_armor_heavy"@,
        ItemClass::Art(ArtifactKind::Lightning) => "art_lightning"@,
        ItemClass::Art(ArtifactKind::Totem) => "art_totem"@,
        ItemClass::Art(ArtifactKind::WindHorn) => "art_wind"@,
        ItemClass::Art(ArtifactKind::Harvester) => "art_harvester"@,
        ItemClass::Art(ArtifactKind::Fireworks) => "art_fireworks"@,
        ItemClass::Art(ArtifactKind::Seeds) => "art_seeds"@,
    }
}

/// French base name of a class.
pub open spec fn spec_base_name(class: ItemClass) -> Seq<char> {
    match class {
        ItemClass::M(MeleeClass::Sword) => "Épée"@,
        ItemClass::M(MeleeClass::Axe) => "Hache"@,
        ItemClass::M(MeleeClass::Hammer) => "Marteau"@,
        ItemClass::M(MeleeClass::Dagger) => "Dague"@,
        ItemClass::M(MeleeClass::Gauntlet) => "Poing d'acier"@,
        ItemClass::R(RangedClass::Bow) => "Arc"@,
        ItemClass::R(RangedClass::Crossbow) => "Arbalète"@,
        ItemClass::R(RangedClass::HeavyCrossbow) => "Arbalète lourde"@,
        ItemClass::A(ArmorClass::Light) => "Armure légère"@,
        ItemClass::A(ArmorClass::Medium) => "Armure de maille"@,
        ItemClass::A(ArmorClass::Heavy) => "Armure lourde"@,
        ItemClass::Art(ArtifactKind::Lightning) => "Fulguro-lance"@,
        ItemClass::Art(ArtifactKind::Totem) => "Totem de régénération"@,
        ItemClass::Art(ArtifactKind::WindHorn) => "Corne de vent"@,
        ItemClass::Art(ArtifactKind::Harvester) => "Carquois récolteur"@,
        ItemClass::Art(ArtifactKind::Fireworks) => "Flèche feu d'artifice"@,
        ItemClass::Art(ArtifactKind::Seeds) => "Graines corrompues"@,
    }
}

/// Tier of the first occurrence of `e` in `s` from position `i` on, 0 if absent.
pub open spec fn tier_from(s: Seq<(Enchant, u8)>, e: Enchant, i: int) -> u8
    decreases s.len() - i,
{
    if i < 0 || i >= s.len() {
        0
    } else if s[i].0 == e {
        s[i].1
    } else {
        tier_from(s, e, i + 1)
    }
}

/// Whether the enchantment list already holds `e`.
pub open spec fn has_enchant(s: Seq<(Enchant, u8)>, e: Enchant) -> bool {
    exists|i: int| 0 <= i < s.len() && #[trigger] s[i].0 == e
}

/// Shop / salvage price: base * (1 + power / 10) computed in single
/// precision, truncated and capped at `u32::MAX` (see `f32_price`).
pub open spec fn spec_price(rarity: Rarity, power: u32) -> nat {
    crate::rounding::f32_price(spec_rarity_base(rarity), power)
}

impl Item {
    pub fn slot(&self) -> (s: Slot)
        ensures
            s == spec_slot_of(self.class),
    {
        match self.class {
            ItemClass::M(_) => Slot::Melee,
            ItemClass::R(_) => Slot::Ranged,
            ItemClass::A(_) => Slot::Armor,
            ItemClass::Art(_) => Slot::Artifact,
        }
    }

    pub fn icon(&self) -> (s: &'static str)
        ensures
            s@ == spec_icon(self.class),
    {
        match self.class {
            ItemClass::M(MeleeClass::Sword) => "icon_sword",
            ItemClass::M(MeleeClass::Axe) => "icon_axe",
            ItemClass::M(MeleeClass::Hammer) => "icon_hammer",
            ItemClass::M(MeleeClass::Dagger) => "icon_dagger",
            ItemClass::M(MeleeClass::Gauntlet) => "icon_gauntlet",
            ItemClass::R(RangedClass::Bow) => "icon_bow",
            ItemClass::R(RangedClass::Crossbow) => "icon_crossbow",
            ItemClass::R(RangedClass::HeavyCrossbow) => "icon_crossbow",
            ItemClass::A(ArmorClass::Light) => "icon_armor_light",
            ItemClass::A(ArmorClass::Medium) => "icon_armor_medium",
            ItemClass::A(ArmorClass::Heavy) => "icon_armor_heavy",
            ItemClass::Art(ArtifactKind::Lightning) => "art_lightning",
            ItemClass::Art(ArtifactKind::Totem) => "art_totem",
            ItemClass::Art(ArtifactKind::WindHorn) => "art_wind",
            ItemClass::Art(ArtifactKind::Harvester) => "art_harvester",
            ItemClass::Art(ArtifactKind::Fireworks) => "art_fireworks",
            ItemClass::Art(ArtifactKind::Seeds) => "art_seeds",
        }
    }

    pub fn base_name(&self) -> (s: &'static str)
        ensures
            s@ == spec_base_name(self.class),
    {
        match self.class {
            ItemClass::M(MeleeClass::Sword) => "Épée",
            ItemClass::M(MeleeClass::Axe) => "Hache",
            ItemClass::M(MeleeClass::Hammer) => "Marteau",
            ItemClass::M(MeleeClass::Dagger) => "Dague",
            ItemClass::M(MeleeClass::Gauntlet) => "Poing d'acier",
            ItemClass::R(RangedClass::Bow) => "Arc",
            ItemClass::R(RangedClass::Crossbow) => "Arbalète",
            ItemClass::R(RangedClass::HeavyCrossbow) => "Arbalète lourde",
            ItemClass::A(ArmorClass::Light) => "Armure légère",
            ItemClass::A(ArmorClass::Medium) => "Armure de maille",
            ItemClass::A(ArmorClass::Heavy) => "Armure lourde",
            ItemClass::Art(ArtifactKind::Lightning) => "Fulguro-lance",
            ItemClass::Art(ArtifactKind::Totem) => "Totem de régénération",
            ItemClass::Art(ArtifactKind::WindHorn) => "Corne de vent",
            ItemClass::Art(ArtifactKind::Harvester) => "Carquois récolteur",
            ItemClass::Art(ArtifactKind::Fireworks) => "Flèche feu d'artifice",
            ItemClass::Art(ArtifactKind::Seeds) => "Graines corrompues",
        }
    }

    /// Tier of enchantment `e` on this item (first occurrence), 0 if absent.
    pub fn ench_level(&self, e: Enchant) -> (t: u8)
        ensures
            t == tier_from(self.enchants@, e, 0),
            !has_enchant(self.enchants@, e) ==> t == 0,
    {
        let n = self.enchants.len();
        let mut i: usize = 0;
        while i < n
            invariant
                n == self.enchants@.len(),
                0 <= i <= n,
                tier_from(self.enchants@, e, 0) == tier_from(self.enchants@, e, i as int),
                forall|j: int| 0 <= j < i ==> self.enchants@[j].0 != e,
            decreases n - i,
        {
            let (en, t) = self.enchants[i];
            if en == e {
                return t;
            }
            i += 1;
        }
        proof { t_absent(self.enchants@, e); }
        0
    }

    /// Shop / salvage price in emeralds.
    pub fn price(&self) -> (p: u32)
        ensures
            p == spec_price(self.rarity, self.power),
    {
        crate::rounding::price_f32(forge_cost_rarity(self.rarity), self.power)
    }
}

proof fn t_absent(s: Seq<(Enchant, u8)>, e: Enchant)
    requires
        forall|j: int| 0 <= j < s.len() ==> s[j].0 != e,
    ensures
        !has_enchant(s, e),
{
}

// ----------------------------------------------------------------------
// Random generation
// ----------------------------------------------------------------------

/// Resolution of a uniform roll in [0, 1): rolls are integers below 2^24,
/// the 24 random bits that a uniform `f32` sample carries.
pub const ROLL_SCALE: u32 = 16777216;

/// Item family picked by a slot roll: 30 % melee, 25 % ranged, 30 % armor,
/// 15 % artifact (thresholds are the `f32` values 0.30, 0.55, 0.85).
pub open spec fn slot_for_roll(slot_roll: u32) -> Slot {
    if slot_roll < 5033165 {
        Slot::Melee
    } else if slot_roll < 9227469 {
        Slot::Ranged
    } else if slot_roll < 14260634 {
        Slot::Armor
    } else {
        Slot::Artifact
    }
}

/// Number of classes in an item family.
pub open spec fn kinds_in(slot: Slot) -> nat {
    match slot {
        Slot::Melee => 5,
        Slot::Ranged => 3,
        Slot::Armor => 3,
        Slot::Artifact => 6,
    }
}

/// The class picked inside a family by a kind roll.
pub open spec fn class_for(slot: Slot, kind_roll: u32) -> ItemClass {
    match slot {
        Slot::Melee => ItemClass::M(
            if kind_roll == 0 {
                MeleeClass::Sword
            } else if kind_roll == 1 {
                MeleeClass::Axe
            } else if kind_roll == 2 {
                MeleeClass::Hammer
            } else if kind_roll == 3 {
                MeleeClass::Dagger
            } else {
                MeleeClass::Gauntlet
            },
        ),
        Slot::Ranged => ItemClass::R(
            if kind_roll == 0 {
                RangedClass::Bow
            } else if kind_roll == 1 {
                RangedClass::Crossbow
            } else {
                RangedClass::HeavyCrossbow
            },
        ),
        Slot::Armor => ItemClass::A(
            if kind_roll == 0 {
                ArmorClass::Light
            } else if kind_roll == 1 {
                ArmorClass::Medium
            } else {
                ArmorClass::Heavy
            },
        ),
        Slot::Artifact => ItemClass::Art(artifact_for(kind_roll)),
    }
}

/// The artifact picked by a roll below 6.
pub open spec fn artifact_for(kind_roll: u32) -> ArtifactKind {
    if kind_roll == 0 {
        ArtifactKind::Lightning
    } else if kind_roll == 1 {
        ArtifactKind::Totem
    } else if kind_roll == 2 {
        ArtifactKind::WindHorn
    } else if kind_roll == 3 {
        ArtifactKind::Harvester
    } else if kind_roll == 4 {
        ArtifactKind::Fireworks
    } else {
        ArtifactKind::Seeds
    }
}

/// Rarity picked by a roll, shifted by `luck` hundredths (which may be
/// negative): unique below 0.04 + luck, rare below 0.26 + luck, else common.
pub open spec fn rarity_for(rarity_roll: u32, luck: i32) -> Rarity {
    if rarity_roll * 100 < (4 + luck) * ROLL_SCALE {
        Rarity::Unique
    } else if rarity_roll * 100 < (26 + luck) * ROLL_SCALE {
        Rarity::Rare
    } else {
        Rarity::Common
    }
}

/// The item that a set of rolls gives.
pub open spec fn item_matches_rolls(
    it: Item,
    slot_roll: u32,
    kind_roll: u32,
    rarity_roll: u32,
    power: u32,
    luck: i32,
) -> bool {
    let class = class_for(slot_for_roll(slot_roll), kind_roll);
    let rarity = rarity_for(rarity_roll, luck);
    &&& it.class == class
    &&& it.rarity == rarity
    &&& it.power == if power < 1 { 1 } else { power }
    &&& it.enchants@.len() == 0
    &&& it.name@ == if rarity == Rarity::Unique { spec_unique_name(class) } else { Seq::empty() }
}

fn pick_class(slot: Slot, kind_roll: u32) -> (c: ItemClass)
    ensures
        c == class_for(slot, kind_roll),
{
    match slot {
        Slot::Melee => ItemClass::M(
            if kind_roll == 0 {
                MeleeClass::Sword
            } else if kind_roll == 1 {
                MeleeClass::Axe
            } else if kind_roll == 2 {
                MeleeClass::Hammer
            } else if kind_roll == 3 {
                MeleeClass::Dagger
            } else {
                MeleeClass::Gauntlet
            },
        ),
        Slot::Ranged => ItemClass::R(
            if kind_roll == 0 {
                RangedClass::Bow
            } else if kind_roll == 1 {
                RangedClass::Crossbow
            } else {
                RangedClass::HeavyCrossbow
            },
        ),
        Slot::Armor => ItemClass::A(
            if kind_roll == 0 {
                ArmorClass::Light
            } else if kind_roll == 1 {
                ArmorClass::Medium
            } else {
                ArmorClass::Heavy
            },
        ),
        Slot::Artifact => ItemClass::Art(pick_artifact(kind_roll)),
    }
}

/// The artifact kind that a roll below 6 selects.
pub fn pick_artifact(kind_roll: u32) -> (k: ArtifactKind)
    ensures
        k == artifact_for(kind_roll),
{
    if kind_roll == 0 {
        ArtifactKind::Lightning
    } else if kind_roll == 1 {
        ArtifactKind::Totem
    } else if kind_roll == 2 {
        ArtifactKind::WindHorn
    } else if kind_roll == 3 {
        ArtifactKind::Harvester
    } else if kind_roll == 4 {
        ArtifactKind::Fireworks
    } else {
        ArtifactKind::Seeds
    }
}

/// Builds the item that the given rolls select (the deterministic half of
/// `gen_item`): `slot_roll` and `rarity_roll` are below `ROLL_SCALE`,
/// `luck` is in hundredths.
pub fn item_from_rolls(slot_roll: u32, kind_roll: u32, rarity_roll: u32, power: u32, luck: i32) -> (it: Item)
    requires
        slot_roll < ROLL_SCALE,
        rarity_roll < ROLL_SCALE,
    ensures
        item_matches_rolls(it, slot_roll, kind_roll, rarity_roll, power, luck),
{
    let slot = if slot_roll < 5033165 {
        Slot::Melee
    } else if slot_roll < 9227469 {
        Slot::Ranged
    } else if slot_roll < 14260634 {
        Slot::Armor
    } else {
        Slot::Artifact
    };
    let class = pick_class(slot, kind_roll);
    let r = rarity_roll as i64 * 100;
    let lo = 4 + luck as i64;
    let hi = 26 + luck as i64;
    assert(-0x100_0000_0000_0000 <= lo * ROLL_SCALE <= 0x100_0000_0000_0000) by (nonlinear_arith)
        requires
            -0x1_0000_0000 <= lo <= 0x1_0000_0000,
            ROLL_SCALE == 0x100_0000,
    ;
    assert(-0x100_0000_0000_0000 <= hi * ROLL_SCALE <= 0x100_0000_0000_0000) by (nonlinear_arith)
        requires
            -0x1_0000_0000 <= hi <= 0x1_0000_0000,
            ROLL_SCALE == 0x100_0000,
    ;
    let rarity = if r < lo * ROLL_SCALE as i64 {
        Rarity::Unique
    } else if r < hi * ROLL_SCALE as i64 {
        Rarity::Rare
    } else {
        Rarity::Common
    };
    let name = if rarity == Rarity::Unique {
        let n = unique_name(&class);
        match n {
            Some(s) => String::from_str(s),
            None => String::from_str("Relique"),
        }
    } else {
        String::new()
    };
    Item { name, class, power: if power < 1 { 1 } else { power }, rarity, enchants: Vec::new() }
}

/// `it` is what some draw of the three rolls gives at `power` and `luck`.
pub open spec fn rolled_item(it: Item, power: u32, luck: i32) -> bool {
    exists|a: u32, b: u32, c: u32|
        a < ROLL_SCALE && c < ROLL_SCALE && b < kinds_in(slot_for_roll(a)) && item_matches_rolls(
            it,
            a,
            b,
            c,
            power,
            luck,
        )
}

/// Random item generation (drops / shop). `luck` is in hundredths and
/// lowers the rarity roll (negative luck raises it).
pub fn gen_item(rng: &mut rand::rngs::ThreadRng, power: u32, luck: i32) -> (it: Item)
    ensures
        rolled_item(it, power, luck),
{
    let slot_roll = roll_below(rng, ROLL_SCALE);
    let n: u32 = if slot_roll < 5033165 {
        5
    } else if slot_roll < 9227469 {
        3
    } else if slot_roll < 14260634 {
        3
    } else {
        6
    };
    let kind_roll = roll_below(rng, n);
    let rarity_roll = roll_below(rng, ROLL_SCALE);
    item_from_rolls(slot_roll, kind_roll, rarity_roll, power, luck)
}

} // verus!
