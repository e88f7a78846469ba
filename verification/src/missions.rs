//! Mission tree of the campaign:
//!   Creeper Woods -> Pumpkin Pastures -> Cacti Canyon -> Soggy Swamp
//!   (-> Soggy Cave, secret) -> Redstone Mines -> Desert Temple
//!   (-> Arch Haven, secret) -> Dingy Jungle -> Stronghold -> Nether Wastes
//!   -> Obsidian Pinnacle -> three islands -> Écho du Vide.

use vstd::prelude::*;

verus! {

#[derive(Clone, Copy, PartialEq, Eq, Debug, Structural)]
pub enum Biome {
    Forest,
    Plains,
    Canyon,
    Swamp,
    Cave,
    Mines,
    Desert,
    Haven,
    Jungle,
    Stronghold,
    Nether,
    Pinnacle,
    Winter,
    Peaks,
    Depths,
    Void,
}

#[derive(Clone, Copy, PartialEq, Eq, Debug, Structural)]
pub enum BossKind {
    CorruptedCauldron,
    RedstoneMonstrosity,
    NamelessOne,
    ArchIllager,
    /// finale wave instead of a real boss
    MiniGolemHorde,
    JungleAbomination,
    WretchedWraith,
    TempestGolem,
    AncientGuardian,
    Wildfire,
    VengefulHeart,
}

#[derive(Clone)]
pub struct MissionDef {
    pub id: usize,
    pub name: &'static str,
    pub biome: Biome,
    /// threat level drives loot power + enemy scaling
    pub threat: u32,
    pub boss: Option<BossKind>,
    pub is_secret: bool,
    /// mission ids that must be completed to unlock (secrets: whose rune was found)
    pub requires: Vec<usize>,
}

/// Number of missions in the campaign.
pub const MISSION_COUNT: usize = 16;

pub open spec fn mission_name(id: int) -> Seq<char> {
    if id == 0 { "Creeper Woods"@ }
    else if id == 1 { "Pumpkin Pastures"@ }
    else if id == 2 { "Cacti Canyon"@ }
    else if id == 3 { "Soggy Swamp"@ }
    else if id == 4 { "Soggy Cave"@ }
    else if id == 5 { "Redstone Mines"@ }
    else if id == 6 { "Desert Temple"@ }
    else if id == 7 { "Arch Haven"@ }
    else if id == 8 { "Dingy Jungle"@ }
    else if id == 9 { "Stronghold"@ }
    else if id == 10 { "Nether Wastes"@ }
    else if id == 11 { "Obsidian Pinnacle"@ }
    else if id == 12 { "Hiver Grondant"@ }
    else if id == 13 { "Pics Hurleurs"@ }
    else if id == 14 { "Profondeurs Cachées"@ }
    else { "Écho du Vide"@ }
}

pub open spec fn mission_biome(id: int) -> Biome {
    if id == 0 { Biome::Forest }
    else if id == 1 { Biome::Plains }
    else if id == 2 { Biome::Canyon }
    else if id == 3 { Biome::Swamp }
    else if id == 4 { Biome::Cave }
    else if id == 5 { Biome::Mines }
    else if id == 6 { Biome::Desert }
    else if id == 7 { Biome::Haven }
    else if id == 8 { Biome::Jungle }
    else if id == 9 { Biome::Stronghold }
    else if id == 10 { Biome::Nether }
    else if id == 11 { Biome::Pinnacle }
    else if id == 12 { Biome::Winter }
    else if id == 13 { Biome::Peaks }
    else if id == 14 { Biome::Depths }
    else { Biome::Void }
}

pub open spec fn mission_threat(id: int) -> u32 {
    if id == 0 { 2 }
    else if id == 1 { 4 }
    else if id == 2 { 6 }
    else if id == 3 { 8 }
    else if id == 4 { 9 }
    else if id == 5 { 11 }
    else if id == 6 { 13 }
    else if id == 7 { 14 }
    else if id == 8 { 16 }
    else if id == 9 { 18 }
    else if id == 10 { 20 }
    else if id == 11 { 23 }
    else if id == 12 { 24 }
    else if id == 13 { 25 }
    else if id == 14 { 26 }
    else { 28 }
}

pub open spec fn mission_boss(id: int) -> Option<BossKind> {
    if id == 0 || id == 1 || id == 2 || id == 7 { None }
    else if id == 3 { Some(BossKind::CorruptedCauldron) }
    else if id == 4 { Some(BossKind::MiniGolemHorde) }
    else if id == 5 { Some(BossKind::RedstoneMonstrosity) }
    else if id == 6 { Some(BossKind::NamelessOne) }
    else if id == 8 { Some(BossKind::JungleAbomination) }
    else if id == 9 { Some(BossKind::MiniGolemHorde) }
    else if id == 10 { Some(BossKind::Wildfire) }
    else if id == 11 { Some(BossKind::ArchIllager) }
    else if id == 12 { Some(BossKind::WretchedWraith) }
    else if id == 13 { Some(BossKind::TempestGolem) }
    else if id == 14 { Some(BossKind::AncientGuardian) }
    else { Some(BossKind::VengefulHeart) }
}

pub open spec fn mission_is_secret(id: int) -> bool {
    id == 4 || id == 7
}

pub open spec fn mission_requires(id: int) -> Seq<usize> {
    if id == 0 { seq![] }
    else if id == 1 { seq![0] }
    else if id == 2 { seq![1] }
    else if id == 3 { seq![2] }
    else if id == 4 { seq![3] }
    else if id == 5 { seq![3] }
    else if id == 6 { seq![5] }
    else if id == 7 { seq![6] }
    else if id == 8 { seq![6] }
    else if id == 9 { seq![8] }
    else if id == 10 { seq![9] }
    else if id == 11 { seq![10] }
    else if id == 12 { seq![11] }
    else if id == 13 { seq![11] }
    else if id == 14 { seq![11] }
    else { seq![12, 13, 14] }
}

/// The definition of mission `id`.
pub fn mission(id: usize) -> (m: MissionDef)
    requires
        id < MISSION_COUNT,
    ensures
        m.id == id,
        m.name@ == mission_name(id as int),
        m.biome == mission_biome(id as int),
        m.threat == mission_threat(id as int),
        m.boss == mission_boss(id as int),
        m.is_secret == mission_is_secret(id as int),
        m.requires@ == mission_requires(id as int),
{
    let mut req: Vec<usize> = Vec::new();
    let (name, biome, threat, boss): (&'static str, Biome, u32, Option<BossKind>) = if id == 0 {
        ("Creeper Woods", Biome::Forest, 2, None)
    } else if id == 1 {
        req.push(0);
        ("Pumpkin Pastures", Biome::Plains, 4, None)
    } else if id == 2 {
        req.push(1);
        ("Cacti Canyon", Biome::Canyon, 6, None)
    } else if id == 3 {
        req.push(2);
        ("Soggy Swamp", Biome::Swamp, 8, Some(BossKind::CorruptedCauldron))
    } else if id == 4 {
        req.push(3);
        ("Soggy Cave", Biome::Cave, 9, Some(BossKind::MiniGolemHorde))
    } else if id == 5 {
        req.push(3);
        ("Redstone Mines", Biome::Mines, 11, Some(BossKind::RedstoneMonstrosity))
    } else if id == 6 {
        req.push(5);
        ("Desert Temple", Biome::Desert, 13, Some(BossKind::NamelessOne))
    } else if id == 7 {
        req.push(6);
        ("Arch Haven", Biome::Haven, 14, None)
    } else if id == 8 {
        req.push(6);
        ("Dingy Jungle", Biome::Jungle, 16, Some(BossKind::JungleAbomination))
    } else if id == 9 {
        req.push(8);
        ("Stronghold", Biome::Stronghold, 18, Some(BossKind::MiniGolemHorde))
    } else if id == 10 {
        req.push(9);
        ("Nether Wastes", Biome::Nether, 20, Some(BossKind::Wildfire))
    } else if id == 11 {
        req.push(10);
        ("Obsidian Pinnacle", Biome::Pinnacle, 23, Some(BossKind::ArchIllager))
    } else if id == 12 {
        req.push(11);
        ("Hiver Grondant", Biome::Winter, 24, Some(BossKind::WretchedWraith))
    } else if id == 13 {
        req.push(11);
        ("Pics Hurleurs", Biome::Peaks, 25, Some(BossKind::TempestGolem))
    } else if id == 14 {
        req.push(11);
        ("Profondeurs Cachées", Biome::Depths, 26, Some(BossKind::AncientGuardian))
    } else {
        req.push(12);
        req.push(13);
        req.push(14);
        ("Écho du Vide", Biome::Void, 28, Some(BossKind::VengefulHeart))
    };
    assert(req@ =~= mission_requires(id as int));
    MissionDef { id, name, biome, threat, boss, is_secret: id == 4 || id == 7, requires: req }
}

/// Secret mission unlocked by the hidden rune of a mission's level.
pub open spec fn spec_secret_unlocked_by_rune(mission_id: int) -> Option<usize> {
    if mission_id == 3 {
        Some(4)
    } else if mission_id == 6 {
        Some(7)
    } else {
        None
    }
}

/// Missions whose level contains a hidden rune that unlocks the secret below them.
pub fn secret_unlocked_by_rune(mission_id: usize) -> (r: Option<usize>)
    ensures
        r == spec_secret_unlocked_by_rune(mission_id as int),
{
    match mission_id {
        3 => Some(4),
        6 => Some(7),
        _ => None,
    }
}

impl Biome {
    pub fn display(&self) -> (s: &'static str)
        ensures
            s@ == spec_biome_display(*self),
    {
        match self {
            Biome::Forest => "Bois",
            Biome::Plains => "Plaines",
            Biome::Canyon => "Canyon",
            Biome::Swamp => "Marais",
            Biome::Cave => "Caverne",
            Biome::Mines => "Mines",
            Biome::Desert => "Désert",
            Biome::Haven => "Refuge",
            Biome::Jungle => "Jungle",
            Biome::Stronghold => "Forteresse",
            Biome::Nether => "Nether",
            Biome::Pinnacle => "Pinacle",
            Biome::Winter => "Hiver",
            Biome::Peaks => "Pics",
            Biome::Depths => "Profondeurs",
            Biome::Void => "Vide",
        }
    }
}

pub open spec fn spec_biome_display(b: Biome) -> Seq<char> {
    match b {
        Biome::Forest => "Bois"@,
        Biome::Plains => "Plaines"@,
        Biome::Canyon => "Canyon"@,
        Biome::Swamp => "Marais"@,
        Biome::Cave => "Caverne"@,
        Biome::Mines => "Mines"@,
        Biome::Desert => "Désert"@,
        Biome::Haven => "Refuge"@,
        Biome::Jungle => "Jungle"@,
        Biome::Stronghold => "Forteresse"@,
        Biome::Nether => "Nether"@,
        Biome::Pinnacle => "Pinacle"@,
        Biome::Winter => "Hiver"@,
        Biome::Peaks => "Pics"@,
        Biome::Depths => "Profondeurs"@,
        Biome::Void => "Vide"@,
    }
}

/// French display name of a boss.
pub open spec fn spec_boss_name(b: BossKind) -> Seq<char> {
    match b {
        BossKind::CorruptedCauldron => "Chaudron Corrompu"@,
        BossKind::RedstoneMonstrosity => "Monstruosité Redstone"@,
        BossKind::NamelessOne => "le Sans-Nom"@,
        BossKind::ArchIllager => "Arch-Illageois"@,
        BossKind::MiniGolemHorde => "la Garde Golem"@,
        BossKind::JungleAbomination => "Abomination de la Jungle"@,
        BossKind::WretchedWraith => "Spectre Repoussant"@,
        BossKind::TempestGolem => "Golem Tempête"@,
        BossKind::AncientGuardian => "Gardien Antique"@,
        BossKind::Wildfire => "Feu Sauvage"@,
        BossKind::VengefulHeart => "Cœur d'Ender Vengeur"@,
    }
}

impl BossKind {
    /// French display name of the boss.
    pub fn name_fr(&self) -> (s: &'static str)
        ensures
            s@ == spec_boss_name(*self),
    {
        match self {
            BossKind::CorruptedCauldron => "Chaudron Corrompu",
            BossKind::RedstoneMonstrosity => "Monstruosité Redstone",
            BossKind::NamelessOne => "le Sans-Nom",
            BossKind::ArchIllager => "Arch-Illageois",
            BossKind::MiniGolemHorde => "la Garde Golem",
            BossKind::JungleAbomination => "Abomination de la Jungle",
            BossKind::WretchedWraith => "Spectre Repoussant",
            BossKind::TempestGolem => "Golem Tempête",
            BossKind::AncientGuardian => "Gardien Antique",
            BossKind::Wildfire => "Feu Sauvage",
            BossKind::VengefulHeart => "Cœur d'Ender Vengeur",
        }
    }
}

/// Name of the boss of a mission, if it has one.
pub fn boss_name(mission_id: usize) -> (r: Option<&'static str>)
    requires
        mission_id < MISSION_COUNT,
    ensures
        r is Some == mission_boss(mission_id as int) is Some,
        r is Some ==> r.unwrap()@ == spec_boss_name(mission_boss(mission_id as int).unwrap()),
{
    let m = mission(mission_id);
    match m.boss {
        Some(b) => Some(b.name_fr()),
        None => None,
    }
}

/// Threat level of a mission.
pub fn total_threat(mission_id: usize) -> (t: u32)
    requires
        mission_id < MISSION_COUNT,
    ensures
        t == mission_threat(mission_id as int),
{
    mission(mission_id).threat
}

/// Enemy spawn weights per biome: (enemy id, weight).
pub open spec fn spec_biome_enemies(b: Biome) -> Seq<(Seq<char>, u32)> {
    match b {
        Biome::Forest => seq![("zombie"@, 6u32), ("skeleton"@, 3u32), ("creeper"@, 3u32), ("spider"@, 2u32), ("necromancer"@, 1u32), ("enderman"@, 1u32)],
        Biome::Plains => seq![("zombie"@, 5u32), ("skeleton"@, 3u32), ("pillager"@, 3u32), ("creeper"@, 2u32), ("mooshroom"@, 1u32), ("illusioner"@, 1u32)],
        Biome::Canyon => seq![("husk"@, 5u32), ("skeleton"@, 4u32), ("pillager"@, 3u32), ("vindicator"@, 2u32), ("geomancer"@, 1u32), ("cave_crawler"@, 2u32)],
        Biome::Swamp => seq![("zombie"@, 4u32), ("slime"@, 5u32), ("witch"@, 3u32), ("spider"@, 3u32), ("drowned"@, 2u32), ("drowned_necromancer"@, 1u32), ("poison_anemone"@, 1u32)],
        Biome::Cave => seq![("slime"@, 5u32), ("zombie"@, 3u32), ("skeleton"@, 3u32), ("witch"@, 2u32), ("bat"@, 3u32), ("silverfish"@, 3u32), ("cave_crawler"@, 2u32), ("endermite"@, 2u32)],
        Biome::Mines => seq![("zombie"@, 3u32), ("skeleton"@, 3u32), ("pillager"@, 4u32), ("redstone_golem"@, 1u32), ("bat"@, 3u32), ("silverfish"@, 2u32), ("cave_crawler"@, 2u32)],
        Biome::Desert => seq![("husk"@, 5u32), ("skeleton"@, 4u32), ("necromancer"@, 2u32), ("vindicator"@, 2u32), ("geomancer"@, 1u32), ("caerbannog"@, 1u32)],
        Biome::Haven => seq![("mooshroom"@, 4u32), ("zombie"@, 2u32), ("pillager"@, 2u32), ("bat"@, 2u32), ("caerbannog"@, 1u32)],
        Biome::Jungle => seq![("jungle_zombie"@, 5u32), ("spider"@, 4u32), ("witch"@, 2u32), ("creeper"@, 3u32), ("bat"@, 2u32), ("mossy_skeleton"@, 3u32), ("whisperer"@, 2u32), ("leapleaf"@, 2u32), ("poison_anemone"@, 1u32), ("poison_quill_vine"@, 1u32), ("mini_abomination"@, 1u32)],
        Biome::Stronghold => seq![("vindicator"@, 5u32), ("pillager"@, 4u32), ("enchanter"@, 2u32), ("redstone_golem"@, 1u32), ("skeleton"@, 2u32), ("skeleton_vanguard"@, 2u32), ("royal_guard"@, 1u32), ("vex"@, 2u32), ("illusioner"@, 1u32)],
        Biome::Nether => seq![("blaze"@, 4u32), ("husk"@, 3u32), ("wraith"@, 4u32), ("geomancer"@, 2u32), ("vindicator"@, 2u32), ("wither_skeleton"@, 3u32), ("zombified_pig"@, 3u32), ("piglin"@, 2u32), ("piglin_brute"@, 1u32), ("hoglin"@, 1u32), ("magmacube"@, 3u32), ("ghast"@, 1u32)],
        Biome::Pinnacle => seq![("vindicator"@, 5u32), ("enchanter"@, 3u32), ("pillager"@, 4u32), ("redstone_golem"@, 1u32), ("necromancer"@, 2u32), ("skeleton_vanguard"@, 2u32), ("royal_guard"@, 1u32), ("vex"@, 2u32), ("enderman"@, 1u32)],
        Biome::Winter => seq![("frozen_zombie"@, 5u32), ("icy_creeper"@, 3u32), ("iceologer"@, 1u32), ("ghostly_kindler"@, 2u32), ("skeleton"@, 3u32), ("husk"@, 2u32), ("wraith"@, 2u32)],
        Biome::Peaks => seq![("mountaineer"@, 5u32), ("windcaller"@, 1u32), ("squall_golem"@, 1u32), ("skeleton"@, 2u32), ("vindicator"@, 2u32), ("iceologer"@, 1u32)],
        Biome::Depths => seq![("sunken_skeleton"@, 5u32), ("drowned"@, 5u32), ("drowned_necromancer"@, 1u32), ("slime"@, 2u32), ("witch"@, 1u32)],
        Biome::Void => seq![("enderman"@, 3u32), ("endermite"@, 4u32), ("endling"@, 3u32), ("blastling"@, 3u32), ("snareling"@, 3u32), ("vex"@, 1u32), ("wraith"@, 2u32)],
    }
}

/// Enemy spawn weights per biome: (enemy id, weight).
pub fn biome_enemies(biome: Biome) -> (v: Vec<(&'static str, u32)>)
    ensures
        v@.len() == spec_biome_enemies(biome).len(),
        1 <= v@.len() <= 12,
        forall|i: int| 0 <= i < v@.len() ==> 1 <= (#[trigger] v@[i]).1 <= 6,
        forall|i: int| 0 <= i < v@.len() ==> (#[trigger] v@[i]).0@ == spec_biome_enemies(biome)[i].0 && v@[i].1
            == spec_biome_enemies(biome)[i].1,
{
    let pairs: Vec<(&'static str, u32)> = match biome {
        Biome::Forest => vec![("zombie", 6), ("skeleton", 3), ("creeper", 3), ("spider", 2), ("necromancer", 1), ("enderman", 1)],
        Biome::Plains => vec![("zombie", 5), ("skeleton", 3), ("pillager", 3), ("creeper", 2), ("mooshroom", 1), ("illusioner", 1)],
        Biome::Canyon => vec![("husk", 5), ("skeleton", 4), ("pillager", 3), ("vindicator", 2), ("geomancer", 1), ("cave_crawler", 2)],
        Biome::Swamp => vec![("zombie", 4), ("slime", 5), ("witch", 3), ("spider", 3), ("drowned", 2), ("drowned_necromancer", 1), ("poison_anemone", 1)],
        Biome::Cave => vec![("slime", 5), ("zombie", 3), ("skeleton", 3), ("witch", 2), ("bat", 3), ("silverfish", 3), ("cave_crawler", 2), ("endermite", 2)],
        Biome::Mines => vec![("zombie", 3), ("skeleton", 3), ("pillager", 4), ("redstone_golem", 1), ("bat", 3), ("silverfish", 2), ("cave_crawler", 2)],
        Biome::Desert => vec![("husk", 5), ("skeleton", 4), ("necromancer", 2), ("vindicator", 2), ("geomancer", 1), ("caerbannog", 1)],
        Biome::Haven => vec![("mooshroom", 4), ("zombie", 2), ("pillager", 2), ("bat", 2), ("caerbannog", 1)],
        Biome::Jungle => vec![("jungle_zombie", 5), ("spider", 4), ("witch", 2), ("creeper", 3), ("bat", 2), ("mossy_skeleton", 3), ("whisperer", 2), ("leapleaf", 2), ("poison_anemone", 1), ("poison_quill_vine", 1), ("mini_abomination", 1)],
        Biome::Stronghold => vec![("vindicator", 5), ("pillager", 4), ("enchanter", 2), ("redstone_golem", 1), ("skeleton", 2), ("skeleton_vanguard", 2), ("royal_guard", 1), ("vex", 2), ("illusioner", 1)],
        Biome::Nether => vec![("blaze", 4), ("husk", 3), ("wraith", 4), ("geomancer", 2), ("vindicator", 2), ("wither_skeleton", 3), ("zombified_pig", 3), ("piglin", 2), ("piglin_brute", 1), ("hoglin", 1), ("magmacube", 3), ("ghast", 1)],
        Biome::Pinnacle => vec![("vindicator", 5), ("enchanter", 3), ("pillager", 4), ("redstone_golem", 1), ("necromancer", 2), ("skeleton_vanguard", 2), ("royal_guard", 1), ("vex", 2), ("enderman", 1)],
        Biome::Winter => vec![("frozen_zombie", 5), ("icy_creeper", 3), ("iceologer", 1), ("ghostly_kindler", 2), ("skeleton", 3), ("husk", 2), ("wraith", 2)],
        Biome::Peaks => vec![("mountaineer", 5), ("windcaller", 1), ("squall_golem", 1), ("skeleton", 2), ("vindicator", 2), ("iceologer", 1)],
        Biome::Depths => vec![("sunken_skeleton", 5), ("drowned", 5), ("drowned_necromancer", 1), ("slime", 2), ("witch", 1)],
        Biome::Void => vec![("enderman", 3), ("endermite", 4), ("endling", 3), ("blastling", 3), ("snareling", 3), ("vex", 1), ("wraith", 2)],
    };
    pairs
}

} // verus!
