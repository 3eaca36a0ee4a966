//! The physics layers that game objects collide on.
use vstd::prelude::*;

verus! {

/// A set of collision layers, one bit each.
#[derive(Clone, Copy, Debug, Default, PartialEq, Eq, Structural)]
pub struct GameLayer(u32);

/// The bits of the layers; a set of layers is made from them with
/// [`GameLayer::from_bits_retain`].
impl GameLayer {
    pub const DEFAULT: u32 = 1;
    pub const ENVIRONMENT: u32 = 2;
    pub const ITEM: u32 = 4;
    pub const WEAPON_MELEE: u32 = 8;
    pub const PROJECTILE: u32 = 16;
    /// Melee weapons and projectiles.
    pub const DAMAGE_SOURCE: u32 = 24;
    pub const PLAYER: u32 = 32;
    pub const GOBLIN: u32 = 64;
    /// Players and goblins.
    pub const CREATURE: u32 = 96;

    /// The set of the layers whose bits are set in `bits`.
    pub fn from_bits_retain(bits: u32) -> (r: GameLayer)
        ensures
            r.spec_bits() == bits,
    {
        GameLayer(bits)
    }

    /// The bits of the layers in the set.
    pub closed spec fn spec_bits(&self) -> u32 {
        self.0
    }

    pub fn bits(&self) -> (r: u32)
        ensures
            r == self.spec_bits(),
    {
        self.0
    }

    /// The set of every layer.
    pub fn all() -> (r: GameLayer)
        ensures
            r.spec_bits() == 127,
    {
        GameLayer(127)
    }

    /// The layers in either set.
    pub fn union(self, other: GameLayer) -> (r: GameLayer)
        ensures
            r.spec_bits() == self.spec_bits() | other.spec_bits(),
    {
        GameLayer(self.0 | other.0)
    }

    /// Every layer of `other` is in the set.
    pub fn contains(&self, other: GameLayer) -> (r: bool)
        ensures
            r == (self.spec_bits() & other.spec_bits() == other.spec_bits()),
    {
        self.0 & other.0 == other.0
    }

    /// The bits of the layers, as the physics engine takes them.
    pub fn to_bits(&self) -> (r: u32)
        ensures
            r == self.spec_bits(),
    {
        self.bits()
    }

    /// The bits of all layers, as the physics engine takes them.
    pub fn all_bits() -> (r: u32)
        ensures
            r == 127,
    {
        Self::all().bits()
    }
}

/// Law: the combined layers are the unions of their parts, and every layer is
/// among all layers.
pub proof fn lemma_layer_unions()
    ensures
        GameLayer::DAMAGE_SOURCE == GameLayer::WEAPON_MELEE | GameLayer::PROJECTILE,
        GameLayer::CREATURE == GameLayer::PLAYER | GameLayer::GOBLIN,
        127u32 == GameLayer::DEFAULT | GameLayer::ENVIRONMENT | GameLayer::ITEM
            | GameLayer::WEAPON_MELEE | GameLayer::PROJECTILE | GameLayer::PLAYER
            | GameLayer::GOBLIN,
{
    assert(8u32 | 16u32 == 24u32) by (bit_vector);
    assert(32u32 | 64u32 == 96u32) by (bit_vector);
    assert(1u32 | 2u32 | 4u32 | 8u32 | 16u32 | 32u32 | 64u32 == 127u32) by (bit_vector);
}

} // verus!
