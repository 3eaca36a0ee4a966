//! Items and what using them does to the world.
//!
//! Using an item queues the game systems it runs; the game runs them.
use vstd::prelude::*;

verus! {

/// A game system that an item runs when it is used.
#[derive(Debug, PartialEq, Eq, Structural, Clone, Copy)]
pub enum ItemSystem {
    /// Despawn every goblin.
    KillAllGoblins,
    /// Spawn a goblin five units in front of the player.
    SpawnGoblin,
    /// Spawn 80 goblins at random places.
    RandomSpawnGoblins,
}

#[derive(Debug)]
pub enum Item {
    KillAllGoblins(ItemKillAllGoblins),
    SpawnGoblin(ItemSpawnGoblin),
    SpawnTwoGoblins(ItemSpawnTwoGoblins),
    SpawnGoblinsRandom(ItemSpawnGoblinsRandom),
}

pub trait ItemEffect {
    /// The systems that using the item runs, in order.
    spec fn effect_systems(&self) -> Seq<ItemSystem>;

    /// Queues the systems that using the item runs.
    fn use_effect(&mut self, commands: &mut Vec<ItemSystem>)
        ensures
            final(commands)@ == old(commands)@ + old(self).effect_systems(),
    ;
}

#[derive(Debug)]
pub struct ItemKillAllGoblins;

impl ItemEffect for ItemKillAllGoblins {
    open spec fn effect_systems(&self) -> Seq<ItemSystem> {
        seq![ItemSystem::KillAllGoblins]
    }

    fn use_effect(&mut self, commands: &mut Vec<ItemSystem>) {
        commands.push(ItemSystem::KillAllGoblins);
    }
}

#[derive(Debug)]
pub struct ItemSpawnGoblin;

impl ItemEffect for ItemSpawnGoblin {
    open spec fn effect_systems(&self) -> Seq<ItemSystem> {
        seq![ItemSystem::SpawnGoblin]
    }

    fn use_effect(&mut self, commands: &mut Vec<ItemSystem>) {
        commands.push(ItemSystem::SpawnGoblin);
    }
}

#[derive(Debug)]
pub struct ItemSpawnTwoGoblins;

impl ItemEffect for ItemSpawnTwoGoblins {
    open spec fn effect_systems(&self) -> Seq<ItemSystem> {
        seq![ItemSystem::SpawnGoblin, ItemSystem::SpawnGoblin]
    }

    fn use_effect(&mut self, commands: &mut Vec<ItemSystem>) {
        commands.push(ItemSystem::SpawnGoblin);
        commands.push(ItemSystem::SpawnGoblin);
        assert(commands@ =~= old(commands)@ + self.effect_systems());
    }
}

#[derive(Debug)]
pub struct ItemSpawnGoblinsRandom;

impl ItemEffect for ItemSpawnGoblinsRandom {
    open spec fn effect_systems(&self) -> Seq<ItemSystem> {
        seq![ItemSystem::RandomSpawnGoblins]
    }

    fn use_effect(&mut self, commands: &mut Vec<ItemSystem>) {
        commands.push(ItemSystem::RandomSpawnGoblins);
    }
}

impl ItemEffect for Item {
    /// An item runs the systems of the item it holds.
    open spec fn effect_systems(&self) -> Seq<ItemSystem> {
        match self {
            Item::KillAllGoblins(i) => i.effect_systems(),
            Item::SpawnGoblin(i) => i.effect_systems(),
            Item::SpawnTwoGoblins(i) => i.effect_systems(),
            Item::SpawnGoblinsRandom(i) => i.effect_systems(),
        }
    }

    fn use_effect(&mut self, commands: &mut Vec<ItemSystem>) {
        match self {
            Item::KillAllGoblins(i) => i.use_effect(commands),
            Item::SpawnGoblin(i) => i.use_effect(commands),
            Item::SpawnTwoGoblins(i) => i.use_effect(commands),
            Item::SpawnGoblinsRandom(i) => i.use_effect(commands),
        }
    }
}

} // verus!
