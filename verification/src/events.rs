use vstd::prelude::*;

use crate::items::ItemType;

verus! {

// Ephemeral notifications for effects that must be visible to connections
// other than the one that made the request. A field whose type belongs to
// another part of the server (requests, timers, coordinates, identities)
// is a type parameter here; the server instantiates it with its own type.

/// A player moves.
#[derive(Debug)]
pub struct PlayerMoveEvent<R> {
    pub actor_id: u64,
    pub request: R,
}

/// A deployable moves, driven or following.
#[derive(Debug)]
pub struct DeployableMoveEvent<R> {
    pub actor_id: u64,
    pub request: R,
    pub is_follow: bool,
}

/// An entity starts an attack.
#[derive(Debug)]
pub struct EntityAttackStartEvent<R> {
    pub request: R,
}

/// A player starts extracting a resource.
#[derive(Debug)]
pub struct ExtractStartEvent<R> {
    pub actor_id: u64,
    pub request: R,
}

/// A player starts a craft.
#[derive(Debug)]
pub struct CraftInitiateStartEvent<R> {
    pub actor_id: u64,
    pub request: R,
}

/// A player continues a craft.
#[derive(Debug)]
pub struct CraftContinueStartEvent<R> {
    pub actor_id: u64,
    pub request: R,
}

/// A player starts advancing a project site.
#[derive(Debug)]
pub struct ProjectSiteAdvanceProjectStartEvent<R> {
    pub actor_id: u64,
    pub request: R,
}

/// A player starts terraforming.
#[derive(Debug)]
pub struct TerraformStartEvent<R> {
    pub actor_id: u64,
    pub request: R,
}

/// A player starts repairing a building.
#[derive(Debug)]
pub struct BuildingRepairStartEvent<R> {
    pub actor_id: u64,
    pub request: R,
}

/// A player starts deconstructing a building.
#[derive(Debug)]
pub struct BuildingDeconstructStartEvent<R> {
    pub actor_id: u64,
    pub request: R,
}

/// A player starts resupplying a claim.
#[derive(Debug)]
pub struct ClaimResupplyStartEvent<R> {
    pub actor_id: u64,
    pub request: R,
}

/// A player starts resupplying an empire node.
#[derive(Debug)]
pub struct EmpireResupplyNodeStartEvent<R> {
    pub actor_id: u64,
    pub request: R,
}

/// A player starts converting an item.
#[derive(Debug)]
pub struct ItemConvertStartEvent<R> {
    pub actor_id: u64,
    pub request: R,
}

/// A player starts an emote.
#[derive(Debug)]
pub struct EmoteStartEvent<R> {
    pub actor_id: u64,
    pub request: R,
}

/// A player starts deploying a deployable.
#[derive(Debug)]
pub struct DeployableDeployStartEvent<R> {
    pub actor_id: u64,
    pub request: R,
}

/// A player starts storing a deployable.
#[derive(Debug)]
pub struct DeployableStoreStartEvent<R> {
    pub actor_id: u64,
    pub request: R,
}

/// A player starts placing a placeable.
#[derive(Debug)]
pub struct PlaceablePlaceStartEvent<R> {
    pub actor_id: u64,
    pub request: R,
}

/// A player starts interacting with a placeable.
#[derive(Debug)]
pub struct PlaceableInteractStartEvent<R> {
    pub actor_id: u64,
    pub request: R,
}

/// A player starts placing a paving tile.
#[derive(Debug)]
pub struct PavingPlaceTileStartEvent<R> {
    pub actor_id: u64,
    pub request: R,
}

/// A player starts destroying a paving tile.
#[derive(Debug)]
pub struct PavingDestroyTileStartEvent<R> {
    pub actor_id: u64,
    pub request: R,
}

/// A player starts placing a pillar.
#[derive(Debug)]
pub struct PillarShapingPlacePillarStartEvent<R> {
    pub actor_id: u64,
    pub request: R,
}

/// A player starts destroying a pillar.
#[derive(Debug)]
pub struct PillarShapingDestroyStartEvent<R> {
    pub actor_id: u64,
    pub request: R,
}

/// A player starts climbing.
#[derive(Debug)]
pub struct PlayerClimbStartEvent<R> {
    pub actor_id: u64,
    pub request: R,
}

/// A player starts teleporting home.
#[derive(Debug)]
pub struct PlayerTeleportHomeStartEvent<R> {
    pub actor_id: u64,
    pub request: R,
}

/// A player starts teleporting to a waystone.
#[derive(Debug)]
pub struct PlayerTeleportWaystoneStartEvent<R> {
    pub actor_id: u64,
    pub request: R,
}

/// A player starts prospecting.
#[derive(Debug)]
pub struct ProspectStartEvent {
    pub actor_id: u64,
    pub prospecting_id: i32,
    pub timestamp: u64,
}

/// A player goes to sleep.
#[derive(Debug)]
pub struct SleepEvent<R> {
    pub actor_id: u64,
    pub request: R,
}

/// A player sets their home.
#[derive(Debug)]
pub struct SetHomeEvent<R> {
    pub actor_id: u64,
    pub request: R,
}

/// A player starts dying; `timer` is the death timer.
#[derive(Debug)]
pub struct PlayerDeathStartEvent<T> {
    pub actor_id: u64,
    pub timer: T,
}

/// An attack lands; `timer` is the impact timer.
#[derive(Debug)]
pub struct AttackImpactEvent<T> {
    pub timer: T,
}

/// The outcome of an attack.
#[derive(Clone, Copy, Debug)]
pub struct AttackEvent {
    pub attacker_entity_id: u64,
    pub defender_entity_id: u64,
    pub combat_action_id: i32,
    pub damage: i32,
    pub is_crit: bool,
    pub is_dodge: bool,
}

/// An enemy moves.
#[derive(Debug)]
pub struct EnemyMoveEvent<R> {
    pub request: R,
}

/// An enemy despawns, with where it was and where it was going.
#[derive(Debug)]
pub struct EnemyDespawnEvent<E, C> {
    pub entity_id: u64,
    pub enemy_type: E,
    pub despawn_timestamp: u64,
    pub location: C,
    pub destination: C,
    pub movement_timestamp: u64,
}

/// The outcome of an extraction hit.
#[derive(Clone, Copy, Debug)]
pub struct ExtractEvent {
    pub actor_entity_id: u64,
    pub target_entity_id: u64,
    pub damage: i32,
    pub is_crit: bool,
}

/// An extraction depleted a resource, whose client representation is kept alive long enough to play its deplete effect.
#[derive(Debug)]
pub struct ResourceDepletedEvent<L> {
    pub player_entity_id: u64,
    pub resource_entity_id: u64,
    pub location: L,
    pub show_time_left: bool,
}

/// Why a player was signed out.
#[derive(Clone, Copy, Debug, PartialEq, Eq, Structural)]
pub enum PlayerSignedOutReason {
    Inactivity,
    AdminAction,
    ServerAction,
}

/// A player was signed out; `identity` is the player's connection identity.
#[derive(Debug)]
pub struct PlayerSignedOutEvent<I> {
    pub identity: I,
    pub reason: PlayerSignedOutReason,
}

/// A player teleported.
#[derive(Debug)]
pub struct PlayerTeleportEvent {
    pub actor_id: u64,
}

/// The server teleported a player.
#[derive(Debug)]
pub struct ServerTeleportEvent<R> {
    pub player_entity_id: u64,
    pub reason: R,
}

/// A player died.
#[derive(Debug)]
pub struct PlayerDeathEvent {
    pub player_entity_id: u64,
}

/// A player left a deployable.
#[derive(Debug)]
pub struct DeployableDisembarkEvent {
    pub actor_id: u64,
    pub deployable_entity_id: u64,
}

/// A player boarded a deployable.
#[derive(Debug)]
pub struct DeployableMountEvent {
    pub actor_id: u64,
    pub deployable_entity_id: u64,
}

/// Kind of market listing that a trade filled.
#[derive(Clone, Copy, Debug, PartialEq, Eq, Structural)]
pub enum MarketOrderType {
    BuyOrder,
    SellOrder,
}

/// One trade between a player and an existing market listing.
#[derive(Clone, Copy, Debug, PartialEq, Eq, Structural)]
pub struct MarketTradeEvent {
    pub claim_entity_id: u64,
    /// The existing buy or sell listing that was filled.
    pub listing_entity_id: u64,
    /// SellOrder: a player bought from the listing. BuyOrder: a player sold into the listing.
    pub listing_type: MarketOrderType,
    pub buyer_entity_id: u64,
    pub seller_entity_id: u64,
    pub item_id: i32,
    pub item_type: ItemType,
    pub quantity: i32,
    pub unit_price: i32,
    pub total_coins: i32,
    pub listing_remaining_quantity: i32,
    /// Microseconds since the Unix epoch.
    pub timestamp: i64,
}

/// A notification for a player.
#[derive(Debug)]
pub struct PlayerNotificationEvent<S> {
    pub player_entity_id: u64,
    pub message: String,
    pub severity: S,
}

/// A player moves to another region.
#[derive(Debug)]
pub struct PlayerRegionTransferEvent {
    pub player_entity_id: u64,
    pub new_region_index: u8,
}

/// A player's name change was handled.
#[derive(Debug)]
pub struct PlayerSetNameOutcomeEvent {
    pub player_entity_id: u64,
}

} // verus!
