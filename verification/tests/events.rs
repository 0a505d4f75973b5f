use bitcraft_game::events::{
    AttackEvent, MarketOrderType, PlayerMoveEvent, PlayerSignedOutEvent, PlayerSignedOutReason, ProspectStartEvent,
};

#[test]
fn event_rows_carry_their_payload() {
    let moved = PlayerMoveEvent { actor_id: 4, request: "north" };
    assert_eq!((moved.actor_id, moved.request), (4, "north"));
    let attack = AttackEvent {
        attacker_entity_id: 1,
        defender_entity_id: 2,
        combat_action_id: 3,
        damage: 40,
        is_crit: true,
        is_dodge: false,
    };
    let copy = attack;
    assert_eq!(copy.damage, 40);
    let prospect = ProspectStartEvent { actor_id: 1, prospecting_id: 6, timestamp: 99 };
    assert_eq!(prospect.prospecting_id, 6);
    let signed_out = PlayerSignedOutEvent { identity: [7u8; 32], reason: PlayerSignedOutReason::Inactivity };
    assert_eq!(signed_out.reason, PlayerSignedOutReason::Inactivity);
    assert_ne!(MarketOrderType::BuyOrder, MarketOrderType::SellOrder);
}
