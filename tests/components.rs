use gc_core::components::{AssignedJob, AttackCooldown, CombatStats, Entity, Faction, FactionKind, Health, Item, ItemEntity, ItemType, Target};
use gc_core::world::{Name, Position};
use gc_core::ActionLog;

#[test]
fn faction_hostility_rules() {
    let goblins = Faction::new(FactionKind::Goblins);
    let invaders = Faction::new(FactionKind::Invaders);
    let neutral = Faction::new(FactionKind::Neutral);
    assert!(goblins.is_hostile_to(&invaders));
    assert!(invaders.is_hostile_to(&goblins));
    assert!(!neutral.is_hostile_to(&goblins));
    assert!(!neutral.is_hostile_to(&invaders));
    assert!(!neutral.is_hostile_to(&neutral));
    assert!(!goblins.is_hostile_to(&goblins));
}

#[test]
fn health_creation_and_validation() {
    let health = Health::new(75, 100);
    assert_eq!(health.hp, 75);
    assert_eq!(health.max_hp, 100);
    let health = Health::new(150, 100);
    assert_eq!(health.hp, 100);
    assert_eq!(health.max_hp, 100);
    let health = Health::new(-10, 100);
    assert_eq!(health.hp, 0);
    assert_eq!(health.max_hp, 100);
    let health = Health::full(50);
    assert_eq!(health.hp, 50);
    assert_eq!(health.max_hp, 50);
}

#[test]
fn health_life_death_checks() {
    let mut health = Health::new(50, 100);
    assert!(health.is_alive());
    assert!(!health.is_dead());
    assert_eq!(health.take_damage(30), 30);
    assert_eq!(health.hp, 20);
    assert!(health.is_alive());
    assert_eq!(health.take_damage(50), 20);
    assert_eq!(health.hp, 0);
    assert!(health.is_dead());
    assert!(!health.is_alive());
}

#[test]
fn health_healing() {
    let mut health = Health::new(20, 100);
    assert_eq!(health.heal(30), 30);
    assert_eq!(health.hp, 50);
    assert_eq!(health.heal(100), 50);
    assert_eq!(health.hp, 100);
}

#[test]
fn health_extreme_amounts_clamp() {
    let mut health = Health::new(10, 20);
    assert_eq!(health.take_damage(i32::MIN), -10);
    assert_eq!(health.hp, 20);
    assert_eq!(health.heal(i32::MIN), -20);
    assert_eq!(health.hp, 0);
}

#[test]
fn combat_stats_validation() {
    let stats = CombatStats::new(10, 5, 15, 8, 20, 30);
    assert_eq!((stats.accuracy, stats.evasion, stats.attack, stats.defense), (10, 5, 15, 8));
    assert_eq!((stats.dmg_min, stats.dmg_max), (20, 30));
    let stats = CombatStats::new(-5, -3, -10, -2, 15, 25);
    assert_eq!((stats.accuracy, stats.evasion, stats.attack, stats.defense), (0, 0, 0, 0));
    assert_eq!((stats.dmg_min, stats.dmg_max), (15, 25));
    let stats = CombatStats::new(5, 3, 10, 5, 30, 20);
    assert_eq!(stats.dmg_min, 20);
    assert_eq!(stats.dmg_max, 30);
}

#[test]
fn combat_stats_hit_chance() {
    assert_eq!(CombatStats::new(10, 5, 15, 8, 20, 30).hit_chance(), 75);
    assert_eq!(CombatStats::new(20, 0, 15, 8, 20, 30).hit_chance(), 95);
    assert_eq!(CombatStats::new(0, 20, 15, 8, 20, 30).hit_chance(), 5);
    assert_eq!(CombatStats::new(i32::MAX, 0, 0, 0, 0, 0).hit_chance(), 95);
}

#[test]
fn attack_cooldown_timing() {
    let mut cooldown = AttackCooldown::new(100);
    assert!(!cooldown.is_ready(50));
    assert!(!cooldown.is_ready(99));
    assert!(cooldown.is_ready(100));
    assert!(cooldown.is_ready(150));
    cooldown.set_duration(200, 50);
    assert_eq!(cooldown.until_tick, 250);
    assert!(!cooldown.is_ready(200));
    assert!(cooldown.is_ready(250));
}

#[test]
fn target_creation() {
    let entity = Entity(42);
    let target = Target::new(entity);
    assert_eq!(target.entity, entity);
}

#[test]
fn item_entity_creation() {
    let stone = ItemEntity::stone_at(Position(5, 5));
    assert_eq!(stone.pos, Position(5, 5));
    assert_eq!(stone.item, Item::stone());
    assert_eq!(stone.item.item_type, ItemType::Stone);
    assert!(stone.carriable);
}

#[test]
fn action_log_new_log_is_empty() {
    let log = ActionLog::default();
    assert!(log.events.is_empty());
}

#[test]
fn action_log_can_log_events() {
    let mut log = ActionLog::default();
    log.log("First event".to_string());
    log.log("Second event".to_string());
    assert_eq!(log.events.len(), 2);
    assert_eq!(log.events[0], "First event");
    assert_eq!(log.events[1], "Second event");
}

#[test]
fn action_log_clear_empties_events() {
    let mut log = ActionLog::default();
    log.log("Some event".to_string());
    log.log("Another event".to_string());
    assert_eq!(log.events.len(), 2);
    log.clear();
    assert!(log.events.is_empty());
}

#[test]
fn action_log_maintains_chronological_order() {
    let mut log = ActionLog::default();
    for i in 0..10 {
        log.log(format!("Event {}", i));
    }
    for (i, event) in log.events.iter().enumerate() {
        assert_eq!(event, &format!("Event {}", i));
    }
}

#[test]
fn prelude_exports_work() {
    let _pos = Position(5, 10);
    let _name = Name("Test".to_string());
    let _job = AssignedJob::default();
}
