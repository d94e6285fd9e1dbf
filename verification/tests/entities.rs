use voxel_game::entities::entity::{
    EntityId, EntityManagerInner, RequestedCallbacks, FIRST_ENTITY_ID,
};
use voxel_game::entities::key_manager::{ElementState, KeyEvent, KeyInputManager, KeyState};

fn press(code: u32) -> KeyEvent {
    KeyEvent { physical_key: Some(code), state: ElementState::Pressed, repeat: false }
}

fn release(code: u32) -> KeyEvent {
    KeyEvent { physical_key: Some(code), state: ElementState::Released, repeat: false }
}

#[test]
fn entity_ids() {
    assert_eq!(EntityId::empty(), EntityId::new(0));
    assert_ne!(EntityId::new(1), EntityId::new(2));
}

#[test]
fn callbacks_bits() {
    let both = RequestedCallbacks::update().union(RequestedCallbacks::event());
    assert_eq!(both.bits(), 3);
    assert!(both.contains(RequestedCallbacks::update()));
    assert!(both.contains(RequestedCallbacks::event()));
    assert!(!both.contains(RequestedCallbacks::render()));
    assert!(!both.contains(RequestedCallbacks::set_id()));
    assert_eq!(RequestedCallbacks::set_id().bits(), 4);
    assert_eq!(RequestedCallbacks::render().bits(), 8);
    assert_eq!(RequestedCallbacks::from_bits_retain(12).bits(), 12);
}

#[test]
fn entity_create_hands_out_fresh_ids() {
    let mut inner = EntityManagerInner::new();
    let mut last_id: usize = 1;
    let a = inner.entity_create(&mut last_id, RequestedCallbacks::update());
    let b = inner.entity_create(&mut last_id, RequestedCallbacks::event());
    let c = inner.entity_create(&mut last_id, RequestedCallbacks::update().union(RequestedCallbacks::render()));
    assert_eq!(a, EntityId::new(1));
    assert_eq!(b, EntityId::new(2));
    assert_eq!(c, EntityId::new(3));
    assert_eq!(last_id, 4);
    let mut upd = inner.entities_with(RequestedCallbacks::update());
    upd.sort_by_key(|e| format!("{:?}", e));
    assert_eq!(upd, vec![a, c]);
    assert_eq!(inner.entities_with(RequestedCallbacks::event()), vec![b]);
    assert!(inner.entities_with(RequestedCallbacks::set_id()).is_empty());
    inner.entity_destroy(a);
    assert!(!inner.contains(a));
    assert!(inner.contains(b));
    assert_eq!(inner.entities_with(RequestedCallbacks::update()), vec![c]);
}

#[test]
fn unseen_key_is_not_pressed() {
    let mut m = KeyInputManager::new();
    assert_eq!(*m.keys.get_key(&7), KeyState::NotPressed);
}

#[test]
fn key_press_hold_release_cycle() {
    let mut m = KeyInputManager::new();
    m.keys.update_key(&press(1));
    assert_eq!(*m.keys.get_key(&1), KeyState::Pressed);
    m.keys.update();
    assert_eq!(*m.keys.get_key(&1), KeyState::Held);
    m.keys.update();
    assert_eq!(*m.keys.get_key(&1), KeyState::Held);
    m.keys.update_key(&release(1));
    assert_eq!(*m.keys.get_key(&1), KeyState::Released);
    m.keys.update();
    assert_eq!(*m.keys.get_key(&1), KeyState::NotPressed);
}

#[test]
fn key_pressed_twice_is_held() {
    let mut m = KeyInputManager::new();
    m.keys.update_key(&press(2));
    m.keys.update_key(&press(2));
    assert_eq!(*m.keys.get_key(&2), KeyState::Held);
    m.keys.update_key(&release(2));
    assert_eq!(*m.keys.get_key(&2), KeyState::Released);
    m.keys.update_key(&release(2));
    assert_eq!(*m.keys.get_key(&2), KeyState::NotPressed);
    m.keys.update_key(&release(2));
    assert_eq!(*m.keys.get_key(&2), KeyState::NotPressed);
    m.keys.update_key(&press(2));
    assert_eq!(*m.keys.get_key(&2), KeyState::Pressed);
}

#[test]
fn repeats_and_unidentified_keys_are_ignored() {
    let mut m = KeyInputManager::new();
    m.keys.update_key(&KeyEvent { physical_key: Some(3), state: ElementState::Pressed, repeat: true });
    assert_eq!(*m.keys.get_key(&3), KeyState::NotPressed);
    m.keys.update_key(&KeyEvent { physical_key: None, state: ElementState::Pressed, repeat: false });
    m.keys.update();
    assert_eq!(*m.keys.get_key(&3), KeyState::NotPressed);
}

#[test]
fn frame_end_settles_every_key() {
    let mut m = KeyInputManager::new();
    m.keys.update_key_from_state(&10, &KeyState::Pressed);
    m.keys.update_key_from_state(&11, &KeyState::Released);
    m.keys.update_key_from_state(&12, &KeyState::Held);
    m.keys.update_key_from_state(&13, &KeyState::NotPressed);
    m.keys.update();
    assert_eq!(*m.keys.get_key(&10), KeyState::Held);
    assert_eq!(*m.keys.get_key(&11), KeyState::NotPressed);
    assert_eq!(*m.keys.get_key(&12), KeyState::Held);
    assert_eq!(*m.keys.get_key(&13), KeyState::NotPressed);
    m.keys.update();
    assert_eq!(*m.keys.get_key(&10), KeyState::Held);
    assert_eq!(*m.keys.get_key(&11), KeyState::NotPressed);
}

#[test]
fn key_input_manager_init_and_register() {
    let mut m = KeyInputManager::new();
    let cb = m.init(EntityId::new(5));
    assert_eq!(cb.bits(), 3);
    assert!(m.inputable_ids().is_empty());
    m.register(EntityId::new(9));
    assert_eq!(m.inputable_ids(), vec![EntityId::new(9)]);
    // Registration always fills the same slot.
    m.register(EntityId::new(10));
    assert_eq!(m.inputable_ids(), vec![EntityId::new(10)]);
}

#[test]
fn successive_creates_hand_out_consecutive_ids() {
    let mut inner = EntityManagerInner::new();
    let mut last_id: usize = FIRST_ENTITY_ID;
    assert_eq!(last_id, 1);
    let mut ids = Vec::new();
    for k in 0..6u32 {
        ids.push(inner.entity_create(&mut last_id, RequestedCallbacks::from_bits_retain(k)));
    }
    let expected: Vec<EntityId> = (1..7).map(EntityId::new).collect();
    assert_eq!(ids, expected);
    assert_eq!(last_id, 7);
    for id in &ids {
        assert!(inner.contains(*id));
    }
    assert!(!inner.contains(EntityId::new(0)));
    assert!(!inner.contains(EntityId::new(7)));
    assert_eq!(inner.entities_with(RequestedCallbacks::from_bits_retain(5)), vec![ids[5]]);
}
