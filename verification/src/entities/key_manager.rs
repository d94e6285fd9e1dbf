use std::collections::HashMap;
use vstd::prelude::*;
use vstd::std_specs::iter::IteratorSpec;

use crate::entities::entity::{EntityId, RequestedCallbacks};

verus! {

broadcast use vstd::std_specs::hash::group_hash_axioms;

/// The state of a key as the game sees it within a frame.
#[derive(Clone, Copy, PartialEq, Eq, Structural, Debug)]
pub enum KeyState {
    /// Went down since the last frame.
    Pressed,
    /// Down for more than one frame.
    Held,
    /// Up.
    NotPressed,
    /// Went up since the last frame.
    Released,
}

/// The state a key enters when it is pressed.
pub open spec fn pressed_state(s: KeyState) -> KeyState {
    match s {
        KeyState::NotPressed => KeyState::Pressed,
        KeyState::Released => KeyState::Pressed,
        KeyState::Pressed => KeyState::Held,
        KeyState::Held => KeyState::Held,
    }
}

/// The state a key enters when it is released.
pub open spec fn released_state(s: KeyState) -> KeyState {
    match s {
        KeyState::NotPressed => KeyState::NotPressed,
        KeyState::Released => KeyState::NotPressed,
        KeyState::Pressed => KeyState::Released,
        KeyState::Held => KeyState::Released,
    }
}

/// The state a key enters when a frame ends.
pub open spec fn next_frame_state(s: KeyState) -> KeyState {
    match s {
        KeyState::Released => KeyState::NotPressed,
        KeyState::Pressed => KeyState::Held,
        _ => s,
    }
}

/// Whether a key in this state is down.
pub open spec fn is_down(s: KeyState) -> bool {
    s == KeyState::Pressed || s == KeyState::Held
}

/// Whether a keyboard event reports a key going down or up.
#[derive(Clone, Copy, PartialEq, Eq, Structural, Debug)]
pub enum ElementState {
    Pressed,
    Released,
}

/// A keyboard event: the code of the physical key (`None` for a key that the platform
/// could not identify), whether it went down or up, and whether it is a repetition
/// generated by holding the key.
#[derive(Clone, Copy, Debug)]
pub struct KeyEvent {
    pub physical_key: Option<u32>,
    pub state: ElementState,
    pub repeat: bool,
}

/// The state of `key` in `keys`; a key never seen is not pressed.
pub open spec fn state_of(keys: Map<u32, KeyState>, key: u32) -> KeyState {
    if keys.contains_key(key) {
        keys[key]
    } else {
        KeyState::NotPressed
    }
}

/// `keys` with `key` recorded as not pressed if it was not recorded yet.
pub open spec fn with_key(keys: Map<u32, KeyState>, key: u32) -> Map<u32, KeyState> {
    if keys.contains_key(key) {
        keys
    } else {
        keys.insert(key, KeyState::NotPressed)
    }
}

/// The key states after `event` is handled.
pub open spec fn after_event(keys: Map<u32, KeyState>, event: KeyEvent) -> Map<u32, KeyState> {
    if event.repeat {
        keys
    } else {
        match event.physical_key {
            Some(code) => keys.insert(
                code,
                match event.state {
                    ElementState::Pressed => pressed_state(state_of(keys, code)),
                    ElementState::Released => released_state(state_of(keys, code)),
                },
            ),
            None => keys,
        }
    }
}

/// Law: a handled key-down event leaves its key down, and a handled key-up event leaves
/// its key up.
pub proof fn lemma_event_decides_down(keys: Map<u32, KeyState>, event: KeyEvent)
    requires
        !event.repeat,
        event.physical_key is Some,
    ensures
        is_down(after_event(keys, event)[event.physical_key->0]) == (event.state
            == ElementState::Pressed),
{
}

/// Law: ending a frame never changes whether a key is down, leaves no key pressed or
/// released since the last frame, and ending a second frame at once changes nothing.
pub proof fn lemma_frame_settles(s: KeyState)
    ensures
        is_down(next_frame_state(s)) == is_down(s),
        next_frame_state(s) == KeyState::Held || next_frame_state(s) == KeyState::NotPressed,
        next_frame_state(next_frame_state(s)) == next_frame_state(s),
{
}

/// Law: two key-down events in a row leave the key held, and a key-up event after
/// anything leaves the key released or not pressed.
pub proof fn lemma_press_twice_holds(s: KeyState)
    ensures
        pressed_state(pressed_state(s)) == KeyState::Held,
        released_state(s) == KeyState::Released || released_state(s) == KeyState::NotPressed,
{
}

/// Law: how one keyboard event moves the key it names, stated by whether that key was
/// down (pressed or held) before. A key-down event leaves a key that was up pressed and a
/// key that was down held; a key-up event leaves a key that was down released and a key
/// that was up not pressed. A key never seen counts as up. No other key changes, and
/// repetitions and unidentified keys change nothing.
pub proof fn lemma_event_transitions(keys: Map<u32, KeyState>, event: KeyEvent)
    ensures
        (event.repeat || event.physical_key is None) ==> after_event(keys, event) == keys,
        !event.repeat && event.physical_key is Some ==> {
            let code = event.physical_key->0;
            let before = if keys.contains_key(code) {
                keys[code]
            } else {
                KeyState::NotPressed
            };
            let was_down = before == KeyState::Pressed || before == KeyState::Held;
            let after = after_event(keys, event);
            &&& after.contains_key(code)
            &&& after.remove(code) == keys.remove(code)
            &&& event.state == ElementState::Pressed && was_down ==> after[code]
                == KeyState::Held
            &&& event.state == ElementState::Pressed && !was_down ==> after[code]
                == KeyState::Pressed
            &&& event.state == ElementState::Released && was_down ==> after[code]
                == KeyState::Released
            &&& event.state == ElementState::Released && !was_down ==> after[code]
                == KeyState::NotPressed
        },
{
    if !event.repeat && event.physical_key is Some {
        let code = event.physical_key->0;
        assert(after_event(keys, event).remove(code) =~= keys.remove(code));
    }
}

/// Records the state of every key seen so far, keyed by key code.
#[derive(Debug)]
pub struct KeyManager {
    keys: HashMap<u32, KeyState>,
}

impl View for KeyManager {
    type V = Map<u32, KeyState>;

    closed spec fn view(&self) -> Map<u32, KeyState> {
        self.keys@
    }
}

impl KeyManager {
    fn insert_if_doesnt_contain(&mut self, key: &u32)
        ensures
            final(self)@ == with_key(old(self)@, *key),
    {
        if !self.keys.contains_key(key) {
            self.keys.insert(*key, KeyState::NotPressed);
        }
    }

    /// The state of `key`; a key never seen before is recorded as not pressed.
    pub fn get_key(&mut self, key: &u32) -> (state: &KeyState)
        ensures
            final(self)@ == with_key(old(self)@, *key),
            *state == state_of(old(self)@, *key),
    {
        self.insert_if_doesnt_contain(key);
        self.keys.get(key).unwrap()
    }

    /// Records `state` as the state of `key`.
    pub fn update_key_from_state(&mut self, key: &u32, state: &KeyState)
        ensures
            final(self)@ == old(self)@.insert(*key, *state),
    {
        self.insert_if_doesnt_contain(key);
        self.keys.insert(*key, *state);
    }

    /// Handles a keyboard event. Repetitions and keys that the platform could not
    /// identify are ignored; otherwise the key moves to the state that a press or a
    /// release leads to.
    pub fn update_key(&mut self, new_key: &KeyEvent)
        ensures
            final(self)@ == after_event(old(self)@, *new_key),
    {
        if new_key.repeat {
            return ;
        }
        if let Some(code) = new_key.physical_key {
            self.insert_if_doesnt_contain(&code);
            let key_state = *self.keys.get(&code).unwrap();
            let next = match new_key.state {
                ElementState::Pressed => {
                    match key_state {
                        KeyState::NotPressed => KeyState::Pressed,
                        KeyState::Released => KeyState::Pressed,
                        KeyState::Pressed => KeyState::Held,
                        KeyState::Held => KeyState::Held,
                    }
                },
                ElementState::Released => {
                    match key_state {
                        KeyState::NotPressed => KeyState::NotPressed,
                        KeyState::Released => KeyState::NotPressed,
                        KeyState::Pressed => KeyState::Released,
                        KeyState::Held => KeyState::Released,
                    }
                },
            };
            self.keys.insert(code, next);
            assert(self@ =~= after_event(old(self)@, *new_key));
        }
    }

    /// Ends a frame: a pressed key becomes held and a released key becomes not pressed.
    pub fn update(&mut self)
        ensures
            final(self)@.dom() == old(self)@.dom(),
            forall|k: u32| #[trigger]
                final(self)@.contains_key(k) ==> final(self)@[k] == next_frame_state(old(self)@[k]),
    {
        let ghost before = self.keys@;
        let ghost listed = vstd::std_specs::hash::spec_keys_iter(&self.keys).remaining();
        let mut codes: Vec<u32> = Vec::new();
        for code in it: self.keys.keys()
            invariant
                it.seq() == listed,
                listed == vstd::std_specs::hash::spec_keys_iter(&self.keys).remaining(),
                codes@ == listed.take(it.index()).map_values(|r: &u32| *r),
        {
            codes.push(*code);
            assert(listed.take(it.index() + 1).map_values(|r: &u32| *r) =~= listed.take(it.index()).map_values(|r: &u32| *r).push(*code));
        }
        assert(codes@.to_set() =~= before.dom()) by {
            assert(codes@ =~= listed.unref());
        }
        let mut i: usize = 0;
        while i < codes.len()
            invariant
                i <= codes@.len(),
                codes@.to_set() == before.dom(),
                self.keys@.dom() == before.dom(),
                forall|k: u32| #[trigger]
                    self.keys@.contains_key(k) ==> self.keys@[k] == if codes@.take(i as int).contains(k) {
                        next_frame_state(before[k])
                    } else {
                        before[k]
                    },
            decreases codes@.len() - i,
        {
            let code = codes[i];
            assert(before.dom().contains(code)) by {
                assert(codes@.contains(code));
            }
            let state = *self.keys.get(&code).unwrap();
            let next = match state {
                KeyState::Released => KeyState::NotPressed,
                KeyState::Pressed => KeyState::Held,
                _ => state,
            };
            self.keys.insert(code, next);
            assert(codes@.take(i + 1) =~= codes@.take(i as int).push(code));
            assert forall|k: u32| #[trigger] self.keys@.contains_key(k) implies self.keys@[k]
                == if codes@.take(i + 1).contains(k) {
                next_frame_state(before[k])
            } else {
                before[k]
            } by {
                broadcast use vstd::seq_lib::group_seq_properties;

            }
            i = i + 1;
        }
        assert(codes@.take(codes@.len() as int) =~= codes@);
        assert forall|k: u32| #[trigger] self.keys@.contains_key(k) implies self.keys@[k]
            == next_frame_state(before[k]) by {
            assert(codes@.to_set().contains(k));
        }
    }
}

/// Keeps the key states up to date and the entities that react to keys.
pub struct KeyInputManager {
    pub keys: KeyManager,
    entity_id: EntityId,
    inputables: HashMap<usize, EntityId>,
    inputable_last_id: usize,
}

impl KeyInputManager {
    /// The key states.
    pub closed spec fn key_states(&self) -> Map<u32, KeyState> {
        self.keys@
    }

    /// The id under which the entity manager knows this manager.
    pub closed spec fn entity(&self) -> EntityId {
        self.entity_id
    }

    /// The entities that react to keys, by registration slot.
    pub closed spec fn registered(&self) -> Map<usize, EntityId> {
        self.inputables@
    }

    /// The registration slot that `register` fills.
    pub closed spec fn next_slot(&self) -> usize {
        self.inputable_last_id
    }

    /// No keys seen, no entities registered.
    pub fn new() -> (m: Self)
        ensures
            m.key_states() == Map::<u32, KeyState>::empty(),
            m.entity()@ == 0,
            forall|other: EntityId| #[trigger] other@ == 0 ==> other == m.entity(),
            m.registered() == Map::<usize, EntityId>::empty(),
            m.next_slot() == 0,
    {
        Self {
            keys: KeyManager { keys: HashMap::with_capacity(128) },
            entity_id: EntityId::empty(),
            inputables: HashMap::new(),
            inputable_last_id: 0,
        }
    }

    /// Takes the id that the entity manager assigned, and asks for update and event
    /// callbacks.
    pub fn init(&mut self, id: EntityId) -> (callbacks: RequestedCallbacks)
        ensures
            final(self).entity() == id,
            final(self).key_states() == old(self).key_states(),
            final(self).registered() == old(self).registered(),
            final(self).next_slot() == old(self).next_slot(),
            callbacks@ == 3,
    {
        self.entity_id = id;
        let callbacks = RequestedCallbacks::update().union(RequestedCallbacks::event());
        assert(1u32 | 2u32 == 3u32) by (bit_vector);
        callbacks
    }

    /// Registers an entity that reacts to keys, in the slot `next_slot()`, replacing the
    /// entity registered there before; the slot does not advance.
    pub fn register(&mut self, inputable: EntityId)
        ensures
            final(self).registered() == old(self).registered().insert(
                old(self).next_slot(),
                inputable,
            ),
            final(self).next_slot() == old(self).next_slot(),
            final(self).key_states() == old(self).key_states(),
            final(self).entity() == old(self).entity(),
    {
        self.inputables.insert(self.inputable_last_id, inputable);
    }

    /// The registered entities, in no particular order, each registration once.
    pub fn inputable_ids(&self) -> (ids: Vec<EntityId>)
        ensures
            ids@.len() == self.registered().len(),
            forall|e: EntityId| #[trigger] ids@.contains(e) <==> self.registered().values().contains(e),
    {
        let ghost listed = vstd::std_specs::hash::spec_values_iter(&self.inputables).remaining();
        let mut ids: Vec<EntityId> = Vec::new();
        for value in it: self.inputables.values()
            invariant
                it.seq() == listed,
                listed == vstd::std_specs::hash::spec_values_iter(&self.inputables).remaining(),
                ids@ == listed.take(it.index()).unref(),
        {
            ids.push(*value);
            assert(listed.take(it.index() + 1).unref() =~= listed.take(it.index()).unref().push(
                *value,
            ));
        }
        assert(listed.take(listed.len() as int) =~= listed);
        assert(ids@.to_set() =~= self.registered().values());
        ids
    }
}

} // verus!
