//! The plugin's scenarios, played on a small model of the server's world.
//!
//! The model keeps the components that the plugin's systems read, records
//! what changed since the previous update as the ECS's change detection would,
//! and runs the library's steps in the plugin's order on every update. A
//! client sees an entity when the entity is alive, replicated and not hidden by
//! the crate's filter bit in the client's `ClientVisibility`.

use std::collections::{HashMap, HashSet};

use bevy::ecs::entity::Entity;
use bevy::reflect::{GetPath, PartialReflect, ReflectPath, ReflectRef};
use bevy_replicon::server::visibility::client_visibility::ClientVisibility;
use bevy_replicon::server::visibility::filters_mask::FilterBit;

use bevy_replicon_visible_sets::client_visibility::VisibleBit;
use bevy_replicon_visible_sets::container::{update_visible_containers, VisibleContainer};
use bevy_replicon_visible_sets::entity_set::set_of_both;
use bevy_replicon_visible_sets::observer::{update_visible_observers, VisibleObserver};
use bevy_replicon_visible_sets::{
    new_clients, new_replicateds, removed_replicateds, sync_client_visible, update_client_visible,
    ClientVisible,
};

struct Client {
    visible: ClientVisible,
    visibility: ClientVisibility,
}

#[derive(Default)]
struct Changes {
    containers: Vec<u64>,
    removed_containers: Vec<u64>,
    observers: Vec<u64>,
    removed_observers: Vec<u64>,
    clients: HashSet<u64>,
    new_clients: Vec<u64>,
    added_replicated: Vec<u64>,
    removed_replicated: Vec<u64>,
    added_always_visible: Vec<u64>,
    removed_always_visible: Vec<u64>,
}

struct Server {
    next: u64,
    alive: HashSet<u64>,
    replicated: HashSet<u64>,
    always_visible: HashSet<u64>,
    visible_in: HashMap<u64, u64>,
    containers: HashMap<u64, HashSet<u64>>,
    observers: HashMap<u64, VisibleObserver>,
    clients: HashMap<u64, Client>,
    bit: VisibleBit,
    changes: Changes,
}

impl Server {
    fn new() -> Self {
        Server {
            next: 1,
            alive: HashSet::new(),
            replicated: HashSet::new(),
            always_visible: HashSet::new(),
            visible_in: HashMap::new(),
            containers: HashMap::new(),
            observers: HashMap::new(),
            clients: HashMap::new(),
            bit: VisibleBit::new(FilterBit::default()).expect("first filter bit"),
            changes: Changes::default(),
        }
    }

    fn spawn_empty(&mut self) -> u64 {
        let id = self.next;
        self.next += 1;
        self.alive.insert(id);
        id
    }

    fn spawn_container(&mut self) -> u64 {
        let id = self.spawn_empty();
        self.containers.insert(id, HashSet::new());
        self.changes.containers.push(id);
        id
    }

    fn spawn_observer(&mut self, containers: &[u64]) -> u64 {
        let id = self.spawn_empty();
        self.observers
            .insert(id, VisibleObserver::new(containers.iter().copied().collect()));
        self.changes.observers.push(id);
        id
    }

    fn spawn(&mut self, replicated: bool, always_visible: bool, visible_in: Option<u64>) -> u64 {
        let id = self.spawn_empty();
        if replicated {
            self.insert_replicated(id);
        }
        if always_visible {
            self.insert_always_visible(id);
        }
        if let Some(container) = visible_in {
            self.insert_visible_in(id, container);
        }
        id
    }

    fn insert_replicated(&mut self, id: u64) {
        self.replicated.insert(id);
        self.changes.added_replicated.push(id);
    }

    fn remove_replicated(&mut self, id: u64) {
        if self.replicated.remove(&id) {
            self.changes.removed_replicated.push(id);
        }
    }

    fn insert_always_visible(&mut self, id: u64) {
        self.always_visible.insert(id);
        self.changes.added_always_visible.push(id);
    }

    fn remove_always_visible(&mut self, id: u64) {
        if self.always_visible.remove(&id) {
            self.changes.removed_always_visible.push(id);
        }
    }

    fn insert_visible_in(&mut self, id: u64, container: u64) {
        self.remove_visible_in(id);
        self.visible_in.insert(id, container);
        self.containers.entry(container).or_default().insert(id);
        self.changes.containers.push(container);
    }

    fn remove_visible_in(&mut self, id: u64) {
        if let Some(container) = self.visible_in.remove(&id) {
            if let Some(contained) = self.containers.get_mut(&container) {
                contained.remove(&id);
                self.changes.containers.push(container);
            }
        }
    }

    fn remove_container(&mut self, id: u64) {
        if let Some(contained) = self.containers.remove(&id) {
            self.changes.removed_containers.push(id);
            for source in contained {
                self.visible_in.remove(&source);
            }
        }
    }

    fn despawn(&mut self, id: u64) {
        self.remove_replicated(id);
        self.remove_always_visible(id);
        self.remove_visible_in(id);
        self.remove_container(id);
        if self.observers.remove(&id).is_some() {
            self.changes.removed_observers.push(id);
        }
        self.alive.remove(&id);
    }

    fn connect_client(&mut self) -> u64 {
        let id = self.spawn_empty();
        self.clients.insert(
            id,
            Client {
                visible: ClientVisible::default(),
                visibility: ClientVisibility::default(),
            },
        );
        self.changes.new_clients.push(id);
        self.changes.clients.insert(id);
        self.update();
        self.update();
        id
    }

    fn client_visible_mut(&mut self, client: u64) -> &mut ClientVisible {
        self.changes.clients.insert(client);
        &mut self.clients.get_mut(&client).unwrap().visible
    }

    fn observer_mut(&mut self, observer: u64) -> &mut VisibleObserver {
        self.changes.observers.push(observer);
        self.observers.get_mut(&observer).unwrap()
    }

    fn replicated_with_marker(&self, ids: &[u64]) -> Vec<(u64, bool)> {
        ids.iter()
            .filter(|id| self.alive.contains(id) && self.replicated.contains(id))
            .map(|&id| (id, self.always_visible.contains(&id)))
            .collect()
    }

    fn update(&mut self) {
        let changes = std::mem::take(&mut self.changes);
        let bit = &self.bit;

        // Blacklisting.
        let mut all_replicated: Vec<u64> = self.replicated.iter().copied().collect();
        all_replicated.sort();
        let everything = self.replicated_with_marker(&all_replicated);
        let added = self.replicated_with_marker(&changes.added_replicated);
        let shown: Vec<u64> = changes
            .added_always_visible
            .iter()
            .copied()
            .filter(|id| self.replicated.contains(id) && self.always_visible.contains(id))
            .collect();
        let still_replicated: HashSet<u64> = changes
            .removed_always_visible
            .iter()
            .copied()
            .filter(|id| self.replicated.contains(id))
            .collect();
        for &client in &changes.new_clients {
            let state = self.clients.get_mut(&client).unwrap();
            new_clients(&mut state.visibility, bit, &state.visible, &everything);
        }
        for state in self.clients.values_mut() {
            new_replicateds(&mut state.visibility, bit, &state.visible, &added);
            removed_replicateds(&mut state.visibility, bit, &changes.removed_replicated);
            bevy_replicon_visible_sets::always_visible_added(&mut state.visibility, bit, &shown);
            bevy_replicon_visible_sets::always_visible_removed(
                &mut state.visibility,
                bit,
                &state.visible,
                &changes.removed_always_visible,
                &still_replicated,
            );
        }

        // Containers into observers.
        let changed_containers = set_of_both(&changes.containers, &changes.removed_containers);
        let containers: HashMap<u64, VisibleContainer> = self
            .containers
            .iter()
            .map(|(&id, contained)| (id, VisibleContainer::from_contained(contained.clone())))
            .collect();
        let mut changed_observers = changes.observers.clone();
        for (&id, observer) in self.observers.iter_mut() {
            let observer_changed = changes.observers.contains(&id);
            if update_visible_containers(observer, observer_changed, &changed_containers, &containers)
            {
                changed_observers.push(id);
            }
        }

        // Observers into clients.
        let changed_observers = set_of_both(&changed_observers, &changes.removed_observers);
        let mut changed_clients = changes.clients.clone();
        for (&id, state) in self.clients.iter_mut() {
            let client_changed = changes.clients.contains(&id);
            if update_visible_observers(
                &mut state.visible,
                client_changed,
                &changed_observers,
                &self.observers,
            ) {
                changed_clients.insert(id);
            }
        }

        // Clients into replication visibility.
        let always_visible: HashSet<u64> = self
            .always_visible
            .intersection(&self.replicated)
            .copied()
            .collect();
        for &id in &changed_clients {
            let state = self.clients.get_mut(&id).unwrap();
            update_client_visible(&mut state.visibility, bit, &state.visible, &always_visible);
        }
        for &id in &changed_clients {
            sync_client_visible(&mut self.clients.get_mut(&id).unwrap().visible);
        }
    }

    /// What `exchange_with_client` and the client's update do on the server.
    fn exchange(&mut self) {
        self.update();
    }

    /// How many replicated entities `client` has on its side.
    fn count_entities(&self, client: u64) -> usize {
        let visibility = &self.clients[&client].visibility;
        self.replicated
            .iter()
            .filter(|&&id| self.alive.contains(&id) && !is_hidden(visibility, id))
            .count()
    }
}

fn is_hidden(visibility: &ClientVisibility, id: u64) -> bool {
    let hidden = visibility.reflect_path("hidden.0").expect("hidden masks");
    let ReflectRef::Map(map) = hidden.reflect_ref() else {
        panic!("hidden masks are a map")
    };
    match map.get(Entity::from_bits(id).as_partial_reflect()) {
        None => false,
        Some(mask) => {
            let bits = *".0"
                .reflect_element(mask)
                .expect("mask bits")
                .try_downcast_ref::<u32>()
                .expect("mask is a u32");
            bits & 1 != 0
        }
    }
}

fn frame(server: &mut Server) {
    server.update();
    server.exchange();
}

#[test]
fn always_visible() {
    let mut server = Server::new();
    let client = server.connect_client();
    server.spawn(true, true, None);
    frame(&mut server);
    assert_eq!(server.count_entities(client), 1);
}

#[test]
fn always_visible_added_later() {
    let mut server = Server::new();
    let client = server.connect_client();
    let entity = server.spawn(true, false, None);
    frame(&mut server);
    assert_eq!(server.count_entities(client), 0);
    server.insert_always_visible(entity);
    frame(&mut server);
    assert_eq!(server.count_entities(client), 1);
}

#[test]
fn always_visible_removed() {
    let mut server = Server::new();
    let client = server.connect_client();
    let entity = server.spawn(true, true, None);
    frame(&mut server);
    assert_eq!(server.count_entities(client), 1);
    server.remove_always_visible(entity);
    frame(&mut server);
    assert_eq!(server.count_entities(client), 0);
}

#[test]
fn always_visible_ignore_container() {
    let mut server = Server::new();
    let client = server.connect_client();
    let container = server.spawn_container();
    server.spawn(true, true, Some(container));
    frame(&mut server);
    assert_eq!(server.count_entities(client), 1);
}

#[test]
fn always_visible_without_replicated() {
    let mut server = Server::new();
    let client = server.connect_client();
    server.spawn(false, true, None);
    frame(&mut server);
    assert_eq!(server.count_entities(client), 0);
}

#[test]
fn always_visible_present_on_late_join() {
    let mut server = Server::new();
    server.spawn(true, true, None);
    server.update();
    let client = server.connect_client();
    frame(&mut server);
    assert_eq!(server.count_entities(client), 1);
}

#[test]
fn add_observer() {
    let mut server = Server::new();
    let client = server.connect_client();
    let container = server.spawn_container();
    let observer = server.spawn_observer(&[container]);
    server.spawn(true, false, Some(container));
    frame(&mut server);
    assert_eq!(server.count_entities(client), 0);
    server.client_visible_mut(client).observers.insert(observer);
    frame(&mut server);
    assert_eq!(server.count_entities(client), 1);
}

#[test]
fn remove_observer() {
    let mut server = Server::new();
    let client = server.connect_client();
    let container = server.spawn_container();
    let observer = server.spawn_observer(&[container]);
    server.client_visible_mut(client).observers.insert(observer);
    server.spawn(true, false, Some(container));
    frame(&mut server);
    assert_eq!(server.count_entities(client), 1);
    server.client_visible_mut(client).observers.remove(&observer);
    frame(&mut server);
    assert_eq!(server.count_entities(client), 0);
}

#[test]
fn late_join_sees_existing() {
    let mut server = Server::new();
    let container = server.spawn_container();
    let observer = server.spawn_observer(&[container]);
    server.spawn(true, false, Some(container));
    server.update();
    let client = server.connect_client();
    *server.client_visible_mut(client) = ClientVisible::new([observer].into_iter().collect());
    frame(&mut server);
    assert_eq!(server.count_entities(client), 1);
}

#[test]
fn overlapping_observers() {
    let mut server = Server::new();
    let client = server.connect_client();
    let container = server.spawn_container();
    let observer_a = server.spawn_observer(&[container]);
    let observer_b = server.spawn_observer(&[container]);
    server.client_visible_mut(client).observers.insert(observer_a);
    server.client_visible_mut(client).observers.insert(observer_b);
    server.spawn(true, false, Some(container));
    frame(&mut server);
    assert_eq!(server.count_entities(client), 1);
}

#[test]
fn despawn_entity() {
    let mut server = Server::new();
    let client = server.connect_client();
    let container = server.spawn_container();
    let observer = server.spawn_observer(&[container]);
    server.client_visible_mut(client).observers.insert(observer);
    let entity = server.spawn(true, false, Some(container));
    frame(&mut server);
    assert_eq!(server.count_entities(client), 1);
    server.despawn(entity);
    frame(&mut server);
    assert_eq!(server.count_entities(client), 0);
}

#[test]
fn switching_observer_does_not_lose_visibility() {
    let mut server = Server::new();
    let client = server.connect_client();
    let container = server.spawn_container();
    let observer_a = server.spawn_observer(&[container]);
    let observer_b = server.spawn_observer(&[container]);
    server.client_visible_mut(client).observers.insert(observer_a);
    server.spawn(true, false, Some(container));
    frame(&mut server);
    assert_eq!(server.count_entities(client), 1);
    server.client_visible_mut(client).observers.remove(&observer_a);
    server.client_visible_mut(client).observers.insert(observer_b);
    frame(&mut server);
    assert_eq!(server.count_entities(client), 1);
}

/// A connected client looking through an observer at one container.
fn observed_container() -> (Server, u64, u64) {
    let mut server = Server::new();
    let client = server.connect_client();
    let container = server.spawn_container();
    let observer = server.spawn_observer(&[container]);
    server.client_visible_mut(client).observers.insert(observer);
    (server, client, container)
}

#[test]
fn visible_in_is_visible() {
    let (mut server, client, container) = observed_container();
    server.spawn(true, false, Some(container));
    frame(&mut server);
    assert_eq!(server.count_entities(client), 1);
}

#[test]
fn move_to_unobserved_container() {
    let mut server = Server::new();
    let client = server.connect_client();
    let observed = server.spawn_container();
    let unobserved = server.spawn_container();
    let observer = server.spawn_observer(&[observed]);
    server.client_visible_mut(client).observers.insert(observer);
    let entity = server.spawn(true, false, Some(observed));
    frame(&mut server);
    assert_eq!(server.count_entities(client), 1);
    server.insert_visible_in(entity, unobserved);
    frame(&mut server);
    assert_eq!(server.count_entities(client), 0);
}

#[test]
fn visible_in_without_replicated() {
    let (mut server, client, container) = observed_container();
    server.spawn(false, false, Some(container));
    frame(&mut server);
    assert_eq!(server.count_entities(client), 0);
}

#[test]
fn replicated_without_visible_in() {
    let (mut server, client, _container) = observed_container();
    server.spawn(true, false, None);
    frame(&mut server);
    assert_eq!(server.count_entities(client), 0);
}

#[test]
fn visible_in_added_later() {
    let (mut server, client, container) = observed_container();
    let entity = server.spawn(true, false, None);
    frame(&mut server);
    assert_eq!(server.count_entities(client), 0);
    server.insert_visible_in(entity, container);
    frame(&mut server);
    assert_eq!(server.count_entities(client), 1);
}

#[test]
fn replicated_added_later() {
    let (mut server, client, container) = observed_container();
    let entity = server.spawn(false, false, Some(container));
    frame(&mut server);
    assert_eq!(server.count_entities(client), 0);
    server.insert_replicated(entity);
    frame(&mut server);
    assert_eq!(server.count_entities(client), 1);
}

#[test]
fn remove_replicated_component() {
    let (mut server, client, container) = observed_container();
    let entity = server.spawn(true, false, Some(container));
    frame(&mut server);
    assert_eq!(server.count_entities(client), 1);
    server.remove_replicated(entity);
    frame(&mut server);
    assert_eq!(server.count_entities(client), 0);
}

#[test]
fn remove_visible_in_component() {
    let (mut server, client, container) = observed_container();
    let entity = server.spawn(true, false, Some(container));
    frame(&mut server);
    assert_eq!(server.count_entities(client), 1);
    server.remove_visible_in(entity);
    frame(&mut server);
    assert_eq!(server.count_entities(client), 0);
}

#[test]
fn remove_container_component() {
    let (mut server, client, container) = observed_container();
    server.spawn(true, false, Some(container));
    frame(&mut server);
    assert_eq!(server.count_entities(client), 1);
    server.remove_container(container);
    frame(&mut server);
    assert_eq!(server.count_entities(client), 0);
}

#[test]
fn despawn_visible_in() {
    let (mut server, client, container) = observed_container();
    let entity = server.spawn(true, false, Some(container));
    frame(&mut server);
    assert_eq!(server.count_entities(client), 1);
    server.despawn(entity);
    frame(&mut server);
    assert_eq!(server.count_entities(client), 0);
}

#[test]
fn despawn_container() {
    let (mut server, client, container) = observed_container();
    server.spawn(true, false, Some(container));
    frame(&mut server);
    assert_eq!(server.count_entities(client), 1);
    server.despawn(container);
    frame(&mut server);
    assert_eq!(server.count_entities(client), 0);
}

/// A connected client looking through an observer at a container that holds
/// one replicated entity, all updated once; the client sees the entity.
fn setup() -> (Server, u64, u64, u64, u64) {
    let mut server = Server::new();
    let client = server.connect_client();
    let container = server.spawn_container();
    let observer = server.spawn_observer(&[container]);
    *server.client_visible_mut(client) = ClientVisible::new([observer].into_iter().collect());
    let entity = server.spawn(true, false, Some(container));
    frame(&mut server);
    assert_eq!(server.count_entities(client), 1);
    (server, client, container, observer, entity)
}

#[test]
fn visible_in_removal() {
    let (mut server, client, _container, _observer, entity) = setup();
    server.remove_visible_in(entity);
    frame(&mut server);
    assert_eq!(server.count_entities(client), 0);
}

#[test]
fn visible_container_removal() {
    let (mut server, client, container, observer, _entity) = setup();
    server.observer_mut(observer).containers.remove(&container);
    frame(&mut server);
    assert_eq!(server.count_entities(client), 0);
}

#[test]
fn visible_observer_removal() {
    let (mut server, client, _container, observer, _entity) = setup();
    server.client_visible_mut(client).observers.remove(&observer);
    frame(&mut server);
    assert_eq!(server.count_entities(client), 0);
}

#[test]
fn replicated_removal() {
    let (mut server, client, _container, _observer, entity) = setup();
    server.remove_replicated(entity);
    frame(&mut server);
    assert_eq!(server.count_entities(client), 0);
}

#[test]
fn always_visible_leaving_observed_container() {
    let (mut server, client, container) = observed_container();
    let entity = server.spawn(true, true, Some(container));
    frame(&mut server);
    assert_eq!(server.count_entities(client), 1);
    server.remove_visible_in(entity);
    frame(&mut server);
    assert_eq!(server.count_entities(client), 1);
}
