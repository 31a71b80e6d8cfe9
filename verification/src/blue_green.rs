//! Blue-green deployments.
//!
//! A deployment has two slots, blue and green. One of them is active and
//! receives all traffic; a switch sends the traffic to the other at once, and
//! a rollback sends it back.

use vstd::prelude::*;

use crate::clock::{utc_now, wall_clock_shows, Time};
use crate::ids::{is_new_id, new_id};
use crate::measure::Measure;
use crate::ordering::{is_stable_order, pick_values, picked, stable_order};
use crate::table::Table;
use crate::text::{is_blank, text_option, trimmed};

verus! {

/// Which slot is currently active (receiving live traffic).
#[derive(Debug, Clone, Copy, PartialEq, Eq, Structural)]
pub enum ActiveSlot {
    Blue,
    Green,
}

impl ActiveSlot {
    pub open spec fn other(self) -> ActiveSlot {
        match self {
            ActiveSlot::Blue => ActiveSlot::Green,
            ActiveSlot::Green => ActiveSlot::Blue,
        }
    }

    pub open spec fn name_spec(self) -> Seq<char> {
        match self {
            ActiveSlot::Blue => "blue"@,
            ActiveSlot::Green => "green"@,
        }
    }

    /// The other slot.
    pub fn opposite(self) -> (r: Self)
        ensures
            r == self.other(),
            r != self,
    {
        match self {
            ActiveSlot::Blue => ActiveSlot::Green,
            ActiveSlot::Green => ActiveSlot::Blue,
        }
    }

    /// The name of the slot.
    pub fn name(&self) -> (r: &'static str)
        ensures
            r@ == self.name_spec(),
    {
        match self {
            ActiveSlot::Blue => "blue",
            ActiveSlot::Green => "green",
        }
    }
}

/// The opposite of the opposite slot is the slot itself.
pub proof fn opposite_is_an_involution(slot: ActiveSlot)
    ensures
        slot.other().other() == slot,
        slot.other() != slot,
{
}

/// Health status of a deployment slot.
#[derive(Debug, Clone, Copy, PartialEq, Eq, Structural)]
pub enum SlotHealth {
    Unknown,
    Healthy,
    Degraded,
    Unhealthy,
}

/// One, as IEEE-754 bits: all traffic.
pub const ALL_TRAFFIC: u64 = 0x3FF0_0000_0000_0000;

/// Zero, as IEEE-754 bits: no traffic.
pub const NO_TRAFFIC: u64 = 0;

/// A slot holding one service version.
#[derive(Debug)]
pub struct DeploymentSlot {
    pub version: String,
    pub health: SlotHealth,
    pub deployed_at: Time,
    pub last_health_check: Option<Time>,
    /// Fraction of traffic being sent to this slot: one for the active slot,
    /// zero for the standby slot.
    pub traffic_weight: Measure,
    /// Health check endpoint URL for this slot.
    pub health_endpoint: Option<String>,
}

/// The contents of a slot.
pub struct SlotModel {
    pub version: Seq<char>,
    pub health: SlotHealth,
    pub deployed_at: Time,
    pub last_health_check: Option<Time>,
    pub traffic_weight: Measure,
    pub health_endpoint: Option<Seq<char>>,
}

impl DeploymentSlot {
    pub open spec fn view(&self) -> SlotModel {
        SlotModel {
            version: self.version@,
            health: self.health,
            deployed_at: self.deployed_at,
            last_health_check: self.last_health_check,
            traffic_weight: self.traffic_weight,
            health_endpoint: text_option(self.health_endpoint),
        }
    }
}

/// Overall status of a blue-green deployment.
#[derive(Debug, Clone, Copy, PartialEq, Eq, Structural)]
pub enum BlueGreenStatus {
    /// Traffic is routed to the active slot.
    Stable,
    /// A traffic switch is in progress.
    Switching,
    /// The inactive slot is being prepared.
    Preparing,
    /// A rollback has been executed.
    RolledBack,
    /// The active slot was reported unhealthy.
    Unhealthy,
}

/// An event in a deployment's lifecycle.
#[derive(Debug)]
pub struct BlueGreenEvent {
    pub timestamp: Time,
    pub description: String,
}

/// A blue-green deployment.
#[derive(Debug)]
pub struct BlueGreenDeployment {
    pub id: String,
    pub service: String,
    pub active_slot: ActiveSlot,
    pub blue: DeploymentSlot,
    pub green: DeploymentSlot,
    pub status: BlueGreenStatus,
    pub history: Vec<BlueGreenEvent>,
    pub created_at: Time,
    pub updated_at: Time,
}

/// The contents of a deployment.
pub struct DeploymentModel {
    pub id: Seq<char>,
    pub service: Seq<char>,
    pub active_slot: ActiveSlot,
    pub blue: SlotModel,
    pub green: SlotModel,
    pub status: BlueGreenStatus,
    pub history: Seq<(Time, Seq<char>)>,
    pub created_at: Time,
    pub updated_at: Time,
}

/// The share of traffic of a slot, when `active` is the active one.
pub open spec fn weight(slot: ActiveSlot, active: ActiveSlot) -> Measure {
    Measure {
        bits: if slot == active {
            ALL_TRAFFIC
        } else {
            NO_TRAFFIC
        },
    }
}

impl DeploymentModel {
    /// The deployment with an event added to its history.
    pub open spec fn with_event(self, description: Seq<char>, now: Time) -> DeploymentModel {
        DeploymentModel {
            history: self.history.push((now, description)),
            updated_at: now,
            ..self
        }
    }

    pub open spec fn slot(self, which: ActiveSlot) -> SlotModel {
        match which {
            ActiveSlot::Blue => self.blue,
            ActiveSlot::Green => self.green,
        }
    }

    /// The deployment with all traffic sent to a slot.
    pub open spec fn routed_to(self, active: ActiveSlot) -> DeploymentModel {
        DeploymentModel {
            active_slot: active,
            blue: SlotModel { traffic_weight: weight(ActiveSlot::Blue, active), ..self.blue },
            green: SlotModel { traffic_weight: weight(ActiveSlot::Green, active), ..self.green },
            ..self
        }
    }

    /// All traffic goes to the active slot, and none to the other.
    pub open spec fn routes_to_active(self) -> bool {
        &&& self.blue.traffic_weight == weight(ActiveSlot::Blue, self.active_slot)
        &&& self.green.traffic_weight == weight(ActiveSlot::Green, self.active_slot)
    }

    /// The deployment after its traffic was switched to the standby slot.
    pub open spec fn switched(self, reason: Seq<char>, now: Time) -> DeploymentModel {
        let from = self.active_slot;
        let to = from.other();
        let begun = self.with_event(
            "switching traffic: "@ + from.name_spec() + " → "@ + to.name_spec() + "; reason: "@
                + reason,
            now,
        );
        DeploymentModel { status: BlueGreenStatus::Stable, ..begun.routed_to(to) }.with_event(
            "traffic switched to "@ + to.name_spec() + "; "@ + from.name_spec()
                + " is now standby"@,
            now,
        )
    }

    /// The deployment after its traffic was sent back to the standby slot.
    pub open spec fn rolled_back(self, reason: Seq<char>, now: Time) -> DeploymentModel {
        let from = self.active_slot;
        let to = from.other();
        DeploymentModel { status: BlueGreenStatus::RolledBack, ..self.routed_to(to) }.with_event(
            "rollback: reverted from "@ + from.name_spec() + " to "@ + to.name_spec()
                + "; reason: "@ + reason,
            now,
        )
    }

    /// The deployment after a report on the health of a slot.
    pub open spec fn health_reported(
        self,
        which: ActiveSlot,
        health: SlotHealth,
        now: Time,
    ) -> DeploymentModel {
        let slot = SlotModel { health, last_health_check: Some(now), ..self.slot(which) };
        let noted = match which {
            ActiveSlot::Blue => DeploymentModel { blue: slot, updated_at: now, ..self },
            ActiveSlot::Green => DeploymentModel { green: slot, updated_at: now, ..self },
        };
        if noted.slot(self.active_slot).health == SlotHealth::Unhealthy {
            DeploymentModel { status: BlueGreenStatus::Unhealthy, ..noted }.with_event(
                "active slot ("@ + self.active_slot.name_spec()
                    + ") reported unhealthy; deployment status → unhealthy"@,
                now,
            )
        } else {
            noted
        }
    }
}

impl BlueGreenDeployment {
    pub open spec fn view(&self) -> DeploymentModel {
        DeploymentModel {
            id: self.id@,
            service: self.service@,
            active_slot: self.active_slot,
            blue: self.blue@,
            green: self.green@,
            status: self.status,
            history: self.history@.map_values(|e: BlueGreenEvent| (e.timestamp, e.description@)),
            created_at: self.created_at,
            updated_at: self.updated_at,
        }
    }

    fn push_event(&mut self, description: String, now: Time)
        ensures
            final(self)@ == old(self)@.with_event(description@, now),
    {
        let ghost before = self@;
        self.history.push(BlueGreenEvent { timestamp: now, description });
        self.updated_at = now;
        assert(self@.history =~= before.with_event(description@, now).history);
    }

    /// The active slot.
    pub fn active(&self) -> (r: &DeploymentSlot)
        ensures
            r@ == self@.slot(self.active_slot),
    {
        match self.active_slot {
            ActiveSlot::Blue => &self.blue,
            ActiveSlot::Green => &self.green,
        }
    }

    /// The standby slot.
    pub fn standby(&self) -> (r: &DeploymentSlot)
        ensures
            r@ == self@.slot(self.active_slot.other()),
    {
        match self.active_slot {
            ActiveSlot::Blue => &self.green,
            ActiveSlot::Green => &self.blue,
        }
    }

    fn route_to(&mut self, active: ActiveSlot)
        ensures
            final(self)@ == old(self)@.routed_to(active),
    {
        self.active_slot = active;
        match active {
            ActiveSlot::Blue => {
                self.blue.traffic_weight = Measure { bits: ALL_TRAFFIC };
                self.green.traffic_weight = Measure { bits: NO_TRAFFIC };
            },
            ActiveSlot::Green => {
                self.green.traffic_weight = Measure { bits: ALL_TRAFFIC };
                self.blue.traffic_weight = Measure { bits: NO_TRAFFIC };
            },
        }
    }

    fn switch(&mut self, reason: &str, now: Time)
        ensures
            final(self)@ == old(self)@.switched(reason@, now),
    {
        let from = self.active_slot;
        let to = from.opposite();
        let mut begun = "switching traffic: ".to_owned();
        begun.append(from.name());
        begun.append(" → ");
        begun.append(to.name());
        begun.append("; reason: ");
        begun.append(reason);
        self.push_event(begun, now);
        self.route_to(to);
        self.status = BlueGreenStatus::Stable;
        let mut done = "traffic switched to ".to_owned();
        done.append(to.name());
        done.append("; ");
        done.append(from.name());
        done.append(" is now standby");
        self.push_event(done, now);
    }

    fn roll_back(&mut self, reason: &str, now: Time)
        ensures
            final(self)@ == old(self)@.rolled_back(reason@, now),
    {
        let from = self.active_slot;
        let to = from.opposite();
        self.route_to(to);
        self.status = BlueGreenStatus::RolledBack;
        let mut text = "rollback: reverted from ".to_owned();
        text.append(from.name());
        text.append(" to ");
        text.append(to.name());
        text.append("; reason: ");
        text.append(reason);
        self.push_event(text, now);
    }

    fn note_health(&mut self, which: ActiveSlot, health: SlotHealth, now: Time)
        ensures
            final(self)@ == old(self)@.health_reported(which, health, now),
    {
        match which {
            ActiveSlot::Blue => {
                self.blue.health = health;
                self.blue.last_health_check = Some(now);
            },
            ActiveSlot::Green => {
                self.green.health = health;
                self.green.last_health_check = Some(now);
            },
        }
        self.updated_at = now;
        if self.active().health == SlotHealth::Unhealthy {
            self.status = BlueGreenStatus::Unhealthy;
            let mut text = "active slot (".to_owned();
            text.append(self.active_slot.name());
            text.append(") reported unhealthy; deployment status → unhealthy");
            self.push_event(text, now);
        }
    }
}

/// The deployments, by id.
pub type BlueGreenStore = Table<BlueGreenDeployment>;

/// The contents of the deployments, by id.
pub open spec fn deployment_models(store: BlueGreenStore) -> Map<Seq<char>, DeploymentModel> {
    store@.map_values(|d: BlueGreenDeployment| d@)
}

/// The deployments of the service.
pub struct BlueGreenState {
    pub store: BlueGreenStore,
}

impl BlueGreenState {
    pub fn new() -> (r: Self)
        ensures
            r.store.wf(),
            deployment_models(r.store) == Map::<Seq<char>, DeploymentModel>::empty(),
    {
        let r = BlueGreenState { store: Table::new() };
        assert(deployment_models(r.store) =~= Map::empty());
        r
    }
}

impl Default for BlueGreenState {
    fn default() -> (r: Self)
        ensures
            r.store.wf(),
            deployment_models(r.store) == Map::<Seq<char>, DeploymentModel>::empty(),
    {
        BlueGreenState::new()
    }
}

/// A request for a deployment.
#[derive(Debug)]
pub struct CreateBlueGreenRequest {
    pub service: String,
    /// Version in the blue slot.
    pub blue_version: String,
    /// Version in the green slot.
    pub green_version: String,
    /// Which slot starts as active.
    pub initial_active: ActiveSlot,
    pub blue_health_endpoint: Option<String>,
    pub green_health_endpoint: Option<String>,
}

/// A request to switch the traffic.
#[derive(Debug)]
pub struct SwitchTrafficRequest {
    /// Human-readable reason for this traffic switch.
    pub reason: String,
    /// If true, verify that the standby slot is healthy before switching.
    pub require_healthy_standby: bool,
}

/// Why a request for a deployment is refused.
#[derive(Debug, Clone, Copy, PartialEq, Eq, Structural)]
pub enum DeploymentError {
    EmptyService,
    VersionsRequired,
}

impl DeploymentError {
    pub open spec fn message_spec(self) -> Seq<char> {
        match self {
            DeploymentError::EmptyService => "service name must not be empty"@,
            DeploymentError::VersionsRequired => "both blue_version and green_version are required"@,
        }
    }

    /// The error in words.
    pub fn message(&self) -> (r: String)
        ensures
            r@ == self.message_spec(),
    {
        match self {
            DeploymentError::EmptyService => "service name must not be empty".to_owned(),
            DeploymentError::VersionsRequired => "both blue_version and green_version are required".to_owned(),
        }
    }
}

/// What is wrong with a request for a deployment, if anything.
pub open spec fn deployment_fault(body: CreateBlueGreenRequest) -> Option<DeploymentError> {
    if trimmed(body.service@).len() == 0 {
        Some(DeploymentError::EmptyService)
    } else if trimmed(body.blue_version@).len() == 0 || trimmed(body.green_version@).len() == 0 {
        Some(DeploymentError::VersionsRequired)
    } else {
        None
    }
}

/// A slot that has just been deployed.
pub open spec fn fresh_slot(
    version: Seq<char>,
    endpoint: Option<Seq<char>>,
    traffic_weight: Measure,
    now: Time,
) -> SlotModel {
    SlotModel {
        version,
        health: SlotHealth::Unknown,
        deployed_at: now,
        last_health_check: None,
        traffic_weight,
        health_endpoint: endpoint,
    }
}

/// The deployment that a request asks for.
pub open spec fn requested_deployment(
    body: CreateBlueGreenRequest,
    id: Seq<char>,
    now: Time,
) -> DeploymentModel {
    DeploymentModel {
        id,
        service: body.service@,
        active_slot: body.initial_active,
        blue: fresh_slot(
            body.blue_version@,
            text_option(body.blue_health_endpoint),
            weight(ActiveSlot::Blue, body.initial_active),
            now,
        ),
        green: fresh_slot(
            body.green_version@,
            text_option(body.green_health_endpoint),
            weight(ActiveSlot::Green, body.initial_active),
            now,
        ),
        status: BlueGreenStatus::Preparing,
        history: Seq::empty(),
        created_at: now,
        updated_at: now,
    }.with_event(
        "blue-green deployment created; active="@ + body.initial_active.name_spec() + ", blue="@
            + body.blue_version@ + ", green="@ + body.green_version@,
        now,
    )
}

/// What a request for a deployment does to the store and what it is answered:
/// the id of the deployment, or what is wrong with the request.
pub open spec fn deployment_created(
    before: BlueGreenStore,
    after: BlueGreenStore,
    body: CreateBlueGreenRequest,
    id: Seq<char>,
    now: Time,
    r: Result<String, DeploymentError>,
) -> bool {
    match r {
        Ok(new_id) => {
            &&& deployment_fault(body) is None
            &&& new_id@ == id
            &&& deployment_models(after) == deployment_models(before).insert(
                id,
                requested_deployment(body, id, now),
            )
        },
        Err(e) => deployment_fault(body) == Some(e) && after == before,
    }
}

/// Creates a deployment with the given id at the time `now`, and returns the id.
pub fn create_blue_green_deployment_with(
    store: &mut BlueGreenStore,
    body: CreateBlueGreenRequest,
    id: String,
    now: Time,
) -> (r: Result<String, DeploymentError>)
    requires
        old(store).wf(),
    ensures
        final(store).wf(),
        deployment_created(*old(store), *final(store), body, id@, now, r),
{
    if is_blank(body.service.as_str()) {
        return Err(DeploymentError::EmptyService);
    }
    if is_blank(body.blue_version.as_str()) || is_blank(body.green_version.as_str()) {
        return Err(DeploymentError::VersionsRequired);
    }
    let ghost before = *store;
    let (blue_bits, green_bits) = match body.initial_active {
        ActiveSlot::Blue => (ALL_TRAFFIC, NO_TRAFFIC),
        ActiveSlot::Green => (NO_TRAFFIC, ALL_TRAFFIC),
    };
    let mut text = "blue-green deployment created; active=".to_owned();
    text.append(body.initial_active.name());
    text.append(", blue=");
    text.append(body.blue_version.as_str());
    text.append(", green=");
    text.append(body.green_version.as_str());
    let key = id.clone();
    let mut deployment = BlueGreenDeployment {
        id,
        service: body.service,
        active_slot: body.initial_active,
        blue: DeploymentSlot {
            version: body.blue_version,
            health: SlotHealth::Unknown,
            deployed_at: now,
            last_health_check: None,
            traffic_weight: Measure { bits: blue_bits },
            health_endpoint: body.blue_health_endpoint,
        },
        green: DeploymentSlot {
            version: body.green_version,
            health: SlotHealth::Unknown,
            deployed_at: now,
            last_health_check: None,
            traffic_weight: Measure { bits: green_bits },
            health_endpoint: body.green_health_endpoint,
        },
        status: BlueGreenStatus::Preparing,
        history: Vec::new(),
        created_at: now,
        updated_at: now,
    };
    assert(deployment@.history =~= Seq::empty());
    deployment.push_event(text, now);
    assert(deployment@ == requested_deployment(body, id@, now));
    let _previous = store.insert(key.clone(), deployment);
    assert(deployment_models(*store) =~= deployment_models(before).insert(
        id@,
        requested_deployment(body, id@, now),
    ));
    Ok(key)
}

/// Creates a deployment and returns its id.
pub fn create_blue_green_deployment(store: &mut BlueGreenStore, body: CreateBlueGreenRequest) -> (r:
    Result<String, DeploymentError>)
    requires
        old(store).wf(),
    ensures
        final(store).wf(),
        exists|id: Seq<char>, now: Time|
            wall_clock_shows(now) && is_new_id(id) && #[trigger] deployment_created(
                *old(store),
                *final(store),
                body,
                id,
                now,
                r,
            ),
{
    let id = new_id();
    let now = utc_now();
    create_blue_green_deployment_with(store, body, id, now)
}

/// The times at which deployments were created.
pub open spec fn deployment_times(deployments: Seq<BlueGreenDeployment>) -> Seq<i128> {
    deployments.map_values(|d: BlueGreenDeployment| d.created_at)
}

/// The deployments, the newest first.
pub open spec fn lists_deployments(
    listed: Seq<&BlueGreenDeployment>,
    deployments: Seq<BlueGreenDeployment>,
) -> bool {
    exists|order: Seq<usize>| #[trigger]
        is_stable_order(deployment_times(deployments), true, order) && picked(deployments, order, listed)
}

/// All deployments, the newest first.
pub fn list_blue_green_deployments(store: &BlueGreenStore) -> (r: Vec<&BlueGreenDeployment>)
    requires
        store.wf(),
    ensures
        lists_deployments(r@, store.values()),
{
    let mut times: Vec<i128> = Vec::new();
    let mut i: usize = 0;
    let n = store.len();
    while i < n
        invariant
            i <= n,
            store.wf(),
            n == store.keys().len(),
            times@ == deployment_times(store.values()).take(i as int),
        decreases n - i,
    {
        times.push(store.value_at(i).created_at);
        i = i + 1;
        assert(times@ =~= deployment_times(store.values()).take(i as int));
    }
    assert(times@ =~= deployment_times(store.values()));
    let order = stable_order(&times, true);
    pick_values(store, &order)
}

/// The deployment of an id.
pub fn get_blue_green_deployment<'a>(store: &'a BlueGreenStore, id: &str) -> (r: Option<
    &'a BlueGreenDeployment,
>)
    requires
        store.wf(),
    ensures
        match r {
            Some(d) => store@.contains_key(id@) && *d == store@[id@],
            None => !store@.contains_key(id@),
        },
{
    store.get(id)
}

/// Why the traffic is not switched.
#[derive(Debug, Clone, Copy, PartialEq, Eq, Structural)]
pub enum SwitchError {
    NotFound,
    /// The standby slot is not known to be healthy.
    StandbyUnhealthy { standby_slot: ActiveSlot, health: SlotHealth },
}

/// What a switch does to the store and what it is answered.
pub open spec fn traffic_switched(
    before: BlueGreenStore,
    after: BlueGreenStore,
    id: Seq<char>,
    body: SwitchTrafficRequest,
    now: Time,
    r: Result<(), SwitchError>,
) -> bool {
    if !before@.contains_key(id) {
        r == Err::<(), SwitchError>(SwitchError::NotFound) && after == before
    } else {
        let d = deployment_models(before)[id];
        let standby = d.active_slot.other();
        if body.require_healthy_standby && d.slot(standby).health != SlotHealth::Healthy {
            &&& r == Err::<(), SwitchError>(
                SwitchError::StandbyUnhealthy {
                    standby_slot: standby,
                    health: d.slot(standby).health,
                },
            )
            &&& deployment_models(after) == deployment_models(before)
        } else {
            &&& r is Ok
            &&& deployment_models(after) == deployment_models(before).insert(
                id,
                d.switched(body.reason@, now),
            )
        }
    }
}

/// Switches the traffic of a deployment to the standby slot at the time `now`.
pub fn switch_traffic_at(
    store: &mut BlueGreenStore,
    id: &str,
    body: &SwitchTrafficRequest,
    now: Time,
) -> (r: Result<(), SwitchError>)
    requires
        old(store).wf(),
    ensures
        final(store).wf(),
        traffic_switched(*old(store), *final(store), id@, *body, now, r),
{
    let ghost before = *store;
    match store.get_mut(id) {
        None => Err(SwitchError::NotFound),
        Some(deployment) => {
            let health = deployment.standby().health;
            if body.require_healthy_standby && health != SlotHealth::Healthy {
                let standby_slot = deployment.active_slot.opposite();
                assert(deployment_models(*store) =~= deployment_models(before));
                return Err(SwitchError::StandbyUnhealthy { standby_slot, health });
            }
            deployment.switch(body.reason.as_str(), now);
            assert(deployment_models(*store) =~= deployment_models(before).insert(
                id@,
                deployment_models(before)[id@].switched(body.reason@, now),
            ));
            Ok(())
        },
    }
}

/// Switches the traffic of a deployment to the standby slot.
pub fn switch_traffic(store: &mut BlueGreenStore, id: &str, body: &SwitchTrafficRequest) -> (r: Result<
    (),
    SwitchError,
>)
    requires
        old(store).wf(),
    ensures
        final(store).wf(),
        exists|now: Time|
            wall_clock_shows(now)
                && #[trigger] traffic_switched(*old(store), *final(store), id@, *body, now, r),
{
    let now = utc_now();
    switch_traffic_at(store, id, body, now)
}

/// The deployment `id` becomes `changed`; without it nothing happens.
pub open spec fn deployment_changed(
    before: BlueGreenStore,
    after: BlueGreenStore,
    id: Seq<char>,
    changed: DeploymentModel,
    r: bool,
) -> bool {
    if before@.contains_key(id) {
        r && deployment_models(after) == deployment_models(before).insert(id, changed)
    } else {
        !r && after == before
    }
}

/// Rolls a deployment back to its standby slot at the time `now`; whether
/// there is one.
pub fn rollback_blue_green_at(store: &mut BlueGreenStore, id: &str, reason: &str, now: Time) -> (r: bool)
    requires
        old(store).wf(),
    ensures
        final(store).wf(),
        deployment_changed(
            *old(store),
            *final(store),
            id@,
            deployment_models(*old(store))[id@].rolled_back(reason@, now),
            r,
        ),
{
    let ghost before = *store;
    match store.get_mut(id) {
        None => false,
        Some(deployment) => {
            deployment.roll_back(reason, now);
            assert(deployment_models(*store) =~= deployment_models(before).insert(
                id@,
                deployment_models(before)[id@].rolled_back(reason@, now),
            ));
            true
        },
    }
}

/// Rolls a deployment back to its standby slot; whether there is one.
pub fn rollback_blue_green(store: &mut BlueGreenStore, id: &str, reason: &str) -> (r: bool)
    requires
        old(store).wf(),
    ensures
        final(store).wf(),
        exists|now: Time|
            wall_clock_shows(now) && deployment_changed(
                *old(store),
                *final(store),
                id@,
                #[trigger] deployment_models(*old(store))[id@].rolled_back(reason@, now),
                r,
            ),
{
    let now = utc_now();
    rollback_blue_green_at(store, id, reason, now)
}

/// Takes a report on the health of a slot at the time `now`; whether there is
/// such a deployment.
pub fn report_health_at(
    store: &mut BlueGreenStore,
    id: &str,
    slot: ActiveSlot,
    health: SlotHealth,
    now: Time,
) -> (r: bool)
    requires
        old(store).wf(),
    ensures
        final(store).wf(),
        deployment_changed(
            *old(store),
            *final(store),
            id@,
            deployment_models(*old(store))[id@].health_reported(slot, health, now),
            r,
        ),
{
    let ghost before = *store;
    match store.get_mut(id) {
        None => false,
        Some(deployment) => {
            deployment.note_health(slot, health, now);
            assert(deployment_models(*store) =~= deployment_models(before).insert(
                id@,
                deployment_models(before)[id@].health_reported(slot, health, now),
            ));
            true
        },
    }
}

/// Takes a report on the health of a slot; whether there is such a deployment.
pub fn report_health(store: &mut BlueGreenStore, id: &str, slot: ActiveSlot, health: SlotHealth) -> (r:
    bool)
    requires
        old(store).wf(),
    ensures
        final(store).wf(),
        exists|now: Time|
            wall_clock_shows(now) && deployment_changed(
                *old(store),
                *final(store),
                id@,
                #[trigger] deployment_models(*old(store))[id@].health_reported(slot, health, now),
                r,
            ),
{
    let now = utc_now();
    report_health_at(store, id, slot, health, now)
}

/// Every step leaves all traffic on the active slot.
pub proof fn traffic_follows_the_active_slot(
    body: CreateBlueGreenRequest,
    id: Seq<char>,
    d: DeploymentModel,
    reason: Seq<char>,
    which: ActiveSlot,
    health: SlotHealth,
    now: Time,
)
    ensures
        requested_deployment(body, id, now).routes_to_active(),
        d.switched(reason, now).routes_to_active(),
        d.rolled_back(reason, now).routes_to_active(),
        d.routes_to_active() ==> d.health_reported(which, health, now).routes_to_active(),
{
}

/// A rollback undoes a switch: the slots are as they were, and the same one is
/// active.
pub proof fn rollback_undoes_switch(
    d: DeploymentModel,
    switch_reason: Seq<char>,
    switched_at: Time,
    reason: Seq<char>,
    now: Time,
)
    requires
        d.routes_to_active(),
    ensures
        ({
            let after = d.switched(switch_reason, switched_at).rolled_back(reason, now);
            &&& after.active_slot == d.active_slot
            &&& after.blue == d.blue
            &&& after.green == d.green
            &&& after.status == BlueGreenStatus::RolledBack
        }),
{
}

/// A switch is made exactly where there is such a deployment and, if that is asked for,
/// its standby slot is healthy. All traffic then goes to the slot that was on standby
/// and none to the other; the versions and the health of the slots stay. A switch that
/// is refused changes nothing, and no other deployment ever changes.
pub proof fn switches_send_the_traffic_to_the_standby(
    before: BlueGreenStore,
    after: BlueGreenStore,
    id: Seq<char>,
    body: SwitchTrafficRequest,
    now: Time,
    r: Result<(), SwitchError>,
    other: Seq<char>,
)
    requires
        traffic_switched(before, after, id, body, now, r),
        other != id,
    ensures
        ({
            let was = deployment_models(before)[id];
            let is = deployment_models(after)[id];
            let standby = if was.active_slot == ActiveSlot::Blue {
                was.green
            } else {
                was.blue
            };
            &&& r is Ok <==> before@.contains_key(id) && (body.require_healthy_standby
                ==> standby.health == SlotHealth::Healthy)
            &&& !before@.contains_key(id) ==> r == Err::<(), SwitchError>(SwitchError::NotFound)
            &&& r is Err ==> deployment_models(after) == deployment_models(before)
            &&& r is Ok ==> {
                let active = if is.active_slot == ActiveSlot::Blue {
                    is.blue
                } else {
                    is.green
                };
                let idle = if is.active_slot == ActiveSlot::Blue {
                    is.green
                } else {
                    is.blue
                };
                &&& is.active_slot != was.active_slot
                &&& active.version == standby.version
                &&& active.traffic_weight.bits == 0x3FF0_0000_0000_0000
                &&& idle.traffic_weight.bits == 0
                &&& is.blue.version == was.blue.version && is.green.version == was.green.version
                &&& is.blue.health == was.blue.health && is.green.health == was.green.health
                &&& is.status == BlueGreenStatus::Stable
                &&& is.service == was.service
                &&& is.history.len() == was.history.len() + 2
                &&& is.updated_at == now
            }
            &&& deployment_models(after).contains_key(other) == deployment_models(
                before,
            ).contains_key(other)
            &&& deployment_models(before).contains_key(other) ==> deployment_models(after)[other]
                == deployment_models(before)[other]
        }),
{
}

/// A rollback sends all traffic to the slot that was on standby, whatever its health,
/// and marks the deployment; the versions stay.
pub proof fn rollbacks_send_the_traffic_back(d: DeploymentModel, reason: Seq<char>, now: Time)
    ensures
        ({
            let after = d.rolled_back(reason, now);
            &&& d.active_slot == ActiveSlot::Blue ==> after.active_slot == ActiveSlot::Green
                && after.green.traffic_weight.bits == 0x3FF0_0000_0000_0000
                && after.blue.traffic_weight.bits == 0
            &&& d.active_slot == ActiveSlot::Green ==> after.active_slot == ActiveSlot::Blue
                && after.blue.traffic_weight.bits == 0x3FF0_0000_0000_0000
                && after.green.traffic_weight.bits == 0
            &&& after.status == BlueGreenStatus::RolledBack
            &&& after.blue.version == d.blue.version && after.green.version == d.green.version
            &&& after.blue.health == d.blue.health && after.green.health == d.green.health
            &&& after.history.len() == d.history.len() + 1
        }),
{
}

/// A report sets the health of the slot that it is about, and of no other. The
/// deployment becomes unhealthy exactly where its active slot is unhealthy after the
/// report; otherwise its status stays. The traffic is not moved.
pub proof fn reports_concern_one_slot(
    d: DeploymentModel,
    which: ActiveSlot,
    health: SlotHealth,
    now: Time,
)
    ensures
        ({
            let after = d.health_reported(which, health, now);
            let active_health = if d.active_slot == which {
                health
            } else if d.active_slot == ActiveSlot::Blue {
                d.blue.health
            } else {
                d.green.health
            };
            &&& which == ActiveSlot::Blue ==> after.blue.health == health && after.green == d.green
                && after.blue.last_health_check == Some(now)
            &&& which == ActiveSlot::Green ==> after.green.health == health && after.blue == d.blue
                && after.green.last_health_check == Some(now)
            &&& after.active_slot == d.active_slot
            &&& after.blue.traffic_weight == d.blue.traffic_weight
            &&& after.green.traffic_weight == d.green.traffic_weight
            &&& after.blue.version == d.blue.version && after.green.version == d.green.version
            &&& after.status == if active_health == SlotHealth::Unhealthy {
                BlueGreenStatus::Unhealthy
            } else {
                d.status
            }
        }),
{
}

/// A deployment is made where the service and both versions are named: with these
/// versions in their slots, all traffic on the slot that was asked for, and the health
/// of neither known yet. Otherwise nothing changes.
pub proof fn requested_deployments_are_made(
    before: BlueGreenStore,
    after: BlueGreenStore,
    body: CreateBlueGreenRequest,
    id: Seq<char>,
    now: Time,
    r: Result<String, DeploymentError>,
)
    requires
        deployment_created(before, after, body, id, now, r),
    ensures
        r is Ok <==> trimmed(body.service@).len() > 0 && trimmed(body.blue_version@).len() > 0
            && trimmed(body.green_version@).len() > 0,
        r is Err ==> after == before && (r->Err_0 is EmptyService <==> trimmed(
            body.service@,
        ).len() == 0),
        r is Ok ==> {
            let d = deployment_models(after)[id];
            &&& deployment_models(after).contains_key(id)
            &&& d.service == body.service@
            &&& d.active_slot == body.initial_active
            &&& d.blue.version == body.blue_version@
            &&& d.green.version == body.green_version@
            &&& d.blue.health == SlotHealth::Unknown
            &&& d.green.health == SlotHealth::Unknown
            &&& d.blue.traffic_weight.bits == if body.initial_active == ActiveSlot::Blue {
                0x3FF0_0000_0000_0000u64
            } else {
                0u64
            }
            &&& d.green.traffic_weight.bits == if body.initial_active == ActiveSlot::Green {
                0x3FF0_0000_0000_0000u64
            } else {
                0u64
            }
            &&& d.status == BlueGreenStatus::Preparing
        },
{
}

/// A change to one deployment leaves every other one as it was.
pub proof fn other_deployments_stay(
    before: BlueGreenStore,
    after: BlueGreenStore,
    id: Seq<char>,
    changed: DeploymentModel,
    r: bool,
    other: Seq<char>,
)
    requires
        deployment_changed(before, after, id, changed, r),
        other != id,
    ensures
        r <==> before@.contains_key(id),
        r ==> deployment_models(after)[id] == changed,
        deployment_models(after).contains_key(other) == deployment_models(before).contains_key(
            other,
        ),
        deployment_models(before).contains_key(other) ==> deployment_models(after)[other]
            == deployment_models(before)[other],
{
}

/// Every deployment is listed once, and none before a newer one.
pub proof fn newer_deployments_come_first(
    listed: Seq<&BlueGreenDeployment>,
    deployments: Seq<BlueGreenDeployment>,
    i: int,
    j: int,
    k: int,
)
    requires
        lists_deployments(listed, deployments),
        0 <= i < j < listed.len(),
        0 <= k < deployments.len(),
    ensures
        listed.len() == deployments.len(),
        listed[i].created_at >= listed[j].created_at,
        exists|n: int| 0 <= n < listed.len() && *(#[trigger] listed[n]) == deployments[k],
{
    let keys = deployment_times(deployments);
    let order = choose|order: Seq<usize>| #[trigger]
        is_stable_order(keys, true, order) && picked(deployments, order, listed);
    crate::ordering::lemma_every_item_is_picked(deployments, keys, true, order, listed, k);
    assert(crate::ordering::precedes(keys, true, order[i], order[j]));
    assert(*listed[i] == deployments[order[i] as int]);
    assert(*listed[j] == deployments[order[j] as int]);
}

} // verus!
