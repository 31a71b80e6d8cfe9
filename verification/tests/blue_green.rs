use ethos_protocol_backend::blue_green::{
    create_blue_green_deployment, get_blue_green_deployment, list_blue_green_deployments,
    report_health, report_health_at, rollback_blue_green, switch_traffic, switch_traffic_at,
    ActiveSlot, BlueGreenState, BlueGreenStatus, CreateBlueGreenRequest, DeploymentError,
    SlotHealth, SwitchError, SwitchTrafficRequest, ALL_TRAFFIC, NO_TRAFFIC,
};

fn request(service: &str, blue: &str, green: &str) -> CreateBlueGreenRequest {
    CreateBlueGreenRequest {
        service: service.to_string(),
        blue_version: blue.to_string(),
        green_version: green.to_string(),
        initial_active: ActiveSlot::Blue,
        blue_health_endpoint: None,
        green_health_endpoint: None,
    }
}

fn create_deployment(state: &mut BlueGreenState) -> String {
    create_blue_green_deployment(&mut state.store, request("vault-api", "v1.0.0", "v2.0.0"))
        .unwrap()
}

fn switch(reason: &str) -> SwitchTrafficRequest {
    SwitchTrafficRequest { reason: reason.to_string(), require_healthy_standby: true }
}

#[test]
fn creates_deployment_with_blue_active() {
    let mut state = BlueGreenState::new();
    let id = create_deployment(&mut state);
    let d = get_blue_green_deployment(&state.store, &id).unwrap();
    assert_eq!(d.active_slot, ActiveSlot::Blue);
    assert_eq!(f64::from_bits(d.blue.traffic_weight.bits), 1.0);
    assert_eq!(f64::from_bits(d.green.traffic_weight.bits), 0.0);
}

#[test]
fn switch_traffic_moves_active_to_green() {
    let mut state = BlueGreenState::new();
    let id = create_deployment(&mut state);
    assert!(report_health(&mut state.store, &id, ActiveSlot::Green, SlotHealth::Healthy));

    switch_traffic(&mut state.store, &id, &switch("deploy v2.0.0")).unwrap();

    let switched = get_blue_green_deployment(&state.store, &id).unwrap();
    assert_eq!(switched.active_slot, ActiveSlot::Green);
    assert_eq!(f64::from_bits(switched.green.traffic_weight.bits), 1.0);
    assert_eq!(f64::from_bits(switched.blue.traffic_weight.bits), 0.0);
    assert_eq!(switched.status, BlueGreenStatus::Stable);
}

#[test]
fn switch_traffic_refused_when_standby_unhealthy() {
    let mut state = BlueGreenState::new();
    let id = create_deployment(&mut state);
    assert!(report_health(&mut state.store, &id, ActiveSlot::Green, SlotHealth::Unhealthy));

    let result = switch_traffic(&mut state.store, &id, &switch("should fail"));
    assert_eq!(
        result,
        Err(SwitchError::StandbyUnhealthy {
            standby_slot: ActiveSlot::Green,
            health: SlotHealth::Unhealthy
        })
    );
}

#[test]
fn only_a_healthy_standby_meets_the_requirement() {
    let mut state = BlueGreenState::new();
    let id = create_deployment(&mut state);
    for health in [SlotHealth::Unknown, SlotHealth::Degraded] {
        if health == SlotHealth::Degraded {
            report_health(&mut state.store, &id, ActiveSlot::Green, health);
        }
        assert_eq!(
            switch_traffic(&mut state.store, &id, &switch("deploy")),
            Err(SwitchError::StandbyUnhealthy { standby_slot: ActiveSlot::Green, health })
        );
        let kept = get_blue_green_deployment(&state.store, &id).unwrap();
        assert_eq!(kept.active_slot, ActiveSlot::Blue);
        assert_eq!(f64::from_bits(kept.blue.traffic_weight.bits), 1.0);
        assert_eq!(f64::from_bits(kept.green.traffic_weight.bits), 0.0);
    }
    let forced = SwitchTrafficRequest {
        reason: "deploy".to_string(),
        require_healthy_standby: false,
    };
    switch_traffic(&mut state.store, &id, &forced).unwrap();
    let switched = get_blue_green_deployment(&state.store, &id).unwrap();
    assert_eq!(switched.active_slot, ActiveSlot::Green);
}

#[test]
fn rollback_reverts_active_slot() {
    let mut state = BlueGreenState::new();
    let id = create_deployment(&mut state);
    report_health(&mut state.store, &id, ActiveSlot::Green, SlotHealth::Healthy);
    switch_traffic(&mut state.store, &id, &switch("deploy")).unwrap();

    assert!(rollback_blue_green(&mut state.store, &id, "green has issues"));

    let rolled_back = get_blue_green_deployment(&state.store, &id).unwrap();
    assert_eq!(rolled_back.active_slot, ActiveSlot::Blue);
    assert_eq!(rolled_back.status, BlueGreenStatus::RolledBack);
}

#[test]
fn unhealthy_active_slot_marks_deployment_unhealthy() {
    let mut state = BlueGreenState::new();
    let id = create_deployment(&mut state);
    assert!(report_health(&mut state.store, &id, ActiveSlot::Blue, SlotHealth::Unhealthy));
    let updated = get_blue_green_deployment(&state.store, &id).unwrap();
    assert_eq!(updated.status, BlueGreenStatus::Unhealthy);
}

#[test]
fn service_name_required() {
    let mut state = BlueGreenState::new();
    let result = create_blue_green_deployment(&mut state.store, request("  ", "v1", "v2"));
    assert_eq!(result, Err(DeploymentError::EmptyService));
}

#[test]
fn active_slot_opposite() {
    assert_eq!(ActiveSlot::Blue.opposite(), ActiveSlot::Green);
    assert_eq!(ActiveSlot::Green.opposite(), ActiveSlot::Blue);
}

#[test]
fn versions_are_required() {
    let mut state = BlueGreenState::new();
    let result = create_blue_green_deployment(&mut state.store, request("s", "v1", " "));
    assert_eq!(result, Err(DeploymentError::VersionsRequired));
    assert_eq!(
        DeploymentError::VersionsRequired.message(),
        "both blue_version and green_version are required"
    );
    assert_eq!(DeploymentError::EmptyService.message(), "service name must not be empty");
}

#[test]
fn unknown_deployments_are_not_found() {
    let mut state = BlueGreenState::new();
    assert!(get_blue_green_deployment(&state.store, "none").is_none());
    assert_eq!(
        switch_traffic(&mut state.store, "none", &switch("x")),
        Err(SwitchError::NotFound)
    );
    assert!(!rollback_blue_green(&mut state.store, "none", "x"));
    assert!(!report_health(&mut state.store, "none", ActiveSlot::Blue, SlotHealth::Healthy));
}

#[test]
fn traffic_stays_on_the_active_slot() {
    let mut state = BlueGreenState::new();
    let id = create_deployment(&mut state);
    report_health_at(&mut state.store, &id, ActiveSlot::Green, SlotHealth::Healthy, 5);
    switch_traffic_at(&mut state.store, &id, &switch("a"), 10).unwrap();
    report_health_at(&mut state.store, &id, ActiveSlot::Blue, SlotHealth::Degraded, 20);
    let d = get_blue_green_deployment(&state.store, &id).unwrap();
    assert_eq!(d.green.traffic_weight.bits, ALL_TRAFFIC);
    assert_eq!(d.blue.traffic_weight.bits, NO_TRAFFIC);
    assert_eq!(d.blue.last_health_check, Some(20));
    assert_eq!(d.active().version, "v2.0.0");
    assert_eq!(d.standby().version, "v1.0.0");
    let other = create_deployment(&mut state);
    let all = list_blue_green_deployments(&state.store);
    assert_eq!(all.len(), 2);
    assert!(all.iter().any(|d| d.id == other));
}
