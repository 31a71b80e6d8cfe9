use ethos_protocol_backend::cost_tracking::{
    allocate_cost, breach_to_escalation_request, breach_to_incident_request, record_cost_entry,
    record_gas_cost, set_budget_threshold, BudgetBreach, BudgetScope, BudgetThreshold,
    CostDashboard, CostEntry, CostError, CostState, FiatTotals, GasCostEntry, OperationShare,
    OptimizationSeverity, OptimizationSuggestion, RecordCostRequest, RecordGasCostRequest,
};
use ethos_protocol_backend::measure::Measure;
use ethos_protocol_backend::table::Table;

fn measure(x: f64) -> Measure {
    Measure { bits: x.to_bits() }
}

fn total(amounts: &Vec<Measure>) -> f64 {
    amounts.iter().map(|m| f64::from_bits(m.bits)).sum()
}

fn entry(operation: &str, team: &str, amount: f64) -> CostEntry {
    let mut tags = Table::new();
    tags.insert("team".to_string(), team.to_string());
    CostEntry {
        id: format!("{operation}-{team}-{amount}"),
        operation: operation.to_string(),
        tags,
        amount: measure(amount),
        currency: "USD".to_string(),
        recorded_at: 0,
    }
}

fn gas_entry(operation: &str, fee_stroops: u64, ledger: u64) -> GasCostEntry {
    GasCostEntry {
        id: format!("gas-{ledger}"),
        operation: operation.to_string(),
        tx_hash: format!("txhash-{ledger}"),
        fee_stroops,
        ledger_sequence: ledger,
        tags: Table::new(),
        recorded_at: 0,
    }
}

fn budget(category: &str, operation: &str, limit: f64) -> BudgetThreshold {
    BudgetThreshold {
        category: category.to_string(),
        scope: BudgetScope::Operation(operation.to_string()),
        limit: measure(limit),
    }
}

fn fiat_totals(state: &CostState) -> FiatTotals {
    let report = state.report();
    let whole = total(&report.total_amount);
    let mut operations = Vec::new();
    for i in 0..report.by_operation.len() {
        let sum = total(report.by_operation.value_at(i));
        operations.push(OperationShare {
            operation: report.by_operation.key_at(i).to_string(),
            total: measure(sum),
            fraction: measure(sum / whole),
        });
    }
    FiatTotals { total_amount: measure(whole), operations }
}

fn breaches(state: &CostState) -> Vec<BudgetBreach> {
    let totals = state.budget_amounts().iter().map(|a| measure(total(a))).collect();
    state.check_budget_breaches(&totals)
}

fn dashboard(state: &CostState) -> CostDashboard {
    state.dashboard(&fiat_totals(state), &breaches(state))
}

fn suggestions(state: &CostState) -> Vec<OptimizationSuggestion> {
    state.optimization_suggestions(&fiat_totals(state), &breaches(state))
}

#[test]
fn report_aggregates_totals_and_tags() {
    let mut state = CostState::new();
    state.record(entry("db.query", "vaults", 1.0));
    state.record(entry("db.query", "vaults", 2.0));
    state.record(entry("api.call", "billing", 3.0));

    let report = state.report();
    assert_eq!(total(&report.total_amount), 6.0);
    assert_eq!(report.entry_count, 3);
    assert_eq!(total(report.by_operation.get("db.query").unwrap()), 3.0);
    let teams = report.by_tag.get("team").unwrap();
    assert_eq!(total(teams.get("vaults").unwrap()), 3.0);
    assert_eq!(total(teams.get("billing").unwrap()), 3.0);
}

#[test]
fn allocation_is_proportional_to_historical_share() {
    let mut state = CostState::new();
    state.record(entry("db.query", "vaults", 3.0));
    state.record(entry("db.query", "billing", 1.0));

    let allocation = state.allocate("team");
    let vaults = total(allocation.shares.get("vaults").unwrap());
    let billing = total(allocation.shares.get("billing").unwrap());
    let whole = vaults + billing;
    assert_eq!(100.0 * (vaults / whole), 75.0);
    assert_eq!(100.0 * (billing / whole), 25.0);
}

#[test]
fn allocation_with_no_history_is_empty() {
    let state = CostState::new();
    let allocation = state.allocate("team");
    assert!(allocation.shares.is_empty());
}

#[test]
fn gas_report_empty_state() {
    let state = CostState::new();
    let report = state.gas_report();
    assert_eq!(report.total_fee_stroops, 0);
    assert_eq!(report.tx_count, 0);
    assert!(report.by_operation.is_empty());
}

#[test]
fn gas_report_aggregates_by_operation() {
    let mut state = CostState::new();
    state.record_gas(gas_entry("vault.create", 1_000, 100));
    state.record_gas(gas_entry("vault.create", 2_000, 101));
    state.record_gas(gas_entry("vault.check_in", 500, 102));

    let report = state.gas_report();
    assert_eq!(report.total_fee_stroops, 3_500);
    assert_eq!(report.tx_count, 3);

    let vault_create = report
        .by_operation
        .iter()
        .find(|s| s.operation == "vault.create")
        .expect("vault.create stats missing");
    assert_eq!(vault_create.tx_count, 2);
    assert_eq!(vault_create.total_fee_stroops, 3_000);
    assert_eq!(vault_create.avg_fee_stroops, 1_500);
    assert_eq!(vault_create.max_fee_stroops, 2_000);
    assert_eq!(vault_create.min_fee_stroops, 1_000);

    let check_in = report
        .by_operation
        .iter()
        .find(|s| s.operation == "vault.check_in")
        .expect("vault.check_in stats missing");
    assert_eq!(check_in.tx_count, 1);
    assert_eq!(check_in.total_fee_stroops, 500);
    // The operations add up to the whole.
    let sum: u64 = report.by_operation.iter().map(|s| s.total_fee_stroops).sum();
    assert_eq!(sum, report.total_fee_stroops);
}

#[test]
fn gas_report_sorted_descending_by_total_fee() {
    let mut state = CostState::new();
    state.record_gas(gas_entry("op.cheap", 100, 1));
    state.record_gas(gas_entry("op.expensive", 10_000, 2));
    state.record_gas(gas_entry("op.medium", 500, 3));

    let report = state.gas_report();
    let ops: Vec<&str> = report.by_operation.iter().map(|s| s.operation.as_str()).collect();
    assert_eq!(ops[0], "op.expensive");
    assert_eq!(ops[1], "op.medium");
    assert_eq!(ops[2], "op.cheap");
}

#[test]
fn gas_snapshot_returns_all_entries() {
    let mut state = CostState::new();
    state.record_gas(gas_entry("op.a", 100, 1));
    state.record_gas(gas_entry("op.b", 200, 2));
    assert_eq!(state.gas_snapshot().len(), 2);
}

#[test]
fn dashboard_empty_state() {
    let state = CostState::new();
    let dash = dashboard(&state);
    assert_eq!(dash.fiat_summary.entry_count, 0);
    assert_eq!(f64::from_bits(dash.fiat_summary.total_amount.bits), 0.0);
    assert_eq!(dash.gas_summary.tx_count, 0);
    assert_eq!(dash.gas_summary.total_fee_stroops, 0);
    assert_eq!(dash.active_thresholds, 0);
    assert_eq!(dash.breached_thresholds, 0);
    assert!(dash.top_fiat_operations.is_empty());
    assert!(dash.top_gas_operations.is_empty());
}

#[test]
fn dashboard_reflects_recorded_data() {
    let mut state = CostState::new();
    state.record(entry("db.query", "vaults", 10.0));
    state.record(entry("api.call", "billing", 5.0));
    state.record_gas(gas_entry("vault.create", 1_000, 1));

    let dash = dashboard(&state);
    assert_eq!(dash.fiat_summary.entry_count, 2);
    assert_eq!(f64::from_bits(dash.fiat_summary.total_amount.bits), 15.0);
    assert_eq!(dash.gas_summary.tx_count, 1);
    assert_eq!(dash.gas_summary.total_fee_stroops, 1_000);
}

#[test]
fn dashboard_shows_active_and_breached_thresholds() {
    let mut state = CostState::new();
    state.record(entry("db.query", "vaults", 100.0));
    state.set_budget_threshold(budget("over", "db.query", 50.0));
    state.set_budget_threshold(budget("ok", "db.query", 200.0));

    let dash = dashboard(&state);
    assert_eq!(dash.active_thresholds, 2);
    assert_eq!(dash.breached_thresholds, 1);
}

#[test]
fn dashboard_top_fiat_operations_capped_at_5() {
    let mut state = CostState::new();
    for i in 0..10u32 {
        state.record(entry(&format!("op.{}", i), "team", (i + 1) as f64));
    }
    let dash = dashboard(&state);
    assert_eq!(dash.top_fiat_operations.len(), 5);
    assert_eq!(f64::from_bits(dash.top_fiat_operations[0].total.bits), 10.0);
}

#[test]
fn no_suggestions_on_empty_state() {
    let state = CostState::new();
    assert!(suggestions(&state).is_empty());
}

#[test]
fn high_severity_suggestion_for_dominant_fiat_operation() {
    let mut state = CostState::new();
    state.record(entry("op.heavy", "team", 80.0));
    state.record(entry("op.light", "team", 10.0));

    let suggestions = suggestions(&state);
    let high = suggestions.iter().find(|s| {
        s.severity == OptimizationSeverity::High && s.applies_to.as_deref() == Some("op.heavy")
    });
    assert!(high.is_some(), "expected a High suggestion for op.heavy");
}

#[test]
fn high_severity_suggestion_for_dominant_gas_operation() {
    let mut state = CostState::new();
    state.record_gas(gas_entry("op.heavy", 90_000, 1));
    state.record_gas(gas_entry("op.light", 5_000, 2));

    let suggestions = suggestions(&state);
    let high = suggestions.iter().find(|s| {
        s.severity == OptimizationSeverity::High && s.applies_to.as_deref() == Some("op.heavy")
    });
    assert!(high.is_some(), "expected a High suggestion for dominant gas op");
}

#[test]
fn medium_severity_suggestion_for_breached_threshold() {
    let mut state = CostState::new();
    state.record(entry("db.query", "vaults", 100.0));
    state.set_budget_threshold(budget("vaults-db", "db.query", 50.0));

    let suggestions = suggestions(&state);
    let med = suggestions.iter().find(|s| s.severity == OptimizationSeverity::Medium);
    assert!(med.is_some(), "expected a Medium suggestion for breached threshold");
}

#[test]
fn low_severity_suggestion_for_missing_gas_instrumentation() {
    let mut state = CostState::new();
    state.record(entry("op.heavy", "team", 80.0));
    state.record(entry("op.light", "team", 5.0));

    let suggestions = suggestions(&state);
    let low = suggestions.iter().find(|s| {
        s.severity == OptimizationSeverity::Low && s.applies_to.as_deref() == Some("op.heavy")
    });
    assert!(low.is_some(), "expected a Low suggestion for missing gas data");
}

#[test]
fn no_low_instrumentation_suggestion_when_gas_data_exists() {
    let mut state = CostState::new();
    state.record(entry("op.heavy", "team", 80.0));
    state.record(entry("op.light", "team", 5.0));
    state.record_gas(gas_entry("op.heavy", 1_000, 1));

    let suggestions = suggestions(&state);
    let instrumentation_hint = suggestions.iter().find(|s| {
        s.severity == OptimizationSeverity::Low
            && s.applies_to.as_deref() == Some("op.heavy")
            && s.finding.description("", "", "").contains("gas instrumentation")
    });
    assert!(
        instrumentation_hint.is_none(),
        "no Low instrumentation suggestion expected when gas data present"
    );
}

#[test]
fn a_new_budget_replaces_the_one_of_its_category() {
    let mut state = CostState::new();
    set_budget_threshold(&mut state, budget("db", "db.query", 10.0)).unwrap();
    set_budget_threshold(&mut state, budget("api", "api.call", 10.0)).unwrap();
    set_budget_threshold(&mut state, budget("db", "db.query", 20.0)).unwrap();
    let categories: Vec<&str> =
        state.budget_thresholds().iter().map(|t| t.category.as_str()).collect();
    assert_eq!(categories, vec!["api", "db"]);
    state.record(entry("db.query", "t", 20.0));
    let reached = breaches(&state);
    assert_eq!(reached.len(), 1);
    assert_eq!(reached[0].category, "db");
    let incident = breach_to_incident_request(&reached[0], "20.00", "20.00");
    assert_eq!(incident.title, "Budget threshold breached: db");
    assert_eq!(
        incident.description,
        "Category 'db' (Operation(\"db.query\")) reached 20.00 against a configured limit of 20.00."
    );
    let escalation = breach_to_escalation_request(&reached[0], "20.00", "20.00");
    assert_eq!(escalation.reason, "budget threshold 'db' breached: 20.00 >= 20.00");
}

#[test]
fn tags_can_be_budgeted() {
    let mut state = CostState::new();
    state.record(entry("a", "red", 5.0));
    state.record(entry("b", "red", 7.0));
    state.record(entry("b", "blue", 70.0));
    let scope = BudgetScope::Tag { key: "team".to_string(), value: "red".to_string() };
    assert_eq!(scope.text(), "Tag { key: \"team\", value: \"red\" }");
    assert_eq!(total(&state.amounts_of(&scope)), 12.0);
}

#[test]
fn entries_are_refused_with_their_reasons() {
    let mut state = CostState::new();
    let request = |operation: &str, amount: f64| RecordCostRequest {
        operation: operation.to_string(),
        tags: Table::new(),
        amount: measure(amount),
        currency: "USD".to_string(),
    };
    assert_eq!(record_cost_entry(&mut state, request(" ", 1.0)), Err(CostError::EmptyOperation));
    assert_eq!(record_cost_entry(&mut state, request("a", -1.0)), Err(CostError::NegativeAmount));
    assert_eq!(record_cost_entry(&mut state, request("a", 1.0)), Ok(()));
    assert_eq!(state.snapshot().len(), 1);
    assert!(matches!(allocate_cost(&state, " "), Err(CostError::EmptyTagKey)));
    assert_eq!(
        set_budget_threshold(&mut state, budget("", "a", 1.0)),
        Err(CostError::EmptyCategory)
    );
    assert_eq!(
        set_budget_threshold(&mut state, budget("c", "a", -1.0)),
        Err(CostError::NegativeLimit)
    );
    let gas = |operation: &str, tx_hash: &str| RecordGasCostRequest {
        operation: operation.to_string(),
        tx_hash: tx_hash.to_string(),
        fee_stroops: 1,
        ledger_sequence: 1,
        tags: Table::new(),
    };
    assert_eq!(record_gas_cost(&mut state, gas("", "h")), Err(CostError::EmptyOperation));
    assert_eq!(record_gas_cost(&mut state, gas("a", "")), Err(CostError::EmptyTxHash));
    assert_eq!(record_gas_cost(&mut state, gas("a", "h")), Ok(()));
    assert_eq!(CostError::NegativeAmount.message(), "amount must be non-negative");
}

#[test]
fn totals_that_are_no_numbers_are_listed_in_some_order() {
    let state = CostState::new();
    let share = |name: &str, x: f64| OperationShare {
        operation: name.to_string(),
        total: measure(x),
        fraction: measure(x),
    };
    let fiat = FiatTotals {
        total_amount: measure(f64::NAN),
        operations: vec![share("a", 1.0), share("b", f64::NAN), share("c", 2.0)],
    };
    let dash = state.dashboard(&fiat, &vec![]);
    let mut names: Vec<String> =
        dash.top_fiat_operations.iter().map(|item| item.operation.clone()).collect();
    names.sort();
    assert_eq!(names, vec!["a".to_string(), "b".to_string(), "c".to_string()]);
}
