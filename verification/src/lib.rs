//! The logic of the vault backend, verified: what each function returns or
//! changes is stated in its contract, and what holds across functions in public
//! proof functions.

pub mod alert_rules;
pub mod aml;
pub mod analytics;
pub mod anomaly_detection;
pub mod anomaly_explanation;
pub mod api_versioning;
pub mod atomicity;
pub mod automated_rollback;
pub mod backup_validation;
pub mod batch_conditional_completion;
pub mod blue_green;
pub mod bulk_operations;
pub mod cache_history;
pub mod cache_partition;
pub mod captcha;
pub mod cardinality;
pub mod cdc_lag;
pub mod clock;
pub mod cost_tracking;
pub mod custom_metrics;
pub mod distributed_tx;
pub mod dr_automation;
pub mod encryption;
pub mod error_context;
pub mod expiring;
pub mod fraud_detection;
pub mod hash_ring;
pub mod health;
pub mod ids;
pub mod incidents;
pub mod investigations;
pub mod job_queue;
pub mod json;
pub mod lazy_metadata;
pub mod materialized_views;
pub mod measure;
pub mod metrics;
pub mod multilevel_cache;
pub mod oncall;
pub mod ordering;
pub mod ratio;
pub mod table;
pub mod text;
