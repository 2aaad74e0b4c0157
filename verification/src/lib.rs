//! Verified core logic of the FeroHa dual-track note IDE.
#![allow(unused_imports)]

pub mod text;
pub mod regression;
pub mod cli;
pub mod lean_kernel;
pub mod workflow;
pub mod bridge;
pub mod ghost;
pub mod block_id;
pub mod manifest;
pub mod paths;
pub mod context;
pub mod ast_diff;
pub mod merge;
pub mod completion;
pub mod workflow_runtime;
pub mod dispatch;
pub mod translator;
pub mod orchestrator;
pub mod audit_ledger;
pub mod link_graph;
pub mod backlinks;
pub mod replan;
pub mod runtime_events;
pub mod proposals;
pub mod link_targets;
pub mod runtime_service;
pub mod task_adapter;
pub mod workflow_template;
pub mod output_hook;
