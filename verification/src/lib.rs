//! Per-tile schedules for layout-aware tensor programs.
#![allow(unused_imports)]
#![verifier::loop_isolation(false)]

pub mod model;

pub mod tensor;

pub mod mid;

pub mod low;

pub mod target;

pub mod order;

pub mod state;

pub mod phase;

pub mod kernels;

pub mod copies;

pub mod extents;

pub mod lookup;

pub mod fragments;

pub mod buffers;

pub mod deferred;

pub mod conversion;

pub mod fallback;

pub mod coverage;

pub mod carriage;

pub mod local_conversions;

pub mod unpacking;

pub mod heads;

pub mod head_coverage;

pub mod pointwise;

pub mod attention_tasks;

pub mod attention_panels;

pub mod attention;

pub mod attention_whole;

pub mod gemm;

pub mod gemm_run;

pub mod product_coverage;

pub mod batched_products;

pub mod attention_coverage;

pub mod whole_coverage;

pub mod attention_operands;

pub mod reduction_plan;

pub mod reduction_partials;

pub mod reduction_sum;

pub mod partial_coverage;

pub mod sum_coverage;

pub mod pointwise_coverage;

pub mod deferral;

pub mod aliasing;

pub mod repeats;

pub mod repeat_bindings;

pub mod region;

pub mod placement;

pub mod program;

pub mod program_values;

pub mod region_steps;

pub mod product_operands;

pub mod left_operands;

pub mod head_operands;

pub mod reduction_operands;

pub mod operator_plans;

pub mod blocks;

pub mod relay;

pub mod relay_delivery;

pub mod products;

pub mod computes;

pub mod block_panels;

pub mod block_regions;

pub mod block_packing;

pub mod materialize;

pub mod block_exchange;

pub mod block_carriage;

pub mod copy_lowering;

pub mod exchange_grouping;

pub mod linear;

pub mod memo;

pub mod cache;

pub mod call;

pub mod views;

pub mod block_buffers;

pub mod schedule;

pub mod schedule_data;

pub mod schedule_attention;

pub mod schedule_products;

pub mod schedule_regions;
