//! A callback framework: tasks that publish and read messages over channels,
//! graphs of tasks, and a deterministic simulation that runs them.
pub mod alike;
pub mod arena;
pub mod callback;
pub mod callback_builder;
pub mod callback_plan;
pub mod callback_storage;
pub mod channel_map;
pub mod channel_registry;
pub mod connect;
pub mod connect_graph;
pub mod context;
pub mod dangling;
pub mod determinism;
pub mod double_buffer;
pub mod error_laws;
pub mod execution_log;
pub mod executor;
pub mod flow_laws;
pub mod forwarded_message;
pub mod generic_publisher;
pub mod generic_subscriber;
pub mod graph_laws;
pub mod graph_pools;
pub mod input;
pub mod iox2;
pub mod iox2_data;
pub mod iox2_event;
pub mod iox2_laws;
pub mod iox2_names;
pub mod json_values;
pub mod log_laws;
pub mod log_listeners;
pub mod log_simulation;
pub mod log_simulation_node;
pub mod log_types;
pub mod loggable;
pub mod message;
pub mod mpsc_queue;
pub mod name_laws;
pub mod node_io;
pub mod output;
pub mod port_laws;
pub mod pub_sub;
pub mod pub_sub_factory;
pub mod pub_sub_io;
pub mod pub_sub_laws;
pub mod pub_sub_ops;
pub mod pub_sub_spans;
pub mod publisher;
pub mod readiness;
pub mod refs;
pub mod replay_determinism;
pub mod replay_laws;
pub mod room;
pub mod sample_determinism;
pub mod schedule;
pub mod schedule_laws;
pub mod scheduling;
pub mod signature;
pub mod simulation;
pub mod simulation_executor;
pub mod simulation_iox2;
pub mod single_pool;
pub mod step_laws;
pub mod string_interner;
pub mod subscriber;
pub mod task_builder;
pub mod task_graph_builder;
pub mod task_laws;
pub mod task_test;
pub mod test_tasks;
pub mod testing_time;
pub mod text;
pub mod time;
pub mod unit_test_builder;
pub mod unit_test_executor;
pub mod unit_test_iox2;
