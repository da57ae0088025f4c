//! The rules of the trading loop.

pub mod activate;
pub mod audit;
pub mod backoff;
pub mod balance;
pub mod burst;
pub mod burst_look;
pub mod candidates;
pub mod control;
pub mod exec_worker;
pub mod funding;
pub mod intervention;
pub mod limits;
pub mod live;
pub mod manual;
pub mod monitor;
pub mod naked;
pub mod order;
pub mod outcome;
pub mod pair_look;
pub mod pair_step;
pub mod positions;
pub mod probe;
pub mod reconcile;
pub mod reduce_only;
pub mod risk;
pub mod runtime;
pub mod scan;
pub mod scan_loop;
pub mod scan_state;
pub mod sizing;
pub mod snapshot;
pub mod stability;
pub mod verdict;
pub mod window_spread;
