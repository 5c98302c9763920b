//! The solvable-orders cache of an order book: the filters, the balance
//! allocator, the native-price collector and the snapshot assembler that
//! together produce the auction handed to solvers, with their contracts.

pub mod allocation;
pub mod arguments;
pub mod assoc;
pub mod auction;
pub mod balances;
pub mod cache;
pub mod filters;
pub mod metrics;
pub mod model;
pub mod num;
pub mod prices;
pub mod refresh;
pub mod solver;
