//! Small verified libraries: permission handles, a traffic-light state
//! machine, colour conversions, bit flags, builders, word counting,
//! prime filtering, countdown futures and a simulated Python bridge.

pub mod text;
pub mod pipeline;
pub mod word_counter;
pub mod color_space;
pub mod bitflags;
pub mod permission_system;
pub mod traffic_light;
pub mod builder_macro;
pub mod idioms;
pub mod python_sim;
pub mod countdown_future;
pub mod test_suite;
pub mod ffi_sim;
pub mod runtime;
pub mod macro_plans;
pub mod async_patterns;
pub mod concurrency;
pub mod constants;
