//! Bounded recurrence window evaluation: resolve caller-supplied boundary
//! date strings into instants, intersect a recurrence rule's occurrence
//! sequence with the padded window, cap the result, and project each
//! retained occurrence to a calendar-date string. The RFC 5545 recurrence
//! grammar itself is delegated to the `rrule` engine behind a small trusted
//! boundary; the window logic around it is verified.

mod boundary;
mod dates;
mod engine;
mod errors;
mod project;
mod rule_text;
mod window;

pub use boundary::anchored;
pub use boundary::boundary_outcome;
pub use boundary::parse_outcome;
pub use boundary::resolve_boundary;
pub use boundary::BOUNDARY_MAX;
pub use boundary::BOUNDARY_MIN;
pub use dates::date_shaped;
pub use dates::day_of_instant;
pub use dates::floor_day;
pub use dates::is_date_shaped;
pub use dates::lemma_lex_lt_irreflexive;
pub use dates::lex_lt;
pub use dates::DAY_MAX;
pub use dates::DAY_MIN;
pub use engine::chronological;
pub use engine::engine_dates;
pub use engine::ordered_extension;
pub use engine::rule_parses;
pub use engine::OCCURRENCE_MAX;
pub use engine::OCCURRENCE_MIN;
pub use errors::error_message;
pub use errors::ErrorModel;
pub use errors::RangeError;
pub use project::date_repr;
pub use project::project_all;
pub use project::project_date;
pub use project::projected_date;
pub use rule_text::is_zone_fixed;
pub use rule_text::zone_fixed;
pub use window::dates_view;
pub use window::evaluate;
pub use window::kept_occurrences;
pub use window::lemma_range_result_deterministic;
pub use window::ok_dates;
pub use window::range_result;
pub use window::rrule_range;
pub use window::strictly_ascending_dates;
pub use window::window_dates;
pub use window::OCCURRENCE_CAP;
pub use window::PAD_SECONDS;
