//! A verified core for a small desktop front end of `shimejictl`, the control
//! tool of the wl_shimeji desktop mascots: which command line each request
//! runs, how the tool's output is read back, and what the user is shown.
//!
//! - `text`: decimal notation, white space and trimming, lines, `u32` reading.
//! - `listing`: reading `shimejictl prototypes list` and `shimejictl list`,
//!   with the laws that listings read back and that reading is stable.
//! - `ctl`: the requests, their arguments, the outcome of a run and the errors.
//! - `feedback`: the status lines, log lines and follow-ups the window shows.

mod ctl;
mod feedback;
mod listing;
mod text;

pub use ctl::{
    dismiss_all, dismiss_mascot, error_message, law_dismiss_names_the_id,
    law_summon_passes_name_unchanged, list_active, list_prototypes, lossy_utf8, program,
    request_args, spawn_mascot, CtlError, CtlRequest, Run,
};
pub use feedback::{
    active_status, active_status_text, command_echo, command_line, dismiss_all_reaction,
    dismiss_reaction, failure_log, id_label, law_active_status_counts,
    law_dismiss_echo_reads_back, law_echo_is_the_command, law_prototypes_status_counts,
    law_summon_echo_names_the_prototype, log_text, prototypes_log, prototypes_status,
    prototypes_status_text, spawn_reaction, FollowUp, Reaction,
};
pub use listing::{
    active_line, active_mascots, is_clean_name, law_active_line_reads_back,
    law_active_listing_reads_back, law_active_listing_with_final_feed_reads_back,
    law_active_names_are_clean, law_active_reading_is_stable,
    law_prototype_listing_reads_back, law_prototype_listing_with_final_feed_reads_back,
    law_prototype_names_are_clean,
    law_prototype_reading_is_stable, listing_line, mascots_in, names_in, parse_active,
    parse_active_line, parse_prototypes, prototype_names, strip_hashes, ActiveMascot,
};
pub use text::{
    all_digits, count_before, decimal, decimal_chars, digit_char, digits_value, is_digit,
    is_white, is_white_space, join, joined, law_decimal_reads_back, parse_u32, split_lines, trim,
    trim_end, trim_start,
};
