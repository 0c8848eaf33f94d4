//! The operating limits, fixed when the process starts, and their read-only
//! projection.

use vstd::prelude::*;

verus! {

/// Everything a component needs to know about the instance: the two token
/// tiers and the limits on pastes and reports. Built once and only read.
pub struct AppState {
    pub access_token: String,
    pub admin_tokens: Vec<String>,
    /// Upper bound on title plus content, in bytes.
    pub paste_max_size: u64,
    /// How far in the future an expiry may lie, in seconds.
    pub paste_max_expiry: u64,
    pub paste_expiry_required: bool,
    pub reports_enabled: bool,
    /// Least byte length of a trimmed report reason.
    pub reports_min_length: usize,
}

#[derive(Clone, Copy, Debug, PartialEq, Eq, Structural)]
pub struct PasteConfiguration {
    pub max_size_bytes: u64,
    pub max_expiry: u64,
    pub expiry_required: bool,
}

#[derive(Clone, Copy, Debug, PartialEq, Eq, Structural)]
pub struct ReportConfiguration {
    pub enabled: bool,
    pub min_length: usize,
}

#[derive(Clone, Copy, Debug, PartialEq, Eq, Structural)]
pub struct GetConfigurationResponse {
    pub paste: PasteConfiguration,
    pub report: ReportConfiguration,
}

/// The limits as published to clients: a copy of the corresponding fields
/// of the state, tokens left out.
pub open spec fn published(state: &AppState) -> GetConfigurationResponse {
    GetConfigurationResponse {
        paste: PasteConfiguration {
            max_size_bytes: state.paste_max_size,
            max_expiry: state.paste_max_expiry,
            expiry_required: state.paste_expiry_required,
        },
        report: ReportConfiguration {
            enabled: state.reports_enabled,
            min_length: state.reports_min_length,
        },
    }
}

pub fn get_config_handler(state: &AppState) -> (response: GetConfigurationResponse)
    ensures
        response == published(state),
{
    GetConfigurationResponse {
        paste: PasteConfiguration {
            max_size_bytes: state.paste_max_size,
            max_expiry: state.paste_max_expiry,
            expiry_required: state.paste_expiry_required,
        },
        report: ReportConfiguration {
            enabled: state.reports_enabled,
            min_length: state.reports_min_length,
        },
    }
}

} // verus!
