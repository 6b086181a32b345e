//! Workflow Clipboard Commander: the logic behind a family of clipboard tools.

#![verifier::loop_isolation(false)]

pub mod args_laws;
pub mod braces;
pub mod braces_laws;
pub mod bytes;
pub mod choice_laws;
pub mod common;
pub mod config;
pub mod count_laws;
pub mod diff;
pub mod edges;
pub mod json;
pub mod models;
pub mod ordered;
pub mod ordered_laws;
pub mod packing;
pub mod path;
pub mod path_laws;
pub mod pattern;
pub mod ranges;
pub mod ranges_laws;
pub mod report_laws;
pub mod sieve;
pub mod syntax;
pub mod text;
pub mod text_laws;
pub mod told;
pub mod tool_laws;
pub mod unicode;
pub mod uri;
pub mod wcc;
pub mod wcc_laws;
pub mod wce;
pub mod wce_laws;
pub mod wcf;
pub mod wcf_block_laws;
pub mod wcf_flow;
pub mod wcf_functions;
pub mod wcf_heads;
pub mod wcf_laws;
pub mod wcf_replace;
pub mod wcf_replace_laws;
pub mod wcf_session;
pub mod wcg;
pub mod wcg_calls;
pub mod wcg_laws;
pub mod wcg_report;
pub mod wcg_scan;
pub mod wcgv;
pub mod wcgv_edges;
pub mod wcgv_impls;
pub mod wcgv_laws;
pub mod wcgv_links;
pub mod wcgv_lsp;
pub mod wcgv_syn;
pub mod wcgv_syn_laws;
pub mod wcgv_walk_laws;
pub mod wcl;
pub mod wcl_copy;
pub mod wcl_copy_laws;
pub mod wcl_laws;
pub mod wcl_report;
pub mod wcm;
pub mod wcn;
pub mod wcn_laws;
pub mod wcp;
pub mod wcp_laws;
pub mod wcs;
pub mod wcs_laws;
pub mod wcu;
pub mod wcu_laws;
pub mod wcz;
pub mod wcz_laws;
pub mod wff;
pub mod wff_laws;
pub mod wff_name_laws;

pub use config::{
    get_config_path, show_config, update_cargo_mode, UnifiedConfig, WccConfig, WcfConfig, WclConfig,
    WcnConfig, WcpConfig,
};
