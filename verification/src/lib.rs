pub mod access_laws;
pub mod actions;
pub mod activity;
pub mod attention;
pub mod attention_laws;
pub mod awareness;
pub mod awareness_histories;
pub mod awareness_laws;
pub mod caller;
pub mod client_module;
pub mod conversation_laws;
pub mod decision_laws;
pub mod decisions;
pub mod events;
pub mod extension_laws;
pub mod gate;
pub mod host_laws;
pub mod http;
pub mod json;
pub mod labels;
pub mod launch;
pub mod layout_laws;
pub mod lists;
pub mod mcp;
pub mod narration;
pub mod paths;
pub mod presence_laws;
pub mod protocol_pkg;
pub mod provider_laws;
pub mod providers;
pub mod replica;
pub mod routes;
pub mod runtime;
pub mod semantic_targets;
pub mod services;
pub mod setting_laws;
pub mod settings;
pub mod startup;
pub mod startup_laws;
pub mod target_laws;
pub mod text;
pub mod text_laws;
pub mod textmap;
pub mod tool_laws;
pub mod turn_laws;
pub mod turns;
