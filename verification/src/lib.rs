pub mod anthropic;
pub mod anthropic_laws;
pub mod duration;
pub mod gemini;
pub mod gemini_laws;
pub mod json;
pub mod json_laws;
pub mod mcp;
pub mod memory;
pub mod message;
pub mod openai;
pub mod openai_laws;
pub mod order;
pub mod plugins;
pub mod plugins_laws;
pub mod provider;
pub mod provider_core;
pub mod provider_core_laws;
pub mod readings;
pub mod spelling_laws;
pub mod table;
pub mod text;
pub mod text_laws;
pub mod told;
pub mod tool;
