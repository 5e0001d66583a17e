//! Chat-completion protocol logic: holding back and recovering tool calls in
//! streamed text, folding stream deltas into complete responses, tool-choice
//! schemas, request normalisation, Anthropic message conversion, and the
//! health bookkeeping of the serving endpoints.

pub mod aggregate_final;
pub mod aggregate_laws;
pub mod aggregate_text;
pub mod aggregate_whole;
pub mod aggregator;
pub mod anthropic;
pub mod anthropic_json;
pub mod anthropic_json_laws;
pub mod anthropic_laws;
pub mod anthropic_response;
pub mod anthropic_types;
pub mod capture_metrics;
pub mod chat_request;
pub mod chat_types;
pub mod copy;
pub mod finish_laws;
pub mod finish_reason;
pub mod freeform;
pub mod freeform_laws;
pub mod health_check;
pub mod health_laws;
pub mod ids;
pub mod jail_apply;
pub mod jail_builder;
pub mod jail_builder_laws;
pub mod jail_call_laws;
pub mod jail_delivery;
pub mod jail_forced;
pub mod jail_laws;
pub mod jail_ledger;
pub mod jail_parse;
pub mod jail_state;
pub mod jail_stream;
pub mod jail_text;
pub mod jail_types;
pub mod json;
pub mod json_order;
pub mod json_text;
pub mod message_laws;
pub mod name_map;
pub mod parser_facts;
pub mod poolside;
pub mod poolside_args;
pub mod poolside_calls;
pub mod poolside_given;
pub mod poolside_laws;
pub mod poolside_stream;
pub mod reasoning;
pub mod reasoning_laws;
pub mod request_laws;
pub mod request_types;
pub mod system_health;
pub mod text;
pub mod text_laws;
pub mod token_laws;
pub mod tool_choice_laws;
pub mod tool_laws;
pub mod tools;
pub mod traffic;
pub mod validate;
