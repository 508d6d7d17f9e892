//! The logic of the session resume flow of a terminal coding assistant:
//! picking a remote session to teleport into (`resume_task`), the wrapper
//! around that picker (`teleport_resume_wrapper`), the `--resume` chooser of
//! local conversations (`resume_conversation`) and the report of a manual MCP
//! server reconnect (`mcp_reconnect`), with their shared text handling
//! (`text`, `relative_time`, `sort_order`). Every function states its result
//! in its contract and is verified by Verus.

pub mod mcp_reconnect;
pub mod relative_time;
pub mod resume_conversation;
pub mod resume_task;
pub mod sort_order;
pub mod teleport_resume_wrapper;
pub mod text;
