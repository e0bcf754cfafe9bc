//! Track changes on websites: the verified core of the website stalker.
pub mod changes;
pub mod config;
pub mod dom;
pub mod editor;
pub mod filename;
pub mod git;
pub mod http;
pub mod markup;
pub mod order;
pub mod run;
pub mod site;
pub mod site_store;
pub mod sorting;
pub mod text;
pub mod tree;
pub mod weburl;
