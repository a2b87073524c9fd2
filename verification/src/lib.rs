//! Expense-tracking bot core: message grammar, markdown text, categories and storages.

pub mod text;
pub mod lines;
pub mod markdown_string;
pub mod category;
pub mod username;
pub mod numbers;
pub mod expense_period;
pub mod filename;
pub mod words;
pub mod callback_data;
pub mod regex_ops;
pub mod ordering;
pub mod report;
pub mod suggestions;
pub mod expense_line;
pub mod command;
pub mod message;
pub mod filters;
pub mod callbacks;
pub mod menus;
pub mod user_lists;
pub mod category_store;
pub mod dates;
pub mod datastore;
pub mod batch;
pub mod periods;
pub mod config;
pub mod expense_store;
pub mod word_selection;
