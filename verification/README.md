# ledgerbot

A Telegram bot that records expenses from chat messages and reports them by
category. The library in `src/` holds the bot's logic, verified with Verus:

- reading messages: expense lines (`[YYYY-MM-DD] description amount`), bot
  commands and their arguments (`command`, `message`, `expense_line`);
- categories and their regular-expression filters, and the categories file
  (`category_store`, `filters`, `report`, `suggestions`);
- the report, the chronological listing and conflict checks (`report`,
  `dates`);
- inline menus, callback data and its packing (`menus`, `callbacks`,
  `callback_data`);
- storages: key-value stores, expenses by period, batches, share and follower
  lists, period files (`datastore`, `expense_store`, `batch`, `user_lists`,
  `periods`, `filename`);
- MarkdownV2 text: escaping and validation (`markdown_string`).

Calls into `regex` and `chrono` go through small trusted wrappers whose
contracts name what those crates compute. Whether a filter compiles is taken
as the `regex` crate's outcome: the functions that compile filters say what
holds for every outcome, and the functions that take the compiled filters (or
the compile error) say exactly what they return.

`app/` is the Telegram program around the library (teloxide, tokio, files on
disk). `tests/` exercises the library on concrete values.
