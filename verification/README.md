# stream_log_client

The logic of the stream log's browser client, verified with Verus.

- `src/` is the library. Every function in it carries a contract that Verus
  proves, apart from a few small wrappers around std and chrono calls whose
  contracts are stated in their doc comments. It covers:
  - the values users type: durations (`duration`), colors (`color`), the
    fields of the entry editor (`entry_fields`), date-time fields
    (`time_field`), names and titles in forms (`name_checks`), entry type
    names (`name_completion`), the registration form (`registration`);
  - the bookkeeping of server subscriptions (`subscription_type`,
    `subscription_counts`, `subscription_manager`);
  - the event log itself: entry order (`event_log`), parents
    (`entry_parents`), numbering (`entry_numbering`), tabs and row filters
    (`tab_assignment`), records kept by id (`records`), the updates the
    server sends for an event (`event_state`), and saving from the entry
    editor (`entry_editor`);
  - the handling of each message from the server (`client_state`), and of
    the data kept outside events: the user, the events open to them and the
    administration lists (`shared_data`);
  - typing notifications (`typing`, `typing_summary`);
  - errors shown to the user (`error_data`, `server_errors`).
  Public proof functions named `law_*` state properties that hold across
  calls.
- `tests/` runs the library on concrete values.
- `app/` is the thin glue around it: the page title, text selection, the
  websocket sink and message stream, the clock, chrono's and rgb's types,
  and the color contrast choice, which works on floating point.
