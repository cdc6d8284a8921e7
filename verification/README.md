# ldapeditor

A keyboard-driven terminal editor for OpenLDAP entries: browse the DIT, edit attribute
values, add and remove objectClasses (with the schema's MUST/MAY rules), search with LDAP
filters and create child entries.

The editor's logic is a library verified with Verus:

- `src/schema/` parses the subschema (`attributeTypes`, `objectClasses`), walks SUP chains
  and builds the attribute and objectClass pickers;
- `src/tree.rs`, `src/model.rs` hold the DIT tree, its flattened rows and the text input;
- `src/detail.rs` lays out the entry pane (rows, selection, scrolling, value wrapping, badges);
- `src/actions.rs` computes what is sent to the directory (modifications, new entries) and
  the attributes an objectClass deletion leaves without a class;
- `src/state.rs`, `src/app.rs` are the editor's state machine: each key press and each
  directory reply is one step, which may ask for one directory request;
- `src/ldap.rs` orders listed children and search hits and turns fetched entries into the
  editor's view of them;
- `src/display.rs` holds the layout decisions of the screen;
- `src/locale.rs` picks the interface language (`ja` or `en`) from the locale name.

`app/` is the program around it: command line, directory connection (ldap3), terminal input
(crossterm) and drawing (ratatui). `tests/` exercises the library.

The user interface is English only: the language is detected from the locale (`$LC_ALL` /
`$LANG`), but only the English texts are bundled, so a Japanese locale shows them too.
