# lazydeck

A terminal command palette whose pages come from Lua plugins. This crate holds the
verified core; `app/` holds the program around it (terminal, Lua runtime, files).

Modules of the library (`src/`):

- `keys`, `keymap`, `priority`, `bindings`, `input_keys`: key notation, path patterns and
  their specificity, and how typed keys resolve to bindings (entry, then page, then global).
- `page`, `path_cache`, `state`, `dialogs`, `edit`, `input_view`: pages with filtering and
  selection, navigation history, tabs, previews, notifications, and the input, select and
  confirm dialogs.
- `cli`, `paths`, `command`, `path_codec`: the command line, the application directories,
  internal commands and `cd` targets.
- `cache`, `secrets`, `time`, `style`, `hash`, `codec`, `http`, `socket`, `limited_read`,
  `utf8_check`, `text_map`, `text`, `width`: what plugins call: the cache and secret stores,
  times, column alignment, digests and encodings, the local HTTP server's requests and
  responses, socket framing, and reading text files up to a character limit.
- `preview_layout`, `preview_cache`, `half_block`, `screen_layout`: laying out previews and
  images, and where notifications and dialogs go on the screen.
- `highlight`, `highlight_engine`: syntax highlighting of code for previews, and the parts
  of syntect it rests on.
- `key_dispatch`, `confirm_keys`, `select_keys`, `header`, `system`, `http_client`,
  `clipboard`, `resolver`, `plugin_log`, `html`: what a key does in each dialog, the header
  line, editing files and running programs, outgoing HTTP requests, the clipboard, URL
  resolvers, the plugin log, and picking elements out of HTML.
