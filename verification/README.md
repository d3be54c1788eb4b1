# depot_tools

The core of the `fetch` and `gclient` checkout tools, written in Verus.

- `src/` is the verified library:
  - `text`: trimming, searching, splitting and joining strings, with models over `Seq<char>`;
  - `string_map`: a string-to-string map with distinct keys, modelled as a `Map`;
  - `fetch_util`, `fetch_configs::chromium`: checkout descriptions and the chromium config;
  - `fetch`: property arguments, config resolution, the options of `fetch` and the
    commands that create a checkout;
  - `gclient_path`, `gclient_utils`: locating the gclient root, path by path component;
  - `gclient_eval`: the parser of local configuration files (`.gclient`, `.gclient_entries`);
  - `gclient`: the options of `gclient`.
- `app/` is the command-line program: argument parsing, file system, environment,
  processes and JSON output around the library.
- `tests/` runs the library on concrete inputs.
