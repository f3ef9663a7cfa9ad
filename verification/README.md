# vagrant-top

A terminal monitor for Vagrant environments on libvirt: it reads Vagrant's
machine index, polls `virsh domstats`, aggregates the VMs of each
Vagrantfile and shows them in a sortable table or as bar charts.

## Layout

- `src/` is the library, written in Verus. Every function in it carries a
  contract that Verus proves:
  - `domstats` parses `virsh domstats` output;
  - `vagrant` turns machine-index entries into VMs and derives domain names;
  - `tracker` keeps the state between polls (CPU readings, last states,
    state changes) and turns one poll into aggregated environments;
  - `model` holds the environment model, aggregation and duration texts;
  - `config`, `sorting` and `app_state` hold the columns, the sort order
    and the screen state with its reaction to keys and data;
  - `display` computes every text, width, colour level and bar value that
    is drawn; `probe` decides which libvirt URI to use;
  - `text`, `paths` and `name_map` are the character, path and map helpers
    underneath.
- `app/` is the program around it: the terminal, the clocks, the files,
  the `virsh` processes, the JSON of the machine index and the drawing
  with ratatui.
- `tests/` runs the library on concrete values.

Run it with `vagrant-top`; `--no-footer` hides the key-binding line.
