# tehda

A launcher/menu program for wlroots-based Wayland compositors.

- `src/` is the verified core (Verus): where the configuration and cache
  folders lie, which configuration file and style sheet are used, how the
  list of modes and the `PATH` variable are read, and which entries a query
  shows.
- `app/` is the program around it: command line, GTK window, reading files
  and the environment, the system's application search, and running programs.
- `tests/` exercises the core on concrete values.
