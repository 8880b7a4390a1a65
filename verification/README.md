# rootftp

An FTP service for a private network. Every user signs in with a name and a
password (the first sign-in of a name registers it), is rooted in a directory
of their own, can pass files to other users through `outbox/share.<user>/`,
and can drop files into a plugin's `input/` directory to have the plugin
process them.

## Layout

- `src/` is the library, proved with Verus:
  - `text`, `path`: strings and Unix paths (components, joining, file names
    and extensions) with their specifications;
  - `auth`: sign-in and registration, the directories of a user, and the
    services that are set up once per user or once overall;
  - `layout`: where things live under the root directory;
  - `watch`, `outbox`, `plugins`: what the directory watchers do on each event;
  - `library`: the index of the plugin library and the text of `plugins.json`;
  - `config`, `server`: the configuration, the pid file and the listen address;
  - `cli`, `cpp_plugin`, `plugin_trait`: the commands, the demonstration
    plugin, and what a plugin library provides.
- `app/` is the program around it: the command line, the FTP server, file
  system and network access, inotify loops and plugin loading.
- `tests/` runs the library on concrete values.
