# magisk (module management core)

The logic of Magisk's module system, verified with Verus:

- `src/text.rs` — Unicode whitespace, trimming, character helpers.
- `src/config.rs` — the `key=value` module configuration files: parsing,
  writing, the store behind `get_config`/`set_config`/`delete_config`, and the
  laws that a written configuration reads back.
- `src/paths.rs` — fixed directories, path joining, final path component.
- `src/metamodule.rs` — recognising metamodules, choosing the active one,
  install checks, planning metamodule script launches.
- `src/modules.rs` — boot-time plans over the module root: staged upgrades,
  disabling, removal, and the modules to load.
- `src/sepolicy.rs` — randomised SELinux names and security contexts.

`app/` holds the file-system side: it scans directories, reads and writes
files, runs scripts, and hands plain values to the library.
