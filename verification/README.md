# lumia_viewer

The core of the Lumia image viewer, written in Verus. The functions in
`src/` carry contracts that Verus proves, except the small wrappers marked
`#[verifier::external_body]` that make the calls into `std` and the outside
crates (hashing, Base64, Ed25519, ZIP reading, semantic versions, URL and
path handling, string conversions), and the streaming SHA-256 state
`digest::StreamingSha256`, a struct whose inside Verus does not see:
Verus believes their contracts, and each one's doc comment says what it
claims of the code it calls.

## Layout

- `src/` — the library.
  - Plugin packages: `plugin_package` (paths, limits, errors),
    `package_checks` (compatibility, declarations, signatures),
    `package_archive` (the signed ZIP archive and its payload), `versions`,
    `digest` (hashes, encodings and signatures from the `sha2`, `hex`,
    `base64` and `ring` crates).
  - Plugins: `plugin_registry`, `plugin_catalog`, `plugin_management`,
    `plugin_session`, `community` (the community index and downloads).
  - Images: `formats`, `decode_route`, `load_state`, `preview_cache`,
    `large_image`, `professional_preview`, `editing`, `colors`.
  - Desktop integration: `association_formats`, `registration` (Windows
    registry plans), `windows_paths`, `file_association_state`,
    `persistence`, `platform_open`, `cli`.
  - `text`: character-sequence helpers, paths and ordering.
- `tests/` — tests run against the compiled library.
- `app/` — the `lumia` command line and the work around the library that
  touches the system: package files, plugin installation on disk, the
  cached community index, association preferences, and Linux desktop
  registration.
