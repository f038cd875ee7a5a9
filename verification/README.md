# tcfs

The core of the TummyCrypt filesystem (tcfs), written in Verus: every
public function under `src/` carries a `requires`/`ensures` contract that Verus
proves.

What the library holds:

- `cliscan`, `cli`: the `tcfs` command line, parsed into `Cli` / `Commands`.
- `stub`, `paths`, `text`: `.tc` stub files, remote index entries, path names.
- `hash`, `chunks`, `seekable`: BLAKE3 content hashes, FastCDC chunking with
  per-path chunk sizes, seekable multi-frame zstd.
- `keys`, `chunk_crypto`, `names`, `manifest`, `recovery`, `age_keys`,
  `master_key`, `rotation`: key derivation and wrapping, chunk and file-name
  encryption, encrypted manifests, BIP-39 recovery, age device keys, master
  key rotation.
- `negative_cache`, `cache`, `fuse_dir`, `nfs`: the mount side (negative
  dentry cache, disk-cache eviction, directory listings, NFS attributes).
- `config`, `storage_bounds`, `device_ctx`, `provider`, `enumerate`,
  `upload`, `fetch`, `cloudfilter`: configuration, the FileProvider's
  storage settings, encryption plan, listings, upload layout, fetch and
  hydration.
- `cli_util`, `types`, `mcp`: formats and small decisions of the client.

Calls into outside crates (blake3, fastcdc, zstd, chacha20poly1305, hkdf,
aes-siv, argon2, bip39, base64, rand, age) go through small trusted
wrappers whose contracts name what the crate computes; the laws of the
library (round trips, cache behaviour, listing properties) are proof
functions next to the code they speak of.

`app/` is the `tcfs` program around the library: argument and environment
reading, the TOML configuration file, and the commands that run on the local
machine alone. `tests/` runs the library on concrete values.
