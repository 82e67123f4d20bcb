# smb

SMB/CIFS mounts for a storage domain, with the decisions verified by Verus.

- `src/` is the library: option and credential grammar, secret files, tool
  commands, share listings, and recovery of dead mounts. It touches nothing of
  the system; it takes what was observed and says what to do.
- `app/` is the plugin around it: it runs the tools, reads the mount table,
  probes mounts, resolves secrets and serves the backend.
- `tests/` runs the library on concrete values.

| Module | What it holds |
| --- | --- |
| `options` | reading, validating and rendering mount option strings |
| `option_laws` | what reading and rendering guarantee together |
| `secrets` | the credentials file of an inline credential |
| `mounting` | how to mount and unmount; URL encoding |
| `shares` | how to list shares; reading the listing |
| `recovery` | live mounts, releasing one dead mount, the recovery pass |
| `backend` | the backend that puts them together |
| `error`, `tool`, `storage` | errors, tool commands and the domain's records |
| `text`, `seqs` | strings as sequences of characters; filtered sequences |
