# lore

Rules of the Lore client and server, written in Verus and proved against their contracts.

- `endpoint`: the auth URLs of OpenID Connect issuers.
- `oidc`: login, polling, refresh and exchange against OpenID Connect providers.
- `repository_authorizer`: who may access a repository.
- `seed`: the walk that seeds the local store from files on disk; `tree` says what it makes of a whole
  directory tree.
- `address`: web addresses, read by the `url` crate.
- `text`, `error`: operations on text, and the errors of the protocol.

`app/` performs the requests, reads the disk and connects the rules to the rest of the workspace.
