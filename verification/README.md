# gapura

SSH access for a cluster, decided by an on-chain registry: a smart contract lists the
active SSH public keys of each wallet, and every host asks for them through OpenSSH's
`AuthorizedKeysCommand`.

- `src/` is the verified library (Verus): which key lines `sshd` may be handed, how a
  Unix user maps to a wallet, when a disk snapshot may stand in for the chain, what
  `doctor` reports, how the admin tool reads its private key file, quotes remote shell
  words and checks the hosts of a cluster.
- `app/` holds the two programs around it — `gapura-sentinel` and the `gapura` admin
  command line — which read files, the environment and the chain, run `ssh`, and print.
- `tests/` runs the library on concrete cases.
