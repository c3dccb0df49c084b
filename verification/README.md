# nya

A minimal APT-like package manager ("Not Yet APT"). Its `update` command reads
a DEB822 sources list, downloads each repository's `InRelease` file from the
first mirror that answers, checks its OpenPGP signature, finds the package
index for the machine's architecture in the SHA256 section, and downloads that
index unless a copy with the listed hash is already present.

- `src/` is the library, verified with Verus: the sources-list grammar, the
  release-file search, the signature decision, URL flattening and the
  mirror-by-mirror decisions of `update`, each with its contract, and the
  properties that span them as proof functions.
- `app/` is the command-line program around it: argument handling, the
  environment, files, HTTP downloads, hashing files and the concurrent
  pipeline.
- `tests/` runs the library on concrete inputs.
