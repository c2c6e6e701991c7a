# self_update

Finds the releases of a program that are published as objects of an S3 bucket (or of a
Google Cloud Storage bucket or a DigitalOcean Space), and chooses among them.

An object whose key has the form `directory/name-version-rest` belongs to the release
`name` in version `version`; a `v` may stand before the version. The objects of one name
and version make up one release, whose assets they are.

- `src/` is the library. All of it is verified with Verus, except for the items that call
  `regex`, `semver` and `std::path`, which say what they rely on.
  - `text` searches, splits and trims text.
  - `version` compares semantic versions.
  - `pattern` reads the name and the version from a key.
  - `release`, `catalog` build the list of releases.
  - `endpoint`, `credentials` say how a service is reached.
  - `listing` goes through a bucket page by page, without input and output of its own.
  - `selection` chooses the latest release, the newer ones, those for a target.
  - `release_list`, `update` are the builders and what they build.
- `app/` sends the requests with the AWS SDK and reads what depends on the machine.
- `tests/` runs the library.
