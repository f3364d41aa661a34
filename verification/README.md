# repo_tracker

Collects the `.gitlab-ci.yml`, `package.json`, `pom.xml` and `Dockerfile`
files of a list of GitLab repositories, extracts their searchable structure,
and writes JSON for a static search site.

- `src/` — the library, verified with Verus:
  - `config` — `config.yml` structure, the `repos.csv` line format, URL and
    path helpers;
  - `gitlab` — request URLs, decoding of file responses, classification of
    file names, and the depth-limited walk over repository trees (the caller
    performs the requests);
  - `parser` — the `.gitlab-ci.yml`, `package.json` and `pom.xml` parsers,
    working on document models (`yaml`, `json`, `xml`) that the serde and
    quick-xml crates fill;
  - `model` — the written artifacts and parsed forms;
  - `collect` — assembling one repository's records, bundles and file paths;
  - `text` — character-level helpers.
- `app/` — the fetcher program: file and network I/O, serde copies of the
  library types, and the loop over repositories.
- `tests/` — tests of the library.
