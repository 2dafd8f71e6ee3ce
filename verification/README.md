# stayhydated

Site, routing, documentation and release tooling for the stayhydated family of
crates, with its logic written in Verus and proved against its contracts.

- `src/` is the verified library: path and route handling (`routing`, `site`),
  the sitemap document (`sitemap`), the dependency-ordered release plan
  (`graph`, `release`), the web build layout (`web_build`, `paths`), the
  `llms.txt` documents (`llms`), the project switcher (`projects`) and the
  layout class names (`layout`).
- `tests/` exercises the library on concrete values.
- `app/` holds what touches the file system, processes and the UI framework:
  the `xtask` commands, the book and web builds, the cargo publish loop and the
  page components. It hands plain values to the library and acts on its answers.
