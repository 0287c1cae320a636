# dc

`dc` manages collections of development-environment Dockerfiles: templates
live under `~/.dc/templates/local` (or `$DC_HOME/templates/local`), one
directory per template, and `dc` lists them, shows their details, launches
them with Docker, and deletes them.

- `src/` is the verified library (Verus): the directory layout (`config`),
  the discovery and ordering of templates in a snapshot of the file system
  (`templates`) and the laws of that listing (`listing`), the decisions and output of the `local` commands (`local`),
  the image, container, `docker` arguments and steps of a launch (`launch`), the
  steps, report and banner of `dc init` (`init`), the errors (`error`) and the string
  and path helpers they share (`text`).
- `app/` is the command-line program: argument parsing, the environment,
  the file system, prompts and `docker` itself.
- `tests/` runs the library on concrete cases.
