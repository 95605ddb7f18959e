# Kerek

Kerek comes with commands around Docker Compose projects: provisioning a host with
a container engine, transferring images between Docker hosts, tunnelling to a
remote Docker host over SSH, reading and writing Compose files, and deploying
images on the current machine with Podman and systemd.

Kerek's zero-downtime `deploy` command for Docker Compose (with its configuration
hash and start-first updates) is not part of this crate.

## Layout

- `src/` is the library, verified with Verus. Every function states in its
  contract what it computes:
  - `library/compose/`: Compose files — variable interpolation (`interpolate`,
    `interpolated`), the project name, environment files, the schema, reading a
    project with defaults applied and fields the schema does not know collected
    (`parse`), and writing it out again (`print`).
  - `library/configuration.rs`: the settings of a project, defaults applied.
  - `library/docker_host.rs`: the Docker host that a URL names.
  - `library/command.rs`: command lines and what exit codes mean.
  - `subcommand/deploy/deploy_locally.rs`: the plan of container changes that
    deploys images with Podman and systemd, and the commands of each change.
  - `ssh.rs`, `tunnel_ssh.rs`, `transfer_images.rs`, `provision.rs`,
    `run_with_ssh_config.rs`: the commands of the command line's subcommands.
  - `text.rs`, `path.rs`, `string_map.rs`: strings, paths and an ordered map.
- `app/` is the command line: argument parsing, files, processes and the
  `serde` formats around the library.
- `tests/` runs the library on concrete values.
