use crate::library::command::{CommandLine, CommandView};
use crate::ssh::{ssh_arguments, Cli};
use crate::text::{concatenate, debug_path_text, debug_quote, debug_quote_path, debug_text, remove_prefix, trim_end, trimmed_end, without_prefix};
use vstd::prelude::*;

verus! {

/// What a tunnel to a remote Docker host takes.
pub struct In {
    pub container_engine: String,
    pub dry_run: bool,
    pub local_socket: String,
    pub remote_socket: Option<String>,
    pub ssh_cli: Cli,
    pub ssh_host: String,
}

/// The command, run on the SSH host, that prints where the socket of its container engine
/// is: asked of Docker or Podman by name, else the value of `DOCKER_HOST`.
pub open spec fn remote_socket_query(container_engine: Seq<char>) -> Seq<Seq<char>> {
    if container_engine == "docker"@ {
        seq!["docker"@, "context"@, "inspect"@, "--format"@, "{{.Endpoints.docker.Host}}"@]
    } else if container_engine == "podman"@ {
        seq!["podman"@, "info"@, "--format"@, "{{.Host.RemoteSocket.Path}}"@]
    } else {
        seq!["echo"@, "${DOCKER_HOST}"@]
    }
}

/// Docker and Podman are asked for their socket themselves, Docker for the host of its
/// current context and Podman for its remote socket; only another engine falls back to
/// printing `DOCKER_HOST`.
pub proof fn lemma_remote_socket_query(container_engine: Seq<char>)
    ensures
        container_engine == "docker"@ ==> remote_socket_query(container_engine) == seq![
            "docker"@,
            "context"@,
            "inspect"@,
            "--format"@,
            "{{.Endpoints.docker.Host}}"@,
        ],
        container_engine == "podman"@ ==> remote_socket_query(container_engine) == seq![
            "podman"@,
            "info"@,
            "--format"@,
            "{{.Host.RemoteSocket.Path}}"@,
        ],
        (container_engine == "docker"@ || container_engine == "podman"@) ==> remote_socket_query(
            container_engine,
        )[0] == container_engine,
        remote_socket_query(container_engine).len() > 0 && remote_socket_query(container_engine)[0]
            == "echo"@ ==> container_engine != "docker"@ && container_engine != "podman"@,
        container_engine != "docker"@ && container_engine != "podman"@ ==> remote_socket_query(
            container_engine,
        ) == seq!["echo"@, "${DOCKER_HOST}"@],
{
    reveal_strlit("docker");
    reveal_strlit("podman");
    reveal_strlit("echo");
    assert("docker"@.len() != "echo"@.len());
    assert("podman"@.len() != "echo"@.len());
    assert("podman"@[0] != "docker"@[0]);
}

/// The SSH command that asks the host `ssh_host` where the socket of its container engine
/// is.
pub fn infer_remote_socket_command(container_engine: &String, ssh_cli: &Cli, ssh_host: &String) -> (command: CommandLine)
    ensures
        command@ == (CommandView {
            program: "ssh"@,
            arguments: ssh_arguments(ssh_cli.spec_arguments()) + seq![ssh_host@]
                + remote_socket_query(container_engine@),
            current_folder: None,
        }),
{
    let command = ssh_cli.command();
    let mut arguments = command.arguments;
    let ghost base = arguments.deep_view();
    arguments.push(ssh_host.clone());
    let query: Vec<String> = if *container_engine == "docker".to_owned() {
        crate::subcommand::deploy::deploy_locally::strings(
            &["docker", "context", "inspect", "--format", "{{.Endpoints.docker.Host}}"],
        )
    } else if *container_engine == "podman".to_owned() {
        crate::subcommand::deploy::deploy_locally::strings(
            &["podman", "info", "--format", "{{.Host.RemoteSocket.Path}}"],
        )
    } else {
        crate::subcommand::deploy::deploy_locally::strings(&["echo", "${DOCKER_HOST}"])
    };
    assert(query.deep_view() == remote_socket_query(container_engine@));
    let mut i: usize = 0;
    let ghost with_host = arguments.deep_view();
    assert(with_host == base.push(ssh_host@));
    while i < query.len()
        invariant
            i <= query.len(),
            arguments.deep_view() == with_host + query.deep_view().take(i as int),
        decreases query.len() - i,
    {
        let ghost before = arguments.deep_view();
        arguments.push(query[i].clone());
        assert(arguments.deep_view() == before.push(query[i as int]@));
        assert(query.deep_view().take(i + 1) == query.deep_view().take(i as int).push(
            query[i as int]@,
        ));
        i = i + 1;
    }
    assert(query.deep_view().take(query.len() as int) == query.deep_view());
    assert(base == ssh_arguments(ssh_cli.spec_arguments()));
    assert(arguments.deep_view() == ssh_arguments(ssh_cli.spec_arguments()) + seq![ssh_host@]
        + remote_socket_query(container_engine@));
    CommandLine::new("ssh", arguments)
}

/// The socket path that the output of the query names: trailing whitespace and a
/// `unix://` prefix removed.
pub open spec fn socket_from_output(output: Seq<char>) -> Seq<char> {
    without_prefix(trimmed_end(output), "unix://"@)
}

/// The socket path that the output `output` of the query names.
pub fn infer_remote_socket(output: &str) -> (socket: String)
    ensures
        socket@ == socket_from_output(output@),
{
    let trimmed = trim_end(output);
    remove_prefix(trimmed.as_str(), "unix://")
}

/// The SSH command that forwards the local socket `local_socket` (an absolute path) to
/// `remote_socket` on `ssh_host`, in the background, replacing a stale socket file.
pub open spec fn tunnel_arguments(
    cli: crate::ssh::Arguments,
    local_socket: Seq<char>,
    remote_socket: Seq<char>,
    ssh_host: Seq<char>,
) -> Seq<Seq<char>> {
    ssh_arguments(cli) + seq![
        "-f"@,
        "-N"@,
        "-o"@,
        "LocalForward "@ + debug_path_text(local_socket) + " "@ + debug_text(remote_socket),
        "-o"@,
        "StreamLocalBindUnlink=yes"@,
        ssh_host,
    ]
}

/// What to do with the tunnel command: show it (dry run) or become it.
pub struct Tunnel {
    pub command: CommandLine,
    pub dry_run: bool,
}

/// The socket on the remote host: the one given, else none (to be inferred with
/// `infer_remote_socket_command`).
pub fn given_remote_socket(in_: &In) -> (socket: Option<String>)
    ensures
        socket == in_.remote_socket,
{
    match &in_.remote_socket {
        Some(s) => Some(s.clone()),
        None => None,
    }
}

/// The tunnel of `in_`, given its local socket made absolute and its remote socket,
/// given or inferred.
pub fn go(in_: &In, local_socket: &String, remote_socket: &String) -> (tunnel: Tunnel)
    ensures
        tunnel.dry_run == in_.dry_run,
        tunnel.command@ == (CommandView {
            program: "ssh"@,
            arguments: tunnel_arguments(
                in_.ssh_cli.spec_arguments(),
                local_socket@,
                remote_socket@,
                in_.ssh_host@,
            ),
            current_folder: None,
        }),
{
    let command = in_.ssh_cli.command();
    let mut arguments = command.arguments;
    let ghost base = arguments.deep_view();
    let forward = concatenate(
        concatenate(
            concatenate("LocalForward ", debug_quote_path(local_socket.as_str()).as_str()).as_str(),
            " ",
        ).as_str(),
        debug_quote(remote_socket.as_str()).as_str(),
    );
    arguments.push("-f".to_owned());
    arguments.push("-N".to_owned());
    arguments.push("-o".to_owned());
    arguments.push(forward);
    arguments.push("-o".to_owned());
    arguments.push("StreamLocalBindUnlink=yes".to_owned());
    arguments.push(in_.ssh_host.clone());
    assert(arguments.deep_view() == base + seq![
        "-f"@,
        "-N"@,
        "-o"@,
        "LocalForward "@ + debug_path_text(local_socket@) + " "@ + debug_text(remote_socket@),
        "-o"@,
        "StreamLocalBindUnlink=yes"@,
        in_.ssh_host@,
    ]);
    Tunnel { command: CommandLine::new("ssh", arguments), dry_run: in_.dry_run }
}

} // verus!
