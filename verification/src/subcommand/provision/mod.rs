use crate::library::command::{CommandLine, CommandView, Launch};
use crate::library::docker_host::Host;
use crate::text::concatenate;
use vstd::prelude::*;

verus! {

/// What provisioning a Docker host with Ansible takes.
pub struct In {
    pub deploy_user: String,
    pub docker_host: Option<String>,
    pub upgrade_packages: bool,
}

/// The decimal digits of `n`.
pub open spec fn decimal(n: nat) -> Seq<char>
    decreases n,
{
    if n < 10 {
        seq![digit(n)]
    } else {
        decimal(n / 10).push(digit(n % 10))
    }
}

/// The digit for `d`.
pub open spec fn digit(d: nat) -> char {
    if d == 0 { '0' } else if d == 1 { '1' } else if d == 2 { '2' } else if d == 3 { '3' } else if d == 4 { '4' }
    else if d == 5 { '5' } else if d == 6 { '6' } else if d == 7 { '7' } else if d == 8 { '8' } else { '9' }
}

fn digit_exec(d: u16) -> (c: char)
    requires
        d < 10,
    ensures
        c == digit(d as nat),
{
    if d == 0 { '0' } else if d == 1 { '1' } else if d == 2 { '2' } else if d == 3 { '3' } else if d == 4 { '4' }
    else if d == 5 { '5' } else if d == 6 { '6' } else if d == 7 { '7' } else if d == 8 { '8' } else { '9' }
}

/// The decimal digits of `n`.
pub fn to_decimal(n: u16) -> (text: String)
    ensures
        text@ == decimal(n as nat),
    decreases n,
{
    if n < 10 {
        let mut chars: Vec<char> = Vec::new();
        chars.push(digit_exec(n));
        assert(chars@ == seq![digit(n as nat)]);
        crate::text::string_of(&chars)
    } else {
        let head = to_decimal(n / 10);
        let mut chars = crate::text::chars_of(head.as_str());
        chars.push(digit_exec(n % 10));
        crate::text::string_of(&chars)
    }
}

/// The Docker host is not reached over SSH, so Ansible cannot provision it.
pub struct NotSsh {
    pub url: String,
}

/// The Ansible command that provisions the SSH host of `docker_host` with the playbook
/// file `playbook` and the variables `extra_variables` (JSON): its inventory is the host
/// alone, its user that of the URL, and its port, where given, set in
/// `ANSIBLE_REMOTE_PORT`.
pub fn playbook_command(docker_host: &Host, extra_variables: String, playbook: String) -> (launch: Result<Launch, NotSsh>)
    ensures
        match docker_host.ssh {
            None => (launch matches Err(e) && e.url@ == docker_host.url@),
            Some(ssh) => (launch matches Ok(l) && l.command@ == CommandView {
                program: "ansible-playbook"@,
                arguments: seq!["--extra-vars"@, extra_variables@, "--inventory"@, ","@ + ssh.hostname@]
                    + match ssh.user {
                    Some(u) => seq!["--user"@, u@],
                    None => Seq::empty(),
                } + seq!["--"@, playbook@],
                current_folder: None,
            } && l.environment@.map_values(|e: (String, String)| (e.0@, e.1@)) == match ssh.port {
                Some(p) => seq![("ANSIBLE_REMOTE_PORT"@, decimal(p as nat))],
                None => Seq::empty(),
            }),
        },
{
    match &docker_host.ssh {
        None => Err(NotSsh { url: docker_host.url.clone() }),
        Some(ssh) => {
            let mut arguments: Vec<String> = Vec::new();
            arguments.push("--extra-vars".to_owned());
            arguments.push(extra_variables);
            arguments.push("--inventory".to_owned());
            arguments.push(concatenate(",", ssh.hostname.as_str()));
            let ghost a = arguments.deep_view();
            assert(a == seq!["--extra-vars"@, extra_variables@, "--inventory"@, ","@ + ssh.hostname@]);
            if let Some(user) = &ssh.user {
                arguments.push("--user".to_owned());
                arguments.push(user.clone());
            }
            let ghost b = arguments.deep_view();
            arguments.push("--".to_owned());
            arguments.push(playbook);
            assert(arguments.deep_view() == b + seq!["--"@, playbook@]);
            assert(b == a + match ssh.user {
                Some(u) => seq!["--user"@, u@],
                None => Seq::<Seq<char>>::empty(),
            });
            let mut environment: Vec<(String, String)> = Vec::new();
            if let Some(port) = ssh.port {
                environment.push(("ANSIBLE_REMOTE_PORT".to_owned(), to_decimal(port)));
            }
            assert(environment@.map_values(|e: (String, String)| (e.0@, e.1@)) == match ssh.port {
                Some(p) => seq![("ANSIBLE_REMOTE_PORT"@, decimal(p as nat))],
                None => Seq::<(Seq<char>, Seq<char>)>::empty(),
            });
            let launch = Launch { command: CommandLine::new("ansible-playbook", arguments), environment };
            assert(launch.command@ == CommandView {
                program: "ansible-playbook"@,
                arguments: seq!["--extra-vars"@, extra_variables@, "--inventory"@, ","@ + ssh.hostname@]
                    + match ssh.user {
                    Some(u) => seq!["--user"@, u@],
                    None => Seq::empty(),
                } + seq!["--"@, playbook@],
                current_folder: None,
            });
            Ok(launch)
        },
    }
}

} // verus!
